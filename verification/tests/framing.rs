use bincode::de::read::Reader;
use bincode::de::Decoder;
use bincode::enc::write::Writer;
use bincode::enc::Encoder;
use bincode::error::{DecodeError, EncodeError};
use bincode::{Decode, Encode};
use std::collections::VecDeque;
use the_bridge::codec::{Codec, Decoded, FrameDecodeError, NeedBytes};
use the_bridge::decode::{FramedRead, FramedReadError, Pull};
use the_bridge::encode::{FramedWrite, FramedWriteError};

#[derive(Debug, Clone, PartialEq)]
enum TestMessage {
    A(u8),
    B(i32),
    C(i64, i64),
    D(u128, u128, u128),
    E(String),
    F(Vec<TestMessage>),
    G(Box<TestMessage>),
    H,
    I(i32, i32, i32, i32, i32, i32, i32, i32, i32, i32, i32, i32, i32, i32, i32, i32, i32),
    Z(u8, i32, i64, u128, String, Vec<TestMessage>, Box<TestMessage>),
}

impl Encode for TestMessage {
    fn encode<E: Encoder>(&self, encoder: &mut E) -> Result<(), EncodeError> {
        match self {
            TestMessage::A(a) => {
                0u32.encode(encoder)?;
                a.encode(encoder)
            }
            TestMessage::B(a) => {
                1u32.encode(encoder)?;
                a.encode(encoder)
            }
            TestMessage::C(a, b) => {
                2u32.encode(encoder)?;
                a.encode(encoder)?;
                b.encode(encoder)
            }
            TestMessage::D(a, b, c) => {
                3u32.encode(encoder)?;
                a.encode(encoder)?;
                b.encode(encoder)?;
                c.encode(encoder)
            }
            TestMessage::E(a) => {
                4u32.encode(encoder)?;
                a.encode(encoder)
            }
            TestMessage::F(a) => {
                5u32.encode(encoder)?;
                a.encode(encoder)
            }
            TestMessage::G(a) => {
                6u32.encode(encoder)?;
                a.encode(encoder)
            }
            TestMessage::H => 7u32.encode(encoder),
            TestMessage::I(a, b, c, d, e, f, g, h, i, j, k, l, m, n, o, p, q) => {
                8u32.encode(encoder)?;
                for field in [a, b, c, d, e, f, g, h, i, j, k, l, m, n, o, p, q] {
                    field.encode(encoder)?;
                }
                Ok(())
            }
            TestMessage::Z(a, b, c, d, e, f, g) => {
                9u32.encode(encoder)?;
                a.encode(encoder)?;
                b.encode(encoder)?;
                c.encode(encoder)?;
                d.encode(encoder)?;
                e.encode(encoder)?;
                f.encode(encoder)?;
                g.encode(encoder)
            }
        }
    }
}

impl Decode for TestMessage {
    fn decode<D: Decoder>(decoder: &mut D) -> Result<Self, DecodeError> {
        let variant = u32::decode(decoder)?;
        match variant {
            0 => Ok(TestMessage::A(u8::decode(decoder)?)),
            1 => Ok(TestMessage::B(i32::decode(decoder)?)),
            2 => Ok(TestMessage::C(i64::decode(decoder)?, i64::decode(decoder)?)),
            3 => Ok(TestMessage::D(
                u128::decode(decoder)?,
                u128::decode(decoder)?,
                u128::decode(decoder)?,
            )),
            4 => Ok(TestMessage::E(String::decode(decoder)?)),
            5 => Ok(TestMessage::F(Vec::<TestMessage>::decode(decoder)?)),
            6 => Ok(TestMessage::G(Box::<TestMessage>::decode(decoder)?)),
            7 => Ok(TestMessage::H),
            8 => {
                let mut v = [0i32; 17];
                for slot in v.iter_mut() {
                    *slot = i32::decode(decoder)?;
                }
                Ok(TestMessage::I(
                    v[0], v[1], v[2], v[3], v[4], v[5], v[6], v[7], v[8], v[9], v[10], v[11],
                    v[12], v[13], v[14], v[15], v[16],
                ))
            }
            9 => Ok(TestMessage::Z(
                u8::decode(decoder)?,
                i32::decode(decoder)?,
                i64::decode(decoder)?,
                u128::decode(decoder)?,
                String::decode(decoder)?,
                Vec::<TestMessage>::decode(decoder)?,
                Box::<TestMessage>::decode(decoder)?,
            )),
            _ => Err(DecodeError::Other("no such variant of TestMessage")),
        }
    }
}

/// A message of one tag byte and a four-byte integer: five payload bytes.
#[derive(Debug, Clone, PartialEq)]
struct Ping(u32);

impl Encode for Ping {
    fn encode<E: Encoder>(&self, encoder: &mut E) -> Result<(), EncodeError> {
        encoder.writer().write(&[1])?;
        encoder.writer().write(&self.0.to_be_bytes())
    }
}

impl Decode for Ping {
    fn decode<D: Decoder>(decoder: &mut D) -> Result<Self, DecodeError> {
        let mut tag = [0u8; 1];
        decoder.reader().read(&mut tag)?;
        if tag[0] != 1 {
            return Err(DecodeError::Other("no such tag of Ping"));
        }
        let mut value = [0u8; 4];
        decoder.reader().read(&mut value)?;
        Ok(Ping(u32::from_be_bytes(value)))
    }
}

fn z_test_message() -> TestMessage {
    TestMessage::Z(
        1,
        2,
        3,
        4,
        String::from("Hello"),
        vec![
            TestMessage::A(100),
            TestMessage::B(100),
            TestMessage::C(100, 100),
            TestMessage::D(100, 100, 100),
        ],
        Box::new(TestMessage::A(100)),
    )
}

fn test_messages() -> Vec<TestMessage> {
    vec![
        TestMessage::A(100),
        TestMessage::B(100),
        TestMessage::C(100, 100),
        TestMessage::D(100, 100, 100),
        TestMessage::E(String::from("Hello")),
        TestMessage::F(vec![
            TestMessage::A(100),
            TestMessage::B(100),
            TestMessage::C(100, 100),
            TestMessage::D(100, 100, 100),
        ]),
        TestMessage::G(Box::new(TestMessage::A(100))),
        TestMessage::H,
        TestMessage::I(1, 2, 3, 4, 5, 6, 7, 8, 9, 10, 11, 12, 13, 14, 15, 16, 17),
        z_test_message(),
    ]
}

/// A byte source in memory: it delivers its portions one read at a time, as
/// much of the next one as fits, and then ends, or fails if told to.
struct Portions {
    portions: VecDeque<Vec<u8>>,
    fail_at_end: bool,
    reads: usize,
}

impl Portions {
    fn new(portions: Vec<Vec<u8>>) -> Self {
        Portions { portions: portions.into(), fail_at_end: false, reads: 0 }
    }

    fn failing(portions: Vec<Vec<u8>>) -> Self {
        Portions { portions: portions.into(), fail_at_end: true, reads: 0 }
    }

    fn one_byte_at_a_time(bytes: &[u8]) -> Self {
        Portions::new(bytes.iter().map(|b| vec![*b]).collect())
    }

    fn read(&mut self, buf: &mut [u8]) -> Result<usize, &'static str> {
        self.reads += 1;
        let Some(mut portion) = self.portions.pop_front() else {
            return if self.fail_at_end { Err("broken pipe") } else { Ok(0) };
        };
        let n = portion.len().min(buf.len());
        buf[..n].copy_from_slice(&portion[..n]);
        if n < portion.len() {
            self.portions.push_front(portion.split_off(n));
        }
        Ok(n)
    }
}

type ReadError = FramedReadError<&'static str>;

fn read_frame<M: Decode>(reader: &mut FramedRead<'_, Portions, M>) -> Result<M, ReadError> {
    loop {
        if let Some(message) = reader.read_frame()? {
            return Ok(message);
        }
        let (source, free) = reader.parts();
        let outcome = source.read(free);
        reader.fill_buf(outcome)?;
    }
}

fn next_item<M: Decode>(
    reader: &mut FramedRead<'_, Portions, M>,
) -> Option<Result<M, ReadError>> {
    loop {
        match reader.pull_next() {
            Pull::Done => return None,
            Pull::Item(item) => return Some(item),
            Pull::Fill => {
                let (source, free) = reader.parts();
                let outcome = source.read(free);
                if let Err(error) = reader.fill_buf(outcome) {
                    return Some(Err(error));
                }
            }
        }
    }
}

fn write_frame<M: Encode>(
    writer: &mut FramedWrite<'_, Vec<u8>, M>,
    message: &M,
) -> Result<(), FramedWriteError<()>> {
    let (sink, frame) = writer.write_frame(message)?;
    sink.extend_from_slice(frame);
    writer.sent(Ok(()))
}

fn encoded_packet_of_z_test_message() -> Vec<u8> {
    let mut buf = [0u8; 1024];
    let mut writer = FramedWrite::new(Vec::new(), &mut buf);
    write_frame(&mut writer, &z_test_message()).expect("Failed to write packet");
    writer.into_inner()
}

fn encoded_packets_of_test_messages() -> Vec<u8> {
    let mut buf = [0u8; 1024];
    let mut writer = FramedWrite::new(Vec::new(), &mut buf);
    for message in test_messages() {
        write_frame(&mut writer, &message).expect("Failed to write packet");
    }
    writer.into_inner()
}

fn read_with_crate_stream(source: Portions) -> Vec<TestMessage> {
    let mut buf = [0u8; 50];
    let mut reader: FramedRead<'_, _, TestMessage> = FramedRead::new(source, &mut buf);
    let mut items = Vec::new();
    while let Some(item) = next_item(&mut reader) {
        items.push(item);
    }
    items.into_iter().flatten().collect()
}

fn read_with_crate_loop(source: Portions) -> Vec<TestMessage> {
    let mut buf = [0u8; 50];
    let mut reader: FramedRead<'_, _, TestMessage> = FramedRead::new(source, &mut buf);
    let mut messages = Vec::new();
    loop {
        match read_frame(&mut reader) {
            Ok(message) => messages.push(message),
            Err(_) => break,
        }
    }
    messages
}

fn write_with_crate_loop(messages: Vec<TestMessage>) -> Vec<u8> {
    let mut buf = [0u8; 100];
    let mut writer = FramedWrite::new(Vec::new(), &mut buf);
    for message in messages {
        write_frame(&mut writer, &message).expect("Failed to write packet");
    }
    writer.into_inner()
}

fn write_with_crate_sink(messages: Vec<TestMessage>) -> Vec<u8> {
    let mut buf = [0u8; 100];
    let mut writer: FramedWrite<'_, _, TestMessage> = FramedWrite::new(Vec::new(), &mut buf);
    for message in messages.clone() {
        write_frame(&mut writer, &message).expect("Failed to send message");
    }
    writer.into_inner()
}

/// What a duplex pipe of `size` bytes hands over: the bytes in portions of at
/// most that size.
fn duplex(bytes: Vec<u8>, size: usize) -> Portions {
    Portions::new(bytes.chunks(size).map(|c| c.to_vec()).collect())
}

#[test]
fn send_slow_bytes_to_crate_stream() {
    let packet = encoded_packet_of_z_test_message();
    let messages_read = read_with_crate_stream(Portions::one_byte_at_a_time(&packet));
    assert_eq!(messages_read[0], z_test_message());
}

#[test]
fn send_batch_to_crate_stream() {
    let packets = encoded_packets_of_test_messages();
    let messages_read = read_with_crate_stream(Portions::new(vec![packets]));
    assert_eq!(messages_read, test_messages());
}

#[test]
fn send_slow_bytes_to_crate_loop() {
    let packet = encoded_packet_of_z_test_message();
    let messages_read = read_with_crate_loop(Portions::one_byte_at_a_time(&packet));
    assert_eq!(messages_read[0], z_test_message());
}

#[test]
fn send_batch_to_create_loop() {
    let packets = encoded_packets_of_test_messages();
    let messages_read = read_with_crate_loop(Portions::new(vec![packets]));
    assert_eq!(messages_read, test_messages());
}

#[test]
fn crate_loop_crate_stream() {
    let messages = test_messages();
    let written = write_with_crate_loop(messages.clone());
    let messages_read = read_with_crate_stream(duplex(written, 1024));
    assert_eq!(messages, messages_read);
}

#[test]
fn crate_loop_crate_loop() {
    let messages = test_messages();
    let written = write_with_crate_loop(messages.clone());
    let messages_read = read_with_crate_loop(duplex(written, 1024));
    assert_eq!(messages, messages_read);
}

#[test]
fn crate_sink_crate_stream() {
    let messages = test_messages();
    let written = write_with_crate_sink(messages.clone());
    let messages_read = read_with_crate_stream(duplex(written, 1024));
    assert_eq!(messages, messages_read);
}

#[test]
fn crate_sink_crate_loop() {
    let messages = test_messages();
    let written = write_with_crate_sink(messages.clone());
    let messages_read = read_with_crate_loop(duplex(written, 1024));
    assert_eq!(messages, messages_read);
}

#[test]
fn sink_stream_through_a_pipe_of_sixteen_bytes() {
    let items = test_messages();
    let mut buf = [0u8; 128];
    let mut writer = FramedWrite::new(Vec::new(), &mut buf);
    for item in items.clone() {
        write_frame(&mut writer, &item).unwrap();
    }
    let written = writer.into_inner();
    let mut read_buf = [0u8; 128];
    let mut reader: FramedRead<'_, _, TestMessage> =
        FramedRead::new(duplex(written, 16), &mut read_buf);
    let mut collected = Vec::new();
    while let Some(item) = next_item(&mut reader) {
        collected.push(item);
    }
    let collected: Vec<TestMessage> = collected.into_iter().flatten().collect();
    assert_eq!(collected, items);
}

#[test]
fn do_stuff() {
    let good = vec![
        0, 0, 0, 18, 2, 200, 200, 200, 200, 200, 200, 200, 200, 200, 200, 200, 200, 200, 200,
        200, 200, 200,
    ];
    let other = vec![
        0, 0, 0, 18, 2, 200, 12, 12, 200, 12, 200, 200, 200, 200, 200, 200, 200, 200, 200, 200,
        200, 200,
    ];
    let source =
        Portions::failing(vec![good.clone(), good.clone(), good.clone(), good.clone(), other]);
    let mut read_buf = [0u8; 23];
    let mut reader: FramedRead<'_, _, TestMessage> = FramedRead::new(source, &mut read_buf);
    let mut seen = Vec::new();
    while let Some(item) = next_item(&mut reader) {
        println!("{item:?}");
        seen.push(item);
    }
    assert_eq!(seen.len(), 2);
    assert!(matches!(seen[0], Ok(TestMessage::C(100, 100))));
    assert!(matches!(seen[1], Err(FramedReadError::BufferIsFull)));
    assert_eq!(reader.cursor(), 23);
}

#[test]
fn the_encoded_packet_of_the_z_message_is_exact() {
    let packet = encoded_packet_of_z_test_message();
    let len = packet.len();
    assert_eq!(&packet[..4], &(len as u32).to_be_bytes());
    assert_eq!(&packet[4..9], &[9, 1, 4, 6, 4]);
    assert_eq!(&packet[9..15], &[5, b'H', b'e', b'l', b'l', b'o']);
    assert!(len <= 50);
}

#[test]
fn a_frame_of_nine_bytes_needs_a_buffer_of_nine() {
    let mut write_buf = [0u8; 16];
    let mut writer = FramedWrite::new(Vec::new(), &mut write_buf);
    write_frame(&mut writer, &Ping(7)).unwrap();
    let frame = writer.into_inner();
    assert_eq!(frame, vec![0, 0, 0, 9, 1, 0, 0, 0, 7]);
    let portions = || vec![frame[..1].to_vec(), frame[1..2].to_vec(), frame[2..].to_vec()];

    let mut eight = [0u8; 8];
    let mut reader: FramedRead<'_, _, Ping> = FramedRead::new(Portions::new(portions()), &mut eight);
    assert!(matches!(read_frame(&mut reader), Err(FramedReadError::BufferIsFull)));

    let mut nine = [0u8; 9];
    let mut reader: FramedRead<'_, _, Ping> = FramedRead::new(Portions::new(portions()), &mut nine);
    assert_eq!(read_frame(&mut reader).unwrap(), Ping(7));
    assert_eq!(reader.as_ref().reads, 3);

    let mut ten = [0u8; 10];
    let mut reader: FramedRead<'_, _, Ping> = FramedRead::new(Portions::new(portions()), &mut ten);
    assert_eq!(read_frame(&mut reader).unwrap(), Ping(7));
}

#[test]
fn any_cut_of_a_frame_gives_the_same_message() {
    let frame = vec![0, 0, 0, 9, 1, 0, 0, 0, 7];
    for first in 1..frame.len() {
        for second in first..frame.len() {
            let portions: Vec<Vec<u8>> =
                vec![frame[..first].to_vec(), frame[first..second].to_vec(), frame[second..].to_vec()]
                    .into_iter()
                    .filter(|p| !p.is_empty())
                    .collect();
            let mut buf = [0u8; 9];
            let mut reader: FramedRead<'_, _, Ping> =
                FramedRead::new(Portions::new(portions), &mut buf);
            assert_eq!(read_frame(&mut reader).unwrap(), Ping(7));
            assert!(matches!(read_frame(&mut reader), Err(FramedReadError::ReadZero)));
        }
    }
}

#[test]
fn a_declared_length_beyond_the_buffer_is_buffer_is_full() {
    let mut stream = vec![0, 0, 0, 200];
    stream.extend(std::iter::repeat(7u8).take(196));
    let mut buf = [0u8; 50];
    let mut reader: FramedRead<'_, _, TestMessage> =
        FramedRead::new(duplex(stream, 16), &mut buf);
    assert!(matches!(read_frame(&mut reader), Err(FramedReadError::BufferIsFull)));
    assert_eq!(reader.cursor(), 50);
    assert!(reader.is_done());
    assert!(reader.as_ref().reads <= 5);
}

#[test]
fn a_source_that_ends_in_the_header_is_read_zero() {
    let mut buf = [0u8; 16];
    let mut reader: FramedRead<'_, _, Ping> =
        FramedRead::new(Portions::new(vec![vec![0, 0]]), &mut buf);
    assert!(matches!(read_frame(&mut reader), Err(FramedReadError::ReadZero)));
    assert_eq!(reader.cursor(), 2);
}

#[test]
fn a_source_that_ends_in_the_body_is_read_zero() {
    let mut buf = [0u8; 16];
    let mut reader: FramedRead<'_, _, Ping> =
        FramedRead::new(Portions::new(vec![vec![0, 0, 0, 9, 1, 0]]), &mut buf);
    assert!(matches!(read_frame(&mut reader), Err(FramedReadError::ReadZero)));
    assert_eq!(reader.cursor(), 6);
}

#[test]
fn a_source_that_ends_at_once_is_read_zero() {
    let mut buf = [0u8; 16];
    let mut reader: FramedRead<'_, _, Ping> = FramedRead::new(Portions::new(vec![]), &mut buf);
    assert!(matches!(read_frame(&mut reader), Err(FramedReadError::ReadZero)));
}

#[test]
fn a_reader_without_a_buffer_is_full_at_once() {
    let mut buf = [0u8; 0];
    let mut reader: FramedRead<'_, _, Ping> =
        FramedRead::new(Portions::new(vec![vec![0, 0, 0, 9]]), &mut buf);
    assert!(matches!(read_frame(&mut reader), Err(FramedReadError::BufferIsFull)));
}

#[test]
fn a_header_below_four_is_invalid_frame_size() {
    let mut buf = [0u8; 16];
    let mut reader: FramedRead<'_, _, Ping> =
        FramedRead::new(Portions::new(vec![vec![0, 0, 0, 3, 1, 0, 0, 0, 7]]), &mut buf);
    assert!(matches!(read_frame(&mut reader), Err(FramedReadError::InvalidFrameSize)));
    assert!(reader.is_done());
    assert_eq!(reader.cursor(), 9);
}

#[test]
fn a_payload_that_the_serializer_refuses_is_a_decode_error() {
    let mut buf = [0u8; 16];
    let mut reader: FramedRead<'_, _, Ping> =
        FramedRead::new(Portions::new(vec![vec![0, 0, 0, 9, 2, 0, 0, 0, 7]]), &mut buf);
    assert!(matches!(
        read_frame(&mut reader),
        Err(FramedReadError::Decode(DecodeError::Other("no such tag of Ping")))
    ));
    assert!(reader.is_done());
    assert_eq!(reader.cursor(), 9);
}

#[test]
fn a_source_error_is_passed_on() {
    let mut buf = [0u8; 16];
    let mut reader: FramedRead<'_, _, Ping> =
        FramedRead::new(Portions::failing(vec![vec![0, 0, 0, 9]]), &mut buf);
    assert!(matches!(read_frame(&mut reader), Err(FramedReadError::Io("broken pipe"))));
    assert!(reader.is_done());
}

#[test]
fn the_sequence_ends_after_its_first_error() {
    let stream = vec![0, 0, 0, 9, 1, 0, 0, 0, 7, 0, 0, 0, 2, 0, 0, 0, 9, 1, 0, 0, 0, 8];
    let mut buf = [0u8; 32];
    let mut reader: FramedRead<'_, _, Ping> =
        FramedRead::new(Portions::new(vec![stream]), &mut buf);
    assert!(matches!(next_item(&mut reader), Some(Ok(Ping(7)))));
    assert!(matches!(next_item(&mut reader), Some(Err(FramedReadError::InvalidFrameSize))));
    assert!(next_item(&mut reader).is_none());
    assert!(next_item(&mut reader).is_none());
    assert!(matches!(reader.pull_next::<&'static str>(), Pull::Done));
    assert_eq!(reader.cursor(), 13);
}

#[test]
fn the_sequence_ends_after_the_source_closes() {
    let mut buf = [0u8; 32];
    let mut reader: FramedRead<'_, _, Ping> =
        FramedRead::new(Portions::new(vec![vec![0, 0, 0, 9, 1, 0, 0, 0, 7]]), &mut buf);
    assert!(matches!(next_item(&mut reader), Some(Ok(Ping(7)))));
    assert!(matches!(next_item(&mut reader), Some(Err(FramedReadError::ReadZero))));
    assert!(next_item(&mut reader).is_none());
    let reads = reader.as_ref().reads;
    assert!(next_item(&mut reader).is_none());
    assert_eq!(reader.as_ref().reads, reads);
}

#[test]
fn what_follows_a_frame_moves_to_the_front() {
    let stream = vec![0, 0, 0, 9, 1, 0, 0, 0, 7, 0, 0, 0, 9, 1, 0, 0];
    let mut buf = [0u8; 16];
    let mut reader: FramedRead<'_, _, Ping> =
        FramedRead::new(Portions::new(vec![stream, vec![1, 2]]), &mut buf);
    assert_eq!(reader.cursor(), 0);
    assert!(matches!(reader.read_frame::<&'static str>(), Ok(None)));
    {
        let (source, free) = reader.parts();
        assert_eq!(free.len(), 16);
        let outcome = source.read(free);
        assert!(matches!(outcome, Ok(16)));
        reader.fill_buf(outcome).unwrap();
    }
    assert_eq!(reader.cursor(), 16);
    assert!(matches!(reader.read_frame::<&'static str>(), Ok(Some(Ping(7)))));
    assert_eq!(reader.cursor(), 7);
    assert!(matches!(reader.read_frame::<&'static str>(), Ok(None)));
    {
        let (_, free) = reader.parts();
        assert_eq!(free.len(), 9);
    }
    assert_eq!(read_frame(&mut reader).unwrap(), Ping(258));
    assert_eq!(reader.cursor(), 0);
    assert!(!reader.is_done());
}

#[test]
fn fill_buf_tells_the_end_of_the_stream_by_the_room_left() {
    let mut buf = [0u8; 4];
    let mut reader: FramedRead<'_, _, Ping> = FramedRead::new(Portions::new(vec![]), &mut buf);
    assert!(matches!(reader.fill_buf::<()>(Ok(3)), Ok(())));
    assert_eq!(reader.cursor(), 3);
    assert!(!reader.is_done());
    assert!(matches!(reader.fill_buf::<()>(Ok(0)), Err(FramedReadError::ReadZero)));
    assert!(reader.is_done());
    assert_eq!(reader.cursor(), 3);
    assert!(matches!(reader.fill_buf::<()>(Ok(1)), Ok(())));
    assert_eq!(reader.cursor(), 4);
    assert!(matches!(reader.fill_buf::<()>(Ok(0)), Err(FramedReadError::BufferIsFull)));
    assert!(matches!(reader.fill_buf(Err(5u8)), Err(FramedReadError::Io(5))));
    assert_eq!(reader.cursor(), 4);
}

#[test]
fn the_reader_hands_its_source_out_and_back() {
    let mut buf = [0u8; 4];
    let mut reader: FramedRead<'_, u32, Ping> = FramedRead::new(41, &mut buf);
    assert_eq!(*reader.as_ref(), 41);
    *reader.as_mut() += 1;
    let (source, free) = reader.parts();
    assert_eq!(*source, 42);
    assert_eq!(free.len(), 4);
    *source += 1;
    assert_eq!(reader.into_inner(), 43);
}

#[test]
fn the_writer_hands_its_sink_out_and_back() {
    let mut buf = [0u8; 16];
    let mut writer: FramedWrite<'_, u32, Ping> = FramedWrite::new(41, &mut buf);
    assert_eq!(*writer.as_ref(), 41);
    *writer.as_mut() += 1;
    {
        let (sink, frame) = writer.write_frame::<()>(&Ping(0x0102_0304)).unwrap();
        assert_eq!(*sink, 42);
        assert_eq!(frame, &[0, 0, 0, 9, 1, 1, 2, 3, 4]);
        *sink += 1;
    }
    assert_eq!(writer.into_inner(), 43);
}

#[test]
fn write_frame_needs_room_for_the_header() {
    let mut buf = [0u8; 3];
    let mut writer: FramedWrite<'_, Vec<u8>, Ping> = FramedWrite::new(Vec::new(), &mut buf);
    assert!(matches!(write_frame(&mut writer, &Ping(7)), Err(FramedWriteError::BufferTooShort)));
    assert!(writer.into_inner().is_empty());
}

#[test]
fn write_frame_fails_when_the_payload_does_not_fit() {
    let mut buf = [0u8; 8];
    let mut writer: FramedWrite<'_, Vec<u8>, Ping> = FramedWrite::new(Vec::new(), &mut buf);
    assert!(matches!(
        write_frame(&mut writer, &Ping(7)),
        Err(FramedWriteError::Encode(EncodeError::UnexpectedEnd))
    ));
    assert!(writer.into_inner().is_empty());
}

#[test]
fn write_frame_fits_a_frame_exactly() {
    let mut buf = [0u8; 9];
    let mut writer: FramedWrite<'_, Vec<u8>, Ping> = FramedWrite::new(Vec::new(), &mut buf);
    write_frame(&mut writer, &Ping(7)).unwrap();
    write_frame(&mut writer, &Ping(8)).unwrap();
    assert_eq!(
        writer.into_inner(),
        vec![0, 0, 0, 9, 1, 0, 0, 0, 7, 0, 0, 0, 9, 1, 0, 0, 0, 8]
    );
}

#[test]
fn a_message_without_payload_is_a_frame_of_four_bytes() {
    #[derive(Debug, PartialEq)]
    struct Nothing;
    impl Encode for Nothing {
        fn encode<E: Encoder>(&self, _: &mut E) -> Result<(), EncodeError> {
            Ok(())
        }
    }
    impl Decode for Nothing {
        fn decode<D: Decoder>(_: &mut D) -> Result<Self, DecodeError> {
            Ok(Nothing)
        }
    }
    let mut buf = [0u8; 4];
    let mut writer: FramedWrite<'_, Vec<u8>, Nothing> = FramedWrite::new(Vec::new(), &mut buf);
    write_frame(&mut writer, &Nothing).unwrap();
    let frame = writer.into_inner();
    assert_eq!(frame, vec![0, 0, 0, 4]);
    let mut read_buf = [0u8; 4];
    let mut reader: FramedRead<'_, _, Nothing> =
        FramedRead::new(Portions::new(vec![frame]), &mut read_buf);
    assert_eq!(read_frame(&mut reader).unwrap(), Nothing);
}

#[test]
fn the_sink_error_is_passed_on() {
    let mut buf = [0u8; 16];
    let writer: FramedWrite<'_, Vec<u8>, Ping> = FramedWrite::new(Vec::new(), &mut buf);
    assert!(matches!(writer.sent(Err("closed")), Err(FramedWriteError::Io("closed"))));
    assert!(matches!(writer.sent::<()>(Ok(())), Ok(())));
}

#[test]
fn the_errors_say_what_they_are() {
    assert_eq!(FramedReadError::Io(1u8).message(), "IO error");
    assert_eq!(
        FramedReadError::<()>::Decode(DecodeError::UnexpectedEnd { additional: 1 }).message(),
        "Decode error"
    );
    assert_eq!(FramedReadError::<()>::ReadZero.message(), "Read zero bytes");
    assert_eq!(FramedReadError::<()>::BufferIsFull.message(), "Buffer is full");
    assert_eq!(FramedReadError::<()>::InvalidFrameSize.message(), "Invalid frame size");
    assert_eq!(FramedWriteError::Io(1u8).message(), "IO error");
    assert_eq!(
        FramedWriteError::<()>::Encode(EncodeError::UnexpectedEnd).message(),
        "Encode error"
    );
    assert_eq!(FramedWriteError::<()>::BufferTooShort.message(), "Buffer is too short");
    assert_eq!(FramedWriteError::<()>::MessageTooLarge.message(), "Message is too large");
}

/// A ring buffer of the caller's: it holds a window of the stream, fetches
/// `step` bytes when told that bytes are missing, or exactly the missing ones
/// when `exact` is set and their number is known.
fn decode_with_a_ring(stream: &[u8], step: usize, exact: bool) -> Vec<TestMessage> {
    let mut codec = Codec::<TestMessage>::new();
    let mut window: VecDeque<u8> = VecDeque::new();
    let mut fetched = 0;
    let mut messages = Vec::new();
    loop {
        window.make_contiguous();
        match codec.decode_into(window.as_slices().0) {
            Err(_) => break,
            Ok(Decoded::Frame(message, consumed)) => {
                messages.push(message);
                window.drain(..consumed);
            }
            Ok(Decoded::NeedBytes(need)) => {
                let want = match need {
                    NeedBytes::Known(len) if exact => len - window.len(),
                    _ => step,
                };
                let n = want.min(stream.len() - fetched);
                if n == 0 {
                    break;
                }
                window.extend(&stream[fetched..fetched + n]);
                fetched += n;
            }
        }
    }
    messages
}

#[test]
fn a_ring_buffer_and_the_reader_decode_the_same_messages() {
    let stream = encoded_packets_of_test_messages();
    let by_reader = read_with_crate_loop(duplex(stream.clone(), 7));
    assert_eq!(by_reader, test_messages());
    for step in [1, 3, 4, 50, 4096] {
        assert_eq!(decode_with_a_ring(&stream, step, false), by_reader);
        assert_eq!(decode_with_a_ring(&stream, step, true), by_reader);
    }
}

#[test]
fn a_ring_buffer_stops_at_a_header_below_four() {
    let mut stream = encoded_packet_of_z_test_message();
    stream.extend([0, 0, 0, 1, 9, 9]);
    assert_eq!(decode_with_a_ring(&stream, 5, false), vec![z_test_message()]);
    let mut codec = Codec::<TestMessage>::new();
    assert!(matches!(
        codec.decode_into(&[0, 0, 0, 1, 9, 9]),
        Err(FrameDecodeError::InvalidFrameSize)
    ));
}

#[test]
fn complete_frame_takes_the_frame_off_or_marks_the_reader() {
    let stream = vec![0, 0, 0, 9, 1, 0, 0, 0, 7, 0, 0, 0, 9, 1, 0, 0, 0, 8];
    let mut buf = [0u8; 20];
    let mut reader: FramedRead<'_, _, Ping> =
        FramedRead::new(Portions::new(vec![stream]), &mut buf);
    {
        let (source, free) = reader.parts();
        let outcome = source.read(free);
        reader.fill_buf(outcome).unwrap();
    }
    assert_eq!(reader.cursor(), 18);
    let refused = reader.complete_frame::<()>(9, Err(DecodeError::LimitExceeded));
    assert!(matches!(refused, Err(FramedReadError::Decode(DecodeError::LimitExceeded))));
    assert_eq!(reader.cursor(), 18);
    assert!(reader.is_done());
    let taken = reader.complete_frame::<()>(9, Ok(Ping(100)));
    assert!(matches!(taken, Ok(Ping(100))));
    assert_eq!(reader.cursor(), 9);
    assert!(matches!(reader.read_frame::<()>(), Ok(Some(Ping(8)))));
    assert_eq!(reader.cursor(), 0);
}

#[test]
fn the_reader_answers_an_absurd_length_with_a_decode_error() {
    let frame = vec![0u8, 0, 0, 14, 4, 253, 255, 255, 255, 255, 255, 255, 255, 255];
    let mut buf = [0u8; 32];
    let mut reader: FramedRead<'_, _, TestMessage> =
        FramedRead::new(Portions::new(vec![frame.clone()]), &mut buf);
    assert!(matches!(
        read_frame(&mut reader),
        Err(FramedReadError::Decode(DecodeError::LimitExceeded))
    ));
    assert!(reader.is_done());
    assert_eq!(reader.cursor(), 14);

    let mut buf = [0u8; 32];
    let mut reader: FramedRead<'_, _, TestMessage> =
        FramedRead::new(Portions::new(vec![frame]), &mut buf);
    assert!(matches!(
        next_item(&mut reader),
        Some(Err(FramedReadError::Decode(DecodeError::LimitExceeded)))
    ));
    assert!(next_item(&mut reader).is_none());
}
