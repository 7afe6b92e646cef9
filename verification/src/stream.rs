//! Byte streams as sequences of frames: what a stream holds, and what the two
//! ways of decoding make of it.
//!
//! Everything here is ghost code. The functions model the reader that owns its
//! buffer and the decode that works on a buffer of the caller's, step by step
//! as the executable code decides, and the lemmas say what holds of them
//! whatever the source does.

use crate::decode::error::FramedReadError;
use crate::decode::framed_read::end_of_stream;
use crate::wire::{
    declared_len, frame_of, header_of, lemma_declared_len_prefix, lemma_header_round_trip,
    payload_of, status, FrameStatus, MAX_FRAME_LEN,
};
use vstd::prelude::*;

verus! {

/// The payloads of the whole frames that `stream` starts with, in order. The
/// list ends where the stream holds no whole frame any more, be it that bytes
/// are missing or that a header is impossible.
pub open spec fn payloads(stream: Seq<u8>) -> Seq<Seq<u8>>
    decreases stream.len(),
{
    match status(stream) {
        FrameStatus::Complete(len) => seq![payload_of(stream)] + payloads(stream.skip(len as int)),
        _ => Seq::empty(),
    }
}

/// The frames of `messages`, one after the other.
pub open spec fn frames_of(messages: Seq<Seq<u8>>) -> Seq<u8>
    decreases messages.len(),
{
    if messages.len() == 0 {
        Seq::empty()
    } else {
        frame_of(messages[0]) + frames_of(messages.skip(1))
    }
}

/// Every whole frame that `stream` starts with is at most `capacity` bytes long.
pub open spec fn frames_fit(stream: Seq<u8>, capacity: nat) -> bool
    decreases stream.len(),
{
    match status(stream) {
        FrameStatus::Complete(len) => len <= capacity && frames_fit(
            stream.skip(len as int),
            capacity,
        ),
        _ => true,
    }
}

/// The sum of `sizes`.
pub open spec fn total(sizes: Seq<nat>) -> nat
    decreases sizes.len(),
{
    if sizes.len() == 0 {
        0
    } else {
        sizes[0] + total(sizes.skip(1))
    }
}

/// Whether the bytes hold no whole frame yet and no impossible header either.
pub open spec fn incomplete(bytes: Seq<u8>) -> bool {
    status(bytes) is NeedHeader || status(bytes) is NeedBody
}

/// A frame is found at the front of a stream whatever follows it, and its
/// payload is the one that was framed: cutting a frame undoes making it.
pub proof fn lemma_frame_round_trip(payload: Seq<u8>, rest: Seq<u8>)
    requires
        payload.len() + 4 <= MAX_FRAME_LEN,
    ensures
        status(frame_of(payload) + rest) == FrameStatus::Complete((payload.len() + 4) as usize),
        payload_of(frame_of(payload) + rest) == payload,
        (frame_of(payload) + rest).skip(payload.len() as int + 4) == rest,
{
    let len = (payload.len() + 4) as nat;
    let stream = frame_of(payload) + rest;
    lemma_header_round_trip(len);
    assert(stream =~= header_of(len) + (payload + rest));
    lemma_declared_len_prefix(header_of(len), payload + rest);
    assert(payload_of(stream) =~= payload);
    assert(stream.skip(payload.len() as int + 4) =~= rest);
}

/// What stands at the front of a stream is settled once it is whole: more
/// bytes behind a whole frame or an impossible header change nothing, and
/// more bytes behind part of a frame can only complete that same frame.
pub proof fn lemma_status_stable(bytes: Seq<u8>, more: Seq<u8>)
    ensures
        status(bytes) matches FrameStatus::Complete(len) ==> status(bytes + more)
            == FrameStatus::Complete(len) && payload_of(bytes + more) == payload_of(bytes) && (bytes
            + more).skip(len as int) == bytes.skip(len as int) + more,
        status(bytes) is Invalid ==> status(bytes + more) is Invalid,
        status(bytes) matches FrameStatus::NeedBody(len) ==> status(bytes + more)
            == FrameStatus::NeedBody(len) || status(bytes + more) == FrameStatus::Complete(len),
        incomplete(bytes + more) ==> incomplete(bytes),
{
    if bytes.len() >= 4 {
        lemma_declared_len_prefix(bytes, more);
        if let FrameStatus::Complete(len) = status(bytes) {
            assert(payload_of(bytes + more) =~= payload_of(bytes));
            assert((bytes + more).skip(len as int) =~= bytes.skip(len as int) + more);
        }
    }
}

/// Decoding a batch: the frames of any messages, one after the other, hold
/// exactly those messages, in their order.
pub proof fn lemma_payloads_of_frames(messages: Seq<Seq<u8>>)
    requires
        forall|i: int| 0 <= i < messages.len() ==> (#[trigger] messages[i]).len() + 4 <= MAX_FRAME_LEN,
    ensures
        payloads(frames_of(messages)) == messages,
    decreases messages.len(),
{
    if messages.len() == 0 {
        assert(payloads(frames_of(messages)) =~= messages);
    } else {
        let rest = messages.skip(1);
        assert forall|i: int| 0 <= i < rest.len() implies (#[trigger] rest[i]).len() + 4
            <= MAX_FRAME_LEN by {
            assert(rest[i] == messages[i + 1]);
        }
        lemma_payloads_of_frames(rest);
        lemma_frame_round_trip(messages[0], frames_of(rest));
        assert(payloads(frames_of(messages)) =~= seq![messages[0]] + rest);
        assert(seq![messages[0]] + rest =~= messages);
    }
}

/// What a reader yields over its life: the payloads of its messages in
/// order, then the error that ends the sequence.
pub struct Trace {
    pub payloads: Seq<Seq<u8>>,
    pub end: FramedReadError<()>,
}

/// How many bytes one read brings in: what the source offers next, cut down
/// to the room in the buffer and to what the source still holds. A source
/// with nothing more to offer brings nothing.
pub open spec fn delivered(reads: Seq<nat>, room: nat, left: nat) -> nat {
    let offer = if reads.len() == 0 {
        0
    } else {
        reads[0]
    };
    let fitting = if offer <= room {
        offer
    } else {
        room
    };
    if fitting <= left {
        fitting
    } else {
        left
    }
}

/// What the source offers after a read of `n` bytes: the rest of an offer
/// that was taken in part, else the offers that follow.
pub open spec fn after_read(reads: Seq<nat>, n: nat) -> Seq<nat> {
    if reads.len() == 0 {
        reads
    } else if n < reads[0] {
        reads.update(0, (reads[0] - n) as nat)
    } else {
        reads.skip(1)
    }
}

/// The reader that owns a buffer of `capacity` bytes, run to its end.
///
/// `buffered` is what the buffer holds. The source holds the bytes `source`
/// and offers them in portions of the sizes `reads`; when the portions are
/// used up it has closed. The driver asks for a message, fills while the
/// frame at the front is incomplete, and goes on until an error ends the
/// sequence; no source error occurs.
pub open spec fn engine_run(
    buffered: Seq<u8>,
    capacity: nat,
    source: Seq<u8>,
    reads: Seq<nat>,
) -> Trace
    decreases buffered.len() + source.len(), source.len(),
{
    match status(buffered) {
        FrameStatus::Complete(len) => {
            let later = engine_run(buffered.skip(len as int), capacity, source, reads);
            Trace { payloads: seq![payload_of(buffered)] + later.payloads, end: later.end }
        },
        FrameStatus::Invalid => Trace {
            payloads: Seq::empty(),
            end: FramedReadError::InvalidFrameSize,
        },
        _ => {
            let room = if buffered.len() <= capacity {
                (capacity - buffered.len()) as nat
            } else {
                0
            };
            let n = delivered(reads, room, source.len());
            if n == 0 {
                Trace { payloads: Seq::empty(), end: end_of_stream(room) }
            } else {
                engine_run(
                    buffered + source.take(n as int),
                    capacity,
                    source.skip(n as int),
                    after_read(reads, n),
                )
            }
        },
    }
}

/// How many reads from the source the driver makes over the run of
/// `engine_run`, the last one, which brings nothing, included.
pub open spec fn reads_made(
    buffered: Seq<u8>,
    capacity: nat,
    source: Seq<u8>,
    reads: Seq<nat>,
) -> nat
    decreases buffered.len() + source.len(), source.len(),
{
    match status(buffered) {
        FrameStatus::Complete(len) => reads_made(
            buffered.skip(len as int),
            capacity,
            source,
            reads,
        ),
        FrameStatus::Invalid => 0,
        _ => {
            let room = if buffered.len() <= capacity {
                (capacity - buffered.len()) as nat
            } else {
                0
            };
            let n = delivered(reads, room, source.len());
            if n == 0 {
                1
            } else {
                1 + reads_made(
                    buffered + source.take(n as int),
                    capacity,
                    source.skip(n as int),
                    after_read(reads, n),
                )
            }
        },
    }
}

/// What is left of `stream` behind the whole frames that it starts with.
pub open spec fn remainder(stream: Seq<u8>) -> Seq<u8>
    decreases stream.len(),
{
    match status(stream) {
        FrameStatus::Complete(len) => remainder(stream.skip(len as int)),
        _ => stream,
    }
}

/// Every offer is of at least one byte.
pub open spec fn all_positive(sizes: Seq<nat>) -> bool {
    forall|i: int| 0 <= i < sizes.len() ==> #[trigger] sizes[i] > 0
}

/// A read of `n` bytes, at most the first offer, leaves offers of at least one
/// byte each that sum to `n` less.
proof fn lemma_after_read(reads: Seq<nat>, n: nat)
    requires
        all_positive(reads),
        reads.len() > 0,
        0 < n <= reads[0],
    ensures
        all_positive(after_read(reads, n)),
        total(after_read(reads, n)) == total(reads) - n,
{
    let next = after_read(reads, n);
    if n < reads[0] {
        assert(next.skip(1) =~= reads.skip(1));
        assert forall|i: int| 0 <= i < next.len() implies #[trigger] next[i] > 0 by {
            if i > 0 {
                assert(next[i] == reads[i]);
            }
        }
    } else {
        assert forall|i: int| 0 <= i < next.len() implies #[trigger] next[i] > 0 by {
            assert(next[i] == reads[i + 1]);
        }
    }
}

/// Whatever the portions in which the source delivers and whatever the size
/// of the buffer, the reader yields the messages of the stream in their
/// order, as long as every frame fits the buffer and the source delivers all
/// of its bytes.
pub proof fn lemma_engine_yields_all(
    buffered: Seq<u8>,
    capacity: nat,
    source: Seq<u8>,
    reads: Seq<nat>,
)
    requires
        buffered.len() <= capacity,
        frames_fit(buffered + source, capacity),
        all_positive(reads),
        total(reads) >= source.len(),
    ensures
        engine_run(buffered, capacity, source, reads).payloads == payloads(buffered + source),
    decreases buffered.len() + source.len(), source.len(),
{
    let stream = buffered + source;
    lemma_status_stable(buffered, source);
    match status(buffered) {
        FrameStatus::Complete(len) => {
            lemma_engine_yields_all(buffered.skip(len as int), capacity, source, reads);
        },
        FrameStatus::Invalid => {},
        _ => {
            let room = (capacity - buffered.len()) as nat;
            let n = delivered(reads, room, source.len());
            if n == 0 {
                if source.len() == 0 {
                    assert(stream =~= buffered);
                } else {
                    assert(reads.len() > 0);
                    assert(room == 0);
                }
            } else {
                lemma_after_read(reads, n);
                assert((buffered + source.take(n as int)) + source.skip(n as int) =~= stream);
                lemma_engine_yields_all(
                    buffered + source.take(n as int),
                    capacity,
                    source.skip(n as int),
                    after_read(reads, n),
                );
            }
        },
    }
}

/// A stream no longer than the buffer holds no frame that does not fit it.
pub proof fn lemma_short_stream_fits(stream: Seq<u8>, capacity: nat)
    requires
        stream.len() <= capacity,
    ensures
        frames_fit(stream, capacity),
    decreases stream.len(),
{
    if let FrameStatus::Complete(len) = status(stream) {
        lemma_short_stream_fits(stream.skip(len as int), capacity);
    }
}

/// The reader with part of one frame buffered and the rest of it, and nothing
/// more, still to come.
proof fn lemma_one_frame(
    payload: Seq<u8>,
    buffered: Seq<u8>,
    capacity: nat,
    source: Seq<u8>,
    reads: Seq<nat>,
)
    requires
        payload.len() + 4 <= MAX_FRAME_LEN,
        payload.len() + 4 <= capacity,
        buffered + source == frame_of(payload),
        all_positive(reads),
        total(reads) == source.len(),
    ensures
        engine_run(buffered, capacity, source, reads) == (Trace {
            payloads: seq![payload],
            end: FramedReadError::ReadZero,
        }),
    decreases source.len(),
{
    let len = (payload.len() + 4) as nat;
    let none = Seq::<u8>::empty();
    lemma_frame_round_trip(payload, none);
    assert(frame_of(payload) + none =~= frame_of(payload));
    lemma_status_stable(buffered, source);
    if source.len() == 0 {
        assert(buffered =~= frame_of(payload));
        assert(buffered.skip(len as int) =~= none);
        let later = engine_run(none, capacity, source, reads);
        assert(status(none) is NeedHeader);
        assert(delivered(reads, capacity, 0) == 0);
        assert(later == (Trace { payloads: Seq::empty(), end: FramedReadError::ReadZero }));
        assert(seq![payload_of(buffered)] + later.payloads =~= seq![payload]);
    } else {
        assert(buffered.len() < len);
        assert(incomplete(buffered));
        let room = (capacity - buffered.len()) as nat;
        let n = delivered(reads, room, source.len());
        assert(n == reads[0]);
        lemma_after_read(reads, n);
        assert((buffered + source.take(n as int)) + source.skip(n as int) =~= buffered + source);
        lemma_one_frame(
            payload,
            buffered + source.take(n as int),
            capacity,
            source.skip(n as int),
            after_read(reads, n),
        );
    }
}

/// Partial reads change nothing. However a frame's bytes are cut into
/// portions of at least one byte, delivered one read at a time, the reader
/// yields the frame's message and then sees the source close, just as when
/// all the bytes come in a single read.
pub proof fn lemma_partial_reads(payload: Seq<u8>, capacity: nat, reads: Seq<nat>)
    requires
        payload.len() + 4 <= MAX_FRAME_LEN,
        payload.len() + 4 <= capacity,
        all_positive(reads),
        total(reads) == payload.len() + 4,
    ensures
        engine_run(Seq::empty(), capacity, frame_of(payload), reads) == (Trace {
            payloads: seq![payload],
            end: FramedReadError::ReadZero,
        }),
        engine_run(Seq::empty(), capacity, frame_of(payload), reads) == engine_run(
            Seq::empty(),
            capacity,
            frame_of(payload),
            seq![(payload.len() + 4) as nat],
        ),
{
    let frame = frame_of(payload);
    let whole = seq![(payload.len() + 4) as nat];
    lemma_header_round_trip((payload.len() + 4) as nat);
    assert(Seq::<u8>::empty() + frame =~= frame);
    assert(whole.skip(1) =~= Seq::<nat>::empty());
    assert(total(whole.skip(1)) == 0);
    assert(total(whole) == payload.len() + 4);
    lemma_one_frame(payload, Seq::empty(), capacity, frame, reads);
    lemma_one_frame(payload, Seq::empty(), capacity, frame, whole);
}

/// Nothing is left behind the frames of any messages.
pub proof fn lemma_remainder_of_frames(messages: Seq<Seq<u8>>)
    requires
        forall|i: int| 0 <= i < messages.len() ==> (#[trigger] messages[i]).len() + 4 <= MAX_FRAME_LEN,
    ensures
        remainder(frames_of(messages)) == Seq::<u8>::empty(),
    decreases messages.len(),
{
    if messages.len() > 0 {
        let rest = messages.skip(1);
        assert forall|i: int| 0 <= i < rest.len() implies (#[trigger] rest[i]).len() + 4
            <= MAX_FRAME_LEN by {
            assert(rest[i] == messages[i + 1]);
        }
        lemma_remainder_of_frames(rest);
        lemma_frame_round_trip(messages[0], frames_of(rest));
    }
}

/// The source closes between frames or in the middle of one. When every
/// whole frame of the stream fits the buffer, the source delivers all of its
/// bytes, and what is left behind the whole frames is part of a frame, or
/// nothing, and leaves room in the buffer, the sequence ends with `ReadZero`.
pub proof fn lemma_engine_ends_with_read_zero(
    buffered: Seq<u8>,
    capacity: nat,
    source: Seq<u8>,
    reads: Seq<nat>,
)
    requires
        buffered.len() <= capacity,
        frames_fit(buffered + source, capacity),
        all_positive(reads),
        total(reads) >= source.len(),
        incomplete(remainder(buffered + source)),
        remainder(buffered + source).len() < capacity,
    ensures
        engine_run(buffered, capacity, source, reads).end == FramedReadError::<()>::ReadZero,
    decreases buffered.len() + source.len(), source.len(),
{
    let stream = buffered + source;
    lemma_status_stable(buffered, source);
    match status(buffered) {
        FrameStatus::Complete(len) => {
            lemma_engine_ends_with_read_zero(buffered.skip(len as int), capacity, source, reads);
        },
        FrameStatus::Invalid => {},
        _ => {
            let room = (capacity - buffered.len()) as nat;
            let n = delivered(reads, room, source.len());
            if n == 0 {
                if source.len() == 0 {
                    assert(stream =~= buffered);
                } else {
                    assert(reads.len() > 0);
                    assert(room == 0);
                }
            } else {
                lemma_after_read(reads, n);
                assert((buffered + source.take(n as int)) + source.skip(n as int) =~= stream);
                lemma_engine_ends_with_read_zero(
                    buffered + source.take(n as int),
                    capacity,
                    source.skip(n as int),
                    after_read(reads, n),
                );
            }
        },
    }
}

/// A batch in one read. When the frames of any messages arrive together in
/// a single read, the reader yields exactly those messages, in their order,
/// and then, unless it has no buffer at all, sees the source close.
pub proof fn lemma_batch_in_one_read(messages: Seq<Seq<u8>>, capacity: nat)
    requires
        forall|i: int| 0 <= i < messages.len() ==> (#[trigger] messages[i]).len() + 4 <= MAX_FRAME_LEN,
        frames_of(messages).len() <= capacity,
    ensures
        engine_run(
            Seq::empty(),
            capacity,
            frames_of(messages),
            seq![frames_of(messages).len()],
        ).payloads == messages,
        capacity > 0 ==> engine_run(
            Seq::empty(),
            capacity,
            frames_of(messages),
            seq![frames_of(messages).len()],
        ).end == FramedReadError::<()>::ReadZero,
{
    let stream = frames_of(messages);
    let whole = seq![stream.len()];
    assert(Seq::<u8>::empty() + stream =~= stream);
    lemma_short_stream_fits(stream, capacity);
    lemma_payloads_of_frames(messages);
    lemma_remainder_of_frames(messages);
    if stream.len() == 0 {
        assert(status(stream) is NeedHeader);
    } else {
        assert(whole.skip(1) =~= Seq::<nat>::empty());
        assert(total(whole.skip(1)) == 0);
        assert(total(whole) == stream.len());
        lemma_engine_yields_all(Seq::empty(), capacity, stream, whole);
        lemma_engine_ends_with_read_zero(Seq::empty(), capacity, stream, whole);
    }
}

/// A frame too long for the buffer. When the header at the front of the
/// stream declares more bytes than the buffer holds, or the buffer cannot
/// even hold a header, and the source goes on delivering, the reader yields
/// no message and ends with `BufferIsFull`. It does so after one read for
/// each byte of room at most, and one more that finds no room: the reader
/// does not wait for bytes that cannot fit.
pub proof fn lemma_buffer_exhaustion(
    buffered: Seq<u8>,
    capacity: nat,
    source: Seq<u8>,
    reads: Seq<nat>,
)
    requires
        buffered.len() <= capacity,
        capacity < 4 || ((buffered + source).len() >= 4 && declared_len(buffered + source)
            > capacity),
        (buffered + source).len() >= capacity,
        all_positive(reads),
        buffered.len() + total(reads) >= capacity,
    ensures
        engine_run(buffered, capacity, source, reads) == (Trace {
            payloads: Seq::empty(),
            end: FramedReadError::BufferIsFull,
        }),
        reads_made(buffered, capacity, source, reads) <= capacity - buffered.len() + 1,
    decreases source.len(),
{
    let stream = buffered + source;
    if buffered.len() >= 4 {
        lemma_declared_len_prefix(buffered, source);
    }
    assert(incomplete(buffered));
    let room = (capacity - buffered.len()) as nat;
    let n = delivered(reads, room, source.len());
    if room > 0 {
        assert(reads.len() > 0);
        lemma_after_read(reads, n);
        assert((buffered + source.take(n as int)) + source.skip(n as int) =~= stream);
        lemma_buffer_exhaustion(
            buffered + source.take(n as int),
            capacity,
            source.skip(n as int),
            after_read(reads, n),
        );
    }
}

/// The source closes in the middle of a frame. When what the buffer holds
/// and what the source still delivers make up part of a header or part of a
/// body, and the buffer has room for more, the reader yields no message and
/// ends with `ReadZero`, however the source portions its bytes.
pub proof fn lemma_end_mid_frame(
    buffered: Seq<u8>,
    capacity: nat,
    source: Seq<u8>,
    reads: Seq<nat>,
)
    requires
        incomplete(buffered + source),
        (buffered + source).len() < capacity,
    ensures
        engine_run(buffered, capacity, source, reads) == (Trace {
            payloads: Seq::empty(),
            end: FramedReadError::ReadZero,
        }),
    decreases source.len(),
{
    let stream = buffered + source;
    lemma_status_stable(buffered, source);
    let room = (capacity - buffered.len()) as nat;
    let n = delivered(reads, room, source.len());
    if n != 0 {
        assert((buffered + source.take(n as int)) + source.skip(n as int) =~= stream);
        lemma_end_mid_frame(
            buffered + source.take(n as int),
            capacity,
            source.skip(n as int),
            after_read(reads, n),
        );
    }
}

/// The decode on a buffer that the caller manages, run to its end.
///
/// The owner of the buffer has `held` bytes of `stream` in it. It asks for a
/// message; told that bytes are missing, it brings in as many more as its
/// discipline says, `fetches` in turn, and asks again; given a message, it
/// moves on by the bytes that the frame took. It stops at an error, or when
/// it has nothing more to bring. The result is the payloads of the messages.
pub open spec fn managed_run(stream: Seq<u8>, held: nat, fetches: Seq<nat>) -> Seq<Seq<u8>>
    decreases stream.len(), stream.len() - held,
{
    if held > stream.len() {
        Seq::empty()
    } else {
        match status(stream.take(held as int)) {
            FrameStatus::Complete(len) => seq![payload_of(stream.take(held as int))] + managed_run(
                stream.skip(len as int),
                (held - len) as nat,
                fetches,
            ),
            FrameStatus::Invalid => Seq::empty(),
            _ => {
                let n = delivered(fetches, (stream.len() - held) as nat, (stream.len() - held) as nat);
                if n == 0 {
                    Seq::empty()
                } else {
                    managed_run(stream, held + n, after_read(fetches, n))
                }
            },
        }
    }
}

/// Whatever its discipline, an owner that keeps bringing bytes in until it
/// holds all of them gets the messages of the stream in their order from
/// the decode on its buffer.
pub proof fn lemma_managed_yields_all(stream: Seq<u8>, held: nat, fetches: Seq<nat>)
    requires
        held <= stream.len(),
        all_positive(fetches),
        held + total(fetches) >= stream.len(),
    ensures
        managed_run(stream, held, fetches) == payloads(stream),
    decreases stream.len(), stream.len() - held,
{
    let window = stream.take(held as int);
    let beyond = stream.skip(held as int);
    assert(window + beyond =~= stream);
    lemma_status_stable(window, beyond);
    match status(window) {
        FrameStatus::Complete(len) => {
            assert(stream.skip(len as int).take(held - len) =~= window.skip(len as int));
            lemma_managed_yields_all(stream.skip(len as int), (held - len) as nat, fetches);
        },
        FrameStatus::Invalid => {},
        _ => {
            let left = (stream.len() - held) as nat;
            let n = delivered(fetches, left, left);
            if n == 0 {
                assert(left == 0);
                assert(window =~= stream);
            } else {
                lemma_after_read(fetches, n);
                lemma_managed_yields_all(stream, held + n, after_read(fetches, n));
            }
        },
    }
}

/// The two ways of decoding agree. On one stream, the decode on a buffer
/// that the caller manages, under any discipline that brings all the bytes
/// in, and the reader that owns its buffer, fed in any portions, yield the
/// same messages in the same order, provided every frame fits the reader's
/// buffer.
pub proof fn lemma_managed_matches_engine(
    stream: Seq<u8>,
    fetches: Seq<nat>,
    capacity: nat,
    reads: Seq<nat>,
)
    requires
        frames_fit(stream, capacity),
        all_positive(fetches),
        total(fetches) >= stream.len(),
        all_positive(reads),
        total(reads) >= stream.len(),
    ensures
        managed_run(stream, 0, fetches) == engine_run(
            Seq::empty(),
            capacity,
            stream,
            reads,
        ).payloads,
{
    assert(Seq::<u8>::empty() + stream =~= stream);
    lemma_managed_yields_all(stream, 0, fetches);
    lemma_engine_yields_all(Seq::empty(), capacity, stream, reads);
}

} // verus!
