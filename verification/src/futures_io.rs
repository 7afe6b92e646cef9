//! The adapter that carries a transport of the `futures` kind.

use vstd::prelude::*;

verus! {

/// A transport, held so that a driver can use it as byte source or byte sink.
pub struct Compat<T>(T);

impl<T> Compat<T> {
    /// The transport inside.
    pub closed spec fn inner(self) -> T {
        self.0
    }

    /// Wraps `inner`.
    pub fn new(inner: T) -> (compat: Self)
        ensures
            compat.inner() == inner,
    {
        Self(inner)
    }

    /// Gives the transport back.
    pub fn into_inner(self) -> (inner: T)
        ensures
            inner == self.inner(),
    {
        self.0
    }
}

impl<T> AsRef<T> for Compat<T> {
    fn as_ref(&self) -> (inner: &T)
        ensures
            *inner == self.inner(),
    {
        &self.0
    }
}

impl<T> AsMut<T> for Compat<T> {
    fn as_mut(&mut self) -> (inner: &mut T)
        ensures
            *inner == old(self).inner(),
            final(self).inner() == *final(inner),
    {
        &mut self.0
    }
}

} // verus!
