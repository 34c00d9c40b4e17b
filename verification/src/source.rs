use vstd::prelude::*;

verus! {

/// The one capability a line source exposes: a non-blocking read that
/// returns the next available line, or nothing, without ever waiting.
/// The concrete sources (a piped stream, a followed file) live outside
/// the core and may hand back anything at any time, so no behaviour is
/// assumed of an implementation; everything downstream is shown to hold
/// whatever a read returns.
pub trait TryRead<A> {
    fn try_read(&self) -> Option<A>;
}

/// The line source chosen at startup, wrapped behind `TryRead` so the
/// rest of the pipeline does not care which variant it is.
pub struct Source<T> {
    handle: T,
}

impl<T> Source<T> {
    /// The wrapped concrete source.
    pub closed spec fn inner(&self) -> T {
        self.handle
    }

    pub fn from(handle: T) -> (r: Source<T>)
        ensures
            r.inner() == handle,
    {
        Source { handle }
    }
}

impl<A, T: TryRead<A>> TryRead<A> for Source<T> {
    fn try_read(&self) -> Option<A> {
        self.handle.try_read()
    }
}

} // verus!
