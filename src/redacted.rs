use vstd::prelude::*;

verus! {

/// A value that must never be written to logs (keys, ciphertext).
pub struct Redacted<T>(T);

impl<T> Redacted<T> {
    /// The value held inside.
    pub closed spec fn value(&self) -> T {
        self.0
    }

    pub fn new(t: T) -> (r: Self)
        ensures
            r.value() == t,
    {
        Redacted(t)
    }

    pub fn into_inner(self) -> (r: T)
        ensures
            r == self.value(),
    {
        self.0
    }

    pub fn as_inner(&self) -> (r: &T)
        ensures
            *r == self.value(),
    {
        &self.0
    }
}

} // verus!
