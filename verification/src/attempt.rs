use vstd::prelude::*;

verus! {

/// The outcome of an attempt at some I/O.
pub enum Attempt<V, E> {
    /// It succeeded, with this result.
    Done(V),
    /// It could not be carried out without waiting.
    WouldBlock,
    /// It failed with this error.
    Failed(E),
}

} // verus!
