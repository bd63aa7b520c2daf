//! The unified identifier space of the client store.

use vstd::prelude::*;

verus! {

/// Identifies one entity of a client store.
///
/// Span ids come from the producer; scope and event ids are minted by the
/// store from its own counters.
#[derive(Clone, Copy, Debug, PartialEq, Eq, Structural, Hash)]
pub enum Id {
    Span(u64),
    CalcScope(u64),
    Event(u64),
}

impl Id {
    /// The raw number carried by the identifier.
    pub open spec fn raw(self) -> u64 {
        match self {
            Id::Span(k) => k,
            Id::CalcScope(k) => k,
            Id::Event(k) => k,
        }
    }

    /// The number carried by the identifier, whatever its kind.
    pub fn number(&self) -> (k: u64)
        ensures
            k == self.raw(),
    {
        match self {
            Id::Span(k) => *k,
            Id::CalcScope(k) => *k,
            Id::Event(k) => *k,
        }
    }
}

} // verus!
