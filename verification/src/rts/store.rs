//! The insertion interface for facts.
use vstd::prelude::*;
use crate::rts::fact::FactRef;

verus! {

/// Something facts can be inserted into.
pub trait Store {
    fn insert(&mut self, fact: FactRef<'_>);
}

} // verus!
