//! Runtime substrate of a fact store: a prefix-free number encoding, a
//! string mangling scheme, a binary codec, fact sets with two indexes, a
//! predicate inventory and the bytecode interpreter that validates facts.
pub mod rts;
pub mod storage;
