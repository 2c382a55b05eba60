//! The system calls that bytecode can make, and how a run ends.
use vstd::prelude::*;
use crate::rts::id::{Id, Pid};
use crate::rts::binary::Output;

verus! {

/// An opaque handle to a set of byte strings.
pub type BytestringSetHandle = u64;

/// An opaque handle to a set of words.
pub type WordSetHandle = u64;

/// How a run of a subroutine ended.
#[derive(Debug, Clone, PartialEq, Eq, Structural)]
pub enum ExitReason {
    /// The subroutine returned.
    Done,
    /// The subroutine suspended; running it again resumes at `pc`.
    Suspended { pc: usize },
}

/// The functions that bytecode calls out to while typechecking facts.
/// Callers implement it for their own databases.
pub trait SysCalls {
    /// The id that `id`, a fact of predicate `pid`, has after renaming.
    fn rename(&mut self, id: Id, pid: Pid) -> Id;

    /// A new empty set of byte strings.
    fn new_set(&mut self) -> BytestringSetHandle;

    /// Adds the bytes of `output` to a set.
    fn insert_output_set(&mut self, set: BytestringSetHandle, output: &Output);

    /// Writes the members of a set to `output`.
    fn set_to_array(&mut self, set: BytestringSetHandle, output: &mut Output);

    /// Releases a set.
    fn free_set(&mut self, set: BytestringSetHandle);

    /// A new empty set of words.
    fn new_word_set(&mut self) -> WordSetHandle;

    /// Adds the words of `bytes` to a word set.
    fn insert_bytes_word_set(&mut self, set: WordSetHandle, bytes: &[u8], word: u64);

    /// Writes the members of a word set to `output` as words.
    fn word_set_to_array(&mut self, set: WordSetHandle, output: &mut Output);

    /// Writes the members of a word set to `output` as bytes.
    fn byte_set_to_byte_array(&mut self, set: WordSetHandle, output: &mut Output);

    /// Releases a word set.
    fn free_word_set(&mut self, set: WordSetHandle);

    /// The id of the fact of predicate `pid` with key `key`.
    fn lookup_fact(&self, pid: Pid, key: &[u8]) -> Id;

    /// The predicate of fact `id`.
    fn fact_type(&self, id: Id) -> Pid;
}

/// System calls that do nothing: renaming keeps ids, sets are handle 0
/// and stay empty, and lookups find nothing.
pub struct NoOpSysCalls;

impl SysCalls for NoOpSysCalls {
    fn rename(&mut self, id: Id, _pid: Pid) -> (r: Id)
        ensures
            r == id,
    {
        id
    }

    fn new_set(&mut self) -> (r: BytestringSetHandle)
        ensures
            r == 0,
    {
        0
    }

    fn insert_output_set(&mut self, _set: BytestringSetHandle, _output: &Output) {
    }

    fn set_to_array(&mut self, _set: BytestringSetHandle, output: &mut Output)
        ensures
            final(output)@ == old(output)@,
    {
    }

    fn free_set(&mut self, _set: BytestringSetHandle) {
    }

    fn new_word_set(&mut self) -> (r: WordSetHandle)
        ensures
            r == 0,
    {
        0
    }

    fn insert_bytes_word_set(&mut self, _set: WordSetHandle, _bytes: &[u8], _word: u64) {
    }

    fn word_set_to_array(&mut self, _set: WordSetHandle, output: &mut Output)
        ensures
            final(output)@ == old(output)@,
    {
    }

    fn byte_set_to_byte_array(&mut self, _set: WordSetHandle, output: &mut Output)
        ensures
            final(output)@ == old(output)@,
    {
    }

    fn free_word_set(&mut self, _set: WordSetHandle) {
    }

    fn lookup_fact(&self, _pid: Pid, _key: &[u8]) -> (r: Id)
        ensures
            r == Id(0),
    {
        Id::invalid()
    }

    fn fact_type(&self, _id: Id) -> (r: Pid)
        ensures
            r == Pid(0),
    {
        Pid::invalid()
    }
}

} // verus!
