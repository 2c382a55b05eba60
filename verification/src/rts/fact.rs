//! Facts: the unit of data, a key and a value under a fact id and a
//! predicate id. `Clause` is a borrowed view of a fact's bytes and
//! `FactRef` a borrowed reference to a whole fact.
use vstd::prelude::*;
use crate::rts::id::{Id, Pid};

verus! {

/// A stored fact: its id, its predicate, and its key bytes followed by its
/// value bytes in one buffer.
pub struct Fact {
    pub id: Id,
    pub pid: Pid,
    pub key_size: u32,
    pub value_size: u32,
    data: Vec<u8>,
}

impl Fact {
    /// The key bytes followed by the value bytes.
    pub closed spec fn data_view(&self) -> Seq<u8> {
        self.data@
    }

    /// The fact's id.
    pub closed spec fn fact_id(&self) -> Id {
        self.id
    }

    /// The fact's predicate.
    pub closed spec fn fact_pid(&self) -> Pid {
        self.pid
    }

    /// The key size field.
    pub closed spec fn key_len(&self) -> u32 {
        self.key_size
    }

    /// The value size field.
    pub closed spec fn value_len(&self) -> u32 {
        self.value_size
    }

    /// The sizes agree with the data.
    pub open spec fn wf(&self) -> bool {
        self.data_view().len() == self.key_len() + self.value_len()
    }

    /// The key bytes of a well-formed fact.
    pub open spec fn key_view(&self) -> Seq<u8> {
        self.data_view().take(self.key_len() as int)
    }

    /// The value bytes of a well-formed fact.
    pub open spec fn value_view(&self) -> Seq<u8> {
        self.data_view().skip(self.key_len() as int)
    }

    /// Create a new fact with the given id, predicate, key and value.
    pub fn new(id: Id, pid: Pid, key: &[u8], value: &[u8]) -> (r: Fact)
        requires
            key@.len() <= u32::MAX,
            value@.len() <= u32::MAX,
        ensures
            r.fact_id() == id,
            r.fact_pid() == pid,
            r.key_len() == key@.len(),
            r.value_len() == value@.len(),
            r.data_view() == key@ + value@,
            r.wf(),
            r.key_view() == key@,
            r.value_view() == value@,
    {
        let mut data: Vec<u8> = Vec::new();
        append_bytes(&mut data, key);
        append_bytes(&mut data, value);
        let r = Fact { id, pid, key_size: key.len() as u32, value_size: value.len() as u32, data };
        assert(r.data_view().take(key@.len() as int) =~= key@);
        assert(r.data_view().skip(key@.len() as int) =~= value@);
        r
    }

    /// The fact's predicate.
    pub fn predicate(&self) -> (r: Pid)
        ensures
            r == self.fact_pid(),
    {
        self.pid
    }

    /// Return the key bytes.
    pub fn key(&self) -> (r: &[u8])
        requires
            self.key_len() <= self.data_view().len(),
        ensures
            r@ == self.key_view(),
    {
        let all = self.data.as_slice();
        &all[0..self.key_size as usize]
    }

    /// Return the value bytes.
    pub fn value(&self) -> (r: &[u8])
        requires
            self.key_len() <= self.data_view().len(),
        ensures
            r@ == self.value_view(),
    {
        let all = self.data.as_slice();
        &all[self.key_size as usize..all.len()]
    }

    /// Return all data bytes (key followed by value).
    pub fn all_data(&self) -> (r: &[u8])
        ensures
            r@ == self.data_view(),
    {
        self.data.as_slice()
    }

    /// Total size of the fact's data in bytes.
    pub fn size(&self) -> (r: usize)
        ensures
            r == self.data_view().len(),
    {
        self.data.len()
    }

    /// A borrowed clause view of this fact's data.
    pub fn clause(&self) -> (r: Clause<'_>)
        ensures
            r.bytes() == self.data_view(),
            r.key_len() == self.key_len(),
            r.value_len() == self.value_len(),
    {
        Clause { data: self.data.as_slice(), key_size: self.key_size, value_size: self.value_size }
    }

    /// A reference to this fact.
    pub fn as_ref(&self) -> (r: FactRef<'_>)
        ensures
            r.id == self.fact_id(),
            r.pid == self.fact_pid(),
            r.clause.bytes() == self.data_view(),
            r.clause.key_len() == self.key_len(),
            r.clause.value_len() == self.value_len(),
    {
        FactRef { id: self.id, pid: self.pid, clause: self.clause() }
    }
}

/// Appends the bytes of `src` to `dst`.
pub fn append_bytes(dst: &mut Vec<u8>, src: &[u8])
    ensures
        final(dst)@ == old(dst)@ + src@,
{
    let mut i: usize = 0;
    while i < src.len()
        invariant
            i <= src@.len(),
            dst@ == old(dst)@ + src@.take(i as int),
        decreases src@.len() - i,
    {
        dst.push(src[i]);
        i = i + 1;
        assert(dst@ =~= old(dst)@ + src@.take(i as int));
    }
    assert(src@.take(i as int) =~= src@);
}

/// A borrowed view of fact data: a key followed by a value. The sizes are
/// taken as given; the key is the first `key_size` bytes and the value is
/// everything after it.
#[derive(Clone, Copy)]
pub struct Clause<'a> {
    data: &'a [u8],
    key_size: u32,
    value_size: u32,
}

impl<'a> Clause<'a> {
    /// All bytes of the clause.
    pub closed spec fn bytes(&self) -> Seq<u8> {
        self.data@
    }

    /// The key size the clause was made with.
    pub closed spec fn key_len(&self) -> u32 {
        self.key_size
    }

    /// The value size the clause was made with.
    pub closed spec fn value_len(&self) -> u32 {
        self.value_size
    }

    /// The key size lies within the bytes.
    pub open spec fn wf(&self) -> bool {
        self.key_len() <= self.bytes().len()
    }

    /// The key bytes.
    pub open spec fn key_view(&self) -> Seq<u8> {
        self.bytes().take(self.key_len() as int)
    }

    /// The value bytes: everything after the key.
    pub open spec fn value_view(&self) -> Seq<u8> {
        self.bytes().skip(self.key_len() as int)
    }

    /// Create a clause from raw parts.
    pub fn new(data: &'a [u8], key_size: u32, value_size: u32) -> (r: Self)
        ensures
            r.bytes() == data@,
            r.key_len() == key_size,
            r.value_len() == value_size,
    {
        Clause { data, key_size, value_size }
    }

    /// Create a clause from key bytes only (empty value).
    pub fn from_key(key: &'a [u8]) -> (r: Self)
        requires
            key@.len() <= u32::MAX,
        ensures
            r.bytes() == key@,
            r.key_len() == key@.len(),
            r.value_len() == 0,
    {
        Clause { data: key, key_size: key.len() as u32, value_size: 0 }
    }

    /// Return the key bytes.
    pub fn key(&self) -> (r: &'a [u8])
        requires
            self.wf(),
        ensures
            r@ == self.key_view(),
    {
        &self.data[0..self.key_size as usize]
    }

    /// Return the value bytes.
    pub fn value(&self) -> (r: &'a [u8])
        requires
            self.wf(),
        ensures
            r@ == self.value_view(),
    {
        &self.data[self.key_size as usize..self.data.len()]
    }

    /// Return all bytes (key followed by value).
    pub fn all_data(&self) -> (r: &'a [u8])
        ensures
            r@ == self.bytes(),
    {
        self.data
    }

    /// Total size of this clause in bytes, from the sizes it was made with.
    pub fn size(&self) -> (r: usize)
        requires
            self.key_len() + self.value_len() <= usize::MAX,
        ensures
            r == self.key_len() + self.value_len(),
    {
        self.key_size as usize + self.value_size as usize
    }

    pub fn key_size(&self) -> (r: u32)
        ensures
            r == self.key_len(),
    {
        self.key_size
    }

    pub fn value_size(&self) -> (r: u32)
        ensures
            r == self.value_len(),
    {
        self.value_size
    }
}

/// A borrowed reference to a fact: id, predicate and data.
#[derive(Clone, Copy)]
pub struct FactRef<'a> {
    pub id: Id,
    pub pid: Pid,
    pub clause: Clause<'a>,
}

impl<'a> FactRef<'a> {
    /// Create a fact reference from parts.
    pub fn new(id: Id, pid: Pid, clause: Clause<'a>) -> (r: Self)
        ensures
            r.id == id,
            r.pid == pid,
            r.clause == clause,
    {
        FactRef { id, pid, clause }
    }

    /// The key bytes.
    pub fn key(&self) -> (r: &'a [u8])
        requires
            self.clause.wf(),
        ensures
            r@ == self.clause.key_view(),
    {
        self.clause.key()
    }

    /// The value bytes.
    pub fn value(&self) -> (r: &'a [u8])
        requires
            self.clause.wf(),
        ensures
            r@ == self.clause.value_view(),
    {
        self.clause.value()
    }
}

} // verus!
