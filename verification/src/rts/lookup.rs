//! The read interface for facts, and id intervals.
use vstd::prelude::*;
use crate::rts::id::{Id, Pid};
use crate::rts::fact::{Clause, FactRef};

verus! {

/// An interval `[start, end)` of fact ids.
#[derive(Debug, Clone, Copy, PartialEq, Eq, Structural)]
pub struct Interval {
    pub start: Id,
    pub end: Id,
}

impl Interval {
    pub fn new(start: Id, end: Id) -> (r: Self)
        ensures
            r.start == start,
            r.end == end,
    {
        Interval { start, end }
    }

    /// The empty interval, both ends invalid.
    pub fn empty() -> (r: Self)
        ensures
            r.start.0 == 0,
            r.end.0 == 0,
    {
        Interval { start: Id(0), end: Id(0) }
    }

    /// The number of ids in the interval.
    pub open spec fn size(&self) -> nat {
        if self.end.0 > self.start.0 {
            (self.end.0 - self.start.0) as nat
        } else {
            0
        }
    }

    /// The number of ids in the interval.
    pub fn count(&self) -> (r: u64)
        ensures
            r == self.size(),
    {
        if self.end.0 > self.start.0 {
            Id::distance(self.start, self.end)
        } else {
            0
        }
    }
}

impl std::ops::Add for Interval {
    type Output = Interval;

    /// From the start of the first interval to the end of the second.
    fn add(self, rhs: Interval) -> (r: Interval) {
        Interval { start: self.start, end: rhs.end }
    }
}

impl vstd::std_specs::ops::AddSpecImpl for Interval {
    open spec fn obeys_add_spec() -> bool {
        true
    }

    open spec fn add_req(self, rhs: Interval) -> bool {
        true
    }

    open spec fn add_spec(self, rhs: Interval) -> Interval {
        Interval { start: self.start, end: rhs.end }
    }
}

/// What a fact reference shows: id, predicate, key and value.
pub open spec fn fact_ref_view(f: FactRef) -> (Id, Pid, Seq<u8>, Seq<u8>) {
    (f.id, f.pid, f.clause.key_view(), f.clause.value_view())
}

/// The read interface for facts.
///
/// An implementation describes what it holds through the spec functions;
/// each method returns what they describe.
pub trait Lookup {
    /// The implementation's internal invariant.
    spec fn inv(&self) -> bool;

    /// The id under which a fact with predicate `pid` and key `key` is
    /// found, if any.
    spec fn id_of_key(&self, pid: Pid, key: Seq<u8>) -> Option<Id>;

    /// The predicate, key and value of the fact with id `id`, if any.
    spec fn fact_of_id(&self, id: Id) -> Option<(Pid, Seq<u8>, Seq<u8>)>;

    /// The lowest fact id.
    spec fn lowest_id(&self) -> Id;

    /// The next available fact id.
    spec fn next_free_id(&self) -> Id;

    /// What `count` reports for a predicate.
    spec fn interval_of(&self, pid: Pid) -> Interval;

    /// All facts, in the order `enumerate_all` lists them.
    spec fn listed_facts(&self) -> Seq<(Id, Pid, Seq<u8>, Seq<u8>)>;

    /// Look up a fact id by predicate and key.
    fn id_by_key(&self, pid: Pid, key: &[u8]) -> (r: Option<Id>)
        requires
            self.inv(),
        ensures
            r == self.id_of_key(pid, key@),
    ;

    /// Look up a fact's predicate by its id.
    fn type_by_id(&self, id: Id) -> (r: Option<Pid>)
        requires
            self.inv(),
        ensures
            r == (match self.fact_of_id(id) {
                Some(f) => Some(f.0),
                None => None,
            }),
    ;

    /// Look up a fact by id: its predicate and its clause.
    fn fact_by_id(&self, id: Id) -> (r: Option<(Pid, Clause<'_>)>)
        requires
            self.inv(),
        ensures
            match self.fact_of_id(id) {
                Some(f) => r is Some && r.unwrap().0 == f.0 && r.unwrap().1.wf()
                    && r.unwrap().1.key_view() == f.1 && r.unwrap().1.value_view() == f.2,
                None => r is None,
            },
    ;

    /// The lowest fact id.
    fn starting_id(&self) -> (r: Id)
        requires
            self.inv(),
        ensures
            r == self.lowest_id(),
    ;

    /// The next available fact id (one past the highest).
    fn first_free_id(&self) -> (r: Id)
        requires
            self.inv(),
        ensures
            r == self.next_free_id(),
    ;

    /// The interval counted for a predicate.
    fn count(&self, pid: Pid) -> (r: Interval)
        requires
            self.inv(),
        ensures
            r == self.interval_of(pid),
    ;

    /// All facts.
    fn enumerate_all(&self) -> (r: Vec<FactRef<'_>>)
        requires
            self.inv(),
        ensures
            r@.len() == self.listed_facts().len(),
            forall|i: int|
                0 <= i < r@.len() ==> (#[trigger] r@[i]).clause.wf() && fact_ref_view(r@[i])
                    == self.listed_facts()[i],
    ;
}

} // verus!
