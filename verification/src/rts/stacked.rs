//! `Stacked<B, T>`, a two-layer view: a base lookup below and a stacked
//! lookup or definer above. Facts with ids below the boundary (the stacked
//! layer's starting id) come from the base, the others from the stacked
//! layer.
use vstd::prelude::*;
use crate::rts::id::{Id, Pid};
use crate::rts::fact::{Clause, FactRef};
use crate::rts::lookup::{fact_ref_view, Interval, Lookup};
use crate::rts::define::Define;
use crate::rts::factset::bytes_eq;

verus! {

/// A base lookup with a stacked layer on top of it.
pub struct Stacked<B, T> {
    base: Box<B>,
    stacked: T,
    mid: Id,
}

impl<B: Lookup, T: Lookup> Stacked<B, T> {
    /// The base layer's invariant.
    pub closed spec fn base_inv(&self) -> bool {
        self.base.inv()
    }

    /// What the base layer finds under a predicate and key.
    pub closed spec fn base_id_of_key(&self, pid: Pid, key: Seq<u8>) -> Option<Id> {
        self.base.id_of_key(pid, key)
    }

    /// What the base layer holds under an id.
    pub closed spec fn base_fact_of_id(&self, id: Id) -> Option<(Pid, Seq<u8>, Seq<u8>)> {
        self.base.fact_of_id(id)
    }

    /// The base layer's lowest id.
    pub closed spec fn base_lowest_id(&self) -> Id {
        self.base.lowest_id()
    }

    /// The base layer's interval for a predicate.
    pub closed spec fn base_interval_of(&self, pid: Pid) -> Interval {
        self.base.interval_of(pid)
    }

    /// The base layer's facts.
    pub closed spec fn base_listed_facts(&self) -> Seq<(Id, Pid, Seq<u8>, Seq<u8>)> {
        self.base.listed_facts()
    }

    /// Both stacks have the same base layer.
    pub closed spec fn same_base(&self, other: Self) -> bool {
        self.base == other.base
    }

    /// The stacked layer.
    pub closed spec fn stacked_layer(&self) -> T {
        self.stacked
    }

    /// The boundary between the layers.
    pub closed spec fn boundary(&self) -> Id {
        self.mid
    }
}

impl<B: Lookup, T: Lookup> Stacked<B, T> {
    /// Stack `stacked` on `base`; the boundary is the stacked layer's
    /// starting id.
    pub fn new(base: Box<B>, stacked: T) -> (r: Self)
        requires
            stacked.inv(),
        ensures
            r.base_inv() == base.inv(),
            forall|pid: Pid, key: Seq<u8>| r.base_id_of_key(pid, key) == base.id_of_key(pid, key),
            forall|id: Id| r.base_fact_of_id(id) == base.fact_of_id(id),
            r.base_lowest_id() == base.lowest_id(),
            forall|pid: Pid| r.base_interval_of(pid) == base.interval_of(pid),
            r.base_listed_facts() == base.listed_facts(),
            r.stacked_layer() == stacked,
            r.boundary() == stacked.lowest_id(),
    {
        let mid = stacked.starting_id();
        Stacked { base, stacked, mid }
    }
}

impl<B: Lookup, T: Lookup> Lookup for Stacked<B, T> {
    open spec fn inv(&self) -> bool {
        self.base_inv() && self.stacked_layer().inv()
    }

    /// The stacked layer first; the base only for ids below the boundary.
    open spec fn id_of_key(&self, pid: Pid, key: Seq<u8>) -> Option<Id> {
        match self.stacked_layer().id_of_key(pid, key) {
            Some(id) => Some(id),
            None => match self.base_id_of_key(pid, key) {
                Some(id) => if id.0 < self.boundary().0 {
                    Some(id)
                } else {
                    None
                },
                None => None,
            },
        }
    }

    open spec fn fact_of_id(&self, id: Id) -> Option<(Pid, Seq<u8>, Seq<u8>)> {
        if id.0 < self.boundary().0 {
            self.base_fact_of_id(id)
        } else {
            self.stacked_layer().fact_of_id(id)
        }
    }

    open spec fn lowest_id(&self) -> Id {
        self.base_lowest_id()
    }

    open spec fn next_free_id(&self) -> Id {
        self.stacked_layer().next_free_id()
    }

    /// From the start of the base's interval to the end of the stacked
    /// layer's.
    open spec fn interval_of(&self, pid: Pid) -> Interval {
        Interval {
            start: self.base_interval_of(pid).start,
            end: self.stacked_layer().interval_of(pid).end,
        }
    }

    open spec fn listed_facts(&self) -> Seq<(Id, Pid, Seq<u8>, Seq<u8>)> {
        self.base_listed_facts() + self.stacked_layer().listed_facts()
    }

    fn id_by_key(&self, pid: Pid, key: &[u8]) -> (r: Option<Id>) {
        if let Some(id) = self.stacked.id_by_key(pid, key) {
            return Some(id);
        }
        match self.base.id_by_key(pid, key) {
            Some(id) => if id.0 < self.mid.0 {
                Some(id)
            } else {
                None
            },
            None => None,
        }
    }

    fn type_by_id(&self, id: Id) -> (r: Option<Pid>) {
        if id.0 < self.mid.0 {
            self.base.type_by_id(id)
        } else {
            self.stacked.type_by_id(id)
        }
    }

    fn fact_by_id(&self, id: Id) -> (r: Option<(Pid, Clause<'_>)>) {
        if id.0 < self.mid.0 {
            self.base.fact_by_id(id)
        } else {
            self.stacked.fact_by_id(id)
        }
    }

    fn starting_id(&self) -> (r: Id) {
        self.base.starting_id()
    }

    fn first_free_id(&self) -> (r: Id) {
        self.stacked.first_free_id()
    }

    fn count(&self, pid: Pid) -> (r: Interval) {
        self.base.count(pid) + self.stacked.count(pid)
    }

    fn enumerate_all(&self) -> (r: Vec<FactRef<'_>>) {
        let mut all = self.base.enumerate_all();
        let mut upper = self.stacked.enumerate_all();
        let ghost lower_view = all@;
        let ghost upper_view = upper@;
        all.append(&mut upper);
        proof {
            assert(all@ =~= lower_view + upper_view);
            assert forall|i: int| 0 <= i < all@.len() implies (#[trigger] all@[i]).clause.wf()
                && fact_ref_view(all@[i]) == self.listed_facts()[i] by {
                if i >= lower_view.len() {
                    assert(all@[i] == upper_view[i - lower_view.len()]);
                } else {
                    assert(all@[i] == lower_view[i]);
                }
            }
        }
        all
    }
}

/// What a stacked view counts for a predicate spans both layers: its
/// interval starts where the base layer's interval for the predicate
/// starts and ends where the upper layer's ends, as adding the two
/// intervals gives.
pub proof fn lemma_stacked_interval<B: Lookup, T: Lookup>(s: Stacked<B, T>, pid: Pid)
    ensures
        s.interval_of(pid).start == s.base_interval_of(pid).start,
        s.interval_of(pid).end == s.stacked_layer().interval_of(pid).end,
{
}

/// The base layer that `Stacked::new` is given is the one whose interval a
/// stacked view's count starts from.
pub proof fn lemma_stacked_interval_from_base<B: Lookup, T: Lookup>(
    base: Box<B>,
    stacked: T,
    s: Stacked<B, T>,
    pid: Pid,
)
    requires
        forall|p: Pid| #[trigger] s.base_interval_of(p) == base.interval_of(p),
        s.stacked_layer() == stacked,
    ensures
        s.interval_of(pid).start == base.interval_of(pid).start,
        s.interval_of(pid).end == stacked.interval_of(pid).end,
{
}

impl<B: Lookup, T: Define> Stacked<B, T> {
    /// `define` answers from the base: the clause refers below the
    /// boundary and its key is in the base below the boundary.
    pub open spec fn answers_from_base(&self, pid: Pid, key: Seq<u8>, max_ref: Option<Id>) -> bool {
        &&& max_ref matches Some(r) && r.0 < self.boundary().0
        &&& self.base_id_of_key(pid, key) matches Some(id) && id.0 < self.boundary().0
    }
}

impl<B: Lookup, T: Define> Define for Stacked<B, T> {
    open spec fn can_define(&self) -> bool {
        self.stacked_layer().can_define()
    }

    /// When answering from the base: the base's id if the clause's value
    /// equals the base fact's value, and `None` otherwise, a conflict.
    /// Else what the stacked layer returns.
    open spec fn define_result(
        &self,
        pid: Pid,
        key: Seq<u8>,
        value: Seq<u8>,
        value_size: nat,
        max_ref: Option<Id>,
    ) -> Option<Id> {
        if self.answers_from_base(pid, key, max_ref) {
            let id = self.base_id_of_key(pid, key).unwrap();
            match self.base_fact_of_id(id) {
                Some(f) => if value == f.2 {
                    Some(id)
                } else {
                    None
                },
                None => None,
            }
        } else {
            self.stacked_layer().define_result(pid, key, value, value_size, max_ref)
        }
    }

    open spec fn define_effect(
        &self,
        after: Self,
        pid: Pid,
        key: Seq<u8>,
        value: Seq<u8>,
        value_size: nat,
        max_ref: Option<Id>,
    ) -> bool {
        &&& after.same_base(*self)
        &&& after.boundary() == self.boundary()
        &&& if self.answers_from_base(pid, key, max_ref) {
            after.stacked_layer() == self.stacked_layer()
        } else {
            self.stacked_layer().define_effect(
                after.stacked_layer(),
                pid,
                key,
                value,
                value_size,
                max_ref,
            )
        }
    }

    fn define(&mut self, pid: Pid, clause: Clause<'_>, max_ref: Option<Id>) -> (r: Option<Id>) {
        let below = match max_ref {
            Some(r) => r.0 < self.mid.0,
            None => false,
        };
        if below {
            if let Some(id) = self.base.id_by_key(pid, clause.key()) {
                if id.0 < self.mid.0 {
                    return match self.base.fact_by_id(id) {
                        Some((_, found)) => {
                            if bytes_eq(clause.value(), found.value()) {
                                Some(id)
                            } else {
                                None
                            }
                        },
                        None => None,
                    };
                }
            }
        }
        self.stacked.define(pid, clause, max_ref)
    }
}

} // verus!
