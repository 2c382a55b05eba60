//! The write interface: a `Lookup` that facts can be defined into.
use vstd::prelude::*;
use crate::rts::id::{Id, Pid};
use crate::rts::fact::Clause;
use crate::rts::lookup::Lookup;

verus! {

/// A lookup that facts can be defined into.
///
/// `define` returns the id of an existing fact with the same key and value,
/// the id of a newly inserted fact, or `None` when a fact with the same key
/// but a different value exists. `max_ref` is the highest fact id the
/// clause refers to; `None` is always safe. An implementation describes
/// the result and the new state through the spec functions.
pub trait Define: Lookup + Sized {
    /// Room to define one more fact.
    spec fn can_define(&self) -> bool;

    /// What `define` returns for a clause with this key, value and recorded
    /// value size.
    spec fn define_result(
        &self,
        pid: Pid,
        key: Seq<u8>,
        value: Seq<u8>,
        value_size: nat,
        max_ref: Option<Id>,
    ) -> Option<Id>;

    /// Whether `after` is the state that `define` leaves.
    spec fn define_effect(
        &self,
        after: Self,
        pid: Pid,
        key: Seq<u8>,
        value: Seq<u8>,
        value_size: nat,
        max_ref: Option<Id>,
    ) -> bool;

    /// Add a fact and return its id.
    fn define(&mut self, pid: Pid, clause: Clause<'_>, max_ref: Option<Id>) -> (r: Option<Id>)
        requires
            old(self).inv(),
            old(self).can_define(),
            clause.wf(),
            clause.key_view().len() <= u32::MAX,
            clause.value_view().len() <= u32::MAX,
        ensures
            final(self).inv(),
            r == old(self).define_result(
                pid,
                clause.key_view(),
                clause.value_view(),
                clause.value_len() as nat,
                max_ref,
            ),
            old(self).define_effect(
                *final(self),
                pid,
                clause.key_view(),
                clause.value_view(),
                clause.value_len() as nat,
                max_ref,
            ),
    ;
}

} // verus!
