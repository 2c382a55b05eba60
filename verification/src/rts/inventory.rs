//! Predicates and the inventory of an open database: each predicate's
//! schema name and version and the subroutines that typecheck and
//! traverse its facts, kept in a dense array indexed by predicate id.
use vstd::prelude::*;
use std::sync::Arc;
use vstd::std_specs::cmp::PartialEqSpecImpl;
use crate::rts::id::Pid;
use crate::rts::bytecode::vm::Subroutine;
use crate::rts::bytecode::frame::Frame;

verus! {

/// A predicate of an open database.
#[derive(Debug)]
pub struct Predicate {
    /// The predicate's id.
    pub id: Pid,
    /// Its schema name, such as `src.File`.
    pub name: String,
    /// Its schema version.
    pub version: i32,
    /// The subroutine that typechecks a fact's clause.
    pub typechecker: Arc<Subroutine>,
    /// The subroutine that visits the facts a clause refers to.
    pub traverser: Arc<Subroutine>,
}

impl Predicate {
    pub fn new(
        id: Pid,
        name: &str,
        version: i32,
        typechecker: Subroutine,
        traverser: Subroutine,
    ) -> (r: Self)
        ensures
            r.id == id,
            r.name@ == name@,
            r.version == version,
            *r.typechecker == typechecker,
            *r.traverser == traverser,
    {
        Predicate {
            id,
            name: name.to_owned(),
            version,
            typechecker: Arc::new(typechecker),
            traverser: Arc::new(traverser),
        }
    }
}

impl Predicate {
    /// What a typecheck returns once the typechecker's run is done: the
    /// bytes of the first output and the key size the run left in register
    /// 0; with no outputs, no bytes and key size 0.
    pub fn typecheck_result(frame: &Frame) -> (r: (Vec<u8>, usize))
        requires
            frame.n_outputs > 0 ==> frame.outputs@.len() > 0,
        ensures
            r.0@ == (if frame.n_outputs > 0 {
                frame.out_bytes()[0]
            } else {
                Seq::empty()
            }),
            r.1 == (if frame.n_outputs > 0 && frame.regs@.len() > 0 {
                frame.regs@[0] as usize
            } else {
                0
            }),
    {
        let key_size = if frame.n_outputs > 0 && frame.regs.len() > 0 {
            frame.reg(0) as usize
        } else {
            0
        };
        let output = if frame.n_outputs > 0 {
            vstd::slice::slice_to_vec(frame.output(0).as_bytes())
        } else {
            Vec::new()
        };
        (output, key_size)
    }
}

/// Two predicates are equal when their ids, names and versions are.
impl PartialEq for Predicate {
    fn eq(&self, other: &Self) -> (r: bool) {
        self.id == other.id && self.name == other.name && self.version == other.version
    }
}

impl PartialEqSpecImpl for Predicate {
    open spec fn obeys_eq_spec() -> bool {
        true
    }

    open spec fn eq_spec(&self, other: &Self) -> bool {
        self.id == other.id && self.name@ == other.name@ && self.version == other.version
    }
}

impl Eq for Predicate {
}

/// The predicates among `slots`, in order.
pub open spec fn present(slots: Seq<Option<Predicate>>) -> Seq<Predicate>
    decreases slots.len(),
{
    if slots.len() == 0 {
        Seq::empty()
    } else {
        let rest = present(slots.drop_last());
        match slots.last() {
            Some(p) => rest.push(p),
            None => rest,
        }
    }
}

/// The last predicate in `ps` with id `pid`.
pub open spec fn last_with(ps: Seq<Predicate>, pid: u64) -> Option<Predicate>
    decreases ps.len(),
{
    if ps.len() == 0 {
        None
    } else if ps.last().id.0 == pid {
        Some(ps.last())
    } else {
        last_with(ps.drop_last(), pid)
    }
}

/// The predicate that `last_with` finds has the id it was asked for.
pub proof fn lemma_last_with_id(ps: Seq<Predicate>, pid: u64)
    ensures
        last_with(ps, pid) matches Some(p) ==> p.id.0 == pid,
    decreases ps.len(),
{
    if ps.len() > 0 && ps.last().id.0 != pid {
        lemma_last_with_id(ps.drop_last(), pid);
    }
}

/// `last_with` finds nothing for an id that no predicate has.
pub proof fn lemma_last_with_absent(ps: Seq<Predicate>, pid: u64)
    requires
        forall|i: int| 0 <= i < ps.len() ==> (#[trigger] ps[i]).id.0 != pid,
    ensures
        last_with(ps, pid) is None,
    decreases ps.len(),
{
    if ps.len() > 0 {
        assert(ps.last() == ps[ps.len() - 1]);
        lemma_last_with_absent(ps.drop_last(), pid);
    }
}

/// The predicates of a database, indexed by predicate id. Slot `i` holds
/// the predicate with id `first_id + i`, if there is one.
pub struct Inventory {
    first_id: Pid,
    preds: Vec<Option<Predicate>>,
}

impl Inventory {
    /// The id of the first slot; invalid when there are no slots.
    pub closed spec fn first_pid(&self) -> Pid {
        self.first_id
    }

    /// The slots, one per id from the first on.
    pub closed spec fn slots(&self) -> Seq<Option<Predicate>> {
        self.preds@
    }

    #[verifier::type_invariant]
    closed spec fn slots_match_ids(&self) -> bool {
        forall|i: int|
            0 <= i < self.preds@.len() ==> (#[trigger] self.preds@[i] matches Some(p) ==> p.id.0
                == self.first_id.0 + i)
    }

    /// The predicate registered under `pid`, if any.
    pub open spec fn pred_at(&self, pid: Pid) -> Option<Predicate> {
        let first = self.first_pid().0;
        if first == 0 || pid.0 < first || pid.0 - first >= self.slots().len() {
            None
        } else {
            self.slots()[pid.0 - first]
        }
    }

    /// An inventory without predicates.
    pub fn new() -> (r: Self)
        ensures
            r.first_pid() == Pid(0),
            r.slots() == Seq::<Option<Predicate>>::empty(),
    {
        Inventory { first_id: Pid::invalid(), preds: Vec::new() }
    }

    /// The inventory of `predicates`, which need not be sorted or
    /// contiguous. The slots run from the least id to the greatest; where
    /// two predicates share an id, the later one is kept.
    pub fn from_predicates(predicates: Vec<Predicate>) -> (r: Self)
        requires
            forall|i: int, j: int|
                0 <= i < predicates@.len() && 0 <= j < predicates@.len() ==> #[trigger] predicates@[i].id.0
                    - #[trigger] predicates@[j].id.0 < usize::MAX,
        ensures
            predicates@.len() == 0 ==> r.first_pid() == Pid(0) && r.slots().len() == 0,
            predicates@.len() > 0 ==> {
                &&& forall|i: int|
                    0 <= i < predicates@.len() ==> r.first_pid().0 <= #[trigger] predicates@[i].id.0
                        < r.first_pid().0 + r.slots().len()
                &&& exists|i: int|
                    0 <= i < predicates@.len() && #[trigger] predicates@[i].id.0 == r.first_pid().0
                &&& exists|i: int|
                    0 <= i < predicates@.len() && #[trigger] predicates@[i].id.0 + 1
                        == r.first_pid().0 + r.slots().len()
            },
            forall|i: int|
                0 <= i < r.slots().len() ==> #[trigger] r.slots()[i] == last_with(
                    predicates@,
                    (r.first_pid().0 + i) as u64,
                ),
            r.first_pid().0 != 0 ==> forall|pid: Pid| #[trigger]
                r.pred_at(pid) == last_with(predicates@, pid.0),
    {
        let ghost ps = predicates@;
        let n = predicates.len();
        if n == 0 {
            return Inventory::new();
        }
        let mut min_pid: u64 = predicates[0].id.0;
        let mut max_pid: u64 = predicates[0].id.0;
        let ghost mut min_at: int = 0;
        let ghost mut max_at: int = 0;
        let mut i: usize = 1;
        while i < n
            invariant
                n == predicates@.len(),
                1 <= i <= n,
                0 <= min_at < n,
                0 <= max_at < n,
                predicates@[min_at].id.0 == min_pid,
                predicates@[max_at].id.0 == max_pid,
                forall|j: int| 0 <= j < i ==> min_pid <= #[trigger] predicates@[j].id.0 <= max_pid,
            decreases n - i,
        {
            let p = predicates[i].id.0;
            if p < min_pid {
                min_pid = p;
                proof {
                    min_at = i as int;
                }
            }
            if p > max_pid {
                max_pid = p;
                proof {
                    max_at = i as int;
                }
            }
            i = i + 1;
        }
        assert(predicates@[max_at].id.0 - predicates@[min_at].id.0 < usize::MAX);
        let size = (max_pid - min_pid + 1) as usize;
        let mut preds: Vec<Option<Predicate>> = Vec::new();
        let mut k: usize = 0;
        while k < size
            invariant
                k <= size,
                preds@.len() == k,
                forall|j: int| 0 <= j < k ==> (#[trigger] preds@[j]) is None,
            decreases size - k,
        {
            preds.push(None);
            k = k + 1;
        }
        // Take the predicates out in reverse, then out of that in order.
        let mut rev: Vec<Predicate> = Vec::new();
        let mut remaining = predicates;
        while remaining.len() > 0
            invariant
                remaining@ == ps.take(n - rev@.len()),
                rev@.len() <= n,
                n == ps.len(),
                forall|j: int| 0 <= j < rev@.len() ==> #[trigger] rev@[j] == ps[n - 1 - j],
            decreases remaining@.len(),
        {
            let ghost before = remaining@;
            let p = remaining.pop().unwrap();
            assert(remaining@ =~= ps.take(n - rev@.len() - 1));
            rev.push(p);
        }
        let mut done: usize = 0;
        while rev.len() > 0
            invariant
                n == ps.len(),
                done + rev@.len() == n,
                forall|t: int| 0 <= t < rev@.len() ==> #[trigger] rev@[t] == ps[n - 1 - t],
                preds@.len() == size,
                size == max_pid - min_pid + 1,
                forall|j: int| 0 <= j < n ==> min_pid <= #[trigger] ps[j].id.0 <= max_pid,
                forall|s: int|
                    0 <= s < size ==> #[trigger] preds@[s] == last_with(
                        ps.take(done as int),
                        (min_pid + s) as u64,
                    ),
            decreases rev@.len(),
        {
            let p = rev.pop().unwrap();
            assert(p == ps[done as int]);
            let index = (p.id.0 - min_pid) as usize;
            proof {
                assert forall|s: int| 0 <= s < size implies #[trigger] last_with(
                    ps.take(done + 1),
                    (min_pid + s) as u64,
                ) == if s == index {
                    Some(ps[done as int])
                } else {
                    last_with(ps.take(done as int), (min_pid + s) as u64)
                } by {
                    assert(ps.take(done + 1).drop_last() =~= ps.take(done as int));
                }
            }
            preds.set(index, Some(p));
            done = done + 1;
        }
        assert(ps.take(n as int) =~= ps);
        assert forall|s: int| 0 <= s < size implies (#[trigger] preds@[s] matches Some(p) ==> p.id.0
            == min_pid + s) by {
            lemma_last_with_id(ps, (min_pid + s) as u64);
        }
        let r = Inventory { first_id: Pid(min_pid), preds };
        assert forall|pid: Pid| min_pid != 0 implies #[trigger] r.pred_at(pid) == last_with(
            ps,
            pid.0,
        ) by {
            if pid.0 < min_pid || pid.0 > max_pid {
                lemma_last_with_absent(ps, pid.0);
            } else {
                assert(r.slots()[pid.0 - min_pid] == preds@[pid.0 - min_pid]);
            }
        }
        r
    }

    /// The predicate with id `pid`, if there is one.
    pub fn lookup(&self, pid: Pid) -> (r: Option<&Predicate>)
        ensures
            r == match self.pred_at(pid) {
                Some(p) => Some(&p),
                None => None,
            },
            r matches Some(p) ==> p.id == pid,
    {
        proof {
            use_type_invariant(self);
        }
        if self.first_id.0 == 0 || pid.0 < self.first_id.0 {
            return None;
        }
        let diff = pid.0 - self.first_id.0;
        if diff < self.preds.len() as u64 {
            self.preds[diff as usize].as_ref()
        } else {
            None
        }
    }

    /// The id of the first slot.
    pub fn first_id(&self) -> (r: Pid)
        ensures
            r == self.first_pid(),
    {
        self.first_id
    }

    /// The id after the last slot, or the invalid id when there are no
    /// slots.
    pub fn first_free_id(&self) -> (r: Pid)
        requires
            self.first_pid().0 + self.slots().len() <= u64::MAX,
        ensures
            r == if self.first_pid().0 == 0 {
                Pid(0)
            } else {
                Pid((self.first_pid().0 + self.slots().len()) as u64)
            },
    {
        if self.first_id.0 == 0 {
            return Pid::invalid();
        }
        Pid(self.first_id.0 + self.preds.len() as u64)
    }

    /// The predicates, skipping empty slots, in order of id.
    pub fn predicates(&self) -> (r: Vec<&Predicate>)
        ensures
            r@.len() == present(self.slots()).len(),
            forall|i: int| 0 <= i < r@.len() ==> *(#[trigger] r@[i]) == present(self.slots())[i],
    {
        let mut r: Vec<&Predicate> = Vec::new();
        let mut i: usize = 0;
        while i < self.preds.len()
            invariant
                i <= self.preds@.len(),
                r@.len() == present(self.preds@.take(i as int)).len(),
                forall|j: int|
                    0 <= j < r@.len() ==> *(#[trigger] r@[j]) == present(
                        self.preds@.take(i as int),
                    )[j],
            decreases self.preds@.len() - i,
        {
            assert(self.preds@.take(i + 1).drop_last() =~= self.preds@.take(i as int));
            match &self.preds[i] {
                Some(p) => {
                    r.push(p);
                },
                None => {},
            }
            i = i + 1;
        }
        assert(self.preds@.take(i as int) =~= self.preds@);
        r
    }

    /// How many predicates there are, not counting empty slots.
    pub fn len(&self) -> (r: usize)
        ensures
            r == present(self.slots()).len(),
    {
        let mut count: usize = 0;
        let mut i: usize = 0;
        while i < self.preds.len()
            invariant
                i <= self.preds@.len(),
                count == present(self.preds@.take(i as int)).len(),
                count <= i,
            decreases self.preds@.len() - i,
        {
            assert(self.preds@.take(i + 1).drop_last() =~= self.preds@.take(i as int));
            if self.preds[i].is_some() {
                count = count + 1;
            }
            i = i + 1;
        }
        assert(self.preds@.take(i as int) =~= self.preds@);
        count
    }

    /// Whether there are no predicates.
    pub fn is_empty(&self) -> (r: bool)
        ensures
            r == (present(self.slots()).len() == 0),
    {
        self.len() == 0
    }
}

impl Default for Inventory {
    fn default() -> (r: Self)
        ensures
            r.first_pid() == Pid(0),
            r.slots() == Seq::<Option<Predicate>>::empty(),
    {
        Inventory::new()
    }
}

} // verus!
