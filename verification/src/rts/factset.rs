//! `FactSet`, the two-index fact collection: facts by id in insertion
//! order, and an index from predicate and key to the fact.
use vstd::prelude::*;
use std::collections::HashMap;
use crate::rts::id::{Id, Pid};
use crate::rts::fact::{Clause, Fact, FactRef};
use crate::rts::lookup::{fact_ref_view, Interval, Lookup};
use crate::rts::define::Define;
use crate::rts::binary::{max_output_len, Input, Output};
use crate::rts::nat_codec::{
    encode_nat, front_nat_size, front_nat_value, has_front_nat, lemma_nat_roundtrip,
};

verus! {

broadcast use vstd::std_specs::hash::group_hash_axioms;

/// Predicate, key and value of a stored fact.
pub type FactView = (Pid, Seq<u8>, Seq<u8>);

/// Position of the last fact in `s` with predicate `pid` and key `key`.
pub open spec fn last_index(s: Seq<FactView>, pid: Pid, key: Seq<u8>) -> Option<nat>
    decreases s.len(),
{
    if s.len() == 0 {
        None
    } else if s.last().0 == pid && s.last().1 == key {
        Some((s.len() - 1) as nat)
    } else {
        last_index(s.drop_last(), pid, key)
    }
}

/// Number of different keys among the facts of `s` with predicate `pid`.
pub open spec fn distinct_keys(s: Seq<FactView>, pid: Pid) -> nat
    decreases s.len(),
{
    if s.len() == 0 {
        0
    } else {
        distinct_keys(s.drop_last(), pid) + (if s.last().0 == pid && last_index(
            s.drop_last(),
            pid,
            s.last().1,
        ) is None {
            1nat
        } else {
            0nat
        })
    }
}

/// The list of positions kept for predicate `pid` names, for each key of
/// the predicate, the last fact with that key, each once.
pub open spec fn index_ok(s: Seq<FactView>, pid: Pid, l: Seq<usize>) -> bool {
    &&& l.len() > 0
    &&& l.len() == distinct_keys(s, pid)
    &&& forall|j: int|
        0 <= j < l.len() ==> (#[trigger] l[j]) < s.len() && s[l[j] as int].0 == pid
            && last_index(s, pid, s[l[j] as int].1) == Some(l[j] as nat)
    &&& forall|j: int, k: int| 0 <= j < k < l.len() ==> l[j] != l[k]
}

/// The key index agrees with the facts: every predicate with facts has a
/// list of positions, and every (predicate, key) pair's last fact is in it.
pub open spec fn keys_consistent(m: Map<u64, Seq<usize>>, s: Seq<FactView>) -> bool {
    &&& forall|p: u64| #[trigger] m.contains_key(p) ==> index_ok(s, Pid(p), m[p])
    &&& forall|p: u64| !m.contains_key(p) ==> #[trigger] distinct_keys(s, Pid(p)) == 0
    &&& forall|p: u64, k: Seq<u8>| #[trigger]
        last_index(s, Pid(p), k) is Some ==> m.contains_key(p) && m[p].contains(
            last_index(s, Pid(p), k).unwrap() as usize,
        )
}

/// Where the last fact with a pair is.
proof fn lemma_last_index_found(s: Seq<FactView>, pid: Pid, key: Seq<u8>)
    ensures
        last_index(s, pid, key) matches Some(i) ==> i < s.len() && s[i as int].0 == pid
            && s[i as int].1 == key,
        last_index(s, pid, key) is None ==> forall|i: int|
            0 <= i < s.len() ==> !(#[trigger] s[i].0 == pid && s[i].1 == key),
    decreases s.len(),
{
    if s.len() > 0 {
        lemma_last_index_found(s.drop_last(), pid, key);
        if last_index(s, pid, key) is None {
            assert forall|i: int| 0 <= i < s.len() implies !(#[trigger] s[i].0 == pid && s[i].1
                == key) by {
                if i < s.len() - 1 {
                    assert(s[i] == s.drop_last()[i]);
                }
            }
        }
    }
}

/// Appending a fact makes it the last one with its pair.
proof fn lemma_last_index_push(s: Seq<FactView>, f: FactView, pid: Pid, key: Seq<u8>)
    ensures
        last_index(s.push(f), pid, key) == (if f.0 == pid && f.1 == key {
            Some(s.len())
        } else {
            last_index(s, pid, key)
        }),
{
    assert(s.push(f).drop_last() =~= s);
}

/// Appending a fact adds a key to its predicate when the key is new.
proof fn lemma_distinct_push(s: Seq<FactView>, f: FactView, pid: Pid)
    ensures
        distinct_keys(s.push(f), pid) == distinct_keys(s, pid) + (if f.0 == pid && last_index(
            s,
            pid,
            f.1,
        ) is None {
            1nat
        } else {
            0nat
        }),
{
    assert(s.push(f).drop_last() =~= s);
}

/// Appending a fact with a new pair: the pair's predicate gets the new
/// position added to its list.
proof fn lemma_index_new_key(m: Map<u64, Seq<usize>>, s: Seq<FactView>, f: FactView)
    requires
        keys_consistent(m, s),
        last_index(s, f.0, f.1) is None,
        s.len() < usize::MAX,
    ensures
        keys_consistent(
            m.insert(
                f.0.0,
                (if m.contains_key(f.0.0) {
                    m[f.0.0]
                } else {
                    Seq::empty()
                }).push(s.len() as usize),
            ),
            s.push(f),
        ),
{
    let n = s.len();
    let p0 = f.0.0;
    let old_l = if m.contains_key(p0) {
        m[p0]
    } else {
        Seq::<usize>::empty()
    };
    let m2 = m.insert(p0, old_l.push(n as usize));
    let s2 = s.push(f);
    assert(s2.drop_last() =~= s);
    assert forall|p: u64| #[trigger] m2.contains_key(p) implies index_ok(s2, Pid(p), m2[p]) by {
        lemma_distinct_push(s, f, Pid(p));
        if p == p0 {
            let l = m2[p];
            if !m.contains_key(p0) {
                assert(distinct_keys(s, Pid(p)) == 0);
            }
            assert forall|j: int| 0 <= j < l.len() implies (#[trigger] l[j]) < s2.len() && s2[l[j]
                as int].0 == Pid(p) && last_index(s2, Pid(p), s2[l[j] as int].1) == Some(
                l[j] as nat,
            ) by {
                if j < l.len() - 1 {
                    assert(l[j] == old_l[j]);
                    let i = l[j] as int;
                    assert(s2[i] == s[i]);
                    lemma_last_index_push(s, f, Pid(p), s[i].1);
                    if s[i].1 == f.1 {
                        assert(last_index(s, Pid(p), s[i].1) == Some(i as nat));
                    }
                } else {
                    lemma_last_index_push(s, f, Pid(p), f.1);
                }
            }
        } else {
            let l = m[p];
            assert(m2[p] == l);
            assert forall|j: int| 0 <= j < l.len() implies (#[trigger] l[j]) < s2.len() && s2[l[j]
                as int].0 == Pid(p) && last_index(s2, Pid(p), s2[l[j] as int].1) == Some(
                l[j] as nat,
            ) by {
                let i = l[j] as int;
                assert(s2[i] == s[i]);
                lemma_last_index_push(s, f, Pid(p), s[i].1);
            }
        }
    }
    assert forall|p: u64| !m2.contains_key(p) implies #[trigger] distinct_keys(s2, Pid(p)) == 0 by {
        lemma_distinct_push(s, f, Pid(p));
    }
    assert forall|p: u64, k: Seq<u8>| #[trigger]
        last_index(s2, Pid(p), k) is Some implies m2.contains_key(p) && m2[p].contains(
        last_index(s2, Pid(p), k).unwrap() as usize,
    ) by {
        lemma_last_index_push(s, f, Pid(p), k);
        if p == p0 && k == f.1 {
            assert(m2[p][old_l.len() as int] == n as usize);
        } else {
            let i = last_index(s, Pid(p), k).unwrap() as usize;
            let l = m[p];
            let j = choose|j: int| 0 <= j < l.len() && l[j] == i;
            if p == p0 {
                assert(m2[p][j] == i);
            } else {
                assert(m2[p] == l);
            }
        }
    }
}

/// Appending a fact whose pair is already indexed at position `j` of its
/// predicate's list: the new position takes its place.
proof fn lemma_index_replace_key(m: Map<u64, Seq<usize>>, s: Seq<FactView>, f: FactView, j: int)
    requires
        keys_consistent(m, s),
        m.contains_key(f.0.0),
        0 <= j < m[f.0.0].len(),
        s[m[f.0.0][j] as int].1 == f.1,
        s.len() < usize::MAX,
    ensures
        keys_consistent(m.insert(f.0.0, m[f.0.0].update(j, s.len() as usize)), s.push(f)),
{
    let n = s.len();
    let p0 = f.0.0;
    let old_l = m[p0];
    let m2 = m.insert(p0, old_l.update(j, n as usize));
    let s2 = s.push(f);
    let ij = old_l[j] as int;
    assert(s2.drop_last() =~= s);
    assert(index_ok(s, Pid(p0), old_l));
    assert(last_index(s, Pid(p0), f.1) == Some(ij as nat));
    assert forall|p: u64| #[trigger] m2.contains_key(p) implies index_ok(s2, Pid(p), m2[p]) by {
        lemma_distinct_push(s, f, Pid(p));
        if p == p0 {
            let l = m2[p];
            assert forall|a: int| 0 <= a < l.len() implies (#[trigger] l[a]) < s2.len() && s2[l[a]
                as int].0 == Pid(p) && last_index(s2, Pid(p), s2[l[a] as int].1) == Some(
                l[a] as nat,
            ) by {
                if a != j {
                    assert(l[a] == old_l[a]);
                    let i = l[a] as int;
                    assert(s2[i] == s[i]);
                    lemma_last_index_push(s, f, Pid(p), s[i].1);
                    if s[i].1 == f.1 {
                        assert(old_l[a] != old_l[j]);
                    }
                } else {
                    lemma_last_index_push(s, f, Pid(p), f.1);
                }
            }
            assert forall|a: int, b: int| 0 <= a < b < l.len() implies l[a] != l[b] by {
                assert(old_l[a] < n && old_l[b] < n);
            }
        } else {
            let l = m[p];
            assert(m2[p] == l);
            assert forall|a: int| 0 <= a < l.len() implies (#[trigger] l[a]) < s2.len() && s2[l[a]
                as int].0 == Pid(p) && last_index(s2, Pid(p), s2[l[a] as int].1) == Some(
                l[a] as nat,
            ) by {
                let i = l[a] as int;
                assert(s2[i] == s[i]);
                lemma_last_index_push(s, f, Pid(p), s[i].1);
            }
        }
    }
    assert forall|p: u64| !m2.contains_key(p) implies #[trigger] distinct_keys(s2, Pid(p)) == 0 by {
        lemma_distinct_push(s, f, Pid(p));
    }
    assert forall|p: u64, k: Seq<u8>| #[trigger]
        last_index(s2, Pid(p), k) is Some implies m2.contains_key(p) && m2[p].contains(
        last_index(s2, Pid(p), k).unwrap() as usize,
    ) by {
        lemma_last_index_push(s, f, Pid(p), k);
        if p == p0 && k == f.1 {
            assert(m2[p][j] == n as usize);
        } else {
            let i = last_index(s, Pid(p), k).unwrap() as usize;
            lemma_last_index_found(s, Pid(p), k);
            let l = m[p];
            let a = choose|a: int| 0 <= a < l.len() && l[a] == i;
            if p == p0 {
                assert(a != j);
                assert(m2[p][a] == i);
            } else {
                assert(m2[p] == l);
            }
        }
    }
}


/// Whether two byte strings are equal.
pub fn bytes_eq(a: &[u8], b: &[u8]) -> (r: bool)
    ensures
        r == (a@ == b@),
{
    if a.len() != b.len() {
        return false;
    }
    let mut i: usize = 0;
    while i < a.len()
        invariant
            i <= a@.len() == b@.len(),
            forall|k: int| 0 <= k < i ==> a@[k] == b@[k],
        decreases a@.len() - i,
    {
        if a[i] != b[i] {
            return false;
        }
        i = i + 1;
    }
    assert(a@ =~= b@);
    true
}

/// What a stored fact shows: predicate, key and value.
pub open spec fn fact_view(f: Box<Fact>) -> FactView {
    (f.fact_pid(), f.key_view(), f.value_view())
}

/// A set of facts with two indexes: by id, in insertion order starting at
/// `starting_id`, and by predicate and key.
pub struct FactSet {
    starting_id: Id,
    facts: Vec<Box<Fact>>,
    keys: HashMap<u64, Vec<usize>>,
}

impl FactSet {
    /// The id of the first fact.
    pub closed spec fn first(&self) -> Id {
        self.starting_id
    }

    /// The stored facts, in insertion order.
    pub closed spec fn stored(&self) -> Seq<FactView> {
        self.facts@.map_values(|f: Box<Fact>| fact_view(f))
    }

    /// The key index, by predicate.
    closed spec fn key_lists(&self) -> Map<u64, Seq<usize>> {
        self.keys@.map_values(|l: Vec<usize>| l@)
    }

    /// The ids of the facts fit in 64 bits, the facts fit in memory, every
    /// fact is well formed, and the key index agrees with the facts.
    pub closed spec fn wf(&self) -> bool {
        &&& self.starting_id.0 + self.facts@.len() <= u64::MAX
        &&& self.facts@.len() <= usize::MAX
        &&& forall|i: int| 0 <= i < self.facts@.len() ==> (#[trigger] self.facts@[i]).wf()
        &&& keys_consistent(self.key_lists(), self.stored())
    }

    /// Create a new empty fact set whose first fact gets `starting_id`.
    pub fn new(starting_id: Id) -> (r: Self)
        ensures
            r.wf(),
            r.first() == starting_id,
            r.stored() == Seq::<FactView>::empty(),
    {
        let r = FactSet { starting_id, facts: Vec::new(), keys: HashMap::new() };
        assert(r.stored() =~= Seq::<FactView>::empty());
        assert(r.key_lists() =~= Map::<u64, Seq<usize>>::empty());
        r
    }

    /// Create a fact set starting at the lowest valid id.
    pub fn new_from_lowest() -> (r: Self)
        ensures
            r.wf(),
            r.first() == Id(1024),
            r.stored() == Seq::<FactView>::empty(),
    {
        Self::new(Id::lowest())
    }

    /// The number of facts.
    pub fn len(&self) -> (r: usize)
        ensures
            r == self.stored().len(),
    {
        self.facts.len()
    }

    /// Whether there are no facts.
    pub fn is_empty(&self) -> (r: bool)
        ensures
            r == (self.stored().len() == 0),
    {
        self.facts.len() == 0
    }

    /// The id of the fact at position `index`.
    fn id_for_index(&self, index: usize) -> (r: Id)
        requires
            self.first().0 + index <= u64::MAX,
        ensures
            r.0 == self.first().0 + index,
    {
        Id(self.starting_id.0 + index as u64)
    }

    /// The position of the fact with id `id`, if there is one.
    fn index_for_id(&self, id: Id) -> (r: Option<usize>)
        ensures
            r == (if self.first().0 <= id.0 < self.first().0 + self.stored().len() {
                Some((id.0 - self.first().0) as usize)
            } else {
                None
            }),
    {
        if id.0 < self.starting_id.0 {
            return None;
        }
        let index = Id::distance(self.starting_id, id);
        if index < self.facts.len() as u64 {
            Some(index as usize)
        } else {
            None
        }
    }

    /// The position of the last fact with predicate `pid` and key `key`.
    fn find_key(&self, pid: Pid, key: &[u8]) -> (r: Option<usize>)
        requires
            self.wf(),
        ensures
            r == (match last_index(self.stored(), pid, key@) {
                Some(i) => Some(i as usize),
                None => None,
            }),
    {
        let ghost s = self.stored();
        let ghost m = self.key_lists();
        let n = self.facts.len();
        proof {
            lemma_last_index_found(s, pid, key@);
        }
        match self.keys.get(&pid.0) {
            None => {
                assert(!m.contains_key(pid.0));
                None
            },
            Some(l) => {
                assert(m.contains_key(pid.0) && m[pid.0] == l@);
                assert(index_ok(s, Pid(pid.0), l@));
                let mut j: usize = 0;
                while j < l.len()
                    invariant
                        j <= l@.len(),
                        s == self.stored(),
                        self.wf(),
                        n == s.len(),
                        index_ok(s, pid, l@),
                        forall|a: int| 0 <= a < j ==> s[l@[a] as int].1 != key@,
                    decreases l@.len() - j,
                {
                    let idx = l[j];
                    assert(s[idx as int] == fact_view(self.facts@[idx as int]));
                    assert(self.facts@[idx as int].wf());
                    if bytes_eq(self.facts[idx].key(), key) {
                        return Some(idx);
                    }
                    j = j + 1;
                }
                proof {
                    if let Some(i) = last_index(s, pid, key@) {
                        assert(i < s.len());
                        assert(s.len() == n);
                        assert(s[i as int].1 == key@);
                        assert(m[pid.0].contains(i as usize));
                        let a = choose|a: int| 0 <= a < l@.len() && l@[a] == i as usize;
                        assert(s[l@[a] as int].1 == key@);
                    }
                }
                None
            },
        }
    }

    /// Indexes the fact just appended, under predicate `pid` and key `key`.
    fn index_last_fact(&mut self, pid: Pid, key: &[u8])
        requires
            old(self).facts@.len() > 0,
            old(self).facts@.len() <= usize::MAX,
            old(self).stored().last().0 == pid,
            old(self).stored().last().1 == key@,
            old(self).starting_id.0 + old(self).facts@.len() <= u64::MAX,
            forall|i: int|
                0 <= i < old(self).facts@.len() ==> (#[trigger] old(self).facts@[i]).wf(),
            keys_consistent(old(self).key_lists(), old(self).stored().drop_last()),
        ensures
            final(self).wf(),
            final(self).facts == old(self).facts,
            final(self).starting_id == old(self).starting_id,
    {
        let n = self.facts.len() - 1;
        let ghost s0 = self.stored().drop_last();
        let ghost f = self.stored().last();
        let ghost m0 = self.key_lists();
        proof {
            assert(self.stored() =~= s0.push(f));
            assert(s0.len() == n);
            lemma_last_index_found(s0, pid, key@);
        }
        match self.keys.remove(&pid.0) {
            None => {
                assert(!m0.contains_key(pid.0));
                assert(last_index(s0, pid, key@) is None);
                let mut l: Vec<usize> = Vec::new();
                l.push(n);
                self.keys.insert(pid.0, l);
                proof {
                    lemma_index_new_key(m0, s0, f);
                    assert(self.key_lists() =~= m0.insert(
                        pid.0,
                        Seq::<usize>::empty().push(n as usize),
                    ));
                }
            },
            Some(l0) => {
                let mut l = l0;
                assert(m0.contains_key(pid.0) && m0[pid.0] == l@);
                assert(index_ok(s0, pid, l@));
                let mut j: usize = 0;
                let mut found = false;
                while j < l.len()
                    invariant_except_break
                        j <= l@.len(),
                        !found,
                        l@ == m0[pid.0],
                        index_ok(s0, pid, l@),
                        s0 == self.stored().drop_last(),
                        s0.len() == n,
                        n + 1 == self.facts@.len(),
                        forall|i: int|
                            0 <= i < self.facts@.len() ==> (#[trigger] self.facts@[i]).wf(),
                        forall|a: int| 0 <= a < j ==> s0[l@[a] as int].1 != key@,
                    ensures
                        found ==> j < l@.len() && l@ == m0[pid.0] && s0[l@[j as int] as int].1
                            == key@,
                        !found ==> l@ == m0[pid.0] && forall|a: int|
                            0 <= a < l@.len() ==> s0[l@[a] as int].1 != key@,
                    decreases l@.len() - j,
                {
                    let idx = l[j];
                    assert(s0[idx as int] == fact_view(self.facts@[idx as int]));
                    assert(self.facts@[idx as int].wf());
                    if bytes_eq(self.facts[idx].key(), key) {
                        found = true;
                        break;
                    }
                    j = j + 1;
                }
                if found {
                    let ghost jj = j as int;
                    l.set(j, n);
                    self.keys.insert(pid.0, l);
                    proof {
                        lemma_index_replace_key(m0, s0, f, jj);
                        assert(self.key_lists() =~= m0.insert(
                            pid.0,
                            m0[pid.0].update(jj, n as usize),
                        ));
                    }
                } else {
                    proof {
                        if let Some(i) = last_index(s0, pid, key@) {
                            assert(m0[pid.0].contains(i as usize));
                        }
                    }
                    l.push(n);
                    self.keys.insert(pid.0, l);
                    proof {
                        lemma_index_new_key(m0, s0, f);
                        assert(self.key_lists() =~= m0.insert(pid.0, m0[pid.0].push(n as usize)));
                    }
                }
            },
        }
    }

    /// The number of different keys of a predicate is at most the number
    /// of facts.
    proof fn lemma_distinct_bound(s: Seq<FactView>, pid: Pid)
        ensures
            distinct_keys(s, pid) <= s.len(),
        decreases s.len(),
    {
        if s.len() > 0 {
            Self::lemma_distinct_bound(s.drop_last(), pid);
        }
    }
}

impl Lookup for FactSet {
    open spec fn inv(&self) -> bool {
        self.wf()
    }

    open spec fn id_of_key(&self, pid: Pid, key: Seq<u8>) -> Option<Id> {
        match last_index(self.stored(), pid, key) {
            Some(i) => Some(Id((self.first().0 + i) as u64)),
            None => None,
        }
    }

    open spec fn fact_of_id(&self, id: Id) -> Option<(Pid, Seq<u8>, Seq<u8>)> {
        if self.first().0 <= id.0 < self.first().0 + self.stored().len() {
            Some(self.stored()[id.0 - self.first().0])
        } else {
            None
        }
    }

    open spec fn lowest_id(&self) -> Id {
        self.first()
    }

    open spec fn next_free_id(&self) -> Id {
        Id((self.first().0 + self.stored().len()) as u64)
    }

    open spec fn interval_of(&self, pid: Pid) -> Interval {
        if distinct_keys(self.stored(), pid) == 0 {
            Interval { start: Id(0), end: Id(0) }
        } else {
            Interval {
                start: self.first(),
                end: Id((self.first().0 + distinct_keys(self.stored(), pid)) as u64),
            }
        }
    }

    open spec fn listed_facts(&self) -> Seq<(Id, Pid, Seq<u8>, Seq<u8>)> {
        Seq::new(
            self.stored().len(),
            |i: int|
                (
                    Id((self.first().0 + i) as u64),
                    self.stored()[i].0,
                    self.stored()[i].1,
                    self.stored()[i].2,
                ),
        )
    }

    fn id_by_key(&self, pid: Pid, key: &[u8]) -> (r: Option<Id>) {
        let n = self.facts.len();
        assert(self.stored().len() == n);
        match self.find_key(pid, key) {
            Some(index) => {
                proof {
                    lemma_last_index_found(self.stored(), pid, key@);
                    assert(self.stored().len() == self.facts@.len());
                    assert(last_index(self.stored(), pid, key@) == Some(index as nat));
                }
                Some(self.id_for_index(index))
            },
            None => None,
        }
    }

    fn type_by_id(&self, id: Id) -> (r: Option<Pid>) {
        let n = self.facts.len();
        assert(self.stored().len() == n);
        match self.index_for_id(id) {
            Some(index) => {
                assert(self.stored()[index as int] == fact_view(self.facts@[index as int]));
                Some(self.facts[index].predicate())
            },
            None => None,
        }
    }

    fn fact_by_id(&self, id: Id) -> (r: Option<(Pid, Clause<'_>)>) {
        let n = self.facts.len();
        assert(self.stored().len() == n);
        match self.index_for_id(id) {
            None => None,
            Some(index) => {
                let fact = &self.facts[index];
                assert(fact.wf());
                assert(self.stored()[index as int] == fact_view(self.facts@[index as int]));
                Some((fact.predicate(), fact.clause()))
            },
        }
    }

    fn starting_id(&self) -> (r: Id) {
        self.starting_id
    }

    fn first_free_id(&self) -> (r: Id) {
        Id(self.starting_id.0 + self.facts.len() as u64)
    }

    fn count(&self, pid: Pid) -> (r: Interval) {
        proof {
            Self::lemma_distinct_bound(self.stored(), pid);
        }
        match self.keys.get(&pid.0) {
            None => {
                assert(!self.key_lists().contains_key(pid.0));
                Interval::empty()
            },
            Some(m) => {
                assert(self.key_lists().contains_key(pid.0) && self.key_lists()[pid.0] == m@);
                assert(index_ok(self.stored(), Pid(pid.0), m@));
                Interval::new(self.starting_id, Id(self.starting_id.0 + m.len() as u64))
            },
        }
    }

    fn enumerate_all(&self) -> (r: Vec<FactRef<'_>>) {
        let mut out: Vec<FactRef<'_>> = Vec::new();
        let mut index: usize = 0;
        while index < self.facts.len()
            invariant
                self.wf(),
                index <= self.facts@.len(),
                out@.len() == index,
                forall|i: int|
                    0 <= i < index ==> (#[trigger] out@[i]).clause.wf() && fact_ref_view(out@[i])
                        == self.listed_facts()[i],
            decreases self.facts@.len() - index,
        {
            let fact = &self.facts[index];
            assert(fact.wf());
            out.push(FactRef::new(self.id_for_index(index), fact.predicate(), fact.clause()));
            index = index + 1;
        }
        out
    }
}


impl Define for FactSet {
    open spec fn can_define(&self) -> bool {
        &&& self.first().0 + self.stored().len() < u64::MAX
        &&& self.stored().len() < usize::MAX
    }

    open spec fn define_result(
        &self,
        pid: Pid,
        key: Seq<u8>,
        value: Seq<u8>,
        value_size: nat,
        max_ref: Option<Id>,
    ) -> Option<Id> {
        match last_index(self.stored(), pid, key) {
            Some(i) => if self.stored()[i as int].2 == value {
                Some(Id((self.first().0 + i) as u64))
            } else {
                None
            },
            None => Some(Id((self.first().0 + self.stored().len()) as u64)),
        }
    }

    open spec fn define_effect(
        &self,
        after: Self,
        pid: Pid,
        key: Seq<u8>,
        value: Seq<u8>,
        value_size: nat,
        max_ref: Option<Id>,
    ) -> bool {
        &&& after.first() == self.first()
        &&& after.stored() == (if last_index(self.stored(), pid, key) is Some {
            self.stored()
        } else {
            self.stored().push((pid, key, value))
        })
    }

    fn define(&mut self, pid: Pid, clause: Clause<'_>, _max_ref: Option<Id>) -> (r: Option<Id>) {
        let key = clause.key();
        let n = self.facts.len();
        assert(self.stored().len() == n);
        match self.find_key(pid, key) {
            Some(index) => {
                proof {
                    lemma_last_index_found(self.stored(), pid, key@);
                    assert(self.stored()[index as int] == fact_view(self.facts@[index as int]));
                }
                let existing = &self.facts[index];
                assert(existing.wf());
                if bytes_eq(existing.value(), clause.value()) {
                    return Some(self.id_for_index(index));
                } else {
                    return None;
                }
            },
            None => {},
        }
        let index = self.facts.len();
        let id = self.id_for_index(index);
        let fact = Box::new(Fact::new(id, pid, key, clause.value()));
        let ghost before = self.stored();
        self.facts.push(fact);
        proof {
            assert(self.stored() =~= before.push((pid, key@, clause.value_view())));
            assert(self.stored().drop_last() =~= before);
        }
        self.index_last_fact(pid, key);
        Some(id)
    }
}


/// One fact in the serialized form: nat(pid), nat(key size), nat(value
/// size), the key bytes, the value bytes.
pub open spec fn serialized_fact(f: FactView) -> Seq<u8> {
    encode_nat(f.0.0) + encode_nat(f.1.len() as u64) + encode_nat(f.2.len() as u64) + f.1 + f.2
}

/// The serialized form of a sequence of facts.
pub open spec fn serialized_facts(s: Seq<FactView>) -> Seq<u8>
    decreases s.len(),
{
    if s.len() == 0 {
        Seq::empty()
    } else {
        serialized_fact(s[0]) + serialized_facts(s.drop_first())
    }
}

/// Reads one serialized fact at the front of `d`: the fact and the number
/// of bytes it takes.
#[verifier::opaque]
pub open spec fn parse_fact(d: Seq<u8>) -> Option<(FactView, nat)> {
    if !has_front_nat(d) {
        None
    } else {
        let n1 = front_nat_size(d);
        let d1 = d.skip(n1 as int);
        if !has_front_nat(d1) {
            None
        } else {
            let n2 = front_nat_size(d1);
            let ks = (front_nat_value(d1) as usize) as nat;
            let d2 = d1.skip(n2 as int);
            if !has_front_nat(d2) {
                None
            } else {
                let n3 = front_nat_size(d2);
                let vs = (front_nat_value(d2) as usize) as nat;
                let d3 = d2.skip(n3 as int);
                if ks + vs > d3.len() {
                    None
                } else {
                    Some(
                        (
                            (
                                Pid(front_nat_value(d) as u64),
                                d3.take(ks as int),
                                d3.subrange(ks as int, (ks + vs) as int),
                            ),
                            n1 + n2 + n3 + ks + vs,
                        ),
                    )
                }
            }
        }
    }
}

/// Reads serialized facts until the bytes run out.
pub open spec fn parse_facts(d: Seq<u8>) -> Option<Seq<FactView>>
    decreases d.len(),
{
    if d.len() == 0 {
        Some(Seq::empty())
    } else {
        match parse_fact(d) {
            None => None,
            Some((f, n)) => if 0 < n <= d.len() {
                match parse_facts(d.skip(n as int)) {
                    Some(rest) => Some(seq![f] + rest),
                    None => None,
                }
            } else {
                None
            },
        }
    }
}

/// Facts whose keys and values fit the format's 32-bit sizes.
pub open spec fn sizes_fit(s: Seq<FactView>) -> bool {
    forall|i: int| 0 <= i < s.len() ==> (#[trigger] s[i]).1.len() <= u32::MAX && s[i].2.len() <= u32::MAX
}

proof fn lemma_serialized_push(a: Seq<FactView>, f: FactView)
    ensures
        serialized_facts(a.push(f)) == serialized_facts(a) + serialized_fact(f),
    decreases a.len(),
{
    if a.len() == 0 {
        assert(a.push(f).drop_first() =~= Seq::<FactView>::empty());
        assert(a.push(f)[0] == f);
        assert(serialized_facts(a.push(f).drop_first()) == Seq::<u8>::empty());
        assert(serialized_facts(a) == Seq::<u8>::empty());
        assert(serialized_facts(a.push(f)) =~= serialized_fact(f));
    } else {
        lemma_serialized_push(a.drop_first(), f);
        assert(a.push(f).drop_first() =~= a.drop_first().push(f));
        assert(serialized_facts(a.push(f)) =~= serialized_facts(a) + serialized_fact(f));
    }
}

proof fn lemma_serialized_concat(a: Seq<FactView>, b: Seq<FactView>)
    ensures
        serialized_facts(a + b) == serialized_facts(a) + serialized_facts(b),
    decreases a.len(),
{
    if a.len() == 0 {
        assert(a + b =~= b);
        assert(serialized_facts(a) + serialized_facts(b) =~= serialized_facts(b));
    } else {
        lemma_serialized_concat(a.drop_first(), b);
        assert((a + b).drop_first() =~= a.drop_first() + b);
        assert((a + b)[0] == a[0]);
        assert(serialized_facts(a + b) =~= serialized_facts(a) + serialized_facts(b));
    }
}

/// An encoded nat at the front reads back, and skipping it leaves what
/// followed.
proof fn lemma_front_nat_of(v: u64, rest: Seq<u8>)
    ensures
        has_front_nat(encode_nat(v) + rest),
        front_nat_size(encode_nat(v) + rest) == encode_nat(v).len(),
        front_nat_value(encode_nat(v) + rest) == v,
        (encode_nat(v) + rest).skip(encode_nat(v).len() as int) == rest,
{
    lemma_nat_roundtrip(v, rest);
    assert((encode_nat(v) + rest).skip(encode_nat(v).len() as int) =~= rest);
}

/// The parts of a serialized fact that `parse_fact` read.
proof fn lemma_parse_fact_parts(d: Seq<u8>)
    requires
        parse_fact(d) is Some,
    ensures
        ({
            let n1 = front_nat_size(d);
            let d1 = d.skip(n1 as int);
            let n2 = front_nat_size(d1);
            let d2 = d1.skip(n2 as int);
            let n3 = front_nat_size(d2);
            let d3 = d2.skip(n3 as int);
            let ks = (front_nat_value(d1) as usize) as nat;
            let vs = (front_nat_value(d2) as usize) as nat;
            let (f, n) = parse_fact(d).unwrap();
            &&& has_front_nat(d)
            &&& has_front_nat(d1)
            &&& has_front_nat(d2)
            &&& ks + vs <= d3.len()
            &&& f.0 == Pid(front_nat_value(d) as u64)
            &&& f.1 == d3.take(ks as int)
            &&& f.2 == d3.subrange(ks as int, (ks + vs) as int)
            &&& n == n1 + n2 + n3 + ks + vs
        }),
{
    reveal(parse_fact);
}

/// A serialized fact reads back as itself, whatever follows it.
#[verifier::rlimit(40)]
pub proof fn lemma_fact_roundtrip(f: FactView, rest: Seq<u8>)
    requires
        f.1.len() <= u32::MAX,
        f.2.len() <= u32::MAX,
    ensures
        parse_fact(serialized_fact(f) + rest) == Some((f, serialized_fact(f).len())),
{
    let e1 = encode_nat(f.0.0);
    let e2 = encode_nat(f.1.len() as u64);
    let e3 = encode_nat(f.2.len() as u64);
    let d3 = f.1 + f.2 + rest;
    let d2 = e3 + d3;
    let d1 = e2 + d2;
    let d = serialized_fact(f) + rest;
    assert(d =~= e1 + d1);
    lemma_front_nat_of(f.0.0, d1);
    lemma_front_nat_of(f.1.len() as u64, d2);
    lemma_front_nat_of(f.2.len() as u64, d3);
    let ks = f.1.len();
    let vs = f.2.len();
    assert(d3.take(ks as int) =~= f.1);
    assert(d3.subrange(ks as int, (ks + vs) as int) =~= f.2);
    assert(((ks as u64) as usize) as nat == ks);
    assert(((vs as u64) as usize) as nat == vs);
    assert(Pid(f.0.0) == f.0);
    assert(serialized_fact(f).len() == e1.len() + e2.len() + e3.len() + ks + vs);
    reveal(parse_fact);
}

/// Serialized facts read back as the same facts.
pub proof fn lemma_facts_roundtrip(s: Seq<FactView>)
    requires
        sizes_fit(s),
    ensures
        parse_facts(serialized_facts(s)) == Some(s),
    decreases s.len(),
{
    if s.len() > 0 {
        let f = s[0];
        let rest = serialized_facts(s.drop_first());
        assert(sizes_fit(s.drop_first())) by {
            assert forall|i: int| 0 <= i < s.drop_first().len() implies (#[trigger] s.drop_first()[i]).1.len()
                <= u32::MAX && s.drop_first()[i].2.len() <= u32::MAX by {
                assert(s.drop_first()[i] == s[i + 1]);
            }
        }
        assert(f == s[0]);
        lemma_fact_roundtrip(f, rest);
        lemma_facts_roundtrip(s.drop_first());
        let d = serialized_facts(s);
        assert(d == serialized_fact(f) + rest);
        assert(d.skip(serialized_fact(f).len() as int) =~= rest);
        assert(seq![f] + s.drop_first() =~= s);
    }
}

/// Serialized representation of a fact set.
pub struct Serialized {
    pub first_id: Id,
    pub count: usize,
    pub data: Vec<u8>,
}

impl FactSet {
    /// The stored facts' keys and values fit 32-bit sizes.
    proof fn lemma_stored_sizes_fit(&self)
        requires
            self.wf(),
        ensures
            sizes_fit(self.stored()),
    {
        assert forall|i: int| 0 <= i < self.stored().len() implies (#[trigger] self.stored()[i]).1.len()
            <= u32::MAX && self.stored()[i].2.len() <= u32::MAX by {
            assert(self.facts@[i].wf());
            assert(self.stored()[i] == fact_view(self.facts@[i]));
        }
    }

    /// Serialize all facts, in order: for each, nat(pid), nat(key size),
    /// nat(value size), the key bytes and the value bytes.
    pub fn serialize(&self) -> (r: Serialized)
        requires
            self.wf(),
            serialized_facts(self.stored()).len() <= max_output_len(),
        ensures
            r.first_id == self.first(),
            r.count == self.stored().len(),
            r.data@ == serialized_facts(self.stored()),
    {
        let mut out = Output::new();
        let ghost s = self.stored();
        let mut i: usize = 0;
        proof {
            assert(s.take(0) =~= Seq::<FactView>::empty());
        }
        while i < self.facts.len()
            invariant
                self.wf(),
                s == self.stored(),
                i <= s.len(),
                s.len() == self.facts@.len(),
                serialized_facts(s).len() <= max_output_len(),
                out@ == serialized_facts(s.take(i as int)),
            decreases s.len() - i,
        {
            let fact = &self.facts[i];
            let ghost f = s[i as int];
            proof {
                assert(fact.wf());
                assert(f == fact_view(self.facts@[i as int]));
                lemma_serialized_push(s.take(i as int), f);
                assert(s.take(i + 1) =~= s.take(i as int).push(f));
                lemma_serialized_concat(s.take(i + 1), s.skip(i + 1));
                assert(s.take(i + 1) + s.skip(i + 1) =~= s);
            }
            let key = fact.key();
            let value = fact.value();
            out.packed_nat(fact.predicate().0);
            out.packed_nat(key.len() as u64);
            out.packed_nat(value.len() as u64);
            out.bytes(key);
            out.bytes(value);
            proof {
                assert(out@ =~= serialized_facts(s.take(i as int)) + serialized_fact(f));
            }
            i = i + 1;
        }
        proof {
            assert(s.take(i as int) =~= s);
        }
        Serialized { first_id: self.starting_id, count: self.facts.len(), data: out.into_vec() }
    }

    /// Deserialize facts into this fact set, appending them in order.
    /// Returns the number of facts read.
    pub fn deserialize(&mut self, serialized: &Serialized) -> (r: usize)
        requires
            old(self).wf(),
            parse_facts(serialized.data@) is Some,
            sizes_fit(parse_facts(serialized.data@).unwrap()),
            old(self).first().0 + old(self).stored().len() + parse_facts(
                serialized.data@,
            ).unwrap().len() <= u64::MAX,
            old(self).stored().len() + parse_facts(serialized.data@).unwrap().len() <= usize::MAX,
        ensures
            final(self).wf(),
            final(self).first() == old(self).first(),
            final(self).stored() == old(self).stored() + parse_facts(serialized.data@).unwrap(),
            r == parse_facts(serialized.data@).unwrap().len(),
    {
        let ghost all = parse_facts(serialized.data@).unwrap();
        let ghost start = self.stored();
        let mut input = Input::new(serialized.data.as_slice());
        let mut count: usize = 0;
        proof {
            assert(start + Seq::<FactView>::empty() =~= start);
        }
        while !input.is_empty()
            invariant
                self.wf(),
                self.first() == old(self).first(),
                start == old(self).stored(),
                parse_facts(input@) is Some,
                sizes_fit(parse_facts(input@).unwrap()),
                self.stored() + parse_facts(input@).unwrap() == start + all,
                count + parse_facts(input@).unwrap().len() == all.len(),
                self.first().0 + start.len() + all.len() <= u64::MAX,
                start.len() + all.len() <= usize::MAX,
            decreases input@.len(),
        {
            let ghost d = input@;
            let ghost rec = parse_fact(d).unwrap();
            let ghost rest = parse_facts(d.skip(rec.1 as int)).unwrap();
            proof {
                lemma_parse_fact_parts(d);
                assert(parse_facts(d) == Some(seq![rec.0] + rest));
                assert((seq![rec.0] + rest)[0] == rec.0);
                assert(sizes_fit(rest)) by {
                    assert forall|i: int| 0 <= i < rest.len() implies (#[trigger] rest[i]).1.len()
                        <= u32::MAX && rest[i].2.len() <= u32::MAX by {
                        assert(rest[i] == (seq![rec.0] + rest)[i + 1]);
                    }
                }
            }
            let pid = Pid(input.packed_nat());
            let key_size = input.packed_usize();
            let value_size = input.packed_usize();
            let key = input.bytes(key_size);
            let value = input.bytes(value_size);
            proof {
                assert(key@ == rec.0.1);
                assert(value@ == rec.0.2);
                assert(input@ =~= d.skip(rec.1 as int));
                assert(self.stored() + (seq![rec.0] + rest) =~= self.stored().push(rec.0) + rest);
            }
            let index = self.facts.len();
            let id = self.id_for_index(index);
            let fact = Box::new(Fact::new(id, pid, key, value));
            let ghost before = self.stored();
            self.facts.push(fact);
            proof {
                assert(self.stored() =~= before.push((pid, key@, value@)));
                assert(self.stored().drop_last() =~= before);
            }
            self.index_last_fact(pid, key);
            count = count + 1;
        }
        proof {
            assert(parse_facts(input@).unwrap() =~= Seq::<FactView>::empty());
            assert(self.stored() =~= start + all);
        }
        count
    }
}


/// The ids of a fact set fit in 64 bits: the first free id is the first id
/// plus the number of facts, and does not wrap. Every id from the first up
/// to the first free one holds a fact; the first free id holds none.
pub proof fn lemma_ids_fit(fs: FactSet)
    requires
        fs.wf(),
    ensures
        fs.first().0 + fs.stored().len() <= u64::MAX,
        fs.stored().len() <= usize::MAX,
        fs.next_free_id().0 == fs.first().0 + fs.stored().len(),
        fs.next_free_id().0 >= fs.first().0,
        forall|i: nat| i < fs.stored().len() ==> #[trigger] fs.fact_of_id(
            Id((fs.first().0 + i) as u64),
        ) == Some(fs.stored()[i as int]),
        fs.fact_of_id(fs.next_free_id()) is None,
{
    assert(fs.stored().len() == fs.facts@.len());
}

/// Deserializing what `a` serializes into an empty set that starts at the
/// same id rebuilds `a`: the same facts in the same order, so the same
/// answer to every lookup and the same first free id. The requirements of
/// `deserialize` hold for such a call.
pub proof fn lemma_deserialize_rebuilds(a: FactSet, b: FactSet, c: FactSet)
    requires
        a.wf(),
        b.wf(),
        b.first() == a.first(),
        b.stored().len() == 0,
        c.first() == b.first(),
        c.stored() == b.stored() + parse_facts(serialized_facts(a.stored())).unwrap(),
    ensures
        parse_facts(serialized_facts(a.stored())) is Some,
        sizes_fit(parse_facts(serialized_facts(a.stored())).unwrap()),
        b.first().0 + b.stored().len() + parse_facts(serialized_facts(a.stored())).unwrap().len()
            <= u64::MAX,
        b.stored().len() + parse_facts(serialized_facts(a.stored())).unwrap().len() <= usize::MAX,
        c.stored() == a.stored(),
        c.next_free_id() == a.next_free_id(),
        forall|pid: Pid, key: Seq<u8>| #[trigger] c.id_of_key(pid, key) == a.id_of_key(pid, key),
        forall|id: Id| #[trigger] c.fact_of_id(id) == a.fact_of_id(id),
        forall|pid: Pid| #[trigger] c.interval_of(pid) == a.interval_of(pid),
{
    lemma_serialize_roundtrip(a);
    lemma_ids_fit(a);
    assert(a.stored().len() == a.facts@.len());
    assert(c.stored() =~= a.stored());
}

/// Looking up a key finds a fact with that predicate and key.
pub proof fn lemma_key_lookup_sound(fs: FactSet, pid: Pid, key: Seq<u8>)
    requires
        fs.wf(),
    ensures
        fs.id_of_key(pid, key) matches Some(id) ==> fs.fact_of_id(id) matches Some(f) && f.0 == pid
            && f.1 == key,
{
    lemma_last_index_found(fs.stored(), pid, key);
}

/// Defining a fact that is not there yet stores it under the next free id,
/// which then moves up by one; looking up its key finds it.
pub proof fn lemma_define_fresh(
    a: FactSet,
    b: FactSet,
    pid: Pid,
    key: Seq<u8>,
    value: Seq<u8>,
    value_size: nat,
    max_ref: Option<Id>,
)
    requires
        a.wf(),
        a.can_define(),
        a.id_of_key(pid, key) is None,
        a.define_effect(b, pid, key, value, value_size, max_ref),
    ensures
        a.define_result(pid, key, value, value_size, max_ref) == Some(a.next_free_id()),
        b.next_free_id().0 == a.next_free_id().0 + 1,
        b.id_of_key(pid, key) == Some(a.next_free_id()),
        b.fact_of_id(a.next_free_id()) == Some((pid, key, value)),
{
    lemma_last_index_push(a.stored(), (pid, key, value), pid, key);
}

/// Defining the same fact again returns the same id and changes nothing,
/// whatever `max_ref` and recorded value size either call passes.
pub proof fn lemma_define_idempotent(
    a: FactSet,
    b: FactSet,
    c: FactSet,
    pid: Pid,
    key: Seq<u8>,
    value: Seq<u8>,
    value_size1: nat,
    max_ref1: Option<Id>,
    value_size2: nat,
    max_ref2: Option<Id>,
)
    requires
        a.wf(),
        a.define_result(pid, key, value, value_size1, max_ref1) is Some,
        a.define_effect(b, pid, key, value, value_size1, max_ref1),
        b.define_effect(c, pid, key, value, value_size2, max_ref2),
    ensures
        b.define_result(pid, key, value, value_size2, max_ref2) == a.define_result(
            pid,
            key,
            value,
            value_size1,
            max_ref1,
        ),
        c.stored() == b.stored(),
        c.first() == b.first(),
        b.next_free_id() == a.next_free_id() || last_index(a.stored(), pid, key) is None,
{
    lemma_last_index_push(a.stored(), (pid, key, value), pid, key);
    if last_index(a.stored(), pid, key) is None {
        assert(b.stored()[a.stored().len() as int] == (pid, key, value));
    }
}

/// Defining a fact whose key is already stored with another value is a
/// conflict: nothing is returned and nothing changes.
pub proof fn lemma_define_conflict(
    a: FactSet,
    b: FactSet,
    pid: Pid,
    key: Seq<u8>,
    value: Seq<u8>,
    value_size: nat,
    max_ref: Option<Id>,
)
    requires
        a.wf(),
        a.id_of_key(pid, key) matches Some(id) && a.fact_of_id(id) matches Some(f) && f.2 != value,
        a.define_effect(b, pid, key, value, value_size, max_ref),
    ensures
        a.define_result(pid, key, value, value_size, max_ref) is None,
        b.stored() == a.stored(),
        b.first() == a.first(),
{
    lemma_last_index_found(a.stored(), pid, key);
}

/// Serializing a fact set and reading the bytes back gives its facts, in
/// order: deserializing `a.serialize()` into an empty set that starts at
/// the same id rebuilds `a`'s facts and so answers every lookup as `a`.
pub proof fn lemma_serialize_roundtrip(a: FactSet)
    requires
        a.wf(),
    ensures
        parse_facts(serialized_facts(a.stored())) == Some(a.stored()),
        sizes_fit(a.stored()),
{
    a.lemma_stored_sizes_fit();
    lemma_facts_roundtrip(a.stored());
}

} // verus!
