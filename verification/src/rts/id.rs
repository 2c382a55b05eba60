//! Identity types for facts and predicates.
use vstd::prelude::*;
use crate::rts::text::{decimal_text, push_decimal};

verus! {

/// A fact identifier. `Id(0)` is invalid; valid fact ids start at
/// `Id::lowest()` (1024).
#[derive(Debug, Clone, Copy, PartialEq, Eq, Structural, PartialOrd, Ord, Hash, Default)]
pub struct Id(pub u64);

/// A predicate identifier. `Pid(0)` is invalid.
#[derive(Debug, Clone, Copy, PartialEq, Eq, Structural, PartialOrd, Ord, Hash, Default)]
pub struct Pid(pub u64);

impl Id {
    /// The invalid fact id, `Id(0)`.
    pub fn invalid() -> (r: Id)
        ensures
            r.0 == 0,
    {
        Id(0)
    }

    /// The lowest valid fact id, `Id(1024)`.
    pub fn lowest() -> (r: Id)
        ensures
            r.0 == 1024,
    {
        Id(1024)
    }

    pub fn is_valid(self) -> (r: bool)
        ensures
            r == (self.0 != 0),
    {
        self.0 != 0
    }

    pub fn valid(self) -> (r: Option<Id>)
        ensures
            r == (if self.0 != 0 {
                Some(self)
            } else {
                None
            }),
    {
        if self.is_valid() {
            Some(self)
        } else {
            None
        }
    }

    /// Convert to the wire format (i64), keeping the bits.
    pub fn to_thrift(self) -> (r: i64)
        ensures
            r == self.0 as i64,
    {
        self.0 as i64
    }

    /// Convert from the wire format (i64), keeping the bits.
    pub fn from_thrift(x: i64) -> (r: Id)
        ensures
            r.0 == x as u64,
    {
        Id(x as u64)
    }

    /// Raw word value (for the bytecode VM's registers).
    pub fn to_word(self) -> (r: u64)
        ensures
            r == self.0,
    {
        self.0
    }

    /// From a raw word value.
    pub fn from_word(w: u64) -> (r: Id)
        ensures
            r.0 == w,
    {
        Id(w)
    }

    /// Distance between two ids (`to - from`).
    pub fn distance(from: Id, to: Id) -> (r: u64)
        requires
            from.0 <= to.0,
        ensures
            r == to.0 - from.0,
    {
        to.0 - from.0
    }

    /// The id as text, `Id(<decimal>)`.
    pub fn to_display_string(&self) -> (r: String)
        ensures
            r@ == seq!['I', 'd', '('] + decimal_text(self.0 as nat) + seq![')'],
    {
        let mut s = String::from_str("Id(");
        proof {
            reveal_strlit("Id(");
        }
        push_decimal(&mut s, self.0);
        s.append(")");
        proof {
            reveal_strlit(")");
        }
        s
    }
}

impl Pid {
    /// The invalid predicate id, `Pid(0)`.
    pub fn invalid() -> (r: Pid)
        ensures
            r.0 == 0,
    {
        Pid(0)
    }

    pub fn is_valid(self) -> (r: bool)
        ensures
            r == (self.0 != 0),
    {
        self.0 != 0
    }

    pub fn valid(self) -> (r: Option<Pid>)
        ensures
            r == (if self.0 != 0 {
                Some(self)
            } else {
                None
            }),
    {
        if self.is_valid() {
            Some(self)
        } else {
            None
        }
    }

    /// Convert to the wire format (i64), keeping the bits.
    pub fn to_thrift(self) -> (r: i64)
        ensures
            r == self.0 as i64,
    {
        self.0 as i64
    }

    /// Convert from the wire format (i64), keeping the bits.
    pub fn from_thrift(x: i64) -> (r: Pid)
        ensures
            r.0 == x as u64,
    {
        Pid(x as u64)
    }

    /// Raw word value (for the bytecode VM's registers).
    pub fn to_word(self) -> (r: u64)
        ensures
            r == self.0,
    {
        self.0
    }

    /// From a raw word value.
    pub fn from_word(w: u64) -> (r: Pid)
        ensures
            r.0 == w,
    {
        Pid(w)
    }

    /// The predicate id as text, `Pid(<decimal>)`.
    pub fn to_display_string(&self) -> (r: String)
        ensures
            r@ == seq!['P', 'i', 'd', '('] + decimal_text(self.0 as nat) + seq![')'],
    {
        let mut s = String::from_str("Pid(");
        proof {
            reveal_strlit("Pid(");
        }
        push_decimal(&mut s, self.0);
        s.append(")");
        proof {
            reveal_strlit(")");
        }
        s
    }
}

impl std::ops::Add<u64> for Id {
    type Output = Id;

    fn add(self, rhs: u64) -> (r: Id) {
        Id(self.0 + rhs)
    }
}

impl vstd::std_specs::ops::AddSpecImpl<u64> for Id {
    open spec fn obeys_add_spec() -> bool {
        true
    }

    open spec fn add_req(self, rhs: u64) -> bool {
        self.0 + rhs <= u64::MAX
    }

    open spec fn add_spec(self, rhs: u64) -> Id {
        Id((self.0 + rhs) as u64)
    }
}

impl std::ops::Add<u64> for Pid {
    type Output = Pid;

    fn add(self, rhs: u64) -> (r: Pid) {
        Pid(self.0 + rhs)
    }
}

impl vstd::std_specs::ops::AddSpecImpl<u64> for Pid {
    open spec fn obeys_add_spec() -> bool {
        true
    }

    open spec fn add_req(self, rhs: u64) -> bool {
        self.0 + rhs <= u64::MAX
    }

    open spec fn add_spec(self, rhs: u64) -> Pid {
        Pid((self.0 + rhs) as u64)
    }
}

/// Converting an id to the wire format and back gives it again.
pub proof fn lemma_thrift_roundtrip(id: Id, pid: Pid)
    ensures
        ((id.0 as i64) as u64) == id.0,
        ((pid.0 as i64) as u64) == pid.0,
{
    let a = id.0;
    let b = pid.0;
    assert(((a as i64) as u64) == a) by (bit_vector);
    assert(((b as i64) as u64) == b) by (bit_vector);
}

} // verus!
