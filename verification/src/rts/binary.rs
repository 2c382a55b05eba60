//! The binary codec of the fact format: `Output`, a write buffer with a
//! small inline capacity, and `Input`, a read cursor over borrowed bytes.
//! Both use the nat encoding and the string mangling.
use vstd::prelude::*;
use smallvec::SmallVec;
use crate::rts::nat_codec::{
    lemma_nat_roundtrip, encode_nat, front_nat_size, front_nat_value, has_front_nat, load_trusted_nat,
    skip_trusted_nat, store_nat, MAX_NAT_SIZE,
};
use crate::rts::string::{
    demangle_trusted_string, mangle, mangle_string, parse_mangled, skip_trusted_string,
    validate_untrusted_string,
};

verus! {

/// Inline capacity of an `Output` before it moves to the heap.
pub const SMALL_CAP: usize = 23;

/// A write buffer for encoding the binary format. The bytes live in a
/// small-buffer vector that Verus does not look into; the functions below
/// are the only ones that touch it.
#[verifier::external_body]
pub struct Output(SmallVec<[u8; SMALL_CAP]>);

/// The bytes an `Output` holds, in order.
pub uninterp spec fn small_vec_bytes(v: Output) -> Seq<u8>;

/// The longest an `Output` may grow: growing past it makes the buffer's
/// capacity computation overflow.
pub open spec fn max_output_len() -> nat {
    (usize::MAX / 4) as nat
}

/// `SmallVec::new`: an empty vector.
#[verifier::external_body]
fn small_vec_new() -> (r: Output)
    ensures
        small_vec_bytes(r) == Seq::<u8>::empty(),
{
    Output(SmallVec::new())
}

/// `SmallVec::as_slice`: the held bytes.
#[verifier::external_body]
fn small_vec_as_slice(v: &Output) -> (r: &[u8])
    ensures
        r@ == small_vec_bytes(*v),
{
    v.0.as_slice()
}

/// `SmallVec::clear`: no bytes remain.
#[verifier::external_body]
fn small_vec_clear(v: &mut Output)
    ensures
        small_vec_bytes(*final(v)) == Seq::<u8>::empty(),
{
    v.0.clear()
}

/// `SmallVec::into_vec`: the same bytes in a `Vec`.
#[verifier::external_body]
fn small_vec_into_vec(v: Output) -> (r: Vec<u8>)
    ensures
        r@ == small_vec_bytes(v),
{
    v.0.into_vec()
}

/// `SmallVec::push`: appends one byte. It panics when the grown capacity
/// overflows, which the bound excludes.
#[verifier::external_body]
fn small_vec_push(v: &mut Output, b: u8)
    requires
        small_vec_bytes(*old(v)).len() + 1 <= max_output_len(),
    ensures
        small_vec_bytes(*final(v)) == small_vec_bytes(*old(v)).push(b),
{
    v.0.push(b)
}

/// `SmallVec::extend_from_slice`: appends the bytes of `s`. It panics
/// when the grown capacity overflows, which the bound excludes.
#[verifier::external_body]
fn small_vec_extend_from_slice(v: &mut Output, s: &[u8])
    requires
        small_vec_bytes(*old(v)).len() + s@.len() <= max_output_len(),
    ensures
        small_vec_bytes(*final(v)) == small_vec_bytes(*old(v)) + s@,
{
    v.0.extend_from_slice(s)
}

impl View for Output {
    type V = Seq<u8>;

    closed spec fn view(&self) -> Seq<u8> {
        small_vec_bytes(*self)
    }
}

impl Output {
    pub fn new() -> (r: Self)
        ensures
            r@ == Seq::<u8>::empty(),
    {
        small_vec_new()
    }

    pub fn as_bytes(&self) -> (r: &[u8])
        ensures
            r@ == self@,
    {
        small_vec_as_slice(self)
    }

    pub fn len(&self) -> (r: usize)
        ensures
            r == self@.len(),
    {
        small_vec_as_slice(self).len()
    }

    pub fn is_empty(&self) -> (r: bool)
        ensures
            r == (self@.len() == 0),
    {
        small_vec_as_slice(self).len() == 0
    }

    pub fn reset(&mut self)
        ensures
            final(self)@ == Seq::<u8>::empty(),
    {
        small_vec_clear(self)
    }

    pub fn into_vec(self) -> (r: Vec<u8>)
        ensures
            r@ == self@,
    {
        small_vec_into_vec(self)
    }

    pub fn fixed_u8(&mut self, val: u8)
        requires
            old(self)@.len() + 1 <= max_output_len(),
        ensures
            final(self)@ == old(self)@.push(val),
    {
        small_vec_push(self, val)
    }

    /// Appends `val` as four little-endian bytes, least significant first.
    pub fn fixed_u32(&mut self, val: u32)
        requires
            old(self)@.len() + 4 <= max_output_len(),
        ensures
            final(self)@ == old(self)@ + seq![
                (val % 0x100) as u8,
                (val / 0x100 % 0x100) as u8,
                (val / 0x1_0000 % 0x100) as u8,
                (val / 0x100_0000 % 0x100) as u8,
            ],
    {
        let ghost start = self@;
        self.byte((val % 0x100) as u8);
        self.byte((val / 0x100 % 0x100) as u8);
        self.byte((val / 0x1_0000 % 0x100) as u8);
        self.byte((val / 0x100_0000 % 0x100) as u8);
        assert(self@ =~= start + seq![
            (val % 0x100) as u8,
            (val / 0x100 % 0x100) as u8,
            (val / 0x1_0000 % 0x100) as u8,
            (val / 0x100_0000 % 0x100) as u8,
        ]);
    }

    /// Appends `val` as eight little-endian bytes, least significant first.
    pub fn fixed_u64(&mut self, val: u64)
        requires
            old(self)@.len() + 8 <= max_output_len(),
        ensures
            final(self)@ == old(self)@ + seq![
                (val % 0x100) as u8,
                (val / 0x100 % 0x100) as u8,
                (val / 0x1_0000 % 0x100) as u8,
                (val / 0x100_0000 % 0x100) as u8,
                (val / 0x1_0000_0000 % 0x100) as u8,
                (val / 0x100_0000_0000 % 0x100) as u8,
                (val / 0x1_0000_0000_0000 % 0x100) as u8,
                (val / 0x100_0000_0000_0000 % 0x100) as u8,
            ],
    {
        let ghost start = self@;
        self.byte((val % 0x100) as u8);
        self.byte((val / 0x100 % 0x100) as u8);
        self.byte((val / 0x1_0000 % 0x100) as u8);
        self.byte((val / 0x100_0000 % 0x100) as u8);
        self.byte((val / 0x1_0000_0000 % 0x100) as u8);
        self.byte((val / 0x100_0000_0000 % 0x100) as u8);
        self.byte((val / 0x1_0000_0000_0000 % 0x100) as u8);
        self.byte((val / 0x100_0000_0000_0000 % 0x100) as u8);
        assert(self@ =~= start + seq![
            (val % 0x100) as u8,
            (val / 0x100 % 0x100) as u8,
            (val / 0x1_0000 % 0x100) as u8,
            (val / 0x100_0000 % 0x100) as u8,
            (val / 0x1_0000_0000 % 0x100) as u8,
            (val / 0x100_0000_0000 % 0x100) as u8,
            (val / 0x1_0000_0000_0000 % 0x100) as u8,
            (val / 0x100_0000_0000_0000 % 0x100) as u8,
        ]);
    }

    /// Appends the nat encoding of `val`.
    pub fn packed_nat(&mut self, val: u64)
        requires
            old(self)@.len() + encode_nat(val).len() <= max_output_len(),
        ensures
            final(self)@ == old(self)@ + encode_nat(val),
    {
        let mut buf = [0u8; 9];
        let n = store_nat(&mut buf, val);
        let all = buf.as_slice();
        small_vec_extend_from_slice(self, &all[0..n])
    }

    /// Appends the nat encoding of `val`.
    pub fn packed_usize(&mut self, val: usize)
        requires
            old(self)@.len() + encode_nat(val as u64).len() <= max_output_len(),
        ensures
            final(self)@ == old(self)@ + encode_nat(val as u64),
    {
        self.packed_nat(val as u64)
    }

    pub fn bytes(&mut self, data: &[u8])
        requires
            old(self)@.len() + data@.len() <= max_output_len(),
        ensures
            final(self)@ == old(self)@ + data@,
    {
        small_vec_extend_from_slice(self, data)
    }

    pub fn byte(&mut self, b: u8)
        requires
            old(self)@.len() + 1 <= max_output_len(),
        ensures
            final(self)@ == old(self)@.push(b),
    {
        small_vec_push(self, b)
    }

    /// Appends the mangled form of `s`.
    pub fn mangled_string(&mut self, s: &[u8])
        requires
            old(self)@.len() + mangle(s@).len() <= max_output_len(),
        ensures
            final(self)@ == old(self)@ + mangle(s@),
    {
        let mut tmp: Vec<u8> = Vec::new();
        mangle_string(s, &mut tmp);
        assert(tmp@ =~= mangle(s@));
        small_vec_extend_from_slice(self, tmp.as_slice())
    }

    /// Appends the nat encoding of the length of `data`, then `data`.
    pub fn nat_prefixed_bytes(&mut self, data: &[u8])
        requires
            old(self)@.len() + encode_nat(data@.len() as u64).len() + data@.len()
                <= max_output_len(),
        ensures
            final(self)@ == old(self)@ + encode_nat(data@.len() as u64) + data@,
    {
        self.packed_nat(data.len() as u64);
        self.bytes(data);
    }
}

impl Default for Output {
    fn default() -> (r: Self)
        ensures
            r@ == Seq::<u8>::empty(),
    {
        Output::new()
    }
}

/// The bytes that `Output::packed_nat(v)` appends, followed by any bytes,
/// read back through `Input::packed_nat` as `v`, leaving those bytes.
pub proof fn lemma_packed_nat_reads_back(v: u64, rest: Seq<u8>)
    ensures
        has_front_nat(encode_nat(v) + rest),
        front_nat_value(encode_nat(v) + rest) == v,
        (encode_nat(v) + rest).skip(front_nat_size(encode_nat(v) + rest) as int) == rest,
{
    lemma_nat_roundtrip(v, rest);
    assert((encode_nat(v) + rest).skip(encode_nat(v).len() as int) =~= rest);
}

/// A read cursor over borrowed bytes.
pub struct Input<'a> {
    data: &'a [u8],
}

impl<'a> View for Input<'a> {
    type V = Seq<u8>;

    closed spec fn view(&self) -> Seq<u8> {
        self.data@
    }
}

impl<'a> Input<'a> {
    pub fn new(data: &'a [u8]) -> (r: Self)
        ensures
            r@ == data@,
    {
        Input { data }
    }

    /// The bytes not read yet.
    pub fn remaining(&self) -> (r: &'a [u8])
        ensures
            r@ == self@,
    {
        self.data
    }

    pub fn len(&self) -> (r: usize)
        ensures
            r == self@.len(),
    {
        self.data.len()
    }

    pub fn is_empty(&self) -> (r: bool)
        ensures
            r == (self@.len() == 0),
    {
        self.data.len() == 0
    }

    /// Reads one byte.
    pub fn byte(&mut self) -> (r: u8)
        requires
            old(self)@.len() >= 1,
        ensures
            r == old(self)@[0],
            final(self)@ == old(self)@.skip(1),
    {
        let d = self.data;
        let b = d[0];
        self.data = &d[1..d.len()];
        b
    }

    /// Reads `n` bytes.
    pub fn bytes(&mut self, n: usize) -> (r: &'a [u8])
        requires
            n <= old(self)@.len(),
        ensures
            r@ == old(self)@.take(n as int),
            final(self)@ == old(self)@.skip(n as int),
    {
        let d = self.data;
        let (head, tail) = d.split_at(n);
        self.data = tail;
        head
    }

    /// Reads four little-endian bytes, least significant first.
    pub fn fixed_u32(&mut self) -> (r: u32)
        requires
            old(self)@.len() >= 4,
        ensures
            r == old(self)@[0] + old(self)@[1] * 0x100 + old(self)@[2] * 0x1_0000 + old(self)@[3]
                * 0x100_0000,
            final(self)@ == old(self)@.skip(4),
    {
        let b = self.bytes(4);
        b[0] as u32 + b[1] as u32 * 0x100 + b[2] as u32 * 0x1_0000 + b[3] as u32 * 0x100_0000
    }

    /// Reads eight little-endian bytes, least significant first.
    pub fn fixed_u64(&mut self) -> (r: u64)
        requires
            old(self)@.len() >= 8,
        ensures
            r == old(self)@[0] + old(self)@[1] * 0x100 + old(self)@[2] * 0x1_0000 + old(self)@[3]
                * 0x100_0000 + old(self)@[4] * 0x1_0000_0000 + old(self)@[5] * 0x100_0000_0000
                + old(self)@[6] * 0x1_0000_0000_0000 + old(self)@[7] * 0x100_0000_0000_0000,
            final(self)@ == old(self)@.skip(8),
    {
        let b = self.bytes(8);
        b[0] as u64 + b[1] as u64 * 0x100 + b[2] as u64 * 0x1_0000 + b[3] as u64 * 0x100_0000
            + b[4] as u64 * 0x1_0000_0000 + b[5] as u64 * 0x100_0000_0000 + b[6] as u64
            * 0x1_0000_0000_0000 + b[7] as u64 * 0x100_0000_0000_0000
    }

    /// Reads a trusted nat.
    pub fn packed_nat(&mut self) -> (r: u64)
        requires
            has_front_nat(old(self)@),
        ensures
            r == front_nat_value(old(self)@),
            final(self)@ == old(self)@.skip(front_nat_size(old(self)@) as int),
    {
        let (val, rest) = load_trusted_nat(self.data);
        self.data = rest;
        val
    }

    /// Reads a trusted nat as a `usize`.
    pub fn packed_usize(&mut self) -> (r: usize)
        requires
            has_front_nat(old(self)@),
        ensures
            r == front_nat_value(old(self)@) as usize,
            final(self)@ == old(self)@.skip(front_nat_size(old(self)@) as int),
    {
        self.packed_nat() as usize
    }

    /// Reads a trusted nat, then that many bytes.
    pub fn nat_prefixed_bytes(&mut self) -> (r: &'a [u8])
        requires
            has_front_nat(old(self)@),
            (front_nat_value(old(self)@) as usize) <= old(self)@.len() - front_nat_size(
                old(self)@,
            ),
        ensures
            ({
                let s = old(self)@.skip(front_nat_size(old(self)@) as int);
                let n = front_nat_value(old(self)@) as usize as int;
                &&& r@ == s.take(n)
                &&& final(self)@ == s.skip(n)
            }),
    {
        let len = self.packed_usize();
        self.bytes(len)
    }

    /// Skips a trusted nat.
    pub fn skip_nat(&mut self)
        requires
            old(self)@.len() > 0,
            old(self)@.len() >= front_nat_size(old(self)@),
        ensures
            final(self)@ == old(self)@.skip(front_nat_size(old(self)@) as int),
    {
        self.data = skip_trusted_nat(self.data);
    }

    /// Reads a trusted mangled string, demangled.
    pub fn trusted_string(&mut self) -> (r: Vec<u8>)
        requires
            parse_mangled(old(self)@) is Some,
        ensures
            r@ == parse_mangled(old(self)@).unwrap().0,
            final(self)@ == old(self)@.skip(parse_mangled(old(self)@).unwrap().1 as int),
    {
        let d = self.data;
        let (demangled, mangled_size) = demangle_trusted_string(d);
        proof {
            crate::rts::string::lemma_parse_size(d@);
        }
        self.data = &d[mangled_size..d.len()];
        demangled
    }

    /// Skips a trusted mangled string.
    pub fn skip_trusted_string(&mut self)
        requires
            parse_mangled(old(self)@) is Some,
        ensures
            final(self)@ == old(self)@.skip(parse_mangled(old(self)@).unwrap().1 as int),
    {
        let d = self.data;
        let (mangled_size, _) = skip_trusted_string(d);
        proof {
            crate::rts::string::lemma_parse_size(d@);
        }
        self.data = &d[mangled_size..d.len()];
    }

    /// Skips an untrusted mangled string if it is well formed; returns
    /// whether it was.
    pub fn skip_untrusted_string(&mut self) -> (r: bool)
        ensures
            r == parse_mangled(old(self)@) is Some,
            r ==> final(self)@ == old(self)@.skip(parse_mangled(old(self)@).unwrap().1 as int),
            !r ==> final(self)@ == old(self)@,
    {
        let d = self.data;
        match validate_untrusted_string(d) {
            Some(size) => {
                proof {
                    crate::rts::string::lemma_parse_size(d@);
                }
                self.data = &d[size..d.len()];
                true
            },
            None => false,
        }
    }
}

} // verus!
