//! The prefix varint encoding of natural numbers used throughout the fact
//! store's binary format.
//!
//! The number of leading one bits of the first byte tells how many bytes
//! follow. Each length covers a range of values; the value minus the start
//! of its range is stored big-endian below the tag. The encoding is
//! prefix-free, every number has exactly one encoding, and comparing
//! encodings byte by byte orders them as the numbers.
//!
//! ```text
//!   First byte    Total bytes    Range
//!   0nnnnnnn           1        0 - 0x7F
//!   10nnnnnn           2        0x80 - 0x407F
//!   110nnnnn           3        0x4080 - 0x20407F
//!   1110nnnn           4        0x204080 - 0x1020407F
//!   11110nnn           5        0x10204080 - 0x081020407F
//!   111110nn           6        0x0810204080 - 0x04081020407F
//!   1111110n           7        0x040810204080 - 0x0204081020407F
//!   11111110           8        0x02040810204080 - 0x010204081020407F
//!   11111111           9        0x010204081020407F - 0xFFFFFFFFFFFFFFFF
//! ```
use vstd::prelude::*;
use crate::rts::bytes::{
    be_bytes, be_value, lemma_be_bytes_index, lemma_be_bytes_len, lemma_be_bytes_of_value,
    lemma_be_value_bound, lemma_be_value_front, lemma_be_value_of_bytes,
    lemma_lex_lt_of_be_value, lemma_pow256_positive, lemma_pow256_values, lex_lt, pow256,
};

verus! {

/// Maximum number of bytes an encoded nat can occupy.
pub const MAX_NAT_SIZE: usize = 9;

/// Number of bytes that the encoding of `v` takes.
pub open spec fn encoded_len(v: u64) -> nat {
    if v < 0x80 {
        1
    } else if v < 0x4080 {
        2
    } else if v < 0x20_4080 {
        3
    } else if v < 0x1020_4080 {
        4
    } else if v < 0x08_1020_4080 {
        5
    } else if v < 0x0408_1020_4080 {
        6
    } else if v < 0x02_0408_1020_4080 {
        7
    } else if v < 0x0102_0408_1020_4080 {
        8
    } else {
        9
    }
}

/// The value subtracted before storing an `n`-byte encoding.
pub open spec fn range_start(n: nat) -> nat {
    if n == 2 {
        0x80
    } else if n == 3 {
        0x4080
    } else if n == 4 {
        0x20_4080
    } else if n == 5 {
        0x1020_4080
    } else if n == 6 {
        0x08_1020_4080
    } else if n == 7 {
        0x0408_1020_4080
    } else if n == 8 {
        0x02_0408_1020_4080
    } else if n == 9 {
        0x0102_0408_1020_407F
    } else {
        0
    }
}

/// The tag in the first byte of an `n`-byte encoding: `n - 1` one bits
/// followed by a zero bit (none for nine bytes).
pub open spec fn length_tag(n: nat) -> nat {
    if n == 2 {
        0x80
    } else if n == 3 {
        0xC0
    } else if n == 4 {
        0xE0
    } else if n == 5 {
        0xF0
    } else if n == 6 {
        0xF8
    } else if n == 7 {
        0xFC
    } else if n == 8 {
        0xFE
    } else if n == 9 {
        0xFF
    } else {
        0
    }
}

/// How many first-byte values an `n`-byte encoding uses.
pub open spec fn tag_room(n: nat) -> nat {
    if n == 1 {
        0x80
    } else if n == 2 {
        0x40
    } else if n == 3 {
        0x20
    } else if n == 4 {
        0x10
    } else if n == 5 {
        8
    } else if n == 6 {
        4
    } else if n == 7 {
        2
    } else {
        1
    }
}

/// Encoding length announced by a first byte.
pub open spec fn size_for_first_byte(b0: u8) -> nat {
    if b0 < 0x80 {
        1
    } else if b0 < 0xC0 {
        2
    } else if b0 < 0xE0 {
        3
    } else if b0 < 0xF0 {
        4
    } else if b0 < 0xF8 {
        5
    } else if b0 < 0xFC {
        6
    } else if b0 < 0xFE {
        7
    } else if b0 < 0xFF {
        8
    } else {
        9
    }
}

/// The number that an `n`-byte encoding stores as a big-endian word: the
/// tag in the top bits, the offset into the range below it.
pub open spec fn tagged_word(n: nat, offset: nat) -> nat {
    length_tag(n) * pow256((n - 1) as nat) + offset
}

/// The encoding of `v`.
pub open spec fn encode_nat(v: u64) -> Seq<u8> {
    let n = encoded_len(v);
    be_bytes(tagged_word(n, (v - range_start(n)) as nat), n)
}

/// The number of bytes that the encoding at the front of `p` takes.
pub open spec fn front_nat_size(p: Seq<u8>) -> nat {
    size_for_first_byte(p[0])
}

/// The number encoded at the front of `p`, before any bound check.
pub open spec fn front_nat_value(p: Seq<u8>) -> int {
    let n = front_nat_size(p);
    be_value(p.take(n as int)) - length_tag(n) * pow256((n - 1) as nat) + range_start(n)
}

/// `p` begins with a complete encoding whose number fits in 64 bits.
pub open spec fn has_front_nat(p: Seq<u8>) -> bool {
    &&& p.len() > 0
    &&& p.len() >= front_nat_size(p)
    &&& front_nat_value(p) <= u64::MAX
}

/// Compute the total number of bytes used to encode a nat from its first
/// byte.
pub fn nat_size(b0: u8) -> (r: usize)
    ensures
        r == size_for_first_byte(b0),
        1 <= r <= MAX_NAT_SIZE,
{
    if b0 < 0x80 {
        return 1;
    }
    if b0 < 0xC0 {
        2
    } else if b0 < 0xE0 {
        3
    } else if b0 < 0xF0 {
        4
    } else if b0 < 0xF8 {
        5
    } else if b0 < 0xFC {
        6
    } else if b0 < 0xFE {
        7
    } else if b0 < 0xFF {
        8
    } else {
        9
    }
}

/// `length_tag(n) * 256^(n-1)` for the lengths that occur.
fn tag_base(n: usize) -> (r: u128)
    requires
        1 <= n <= 9,
    ensures
        r == length_tag(n as nat) * pow256((n - 1) as nat),
{
    proof {
        lemma_pow256_values();
    }
    if n == 1 {
        0
    } else if n == 2 {
        0x8000
    } else if n == 3 {
        0xC0_0000
    } else if n == 4 {
        0xE000_0000
    } else if n == 5 {
        0xF0_0000_0000
    } else if n == 6 {
        0xF800_0000_0000
    } else if n == 7 {
        0xFC_0000_0000_0000
    } else if n == 8 {
        0xFE00_0000_0000_0000
    } else {
        0xFF_0000_0000_0000_0000
    }
}

/// `range_start(n)` for the lengths that occur.
fn start_of(n: usize) -> (r: u64)
    requires
        1 <= n <= 9,
    ensures
        r == range_start(n as nat),
{
    if n == 1 {
        0
    } else if n == 2 {
        0x80
    } else if n == 3 {
        0x4080
    } else if n == 4 {
        0x20_4080
    } else if n == 5 {
        0x1020_4080
    } else if n == 6 {
        0x08_1020_4080
    } else if n == 7 {
        0x0408_1020_4080
    } else if n == 8 {
        0x02_0408_1020_4080
    } else {
        0x0102_0408_1020_407F
    }
}

/// The digit above `p` of a number made of a tag digit and a smaller rest.
proof fn lemma_top_digit(t: nat, p: nat, off: nat, k: nat)
    requires
        p > 0,
        off < k * p,
    ensures
        t <= (t * p + off) / p < t + k,
{
    let q = off / p;
    let r = off % p;
    assert(off == q * p + r && 0 <= r < p) by {
        vstd::arithmetic::div_mod::lemma_fundamental_div_mod(off as int, p as int);
    }
    assert(t * p + off == (t + q) * p + r) by (nonlinear_arith)
        requires
            off == q * p + r,
    ;
    vstd::arithmetic::div_mod::lemma_fundamental_div_mod_converse(
        (t * p + off) as int,
        p as int,
        (t + q) as int,
        r as int,
    );
    assert(q < k) by (nonlinear_arith)
        requires
            off == q * p + r,
            0 <= r,
            off < k * p,
            p > 0,
    ;
}

/// The shape of an encoding: its length is between one and nine bytes, the
/// tagged word fits in that many bytes, and the first byte announces the
/// length.
proof fn lemma_encoding_shape(v: u64)
    ensures
        1 <= encoded_len(v) <= 9,
        range_start(encoded_len(v)) <= v,
        tagged_word(encoded_len(v), (v - range_start(encoded_len(v))) as nat) < pow256(
            encoded_len(v),
        ),
        encode_nat(v).len() == encoded_len(v),
        size_for_first_byte(encode_nat(v)[0]) == encoded_len(v),
        length_tag(encoded_len(v)) <= encode_nat(v)[0] < length_tag(encoded_len(v)) + tag_room(
            encoded_len(v),
        ),
{
    let n = encoded_len(v);
    let off = (v - range_start(n)) as nat;
    let w = tagged_word(n, off);
    let p = pow256((n - 1) as nat);
    lemma_pow256_values();
    lemma_be_bytes_len(w, n);
    lemma_be_bytes_index(w, n, 0);
    let k = tag_room(n);
    assert(off < k * p);
    lemma_top_digit(length_tag(n), p, off, k);
    let first = w / p;
    assert(length_tag(n) + k <= 256);
    assert(w < 256 * p) by (nonlinear_arith)
        requires
            w / p < 256,
            p > 0,
    ;
    assert(pow256(n) == 256 * p);
    assert(first % 256 == first);
    assert(size_for_first_byte(first as u8) == n);
}


/// Each range ends where the next one starts (the nine-byte range starts
/// one below the end of the eight-byte range), and the first-byte values of
/// consecutive lengths are adjacent.
proof fn lemma_range_ends(n: nat)
    requires
        1 <= n <= 8,
    ensures
        n < 8 ==> range_start(n) + tag_room(n) * pow256((n - 1) as nat) == range_start(n + 1),
        n == 8 ==> range_start(n) + tag_room(n) * pow256((n - 1) as nat) == 0x0102_0408_1020_4080,
        length_tag(n) + tag_room(n) == length_tag(n + 1),
{
    lemma_pow256_values();
    if n == 1 {
    } else if n == 2 {
    } else if n == 3 {
    } else if n == 4 {
    } else if n == 5 {
    } else if n == 6 {
    } else if n == 7 {
    } else {
    }
}

/// Writes the `n` low-order bytes of `word` big-endian at the front of
/// `out`.
fn write_be(out: &mut [u8], word: u128, n: usize)
    requires
        n <= old(out)@.len(),
        word < pow256(n as nat),
    ensures
        final(out)@.len() == old(out)@.len(),
        final(out)@.subrange(0, n as int) == be_bytes(word as nat, n as nat),
        final(out)@.subrange(n as int, final(out)@.len() as int) == old(out)@.subrange(
            n as int,
            old(out)@.len() as int,
        ),
{
    let ghost target = be_bytes(word as nat, n as nat);
    proof {
        lemma_be_bytes_len(word as nat, n as nat);
        assert(pow256(0) == 1);
        assert((word as nat) / 1 == word as nat);
    }
    let mut w = word;
    let mut i = n;
    while i > 0
        invariant
            i <= n <= out@.len(),
            out@.len() == old(out)@.len(),
            target == be_bytes(word as nat, n as nat),
            target.len() == n,
            w == (word as nat) / pow256((n - i) as nat),
            forall|k: int| i <= k < n ==> out@[k] == target[k],
            forall|k: int| n <= k < out@.len() ==> out@[k] == old(out)@[k],
        decreases i,
    {
        i = i - 1;
        proof {
            lemma_be_bytes_index(word as nat, n as nat, i as int);
            assert(((n - 1 - i) as nat) == ((n - (i + 1)) as nat));
        }
        out[i] = (w % 256) as u8;
        proof {
            let j = (n - (i + 1)) as nat;
            lemma_pow256_positive(j);
            vstd::arithmetic::div_mod::lemma_div_denominator(
                word as int,
                pow256(j) as int,
                256,
            );
            assert(((n - i) as nat) == j + 1);
            assert(pow256(j + 1) == 256 * pow256(j));
            assert(pow256(j) * 256 == 256 * pow256(j));
        }
        w = w / 256;
    }
    assert(out@.subrange(0, n as int) =~= target);
    assert(out@.subrange(n as int, out@.len() as int) =~= old(out)@.subrange(
        n as int,
        old(out)@.len() as int,
    ));
}

/// Encode `val` into the nat format at the front of `out`, which must have
/// room for the longest encoding. Returns the number of bytes written; the
/// bytes after them are left alone.
pub fn store_nat(out: &mut [u8], val: u64) -> (n: usize)
    requires
        old(out)@.len() >= MAX_NAT_SIZE,
    ensures
        n == encoded_len(val),
        n == encode_nat(val).len(),
        final(out)@.len() == old(out)@.len(),
        final(out)@.subrange(0, n as int) == encode_nat(val),
        final(out)@.subrange(n as int, final(out)@.len() as int) == old(out)@.subrange(
            n as int,
            old(out)@.len() as int,
        ),
{
    proof {
        lemma_encoding_shape(val);
    }
    let n: usize = if val < 0x80 {
        1
    } else if val < 0x4080 {
        2
    } else if val < 0x20_4080 {
        3
    } else if val < 0x1020_4080 {
        4
    } else if val < 0x08_1020_4080 {
        5
    } else if val < 0x0408_1020_4080 {
        6
    } else if val < 0x02_0408_1020_4080 {
        7
    } else if val < 0x0102_0408_1020_4080 {
        8
    } else {
        9
    };
    let offset = val - start_of(n);
    proof {
        lemma_pow256_values();
        lemma_pow_mono(n as nat, 9);
    }
    let word = tag_base(n) + offset as u128;
    write_be(out, word, n);
    n
}

/// Reads at most nine bytes as one big-endian number.
fn read_be(p: &[u8]) -> (r: u128)
    requires
        p@.len() <= 9,
    ensures
        r == be_value(p@),
{
    proof {
        lemma_pow256_values();
    }
    let n = p.len();
    let mut acc: u128 = 0;
    let mut i: usize = 0;
    while i < n
        invariant
            i <= n == p@.len() <= 9,
            acc == be_value(p@.take(i as int)),
            acc < pow256(i as nat),
            pow256(8) == 0x1_0000_0000_0000_0000,
        decreases n - i,
    {
        proof {
            assert(p@.take(i + 1).drop_last() =~= p@.take(i as int));
            assert(pow256(i as nat) <= pow256(8)) by {
                lemma_pow_mono(i as nat, 8);
            }
            lemma_be_value_bound(p@.take(i + 1));
        }
        acc = acc * 256 + p[i] as u128;
        i = i + 1;
    }
    assert(p@.take(n as int) =~= p@);
    acc
}

proof fn lemma_pow_mono(a: nat, b: nat)
    requires
        a <= b,
    ensures
        pow256(a) <= pow256(b),
    decreases b,
{
    if a < b {
        lemma_pow_mono(a, (b - 1) as nat);
        lemma_pow256_positive((b - 1) as nat);
    }
}

/// The first byte of an `n`-byte encoding lies in the first-byte range of
/// its length, so the word is at least the tag's weight and the offset
/// below it is smaller than the room of the range.
proof fn lemma_front_word(p: Seq<u8>)
    requires
        p.len() > 0,
        p.len() >= front_nat_size(p),
    ensures
        ({
            let n = front_nat_size(p);
            let w = be_value(p.take(n as int));
            &&& 1 <= n <= 9
            &&& length_tag(n) * pow256((n - 1) as nat) <= w
            &&& w - length_tag(n) * pow256((n - 1) as nat) < tag_room(n) * pow256((n - 1) as nat)
            &&& p.take(n as int)[0] == p[0]
        }),
{
    let n = front_nat_size(p);
    let s = p.take(n as int);
    let pp = pow256((n - 1) as nat);
    lemma_pow256_values();
    lemma_be_value_front(s);
    lemma_be_value_bound(s.drop_first());
    let b0 = s[0];
    let rest = be_value(s.drop_first());
    assert(length_tag(n) <= b0 < length_tag(n) + tag_room(n));
    assert(b0 * pp >= length_tag(n) * pp) by (nonlinear_arith)
        requires
            b0 >= length_tag(n),
    ;
    assert((b0 - length_tag(n)) * pp + rest < tag_room(n) * pp) by (nonlinear_arith)
        requires
            b0 - length_tag(n) + 1 <= tag_room(n),
            rest < pp,
            pp > 0,
    ;
    assert(b0 * pp - length_tag(n) * pp == (b0 - length_tag(n)) * pp) by (nonlinear_arith);
}

/// Decode an encoding that fills `p` exactly.
fn decode_nat(p: &[u8]) -> (r: u64)
    requires
        has_front_nat(p@),
        p@.len() == front_nat_size(p@),
    ensures
        r == front_nat_value(p@),
{
    let n = nat_size(p[0]);
    let w = read_be(p);
    proof {
        lemma_front_word(p@);
        assert(p@.take(n as int) =~= p@);
        lemma_pow256_values();
    }
    let offset = w - tag_base(n);
    (offset + start_of(n) as u128) as u64
}

/// Decode a trusted (already validated) nat from the front of `p`.
/// Returns the number and the bytes after it.
pub fn load_trusted_nat(p: &[u8]) -> (r: (u64, &[u8]))
    requires
        has_front_nat(p@),
    ensures
        r.0 == front_nat_value(p@),
        r.1@ == p@.skip(front_nat_size(p@) as int),
{
    let size = nat_size(p[0]);
    let (head, rest) = p.split_at(size);
    proof {
        assert(head@ =~= p@.take(size as int));
        assert(head@.take(size as int) =~= p@.take(size as int));
    }
    let val = decode_nat(head);
    (val, rest)
}

/// Decode an untrusted nat from the front of `p`, validating the encoding.
/// Returns `None` if the buffer is too short or the encoding is invalid
/// (a nine-byte encoding of a number beyond 64 bits).
pub fn load_untrusted_nat(p: &[u8]) -> (r: Option<(u64, &[u8])>)
    ensures
        r is Some <==> has_front_nat(p@),
        r matches Some(x) ==> x.0 == front_nat_value(p@) && x.1@ == p@.skip(
            front_nat_size(p@) as int,
        ),
{
    if p.is_empty() {
        return None;
    }
    let size = nat_size(p[0]);
    if p.len() < size {
        return None;
    }
    if size == 9 {
        let w = read_be(&p[0..9]);
        proof {
            lemma_front_word(p@);
            assert(p@.subrange(0, 9) =~= p@.take(9));
            lemma_pow256_values();
        }
        if w - tag_base(9) > (u64::MAX - start_of(9)) as u128 {
            return None;
        }
    }
    proof {
        lemma_front_word(p@);
        lemma_pow256_values();
        let n = size as nat;
        let w = be_value(p@.take(size as int));
        assert(w - length_tag(n) * pow256((n - 1) as nat) < tag_room(n) * pow256((n - 1) as nat));
        if size < 9 {
            lemma_range_ends(n);
        }
        assert(front_nat_value(p@) <= u64::MAX);
    }
    Some(load_trusted_nat(p))
}

/// Skip over a trusted nat without decoding it.
pub fn skip_trusted_nat(p: &[u8]) -> (r: &[u8])
    requires
        p@.len() > 0,
        p@.len() >= front_nat_size(p@),
    ensures
        r@ == p@.skip(front_nat_size(p@) as int),
{
    let size = nat_size(p[0]);
    &p[size..p.len()]
}


/// A nat encoded into a fixed buffer of the longest size.
pub struct EncodedNat {
    buf: [u8; 9],
    len: usize,
}

impl View for EncodedNat {
    type V = Seq<u8>;

    closed spec fn view(&self) -> Seq<u8> {
        self.buf@.subrange(0, self.len as int)
    }
}

impl EncodedNat {
    #[verifier::type_invariant]
    closed spec fn inv(self) -> bool {
        self.len <= 9
    }

    pub fn new(val: u64) -> (r: Self)
        ensures
            r@ == encode_nat(val),
    {
        let mut buf = [0u8; 9];
        let len = store_nat(&mut buf, val);
        EncodedNat { buf, len }
    }

    pub fn as_bytes(&self) -> (r: &[u8])
        ensures
            r@ == self@,
    {
        proof {
            use_type_invariant(self);
        }
        let all = self.buf.as_slice();
        &all[0..self.len]
    }

    pub fn len(&self) -> (r: usize)
        ensures
            r == self@.len(),
    {
        proof {
            use_type_invariant(self);
        }
        self.len
    }
}

/// Decoding an encoding gives back the number, whatever follows it: the
/// first byte announces the encoding's length and the encoding is
/// complete and in range.
pub proof fn lemma_nat_roundtrip(v: u64, rest: Seq<u8>)
    ensures
        has_front_nat(encode_nat(v) + rest),
        front_nat_size(encode_nat(v) + rest) == encode_nat(v).len(),
        front_nat_value(encode_nat(v) + rest) == v,
        encode_nat(v).len() <= MAX_NAT_SIZE,
{
    lemma_encoding_shape(v);
    let e = encode_nat(v);
    let p = e + rest;
    let n = encoded_len(v);
    let w = tagged_word(n, (v - range_start(n)) as nat);
    assert(p[0] == e[0]);
    assert(p.take(n as int) =~= e);
    lemma_be_value_of_bytes(w, n);
    vstd::arithmetic::div_mod::lemma_small_mod(w, pow256(n));
}

/// A complete encoding of eight bytes or fewer always holds a number that
/// fits in 64 bits: only a nine-byte encoding can be out of range, so
/// `load_untrusted_nat` reads every complete shorter encoding.
pub proof fn lemma_short_nat_fits(p: Seq<u8>)
    requires
        p.len() > 0,
        p.len() >= front_nat_size(p),
        front_nat_size(p) <= 8,
    ensures
        has_front_nat(p),
{
    lemma_front_word(p);
    lemma_pow256_values();
}

/// Encodings sort byte by byte as the numbers they encode.
pub proof fn lemma_nat_order(a: u64, b: u64)
    requires
        a < b,
    ensures
        lex_lt(encode_nat(a), encode_nat(b)),
{
    lemma_encoding_shape(a);
    lemma_encoding_shape(b);
    let na = encoded_len(a);
    let nb = encoded_len(b);
    let ea = encode_nat(a);
    let eb = encode_nat(b);
    if na == nb {
        let wa = tagged_word(na, (a - range_start(na)) as nat);
        let wb = tagged_word(nb, (b - range_start(nb)) as nat);
        lemma_be_value_of_bytes(wa, na);
        lemma_be_value_of_bytes(wb, nb);
        vstd::arithmetic::div_mod::lemma_small_mod(wa, pow256(na));
        vstd::arithmetic::div_mod::lemma_small_mod(wb, pow256(nb));
        lemma_lex_lt_of_be_value(ea, eb);
    } else {
        assert(na < nb);
        lemma_range_ends(na);
        lemma_tag_mono(na + 1, nb);
        assert(ea[0] < eb[0]);
    }
}

proof fn lemma_tag_mono(m: nat, n: nat)
    requires
        2 <= m <= n <= 9,
    ensures
        length_tag(m) <= length_tag(n),
{
}

/// Different numbers have different encodings.
pub proof fn lemma_nat_injective(a: u64, b: u64)
    requires
        encode_nat(a) == encode_nat(b),
    ensures
        a == b,
{
    lemma_nat_roundtrip(a, Seq::empty());
    lemma_nat_roundtrip(b, Seq::empty());
}

/// Every complete, in-range encoding is the encoding of the number it
/// decodes to, except the nine-byte encoding with a zero offset, which
/// decodes to the last number of the eight-byte range.
pub proof fn lemma_nat_canonical(p: Seq<u8>)
    requires
        has_front_nat(p),
        !(front_nat_size(p) == 9 && be_value(p.take(9)) == length_tag(9) * pow256(8)),
    ensures
        encode_nat(front_nat_value(p) as u64) == p.take(front_nat_size(p) as int),
{
    lemma_front_word(p);
    lemma_pow256_values();
    let n = front_nat_size(p);
    let s = p.take(n as int);
    let w = be_value(s);
    let v = front_nat_value(p) as u64;
    let off = (w - length_tag(n) * pow256((n - 1) as nat)) as nat;
    assert(v == off + range_start(n));
    if n < 9 {
        lemma_range_ends(n);
    }
    assert(encoded_len(v) == n);
    assert(tagged_word(n, (v - range_start(n)) as nat) == w);
    lemma_be_bytes_of_value(s);
}

} // verus!
