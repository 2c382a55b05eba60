//! Byte-sequence arithmetic shared by the codecs: big-endian reading and
//! writing of numbers, and the lexicographic (memcmp) order on byte strings.
use vstd::prelude::*;
use vstd::arithmetic::div_mod::{
    lemma_div_denominator, lemma_fundamental_div_mod_converse, lemma_mod_breakdown,
};
use vstd::arithmetic::mul::lemma_mul_strictly_positive;

verus! {

/// 256 raised to the power `k`.
pub open spec fn pow256(k: nat) -> nat
    decreases k,
{
    if k == 0 {
        1
    } else {
        256 * pow256((k - 1) as nat)
    }
}

/// The `n` low-order bytes of `x`, most significant byte first.
pub open spec fn be_bytes(x: nat, n: nat) -> Seq<u8>
    decreases n,
{
    if n == 0 {
        Seq::empty()
    } else {
        be_bytes(x / 256, (n - 1) as nat).push((x % 256) as u8)
    }
}

/// The number that `s` denotes when read most significant byte first.
pub open spec fn be_value(s: Seq<u8>) -> nat
    decreases s.len(),
{
    if s.len() == 0 {
        0
    } else {
        (be_value(s.drop_last()) * 256 + s.last()) as nat
    }
}

/// Strict lexicographic order on byte strings, as `memcmp` and slice
/// comparison define it: a proper prefix sorts first.
pub open spec fn lex_lt(a: Seq<u8>, b: Seq<u8>) -> bool
    decreases a.len(),
{
    if b.len() == 0 {
        false
    } else if a.len() == 0 {
        true
    } else if a[0] != b[0] {
        a[0] < b[0]
    } else {
        lex_lt(a.drop_first(), b.drop_first())
    }
}

pub proof fn lemma_pow256_positive(k: nat)
    ensures
        pow256(k) > 0,
    decreases k,
{
    if k > 0 {
        lemma_pow256_positive((k - 1) as nat);
    }
}

pub proof fn lemma_pow256_values()
    ensures
        pow256(0) == 1,
        pow256(1) == 0x100,
        pow256(2) == 0x1_0000,
        pow256(3) == 0x100_0000,
        pow256(4) == 0x1_0000_0000,
        pow256(5) == 0x100_0000_0000,
        pow256(6) == 0x1_0000_0000_0000,
        pow256(7) == 0x100_0000_0000_0000,
        pow256(8) == 0x1_0000_0000_0000_0000,
        pow256(9) == 0x100_0000_0000_0000_0000,
{
    reveal_with_fuel(pow256, 10);
}

pub proof fn lemma_be_bytes_len(x: nat, n: nat)
    ensures
        be_bytes(x, n).len() == n,
    decreases n,
{
    if n > 0 {
        lemma_be_bytes_len(x / 256, (n - 1) as nat);
    }
}

/// Byte `k` of `be_bytes(x, n)` is digit `n - 1 - k` of `x` in base 256.
pub proof fn lemma_be_bytes_index(x: nat, n: nat, k: int)
    requires
        0 <= k < n,
    ensures
        be_bytes(x, n).len() == n,
        be_bytes(x, n)[k] == ((x / pow256((n - 1 - k) as nat)) % 256) as u8,
    decreases n,
{
    lemma_be_bytes_len(x, n);
    lemma_be_bytes_len(x / 256, (n - 1) as nat);
    let b = be_bytes(x, n);
    let inner = be_bytes(x / 256, (n - 1) as nat);
    assert(b == inner.push((x % 256) as u8));
    if k < n - 1 {
        lemma_be_bytes_index(x / 256, (n - 1) as nat, k);
        let j = (n - 2 - k) as nat;
        assert(b[k] == inner[k]);
        assert(inner[k] == (((x / 256) / pow256(j)) % 256) as u8);
        lemma_pow256_positive(j);
        lemma_div_denominator(x as int, 256, pow256(j) as int);
        assert(((n - 1 - k) as nat) == j + 1);
        assert(pow256(j + 1) == 256 * pow256(j));
    } else {
        assert(b[k] == (x % 256) as u8);
        assert(((n - 1 - k) as nat) == 0);
        assert(pow256(0) == 1);
        assert(x / 1 == x);
    }
}

/// Reading back what `be_bytes` wrote gives the number modulo `256^n`.
pub proof fn lemma_be_value_of_bytes(x: nat, n: nat)
    ensures
        be_value(be_bytes(x, n)) == x % pow256(n),
    decreases n,
{
    if n == 0 {
        assert(be_bytes(x, n).len() == 0);
    } else {
        let b = be_bytes(x, n);
        lemma_be_value_of_bytes(x / 256, (n - 1) as nat);
        assert(b.drop_last() =~= be_bytes(x / 256, (n - 1) as nat));
        lemma_pow256_positive((n - 1) as nat);
        lemma_mod_breakdown(x as int, 256, pow256((n - 1) as nat) as int);
        assert(x % pow256(n) == 256 * ((x / 256) % pow256((n - 1) as nat)) + x % 256);
    }
}

/// A value read from `s` is below `256^|s|`.
pub proof fn lemma_be_value_bound(s: Seq<u8>)
    ensures
        be_value(s) < pow256(s.len()),
    decreases s.len(),
{
    if s.len() > 0 {
        lemma_be_value_bound(s.drop_last());
        assert(be_value(s.drop_last()) + 1 <= pow256((s.len() - 1) as nat));
        assert(be_value(s) < (be_value(s.drop_last()) + 1) * 256) by (nonlinear_arith)
            requires
                be_value(s) == be_value(s.drop_last()) * 256 + s.last(),
                s.last() < 256,
        ;
        assert((be_value(s.drop_last()) + 1) * 256 <= pow256((s.len() - 1) as nat) * 256)
            by (nonlinear_arith)
            requires
                be_value(s.drop_last()) + 1 <= pow256((s.len() - 1) as nat),
        ;
    }
}

/// Writing back the value read from `s` with `|s|` bytes gives `s` again.
pub proof fn lemma_be_bytes_of_value(s: Seq<u8>)
    ensures
        be_bytes(be_value(s), s.len()) == s,
    decreases s.len(),
{
    if s.len() > 0 {
        let v = be_value(s);
        let q = be_value(s.drop_last());
        lemma_fundamental_div_mod_converse(v as int, 256, q as int, s.last() as int);
        lemma_be_bytes_of_value(s.drop_last());
        assert(be_bytes(v, s.len()) =~= s.drop_last().push(s.last()));
        assert(s.drop_last().push(s.last()) =~= s);
    }
}

/// Reading from the front: the first byte weighs `256^(|s| - 1)`.
pub proof fn lemma_be_value_front(s: Seq<u8>)
    requires
        s.len() > 0,
    ensures
        be_value(s) == s[0] * pow256((s.len() - 1) as nat) + be_value(s.drop_first()),
    decreases s.len(),
{
    if s.len() == 1 {
        assert(s.drop_last().len() == 0);
        assert(s.drop_first().len() == 0);
        assert(be_value(s.drop_last()) == 0);
        assert(be_value(s.drop_first()) == 0);
        assert(s.last() == s[0]);
        assert(pow256(0) == 1);
        assert(be_value(s) == s.last());
        assert(((s.len() - 1) as nat) == 0);
        assert(s[0] * pow256((s.len() - 1) as nat) == s[0]);
        assert(be_value(s) == s[0] * pow256((s.len() - 1) as nat) + be_value(s.drop_first()));
    } else {
        let t = s.drop_last();
        let u = s.drop_first();
        lemma_be_value_front(t);
        assert(t.drop_first() =~= u.drop_last());
        assert(u.last() == s.last());
        assert(t[0] == s[0]);
        let p = pow256((s.len() - 2) as nat);
        assert(be_value(t) == t[0] * p + be_value(t.drop_first()));
        assert(be_value(u) == be_value(t.drop_first()) * 256 + s.last());
        assert(be_value(s) == be_value(t) * 256 + s.last());
        assert((t[0] * p + be_value(t.drop_first())) * 256 == t[0] * (p * 256) + be_value(
            t.drop_first(),
        ) * 256) by (nonlinear_arith);
        assert(((s.len() - 1) as nat) == ((s.len() - 2) as nat) + 1);
        assert(pow256((s.len() - 1) as nat) == 256 * p);
        assert(p * 256 == 256 * p);
        let q = pow256((s.len() - 1) as nat);
        assert(s[0] * q == t[0] * (p * 256));
        assert(be_value(s) == s[0] * q + be_value(u));
    }
}

/// Among byte strings of one length, the numerically smaller is also the
/// lexicographically smaller.
pub proof fn lemma_lex_lt_of_be_value(s: Seq<u8>, t: Seq<u8>)
    requires
        s.len() == t.len(),
        be_value(s) < be_value(t),
    ensures
        lex_lt(s, t),
    decreases s.len(),
{
    if s.len() == 0 {
    } else {
        lemma_be_value_front(s);
        lemma_be_value_front(t);
        let p = pow256((s.len() - 1) as nat);
        lemma_be_value_bound(s.drop_first());
        lemma_be_value_bound(t.drop_first());
        if s[0] == t[0] {
            lemma_lex_lt_of_be_value(s.drop_first(), t.drop_first());
        } else if s[0] > t[0] {
            assert(s[0] * p >= (t[0] + 1) * p) by (nonlinear_arith)
                requires
                    s[0] >= t[0] + 1,
                    p > 0,
            ;
            assert((t[0] + 1) * p == t[0] * p + p) by (nonlinear_arith);
            assert(false);
        }
    }
}

} // verus!
