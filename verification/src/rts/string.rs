//! The mangled string representation of the binary format.
//!
//! A string is stored with every NUL byte escaped as `0x00 0x01` and is
//! terminated by `0x00 0x00`; all other bytes are unchanged. Comparing
//! mangled strings byte by byte orders them as the strings, a string's
//! escaped bytes are a prefix of the mangled form of every string it is a
//! prefix of, and embedded NULs are supported.
use vstd::prelude::*;
use crate::rts::bytes::lex_lt;

verus! {

/// The escaped form of one byte.
pub open spec fn escape_byte(b: u8) -> Seq<u8> {
    if b == 0 {
        seq![0u8, 1u8]
    } else {
        seq![b]
    }
}

/// Every byte of `s` escaped, without the terminator.
pub open spec fn escape(s: Seq<u8>) -> Seq<u8>
    decreases s.len(),
{
    if s.len() == 0 {
        Seq::empty()
    } else {
        escape_byte(s[0]) + escape(s.drop_first())
    }
}

/// The mangled form of `s`: escaped bytes followed by the terminator.
pub open spec fn mangle(s: Seq<u8>) -> Seq<u8> {
    escape(s) + seq![0u8, 0u8]
}

/// Reads a mangled string at the front of `p`: the string and the number
/// of bytes its mangled form takes, or `None` when `p` holds no complete,
/// well-formed mangled string at its front.
pub open spec fn parse_mangled(p: Seq<u8>) -> Option<(Seq<u8>, nat)>
    decreases p.len(),
{
    if p.len() == 0 {
        None
    } else if p[0] != 0 {
        match parse_mangled(p.drop_first()) {
            Some((s, n)) => Some((seq![p[0]] + s, n + 1)),
            None => None,
        }
    } else if p.len() < 2 {
        None
    } else if p[1] == 0 {
        Some((Seq::empty(), 2))
    } else if p[1] == 1 {
        match parse_mangled(p.subrange(2, p.len() as int)) {
            Some((s, n)) => Some((seq![0u8] + s, n + 2)),
            None => None,
        }
    } else {
        None
    }
}

/// ASCII lowercase of one byte; other bytes are unchanged.
pub open spec fn ascii_lower(b: u8) -> u8 {
    if 0x41 <= b <= 0x5A {
        (b + 0x20) as u8
    } else {
        b
    }
}

/// ASCII lowercase of every byte of `s`.
pub open spec fn lower_bytes(s: Seq<u8>) -> Seq<u8> {
    s.map_values(|b: u8| ascii_lower(b))
}

/// How parsing from position `i` combines with what was read before it.
pub open spec fn parse_from(p: Seq<u8>, i: int, before: Seq<u8>) -> Option<(Seq<u8>, nat)> {
    match parse_mangled(p.skip(i)) {
        Some((s, n)) => Some((before + s, (n + i) as nat)),
        None => None,
    }
}

/// One step of the scan: a plain byte at `i`.
proof fn lemma_parse_step_plain(p: Seq<u8>, i: int, before: Seq<u8>)
    requires
        0 <= i < p.len(),
        p[i] != 0,
    ensures
        parse_from(p, i, before) == parse_from(p, i + 1, before.push(p[i])),
{
    let q = p.skip(i);
    assert(q.drop_first() =~= p.skip(i + 1));
    assert(q[0] == p[i]);
    match parse_mangled(q.drop_first()) {
        Some((s, n)) => {
            assert(before + (seq![p[i]] + s) =~= before.push(p[i]) + s);
        },
        None => {},
    }
}

/// One step of the scan: an escaped NUL at `i`.
proof fn lemma_parse_step_escape(p: Seq<u8>, i: int, before: Seq<u8>)
    requires
        0 <= i,
        i + 1 < p.len(),
        p[i] == 0,
        p[i + 1] == 1,
    ensures
        parse_from(p, i, before) == parse_from(p, i + 2, before.push(0u8)),
{
    let q = p.skip(i);
    assert(q.subrange(2, q.len() as int) =~= p.skip(i + 2));
    assert(q[0] == 0 && q[1] == 1);
    match parse_mangled(q.subrange(2, q.len() as int)) {
        Some((s, n)) => {
            assert(before + (seq![0u8] + s) =~= before.push(0u8) + s);
        },
        None => {},
    }
}

/// The scan's end: the terminator at `i`.
proof fn lemma_parse_step_end(p: Seq<u8>, i: int, before: Seq<u8>)
    requires
        0 <= i,
        i + 1 < p.len(),
        p[i] == 0,
        p[i + 1] == 0,
    ensures
        parse_from(p, i, before) == Some((before, (i + 2) as nat)),
{
    let q = p.skip(i);
    assert(q[0] == 0 && q[1] == 0);
    assert(before + Seq::<u8>::empty() =~= before);
}

/// The scan fails at `i`: a NUL with nothing, or a byte other than the two
/// escapes, after it.
proof fn lemma_parse_step_fail(p: Seq<u8>, i: int, before: Seq<u8>)
    requires
        0 <= i < p.len(),
        p[i] == 0,
        i + 1 >= p.len() || (p[i + 1] != 0 && p[i + 1] != 1),
    ensures
        parse_from(p, i, before) is None,
{
    let q = p.skip(i);
    assert(q[0] == 0);
    if i + 1 < p.len() {
        assert(q[1] == p[i + 1]);
    }
}

proof fn lemma_parse_start(p: Seq<u8>)
    ensures
        parse_from(p, 0, Seq::empty()) == parse_mangled(p),
{
    assert(p.skip(0) =~= p);
    match parse_mangled(p) {
        Some((s, n)) => {
            assert(Seq::<u8>::empty() + s =~= s);
        },
        None => {},
    }
}

/// A parsed string's mangled form lies within what was read.
pub proof fn lemma_parse_size(p: Seq<u8>)
    requires
        parse_mangled(p) is Some,
    ensures
        2 <= parse_mangled(p).unwrap().1 <= p.len(),
        parse_mangled(p).unwrap().0.len() < parse_mangled(p).unwrap().1,
    decreases p.len(),
{
    if p[0] != 0 {
        lemma_parse_size(p.drop_first());
    } else if p[1] == 1 {
        lemma_parse_size(p.subrange(2, p.len() as int));
    }
}

/// Mangle `input`, appending the mangled form to `output`.
pub fn mangle_string(input: &[u8], output: &mut Vec<u8>)
    ensures
        final(output)@ == old(output)@ + mangle(input@),
{
    let ghost start = output@;
    proof {
        assert(input@.skip(0) =~= input@);
    }
    let mut i: usize = 0;
    while i < input.len()
        invariant
            i <= input@.len(),
            output@ + escape(input@.skip(i as int)) == start + escape(input@),
        decreases input@.len() - i,
    {
        let ghost before = output@;
        proof {
            let rest = input@.skip(i as int);
            assert(rest.drop_first() =~= input@.skip(i + 1));
            assert(rest[0] == input@[i as int]);
        }
        if input[i] == 0x00 {
            output.push(0x00);
            output.push(0x01);
            proof {
                assert(output@ =~= before + seq![0u8, 1u8]);
            }
        } else {
            output.push(input[i]);
            proof {
                assert(output@ =~= before + seq![input@[i as int]]);
            }
        }
        proof {
            let rest = input@.skip(i as int);
            assert(before + escape(rest) =~= output@ + escape(input@.skip(i + 1)));
        }
        i = i + 1;
    }
    proof {
        assert(input@.skip(i as int).len() == 0);
        assert(output@ + escape(input@.skip(i as int)) =~= output@);
    }
    output.push(0x00);
    output.push(0x00);
    proof {
        assert(output@ =~= start + mangle(input@));
    }
}

/// ASCII lowercase of one byte.
fn lower_byte(b: u8) -> (r: u8)
    ensures
        r == ascii_lower(b),
{
    if 0x41 <= b && b <= 0x5A {
        b + 0x20
    } else {
        b
    }
}

/// Convert a trusted mangled string to lowercase, appending the result to
/// `output`. Only ASCII letters change; escapes and other bytes are kept.
pub fn to_lower_string(input: &[u8], output: &mut Vec<u8>)
    requires
        parse_mangled(input@) is Some,
    ensures
        final(output)@ == old(output)@ + mangle(lower_bytes(parse_mangled(input@).unwrap().0)),
{
    let ghost start = output@;
    let ghost text = parse_mangled(input@).unwrap().0;
    let ghost mut seen: Seq<u8> = Seq::empty();
    proof {
        lemma_parse_start(input@);
        assert(seen + text =~= text);
    }
    let mut i: usize = 0;
    loop
        invariant
            i <= input@.len(),
            parse_from(input@, i as int, seen) is Some,
            parse_from(input@, i as int, seen).unwrap().0 == text,
            text == parse_mangled(input@).unwrap().0,
            start == old(output)@,
            output@ == start + escape(lower_bytes(seen)),
        decreases input@.len() - i,
    {
        proof {
            lemma_parse_size(input@.skip(i as int));
        }
        if input[i] == 0x00 {
            if input[i + 1] == 0x00 {
                proof {
                    lemma_parse_step_end(input@, i as int, seen);
                    assert(seen == text);
                }
                output.push(0x00);
                output.push(0x00);
                proof {
                    assert(output@ =~= start + mangle(lower_bytes(text)));
                }
                return;
            } else {
                proof {
                    if input@[i + 1] != 1 {
                        lemma_parse_step_fail(input@, i as int, seen);
                    }
                    lemma_parse_step_escape(input@, i as int, seen);
                    lemma_escape_push(lower_bytes(seen), 0u8);
                    assert(lower_bytes(seen.push(0u8)) =~= lower_bytes(seen).push(0u8));
                }
                output.push(0x00);
                output.push(0x01);
                proof {
                    seen = seen.push(0u8);
                }
                i = i + 2;
            }
        } else {
            let b = lower_byte(input[i]);
            proof {
                lemma_parse_step_plain(input@, i as int, seen);
                lemma_escape_push(lower_bytes(seen), b);
                assert(lower_bytes(seen.push(input@[i as int])) =~= lower_bytes(seen).push(b));
            }
            output.push(b);
            proof {
                seen = seen.push(input@[i as int]);
            }
            i = i + 1;
        }
    }
}

/// Lowercasing changes exactly the ASCII capitals `A`-`Z`, each to its
/// small letter 0x20 above it, and keeps every other byte; a lowered
/// string has the same length and no ASCII capitals left.
pub proof fn lemma_ascii_lowercase(s: Seq<u8>)
    ensures
        forall|b: u8| 0x41 <= b <= 0x5A ==> #[trigger] ascii_lower(b) == b + 0x20 && 0x61
            <= ascii_lower(b) <= 0x7A,
        forall|b: u8| !(0x41 <= b <= 0x5A) ==> #[trigger] ascii_lower(b) == b,
        lower_bytes(s).len() == s.len(),
        forall|i: int|
            0 <= i < s.len() ==> #[trigger] lower_bytes(s)[i] == (if 0x41 <= s[i] <= 0x5A {
                (s[i] + 0x20) as u8
            } else {
                s[i]
            }),
        forall|i: int| 0 <= i < s.len() ==> !(0x41 <= #[trigger] lower_bytes(s)[i] <= 0x5A),
{
}

/// Escaping one more byte appends its escaped form.
pub proof fn lemma_escape_push(s: Seq<u8>, b: u8)
    ensures
        escape(s.push(b)) == escape(s) + escape_byte(b),
    decreases s.len(),
{
    if s.len() == 0 {
        assert(s.push(b).drop_first() =~= Seq::<u8>::empty());
        assert(escape(s.push(b).drop_first()) == Seq::<u8>::empty());
        assert(escape(s) == Seq::<u8>::empty());
        assert(escape(s.push(b)) =~= escape_byte(b));
    } else {
        lemma_escape_push(s.drop_first(), b);
        assert(s.push(b).drop_first() =~= s.drop_first().push(b));
        assert(escape(s.push(b)) =~= escape(s) + escape_byte(b));
    }
}

/// Validate an untrusted mangled string. Returns the size of its mangled
/// form including the terminator, or `None` if the encoding is invalid or
/// the buffer is too short.
pub fn validate_untrusted_string(input: &[u8]) -> (r: Option<usize>)
    ensures
        match parse_mangled(input@) {
            Some((_, n)) => r == Some(n as usize),
            None => r is None,
        },
{
    let ghost mut seen: Seq<u8> = Seq::empty();
    proof {
        lemma_parse_start(input@);
    }
    let mut i: usize = 0;
    while i < input.len()
        invariant
            i <= input@.len(),
            parse_from(input@, i as int, seen) == parse_mangled(input@),
        decreases input@.len() - i,
    {
        if input[i] == 0x00 {
            if i + 1 >= input.len() {
                proof {
                    lemma_parse_step_fail(input@, i as int, seen);
                }
                return None;
            }
            if input[i + 1] == 0x00 {
                proof {
                    lemma_parse_step_end(input@, i as int, seen);
                }
                return Some(i + 2);
            } else if input[i + 1] == 0x01 {
                proof {
                    lemma_parse_step_escape(input@, i as int, seen);
                    seen = seen.push(0u8);
                }
                i = i + 2;
            } else {
                proof {
                    lemma_parse_step_fail(input@, i as int, seen);
                }
                return None;
            }
        } else {
            proof {
                lemma_parse_step_plain(input@, i as int, seen);
                seen = seen.push(input@[i as int]);
            }
            i = i + 1;
        }
    }
    proof {
        assert(input@.skip(i as int).len() == 0);
    }
    None
}

/// Demangle a trusted mangled string. Returns the string and the size of
/// its mangled form including the terminator.
pub fn demangle_trusted_string(input: &[u8]) -> (r: (Vec<u8>, usize))
    requires
        parse_mangled(input@) is Some,
    ensures
        r.0@ == parse_mangled(input@).unwrap().0,
        r.1 == parse_mangled(input@).unwrap().1,
{
    let mut output: Vec<u8> = Vec::new();
    proof {
        lemma_parse_start(input@);
    }
    let mut i: usize = 0;
    loop
        invariant
            i <= input@.len(),
            parse_mangled(input@) is Some,
            parse_from(input@, i as int, output@) == parse_mangled(input@),
        decreases input@.len() - i,
    {
        proof {
            lemma_parse_size(input@.skip(i as int));
        }
        if input[i] == 0x00 {
            if input[i + 1] == 0x00 {
                proof {
                    lemma_parse_step_end(input@, i as int, output@);
                }
                return (output, i + 2);
            } else {
                proof {
                    if input@[i + 1] != 1 {
                        lemma_parse_step_fail(input@, i as int, output@);
                    }
                    lemma_parse_step_escape(input@, i as int, output@);
                }
                output.push(0x00);
                i = i + 2;
            }
        } else {
            proof {
                lemma_parse_step_plain(input@, i as int, output@);
            }
            output.push(input[i]);
            i = i + 1;
        }
    }
}

/// Skip over a trusted mangled string without decoding it. Returns the
/// size of its mangled form including the terminator, and the length of
/// the string.
pub fn skip_trusted_string(input: &[u8]) -> (r: (usize, usize))
    requires
        parse_mangled(input@) is Some,
    ensures
        r.0 == parse_mangled(input@).unwrap().1,
        r.1 == parse_mangled(input@).unwrap().0.len(),
{
    let ghost mut seen: Seq<u8> = Seq::empty();
    proof {
        lemma_parse_start(input@);
    }
    let mut i: usize = 0;
    let mut demangled: usize = 0;
    loop
        invariant
            i <= input@.len(),
            demangled == seen.len(),
            seen.len() <= i,
            parse_mangled(input@) is Some,
            parse_from(input@, i as int, seen) == parse_mangled(input@),
        decreases input@.len() - i,
    {
        proof {
            lemma_parse_size(input@.skip(i as int));
        }
        if input[i] == 0x00 {
            if input[i + 1] == 0x00 {
                proof {
                    lemma_parse_step_end(input@, i as int, seen);
                }
                return (i + 2, demangled);
            } else {
                proof {
                    if input@[i + 1] != 1 {
                        lemma_parse_step_fail(input@, i as int, seen);
                    }
                    lemma_parse_step_escape(input@, i as int, seen);
                    seen = seen.push(0u8);
                }
                demangled = demangled + 1;
                i = i + 2;
            }
        } else {
            proof {
                lemma_parse_step_plain(input@, i as int, seen);
                seen = seen.push(input@[i as int]);
            }
            demangled = demangled + 1;
            i = i + 1;
        }
    }
}


/// Mangling a non-empty string escapes its first byte in front of the
/// mangled rest.
proof fn lemma_mangle_front(s: Seq<u8>)
    requires
        s.len() > 0,
    ensures
        mangle(s) == escape_byte(s[0]) + mangle(s.drop_first()),
{
    assert(mangle(s) =~= escape_byte(s[0]) + mangle(s.drop_first()));
}

/// Demangling a mangled string gives it back, together with the size of
/// its mangled form, whatever follows it.
pub proof fn lemma_mangle_roundtrip(s: Seq<u8>, rest: Seq<u8>)
    ensures
        parse_mangled(mangle(s) + rest) == Some((s, mangle(s).len())),
    decreases s.len(),
{
    let p = mangle(s) + rest;
    if s.len() == 0 {
        assert(escape(s) == Seq::<u8>::empty());
        assert(p[0] == 0 && p[1] == 0);
        assert(mangle(s).len() == 2);
        assert(s =~= Seq::<u8>::empty());
    } else {
        lemma_mangle_front(s);
        lemma_mangle_roundtrip(s.drop_first(), rest);
        let t = mangle(s.drop_first()) + rest;
        if s[0] == 0 {
            assert(p =~= seq![0u8, 1u8] + t);
            assert(p.subrange(2, p.len() as int) =~= t);
            assert(seq![0u8] + s.drop_first() =~= s);
        } else {
            assert(p =~= seq![s[0]] + t);
            assert(p.drop_first() =~= t);
            assert(seq![s[0]] + s.drop_first() =~= s);
        }
    }
}

/// A well-formed mangled string at the front of `p` is exactly the mangled
/// form of what it demangles to: the representation is unique.
pub proof fn lemma_mangle_canonical(p: Seq<u8>)
    requires
        parse_mangled(p) is Some,
    ensures
        p.take(parse_mangled(p).unwrap().1 as int) == mangle(parse_mangled(p).unwrap().0),
    decreases p.len(),
{
    let (s, n) = parse_mangled(p).unwrap();
    if p[0] != 0 {
        let q = p.drop_first();
        lemma_mangle_canonical(q);
        lemma_parse_size(q);
        let (s1, n1) = parse_mangled(q).unwrap();
        lemma_mangle_front(s);
        assert(s.drop_first() =~= s1);
        assert(p.take(n as int) =~= seq![p[0]] + q.take(n1 as int));
    } else if p[1] == 0 {
        assert(escape(s) == Seq::<u8>::empty());
        assert(p.take(2) =~= mangle(s));
    } else {
        let q = p.subrange(2, p.len() as int);
        lemma_mangle_canonical(q);
        lemma_parse_size(q);
        let (s1, n1) = parse_mangled(q).unwrap();
        lemma_mangle_front(s);
        assert(s.drop_first() =~= s1);
        assert(p.take(n as int) =~= seq![0u8, 1u8] + q.take(n1 as int));
    }
}

/// A common prefix does not change the order.
proof fn lemma_lex_lt_common_prefix(u: Seq<u8>, x: Seq<u8>, y: Seq<u8>)
    ensures
        lex_lt(u + x, u + y) == lex_lt(x, y),
    decreases u.len(),
{
    if u.len() > 0 {
        lemma_lex_lt_common_prefix(u.drop_first(), x, y);
        assert((u + x).drop_first() =~= u.drop_first() + x);
        assert((u + y).drop_first() =~= u.drop_first() + y);
    } else {
        assert(u + x =~= x);
        assert(u + y =~= y);
    }
}

/// Mangled strings sort byte by byte as the strings themselves.
pub proof fn lemma_mangle_order(a: Seq<u8>, b: Seq<u8>)
    requires
        lex_lt(a, b),
    ensures
        lex_lt(mangle(a), mangle(b)),
    decreases a.len(),
{
    let ma = mangle(a);
    let mb = mangle(b);
    lemma_mangle_front(b);
    if a.len() == 0 {
        assert(escape(a) == Seq::<u8>::empty());
        assert(ma =~= seq![0u8, 0u8]);
        if b[0] == 0 {
            assert(mb[0] == 0 && mb[1] == 1);
            assert(ma.drop_first() =~= seq![0u8]);
            assert(mb.drop_first()[0] == 1);
            assert(lex_lt(ma.drop_first(), mb.drop_first()));
            assert(lex_lt(ma, mb));
        } else {
            assert(mb[0] == b[0]);
            assert(lex_lt(ma, mb));
        }
    } else {
        lemma_mangle_front(a);
        if a[0] == b[0] {
            lemma_mangle_order(a.drop_first(), b.drop_first());
            lemma_lex_lt_common_prefix(
                escape_byte(a[0]),
                mangle(a.drop_first()),
                mangle(b.drop_first()),
            );
            assert(lex_lt(ma, mb));
        } else {
            assert(a[0] < b[0]);
            assert(ma[0] == a[0]);
            assert(mb[0] == b[0]);
            assert(lex_lt(ma, mb));
        }
    }
}

/// The mangled form of `a + c` is the escaped `a` followed by the mangled
/// `c`, so searching for the escaped bytes of a prefix finds every string
/// that has it.
pub proof fn lemma_mangle_prefix(a: Seq<u8>, c: Seq<u8>)
    ensures
        mangle(a + c) == escape(a) + mangle(c),
    decreases a.len(),
{
    if a.len() == 0 {
        assert(a + c =~= c);
        assert(escape(a) == Seq::<u8>::empty());
        assert(escape(a) + mangle(c) =~= mangle(c));
    } else {
        lemma_mangle_prefix(a.drop_first(), c);
        assert((a + c).drop_first() =~= a.drop_first() + c);
        assert((a + c)[0] == a[0]);
        lemma_mangle_front(a + c);
        assert(escape(a) =~= escape_byte(a[0]) + escape(a.drop_first()));
        assert(mangle(a + c) =~= escape(a) + mangle(c));
    }
}

} // verus!
