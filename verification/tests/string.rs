use glean_hs::rts::string::{
    demangle_trusted_string, mangle_string, skip_trusted_string, to_lower_string,
    validate_untrusted_string,
};

#[test]
fn test_mangle_simple() {
    let mut out = Vec::new();
    mangle_string(b"hello", &mut out);
    assert_eq!(out, b"hello\x00\x00");
}

#[test]
fn test_mangle_empty() {
    let mut out = Vec::new();
    mangle_string(b"", &mut out);
    assert_eq!(out, &[0x00, 0x00]);
}

#[test]
fn test_mangle_embedded_nul() {
    let mut out = Vec::new();
    mangle_string(b"a\x00b", &mut out);
    assert_eq!(out, &[b'a', 0x00, 0x01, b'b', 0x00, 0x00]);
}

#[test]
fn test_validate_valid() {
    let mut out = Vec::new();
    mangle_string(b"hello", &mut out);
    assert_eq!(validate_untrusted_string(&out), Some(7));
}

#[test]
fn test_validate_empty_string() {
    assert_eq!(validate_untrusted_string(&[0x00, 0x00]), Some(2));
}

#[test]
fn test_validate_too_short() {
    assert_eq!(validate_untrusted_string(&[]), None);
    assert_eq!(validate_untrusted_string(&[b'a']), None);
    assert_eq!(validate_untrusted_string(&[0x00]), None);
}

#[test]
fn test_validate_invalid_escape() {
    assert_eq!(validate_untrusted_string(&[0x00, 0x02, 0x00, 0x00]), None);
}

#[test]
fn test_roundtrip_simple() {
    let mut mangled = Vec::new();
    mangle_string(b"hello world", &mut mangled);
    let (demangled, size) = demangle_trusted_string(&mangled);
    assert_eq!(demangled, b"hello world");
    assert_eq!(size, mangled.len());
}

#[test]
fn test_roundtrip_embedded_nul() {
    let original = b"a\x00b\x00c";
    let mut mangled = Vec::new();
    mangle_string(original, &mut mangled);
    let (demangled, _) = demangle_trusted_string(&mangled);
    assert_eq!(demangled, original);
}

#[test]
fn test_roundtrip_empty() {
    let mut mangled = Vec::new();
    mangle_string(b"", &mut mangled);
    let (demangled, size) = demangle_trusted_string(&mangled);
    assert_eq!(demangled, b"");
    assert_eq!(size, 2);
}

#[test]
fn string_test_skip_trusted_string() {
    let mut buf = Vec::new();
    mangle_string(b"hello", &mut buf);
    buf.extend_from_slice(b"extra");
    let (mangled_size, demangled_size) = skip_trusted_string(&buf);
    assert_eq!(mangled_size, 7);
    assert_eq!(demangled_size, 5);
    assert_eq!(&buf[mangled_size..], b"extra");
}

#[test]
fn test_to_lower_simple() {
    let mut mangled = Vec::new();
    mangle_string(b"Hello World", &mut mangled);
    let mut result = Vec::new();
    to_lower_string(&mangled, &mut result);
    let (demangled, _) = demangle_trusted_string(&result);
    assert_eq!(demangled, b"hello world");
}

#[test]
fn test_to_lower_preserves_nul_escape() {
    let mut mangled = Vec::new();
    mangle_string(b"A\x00B", &mut mangled);
    let mut result = Vec::new();
    to_lower_string(&mangled, &mut result);
    let (demangled, _) = demangle_trusted_string(&result);
    assert_eq!(demangled, b"a\x00b");
}

#[test]
fn test_memcmp_ordering() {
    let mut a = Vec::new();
    let mut b = Vec::new();
    mangle_string(b"apple", &mut a);
    mangle_string(b"banana", &mut b);
    assert!(a < b, "mangled 'apple' should sort before mangled 'banana'");
}

#[test]
fn mangled_prefix_sorts_first() {
    let mut a = Vec::new();
    let mut b = Vec::new();
    mangle_string(b"ab", &mut a);
    mangle_string(b"abc", &mut b);
    assert!(a < b);
    let mut c = Vec::new();
    let mut d = Vec::new();
    mangle_string(b"a", &mut c);
    mangle_string(b"a\x00", &mut d);
    assert!(c < d);
}

#[test]
fn mangled_escapes_are_a_prefix() {
    let mut whole = Vec::new();
    mangle_string(b"ab\x00cd", &mut whole);
    let mut part = Vec::new();
    mangle_string(b"ab\x00", &mut part);
    let escaped = &part[..part.len() - 2];
    assert!(whole.starts_with(escaped));
}

#[test]
fn mangle_appends_to_existing_output() {
    let mut out = vec![0x7Au8];
    mangle_string(b"\x00", &mut out);
    assert_eq!(out, &[0x7A, 0x00, 0x01, 0x00, 0x00]);
}

#[test]
fn to_lower_keeps_non_letters_and_stops_at_terminator() {
    let mut mangled = Vec::new();
    mangle_string(b"AZ[@az\xC3\x89", &mut mangled);
    mangled.extend_from_slice(b"TAIL");
    let mut result = Vec::new();
    to_lower_string(&mangled, &mut result);
    assert_eq!(result, b"az[@az\xC3\x89\x00\x00");
}

#[test]
fn validate_needs_a_terminator() {
    assert_eq!(validate_untrusted_string(b"abc"), None);
    assert_eq!(validate_untrusted_string(&[b'a', 0x00, 0x01, 0x00]), None);
    assert_eq!(validate_untrusted_string(&[b'a', 0x00, 0x01, 0x00, 0x00, 0x42]), Some(5));
}
