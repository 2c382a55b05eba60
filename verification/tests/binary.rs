use glean_hs::rts::binary::{Input, Output};

#[test]
fn test_output_basic() {
    let mut out = Output::new();
    assert!(out.is_empty());
    out.byte(0x42);
    assert_eq!(out.len(), 1);
    assert_eq!(out.as_bytes(), &[0x42]);
}

#[test]
fn test_output_reset() {
    let mut out = Output::new();
    out.byte(0x01);
    out.reset();
    assert!(out.is_empty());
}

#[test]
fn test_output_fixed_u32() {
    let mut out = Output::new();
    out.fixed_u32(0x12345678);
    assert_eq!(out.as_bytes(), &[0x78, 0x56, 0x34, 0x12]);
}

#[test]
fn test_output_fixed_u64() {
    let mut out = Output::new();
    out.fixed_u64(0x0102030405060708);
    assert_eq!(out.as_bytes(), &[0x08, 0x07, 0x06, 0x05, 0x04, 0x03, 0x02, 0x01]);
}

#[test]
fn test_output_packed_nat() {
    let mut out = Output::new();
    out.packed_nat(0x7F);
    assert_eq!(out.as_bytes(), &[0x7F]);
    out.reset();
    out.packed_nat(0x80);
    assert_eq!(out.len(), 2);
}

#[test]
fn test_output_mangled_string() {
    let mut out = Output::new();
    out.mangled_string(b"hi");
    assert_eq!(out.as_bytes(), b"hi\x00\x00");
}

#[test]
fn test_output_nat_prefixed_bytes() {
    let mut out = Output::new();
    out.nat_prefixed_bytes(b"abc");
    assert_eq!(out.as_bytes(), &[0x03, b'a', b'b', b'c']);
}

#[test]
fn test_input_byte() {
    let data = [0x01, 0x02, 0x03];
    let mut input = Input::new(&data);
    assert_eq!(input.byte(), 0x01);
    assert_eq!(input.byte(), 0x02);
    assert_eq!(input.len(), 1);
}

#[test]
fn test_input_fixed_u32() {
    let data = [0x78, 0x56, 0x34, 0x12];
    let mut input = Input::new(&data);
    assert_eq!(input.fixed_u32(), 0x12345678);
    assert!(input.is_empty());
}

#[test]
fn test_input_fixed_u64() {
    let data = [0x08, 0x07, 0x06, 0x05, 0x04, 0x03, 0x02, 0x01];
    let mut input = Input::new(&data);
    assert_eq!(input.fixed_u64(), 0x0102030405060708);
    assert!(input.is_empty());
}

#[test]
fn test_input_packed_nat() {
    let mut out = Output::new();
    out.packed_nat(12345);
    let mut input = Input::new(out.as_bytes());
    assert_eq!(input.packed_nat(), 12345);
    assert!(input.is_empty());
}

#[test]
fn test_input_trusted_string() {
    let mut out = Output::new();
    out.mangled_string(b"hello");
    let mut input = Input::new(out.as_bytes());
    assert_eq!(input.trusted_string(), b"hello");
    assert!(input.is_empty());
}

#[test]
fn test_input_nat_prefixed_bytes() {
    let mut out = Output::new();
    out.nat_prefixed_bytes(b"abc");
    let mut input = Input::new(out.as_bytes());
    assert_eq!(input.nat_prefixed_bytes(), b"abc");
    assert!(input.is_empty());
}

#[test]
fn test_roundtrip_output_input() {
    let mut out = Output::new();
    out.packed_nat(42);
    out.fixed_u32(0xDEADBEEF);
    out.mangled_string(b"glean");
    out.nat_prefixed_bytes(b"rts");

    let mut input = Input::new(out.as_bytes());
    assert_eq!(input.packed_nat(), 42);
    assert_eq!(input.fixed_u32(), 0xDEADBEEF);
    assert_eq!(input.trusted_string(), b"glean");
    assert_eq!(input.nat_prefixed_bytes(), b"rts");
    assert!(input.is_empty());
}

#[test]
fn test_skip_nat() {
    let mut out = Output::new();
    out.packed_nat(999);
    out.byte(0xFF);
    let mut input = Input::new(out.as_bytes());
    input.skip_nat();
    assert_eq!(input.byte(), 0xFF);
}

#[test]
fn binary_test_skip_trusted_string() {
    let mut out = Output::new();
    out.mangled_string(b"skip me");
    out.byte(0xAB);
    let mut input = Input::new(out.as_bytes());
    input.skip_trusted_string();
    assert_eq!(input.byte(), 0xAB);
}

#[test]
fn test_skip_untrusted_string_valid() {
    let mut out = Output::new();
    out.mangled_string(b"valid");
    let mut input = Input::new(out.as_bytes());
    assert!(input.skip_untrusted_string());
    assert!(input.is_empty());
}

#[test]
fn test_skip_untrusted_string_invalid() {
    let data = [0x00, 0x02];
    let mut input = Input::new(&data);
    assert!(!input.skip_untrusted_string());
}

#[test]
fn test_small_buffer_optimization() {
    let mut out = Output::new();
    out.bytes(b"hello world 12345678");
    assert_eq!(out.len(), 20);
    assert!(out.len() <= 23);
}

#[test]
fn output_grows_past_the_inline_capacity() {
    let mut out = Output::new();
    for i in 0..100u8 {
        out.byte(i);
    }
    out.bytes(&[7u8; 50]);
    assert_eq!(out.len(), 150);
    assert_eq!(out.as_bytes()[99], 99);
    assert_eq!(out.as_bytes()[149], 7);
    let v = out.into_vec();
    assert_eq!(v.len(), 150);
    assert_eq!(v[0], 0);
}

#[test]
fn output_default_is_empty_and_usize_nat_matches() {
    let mut out = Output::default();
    assert!(out.is_empty());
    out.packed_usize(0x4080);
    out.fixed_u8(9);
    assert_eq!(out.as_bytes(), &[0xC0, 0x00, 0x00, 9]);
    let mut input = Input::new(out.as_bytes());
    assert_eq!(input.packed_usize(), 0x4080);
    assert_eq!(input.remaining(), &[9]);
}

#[test]
fn input_bytes_split_the_rest() {
    let data = [1u8, 2, 3, 4, 5];
    let mut input = Input::new(&data);
    assert_eq!(input.bytes(2), &[1, 2]);
    assert_eq!(input.remaining(), &[3, 4, 5]);
    assert_eq!(input.bytes(3), &[3, 4, 5]);
    assert!(input.is_empty());
}

#[test]
fn skip_untrusted_string_leaves_input_on_failure() {
    let data = [b'x', 0x00, 0x03, 0x00, 0x00];
    let mut input = Input::new(&data);
    assert!(!input.skip_untrusted_string());
    assert_eq!(input.len(), 5);
}
