use glean_hs::rts::nat_codec::{
    load_trusted_nat, load_untrusted_nat, nat_size, skip_trusted_nat, store_nat, EncodedNat,
    MAX_NAT_SIZE,
};

#[test]
fn test_nat_size_boundaries() {
    assert_eq!(nat_size(0x00), 1);
    assert_eq!(nat_size(0x7F), 1);
    assert_eq!(nat_size(0x80), 2);
    assert_eq!(nat_size(0xBF), 2);
    assert_eq!(nat_size(0xC0), 3);
    assert_eq!(nat_size(0xDF), 3);
    assert_eq!(nat_size(0xE0), 4);
    assert_eq!(nat_size(0xEF), 4);
    assert_eq!(nat_size(0xF0), 5);
    assert_eq!(nat_size(0xF7), 5);
    assert_eq!(nat_size(0xF8), 6);
    assert_eq!(nat_size(0xFB), 6);
    assert_eq!(nat_size(0xFC), 7);
    assert_eq!(nat_size(0xFD), 7);
    assert_eq!(nat_size(0xFE), 8);
    assert_eq!(nat_size(0xFF), 9);
}

#[test]
fn test_store_nat_1_byte() {
    let mut buf = [0u8; MAX_NAT_SIZE];
    assert_eq!(store_nat(&mut buf, 0), 1);
    assert_eq!(buf[0], 0x00);
    assert_eq!(store_nat(&mut buf, 0x7F), 1);
    assert_eq!(buf[0], 0x7F);
}

#[test]
fn test_store_nat_2_bytes() {
    let mut buf = [0u8; MAX_NAT_SIZE];
    assert_eq!(store_nat(&mut buf, 0x80), 2);
    assert_eq!(buf[0], 0x80);
    assert_eq!(buf[1], 0x00);
}

#[test]
fn test_store_nat_example_from_spec() {
    let mut buf = [0u8; MAX_NAT_SIZE];
    let n = store_nat(&mut buf, 0x123456);
    assert_eq!(n, 3);
    assert_eq!(buf[0], 0xD1);
    assert_eq!(buf[1], 0xF3);
    assert_eq!(buf[2], 0xD6);
}

#[test]
fn test_store_nat_max() {
    let mut buf = [0u8; MAX_NAT_SIZE];
    assert_eq!(store_nat(&mut buf, u64::MAX), 9);
    assert_eq!(buf[0], 0xFF);
}

#[test]
fn test_encoded_nat() {
    let enc = EncodedNat::new(0x7F);
    assert_eq!(enc.len(), 1);
    assert_eq!(enc.as_bytes(), &[0x7F]);
}

#[test]
fn test_roundtrip_small() {
    let mut buf = [0u8; MAX_NAT_SIZE];
    for val in [0u64, 1, 42, 0x7F] {
        let n = store_nat(&mut buf, val);
        let (decoded, rest) = load_trusted_nat(&buf[..n]);
        assert_eq!(decoded, val, "roundtrip failed for {}", val);
        assert!(rest.is_empty());
    }
}

#[test]
fn test_roundtrip_all_sizes() {
    let test_vals = [
        0u64,
        0x80,
        0x4080,
        0x20_4080,
        0x1020_4080,
        0x08_1020_4080,
        0x0408_1020_4080,
        0x0002_0408_1020_4080,
        u64::MAX,
    ];
    let mut buf = [0u8; MAX_NAT_SIZE];
    for val in test_vals {
        let n = store_nat(&mut buf, val);
        let (decoded, _) = load_trusted_nat(&buf[..n]);
        assert_eq!(decoded, val, "roundtrip failed for 0x{:X}", val);
    }
}

#[test]
fn test_lexicographic_ordering() {
    let vals = [0u64, 1, 0x7F, 0x80, 0x4080, 0x20_4080, u64::MAX];
    let mut buf1 = [0u8; MAX_NAT_SIZE];
    let mut buf2 = [0u8; MAX_NAT_SIZE];
    for i in 0..vals.len() - 1 {
        let n1 = store_nat(&mut buf1, vals[i]);
        let n2 = store_nat(&mut buf2, vals[i + 1]);
        assert!(
            buf1[..n1] < buf2[..n2],
            "lexicographic order failed: {} vs {}",
            vals[i],
            vals[i + 1]
        );
    }
}

#[test]
fn test_untrusted_too_short() {
    assert!(load_untrusted_nat(&[]).is_none());
    assert!(load_untrusted_nat(&[0x80]).is_none());
}

#[test]
fn test_skip_trusted_nat() {
    let mut buf = [0u8; MAX_NAT_SIZE + 2];
    let n = store_nat(&mut buf, 0x1234);
    buf[n] = 0xAB;
    let rest = skip_trusted_nat(&buf);
    assert_eq!(rest[0], 0xAB);
}

#[test]
fn nat_boundaries_take_the_longer_encoding() {
    let mut buf = [0u8; MAX_NAT_SIZE];
    assert_eq!(store_nat(&mut buf, 0x407F), 2);
    assert_eq!(&buf[..2], &[0xBF, 0xFF]);
    assert_eq!(store_nat(&mut buf, 0x4080), 3);
    assert_eq!(&buf[..3], &[0xC0, 0x00, 0x00]);
    assert_eq!(store_nat(&mut buf, 0x0102_0408_1020_407F), 8);
    assert_eq!(store_nat(&mut buf, 0x0102_0408_1020_4080), 9);
    assert_eq!(&buf[..9], &[0xFF, 0, 0, 0, 0, 0, 0, 0, 1]);
}

#[test]
fn untrusted_nat_reads_every_stored_value() {
    let mut buf = [0u8; MAX_NAT_SIZE + 1];
    for val in [0u64, 0x80, 0x4080, 0x1234_5678, u64::MAX - 1, u64::MAX] {
        let n = store_nat(&mut buf, val);
        buf[n] = 0x5A;
        let (decoded, rest) = load_untrusted_nat(&buf[..n + 1]).unwrap();
        assert_eq!(decoded, val);
        assert_eq!(rest, &[0x5A]);
    }
}

#[test]
fn untrusted_nat_rejects_values_past_64_bits() {
    assert!(load_untrusted_nat(&[0xFF; 9]).is_none());
    assert!(load_untrusted_nat(&[0xFF, 0, 0, 0, 0, 0, 0, 0]).is_none());
}

#[test]
fn nine_byte_zero_offset_is_not_canonical() {
    let (v, rest) = load_untrusted_nat(&[0xFF, 0, 0, 0, 0, 0, 0, 0, 0]).unwrap();
    assert_eq!(v, 0x0102_0408_1020_407F);
    assert!(rest.is_empty());
    let mut buf = [0u8; MAX_NAT_SIZE];
    assert_eq!(store_nat(&mut buf, v), 8);
}

#[test]
fn every_complete_short_encoding_is_read() {
    let (v, rest) = load_untrusted_nat(&[0xFE, 0xFF, 0xFF, 0xFF, 0xFF, 0xFF, 0xFF, 0xFF, 0x01]).unwrap();
    assert_eq!(v, 0x0102_0408_1020_407F);
    assert_eq!(rest, &[0x01]);
    let (w, _) = load_untrusted_nat(&[0xBF, 0xFF]).unwrap();
    assert_eq!(w, 0x407F);
}
