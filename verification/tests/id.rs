use glean_hs::rts::id::{Id, Pid};

#[test]
fn test_id_invalid() {
    assert!(!Id::invalid().is_valid());
    assert!(Id::invalid().valid().is_none());
}

#[test]
fn test_id_valid() {
    let id = Id(1024);
    assert!(id.is_valid());
    assert_eq!(id.valid(), Some(id));
}

#[test]
fn test_id_lowest() {
    assert!(Id::lowest().is_valid());
    assert_eq!(Id::lowest().0, 1024);
}

#[test]
fn test_thrift_roundtrip_id() {
    let id = Id(42);
    assert_eq!(Id::from_thrift(id.to_thrift()), id);
}

#[test]
fn test_thrift_roundtrip_pid() {
    let pid = Pid(7);
    assert_eq!(Pid::from_thrift(pid.to_thrift()), pid);
}

#[test]
fn test_word_roundtrip() {
    let id = Id(999);
    assert_eq!(Id::from_word(id.to_word()), id);
}

#[test]
fn test_distance() {
    assert_eq!(Id::distance(Id(10), Id(15)), 5);
    assert_eq!(Id::distance(Id(1024), Id(1024)), 0);
}

#[test]
fn test_ordering() {
    assert!(Id(1) < Id(2));
    assert!(Id(100) > Id(50));
    assert!(Pid(1) < Pid(2));
}

#[test]
fn test_add() {
    assert_eq!(Id(10) + 5, Id(15));
    assert_eq!(Pid(3) + 1, Pid(4));
}

#[test]
fn test_display() {
    assert_eq!(Id(42).to_display_string(), "Id(42)");
    assert_eq!(Pid(7).to_display_string(), "Pid(7)");
}

#[test]
fn thrift_keeps_the_bits_of_large_ids() {
    let id = Id(u64::MAX);
    assert_eq!(id.to_thrift(), -1);
    assert_eq!(Id::from_thrift(-1), id);
    let pid = Pid(1u64 << 63);
    assert_eq!(pid.to_thrift(), i64::MIN);
    assert_eq!(Pid::from_thrift(pid.to_thrift()), pid);
}

#[test]
fn pid_validity_and_words() {
    assert!(!Pid::invalid().is_valid());
    assert_eq!(Pid::invalid().valid(), None);
    assert_eq!(Pid(5).valid(), Some(Pid(5)));
    assert_eq!(Pid::from_word(Pid(77).to_word()), Pid(77));
    assert_eq!(Id(0).to_display_string(), "Id(0)");
    assert_eq!(Pid(18446744073709551615).to_display_string(), "Pid(18446744073709551615)");
}
