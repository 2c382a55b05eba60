use glean_hs::rts::fact::{Clause, Fact, FactRef};
use glean_hs::rts::id::{Id, Pid};

#[test]
fn test_fact_new() {
    let fact = Fact::new(Id(1024), Pid(1), b"mykey", b"myvalue");
    assert_eq!(fact.id, Id(1024));
    assert_eq!(fact.pid, Pid(1));
    assert_eq!(fact.key(), b"mykey");
    assert_eq!(fact.value(), b"myvalue");
    assert_eq!(fact.size(), 12);
}

#[test]
fn test_fact_empty_value() {
    let fact = Fact::new(Id(1), Pid(2), b"key", b"");
    assert_eq!(fact.key(), b"key");
    assert_eq!(fact.value(), b"");
    assert_eq!(fact.size(), 3);
}

#[test]
fn test_fact_empty_key() {
    let fact = Fact::new(Id(1), Pid(2), b"", b"value");
    assert_eq!(fact.key(), b"");
    assert_eq!(fact.value(), b"value");
}

#[test]
fn test_clause_from_fact() {
    let fact = Fact::new(Id(1), Pid(1), b"k", b"v");
    let clause = fact.clause();
    assert_eq!(clause.key(), b"k");
    assert_eq!(clause.value(), b"v");
    assert_eq!(clause.size(), 2);
}

#[test]
fn test_clause_from_key() {
    let clause = Clause::from_key(b"lookup_key");
    assert_eq!(clause.key(), b"lookup_key");
    assert_eq!(clause.value(), b"");
    assert_eq!(clause.value_size(), 0);
}

#[test]
fn test_fact_ref() {
    let fact = Fact::new(Id(42), Pid(7), b"key", b"val");
    let fref = fact.as_ref();
    assert_eq!(fref.id, Id(42));
    assert_eq!(fref.pid, Pid(7));
    assert_eq!(fref.key(), b"key");
    assert_eq!(fref.value(), b"val");
}

#[test]
fn test_clause_copy() {
    let fact = Fact::new(Id(1), Pid(1), b"key", b"val");
    let c1 = fact.clause();
    let c2 = c1;
    assert_eq!(c1.key(), c2.key());
}

#[test]
fn test_fact_ref_copy() {
    let fact = Fact::new(Id(1), Pid(1), b"key", b"val");
    let r1 = fact.as_ref();
    let r2 = r1;
    assert_eq!(r1.id, r2.id);
}

#[test]
fn fact_data_is_key_then_value() {
    let fact = Fact::new(Id(5), Pid(6), b"ab", b"cde");
    assert_eq!(fact.all_data(), b"abcde");
    assert_eq!(fact.predicate(), Pid(6));
    assert_eq!(fact.key_size, 2);
    assert_eq!(fact.value_size, 3);
    let clause = Clause::new(b"abcde", 2, 3);
    assert_eq!(clause.all_data(), b"abcde");
    assert_eq!(clause.key_size(), 2);
    assert_eq!(clause.value(), b"cde");
    let r = FactRef::new(Id(9), Pid(1), clause);
    assert_eq!(r.key(), b"ab");
    assert_eq!(r.value(), b"cde");
}

#[test]
fn append_bytes_keeps_what_was_there() {
    let mut v = vec![1u8, 2];
    glean_hs::rts::fact::append_bytes(&mut v, &[3, 4]);
    assert_eq!(v, vec![1, 2, 3, 4]);
}
