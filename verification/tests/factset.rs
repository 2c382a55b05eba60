use glean_hs::rts::define::Define;
use glean_hs::rts::fact::Clause;
use glean_hs::rts::factset::FactSet;
use glean_hs::rts::id::{Id, Pid};
use glean_hs::rts::lookup::Lookup;

#[test]
fn test_factset_new() {
    let fs = FactSet::new(Id::lowest());
    assert!(fs.is_empty());
    assert_eq!(fs.len(), 0);
    assert_eq!(fs.starting_id(), Id::lowest());
    assert_eq!(fs.first_free_id(), Id::lowest());
}

#[test]
fn test_define_new_fact() {
    let mut fs = FactSet::new(Id::lowest());
    let clause = Clause::new(b"key\x00val", 3, 3);
    let id = fs.define(Pid(1), clause, None);
    assert!(id.is_some());
    assert_eq!(id.unwrap(), Id::lowest());
    assert_eq!(fs.len(), 1);
}

#[test]
fn test_define_idempotent() {
    let mut fs = FactSet::new(Id::lowest());
    let data = b"key\x00val";
    let clause = Clause::new(data, 3, 3);
    let id1 = fs.define(Pid(1), clause, None);
    let clause2 = Clause::new(data, 3, 3);
    let id2 = fs.define(Pid(1), clause2, None);
    assert_eq!(id1, id2);
    assert_eq!(fs.len(), 1);
}

#[test]
fn test_define_conflict() {
    let mut fs = FactSet::new(Id::lowest());
    let data1 = b"key\x00val1";
    let data2 = b"key\x00val2";
    let clause1 = Clause::new(data1, 3, 4);
    let clause2 = Clause::new(data2, 3, 4);
    fs.define(Pid(1), clause1, None);
    let result = fs.define(Pid(1), clause2, None);
    assert!(result.is_none());
}

#[test]
fn test_id_by_key() {
    let mut fs = FactSet::new(Id::lowest());
    let data = b"mykey\x00myval";
    let clause = Clause::new(data, 5, 5);
    let id = fs.define(Pid(1), clause, None).unwrap();
    assert_eq!(fs.id_by_key(Pid(1), b"mykey"), Some(id));
    assert_eq!(fs.id_by_key(Pid(1), b"notexist"), None);
    assert_eq!(fs.id_by_key(Pid(2), b"mykey"), None);
}

#[test]
fn test_type_by_id() {
    let mut fs = FactSet::new(Id::lowest());
    let data = b"key\x00val";
    let clause = Clause::new(data, 3, 3);
    let id = fs.define(Pid(7), clause, None).unwrap();
    assert_eq!(fs.type_by_id(id), Some(Pid(7)));
    assert_eq!(fs.type_by_id(Id(9999)), None);
}

#[test]
fn test_fact_by_id() {
    let mut fs = FactSet::new(Id::lowest());
    let data = b"key\x00val";
    let clause = Clause::new(data, 3, 3);
    let id = fs.define(Pid(1), clause, None).unwrap();

    let found = fs.fact_by_id(id);
    assert!(found.is_some());
    let (_pid, found_clause) = found.unwrap();
    let found_key = found_clause.key().to_vec();
    assert_eq!(found_key, b"key");

    let not_found = fs.fact_by_id(Id(9999));
    assert!(not_found.is_none());
}

#[test]
fn test_enumerate_all() {
    let mut fs = FactSet::new(Id::lowest());
    for i in 0..3u64 {
        let key = format!("key{}", i);
        let val = format!("val{}", i);
        let mut data = key.as_bytes().to_vec();
        data.extend_from_slice(val.as_bytes());
        let clause = Clause::new(&data, key.len() as u32, val.len() as u32);
        let _ = fs.define(Pid(1), clause, None);
    }
    let count = fs.enumerate_all().len();
    assert_eq!(count, 3);
}

#[test]
fn test_count() {
    let mut fs = FactSet::new(Id::lowest());
    let data1 = b"k1\x00v1";
    let data2 = b"k2\x00v2";
    fs.define(Pid(1), Clause::new(data1, 2, 2), None);
    fs.define(Pid(1), Clause::new(data2, 2, 2), None);
    fs.define(Pid(2), Clause::new(data1, 2, 2), None);
    assert_eq!(fs.count(Pid(1)).count(), 2);
    assert_eq!(fs.count(Pid(2)).count(), 1);
    assert_eq!(fs.count(Pid(3)).count(), 0);
}

#[test]
fn test_serialize_deserialize() {
    let mut fs1 = FactSet::new(Id::lowest());
    let data1 = b"key1\x00val1";
    let data2 = b"key2\x00val2";
    fs1.define(Pid(1), Clause::new(data1, 4, 4), None);
    fs1.define(Pid(2), Clause::new(data2, 4, 4), None);

    let serialized = fs1.serialize();
    assert_eq!(serialized.count, 2);
    assert_eq!(serialized.first_id, Id::lowest());

    let mut fs2 = FactSet::new(Id::lowest());
    let count = fs2.deserialize(&serialized);
    assert_eq!(count, 2);
    assert_eq!(fs2.len(), 2);
    assert_eq!(fs2.id_by_key(Pid(1), b"key1"), Some(Id::lowest()));
    assert_eq!(fs2.id_by_key(Pid(2), b"key2"), Some(Id::lowest() + 1));
}

#[test]
fn test_multiple_predicates() {
    let mut fs = FactSet::new(Id::lowest());
    let data = b"key\x00val";
    let id1 = fs.define(Pid(1), Clause::new(data, 3, 3), None);
    let id2 = fs.define(Pid(2), Clause::new(data, 3, 3), None);
    assert!(id1.is_some());
    assert!(id2.is_some());
    assert_ne!(id1.unwrap(), id2.unwrap());
    assert_eq!(fs.len(), 2);
}

#[test]
fn test_first_free_id_increments() {
    let mut fs = FactSet::new(Id::lowest());
    assert_eq!(fs.first_free_id(), Id::lowest());
    let data = b"k\x00v";
    fs.define(Pid(1), Clause::new(data, 1, 1), None);
    assert_eq!(fs.first_free_id(), Id::lowest() + 1);
    fs.define(Pid(2), Clause::new(data, 1, 1), None);
    assert_eq!(fs.first_free_id(), Id::lowest() + 2);
}

#[test]
fn defined_facts_read_back_in_order() {
    let mut fs = FactSet::new(Id(5000));
    fs.define(Pid(3), Clause::new(b"ab", 1, 1), None);
    fs.define(Pid(4), Clause::new(b"cde", 2, 1), None);
    let all = fs.enumerate_all();
    assert_eq!(all.len(), 2);
    assert_eq!(all[0].id, Id(5000));
    assert_eq!(all[0].pid, Pid(3));
    assert_eq!(all[0].key(), b"a");
    assert_eq!(all[0].value(), b"b");
    assert_eq!(all[1].id, Id(5001));
    assert_eq!(all[1].key(), b"cd");
    let (pid, clause) = fs.fact_by_id(Id(5001)).unwrap();
    assert_eq!(pid, Pid(4));
    assert_eq!(clause.value(), b"e");
    assert!(fs.fact_by_id(Id(4999)).is_none());
    assert!(fs.fact_by_id(Id(5002)).is_none());
}

#[test]
fn define_with_empty_value_size_on_a_different_value() {
    let mut fs = FactSet::new(Id::lowest());
    let first = fs.define(Pid(1), Clause::new(b"kv", 1, 1), None);
    let again = fs.define(Pid(1), Clause::new(b"kx", 1, 1), None);
    assert_eq!(first, Some(Id::lowest()));
    assert_eq!(again, None);
    assert_eq!(fs.len(), 1);
    assert_eq!(fs.count(Pid(1)), glean_hs::rts::lookup::Interval::new(Id(1024), Id(1025)));
}

#[test]
fn serialized_bytes_deserialize_into_a_fresh_set() {
    let mut fs = FactSet::new(Id(2000));
    fs.define(Pid(9), Clause::new(b"k\x00v", 2, 1), None);
    let s = fs.serialize();
    assert_eq!(s.first_id, Id(2000));
    assert_eq!(s.count, 1);
    let mut other = FactSet::new(Id(2000));
    assert_eq!(other.deserialize(&s), 1);
    assert_eq!(other.id_by_key(Pid(9), b"k\x00"), Some(Id(2000)));
    let (pid, clause) = other.fact_by_id(Id(2000)).unwrap();
    assert_eq!(pid, Pid(9));
    assert_eq!(clause.value(), b"v");
}

#[test]
fn ids_run_from_the_start_to_the_first_free_id() {
    let mut fs = FactSet::new(Id(u64::MAX - 3));
    fs.define(Pid(1), Clause::new(b"ab", 1, 1), None);
    fs.define(Pid(1), Clause::new(b"cd", 1, 1), None);
    assert_eq!(fs.first_free_id(), Id(u64::MAX - 1));
    assert_eq!(Id::distance(fs.starting_id(), fs.first_free_id()), fs.len() as u64);
    assert_eq!(fs.type_by_id(Id(u64::MAX - 3)), Some(Pid(1)));
    assert_eq!(fs.type_by_id(Id(u64::MAX - 2)), Some(Pid(1)));
    assert_eq!(fs.type_by_id(fs.first_free_id()), None);
}

#[test]
fn deserializing_rebuilds_every_answer() {
    let mut a = FactSet::new(Id(3000));
    a.define(Pid(1), Clause::new(b"k1v1", 2, 2), None);
    a.define(Pid(2), Clause::new(b"k2v2", 2, 2), None);
    a.define(Pid(1), Clause::new(b"k3", 2, 0), None);
    let s = a.serialize();
    let mut b = FactSet::new(Id(3000));
    assert_eq!(b.deserialize(&s), 3);
    assert_eq!(b.first_free_id(), a.first_free_id());
    for (pid, key) in [(Pid(1), &b"k1"[..]), (Pid(2), b"k2"), (Pid(1), b"k3"), (Pid(2), b"k1")] {
        assert_eq!(b.id_by_key(pid, key), a.id_by_key(pid, key));
    }
    for id in 2999..3004u64 {
        assert_eq!(b.type_by_id(Id(id)), a.type_by_id(Id(id)));
    }
    assert_eq!(b.count(Pid(1)), a.count(Pid(1)));
}

#[test]
fn defining_again_with_other_max_ref_returns_the_same_id() {
    let mut fs = FactSet::new(Id::lowest());
    let id = fs.define(Pid(1), Clause::new(b"kv", 1, 1), None);
    let again = fs.define(Pid(1), Clause::new(b"kv", 1, 1), Some(Id(5)));
    assert_eq!(id, again);
    assert_eq!(fs.len(), 1);
}
