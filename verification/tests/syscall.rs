use glean_hs::rts::binary::Output;
use glean_hs::rts::bytecode::syscall::{ExitReason, NoOpSysCalls, SysCalls};
use glean_hs::rts::id::{Id, Pid};

#[test]
fn test_noop_rename() {
    let mut sc = NoOpSysCalls;
    assert_eq!(sc.rename(Id(42), Pid(1)), Id(42));
}

#[test]
fn test_noop_set_ops() {
    let mut sc = NoOpSysCalls;
    let handle = sc.new_set();
    assert_eq!(handle, 0);
    let out = Output::new();
    sc.insert_output_set(handle, &out);
    let mut out2 = Output::new();
    sc.set_to_array(handle, &mut out2);
    assert!(out2.is_empty());
    sc.free_set(handle);
}

#[test]
fn test_noop_word_set_ops() {
    let mut sc = NoOpSysCalls;
    let handle = sc.new_word_set();
    assert_eq!(handle, 0);
    sc.insert_bytes_word_set(handle, b"key", 42);
    let mut out = Output::new();
    sc.word_set_to_array(handle, &mut out);
    assert!(out.is_empty());
    let mut out2 = Output::new();
    sc.byte_set_to_byte_array(handle, &mut out2);
    assert!(out2.is_empty());
    sc.free_word_set(handle);
}

#[test]
fn test_noop_lookup() {
    let sc = NoOpSysCalls;
    assert_eq!(sc.lookup_fact(Pid(1), b"key"), Id::invalid());
    assert_eq!(sc.fact_type(Id(1024)), Pid::invalid());
}

#[test]
fn test_exit_reason_eq() {
    assert_eq!(ExitReason::Done, ExitReason::Done);
    assert_eq!(ExitReason::Suspended { pc: 42 }, ExitReason::Suspended { pc: 42 });
    assert_ne!(ExitReason::Done, ExitReason::Suspended { pc: 0 });
}

#[test]
fn noop_array_calls_leave_output_alone() {
    let mut sc = NoOpSysCalls;
    let mut out = Output::new();
    out.byte(1);
    sc.set_to_array(0, &mut out);
    sc.word_set_to_array(0, &mut out);
    assert_eq!(out.as_bytes(), &[1]);
}
