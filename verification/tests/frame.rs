use glean_hs::rts::bytecode::frame::Frame;
use glean_hs::rts::id::{Id, Pid};

#[test]
fn test_frame_new() {
    let frame = Frame::new(2, 1, 3);
    assert_eq!(frame.regs.len(), 5);
    assert_eq!(frame.outputs.len(), 1);
    assert_eq!(frame.pc, 0);
    assert_eq!(frame.n_inputs, 2);
    assert_eq!(frame.n_outputs, 1);
}

#[test]
fn test_frame_registers() {
    let mut frame = Frame::new(2, 0, 2);
    frame.set_reg(0, 42);
    frame.set_reg(1, 99);
    assert_eq!(frame.reg(0), 42);
    assert_eq!(frame.reg(1), 99);
}

#[test]
fn test_frame_input() {
    let mut frame = Frame::new(2, 0, 0);
    frame.set_input(0, 100);
    frame.set_input(1, 200);
    assert_eq!(frame.reg(0), 100);
    assert_eq!(frame.reg(1), 200);
}

#[test]
fn test_frame_id_pid() {
    let mut frame = Frame::new(2, 0, 0);
    frame.set_reg_id(0, Id(1024));
    frame.set_reg_pid(1, Pid(7));
    assert_eq!(frame.reg_as_id(0), Id(1024));
    assert_eq!(frame.reg_as_pid(1), Pid(7));
}

#[test]
fn test_frame_outputs() {
    let mut frame = Frame::new(0, 2, 0);
    frame.output_mut(0).byte(0xAB);
    frame.output_mut(1).byte(0xCD);
    assert_eq!(frame.output(0).as_bytes(), &[0xAB]);
    assert_eq!(frame.output(1).as_bytes(), &[0xCD]);
}

#[test]
fn test_frame_reset_outputs() {
    let mut frame = Frame::new(0, 1, 0);
    frame.output_mut(0).byte(0xFF);
    frame.reset_outputs();
    assert!(frame.output(0).is_empty());
}

#[test]
fn test_frame_restart() {
    let mut frame = Frame::new(0, 1, 0);
    frame.pc = 42;
    frame.output_mut(0).byte(0x01);
    frame.restart(10);
    assert_eq!(frame.pc, 10);
    assert!(frame.output(0).is_empty());
}

#[test]
fn test_frame_results() {
    let mut frame = Frame::new(0, 2, 0);
    frame.output_mut(0).bytes(b"hello");
    frame.output_mut(1).bytes(b"world");
    let results = frame.results();
    assert_eq!(results[0], b"hello");
    assert_eq!(results[1], b"world");
}

#[test]
fn test_frame_all_regs_zero() {
    let frame = Frame::new(3, 0, 4);
    for i in 0..7 {
        assert_eq!(frame.reg(i), 0);
    }
}

#[test]
fn restart_keeps_registers() {
    let mut frame = Frame::new(1, 2, 1);
    frame.set_reg(1, 5);
    frame.output_mut(1).byte(3);
    frame.restart(0);
    assert_eq!(frame.reg(1), 5);
    let empty: &[u8] = &[];
    assert_eq!(frame.results(), vec![empty, empty]);
}
