use glean_hs::rts::bytecode::frame::Frame;
use glean_hs::rts::bytecode::opcode::Op;
use glean_hs::rts::bytecode::syscall::{ExitReason, NoOpSysCalls, SysCalls};
use glean_hs::rts::bytecode::vm::{
    encode_instr, encode_instr_imm, Step, SysCall, Subroutine, VmError,
};
use glean_hs::rts::id::{Id, Pid};

const LITERAL_BASE: u64 = 0x1000_0000;
const OUTPUT_BASE: u64 = 0x2000_0000;

/// Steps `sub` until it exits or fails. Registers address `mem` by offset;
/// literals and outputs get made-up addresses.
fn execute_with(
    sub: &Subroutine,
    frame: &mut Frame,
    sc: &mut NoOpSysCalls,
    mem: &[u8],
) -> Result<ExitReason, VmError> {
    loop {
        assert!(sub.can_step(frame));
        match sub.step(frame) {
            Step::Continue => {}
            Step::Exit(r) => return Ok(r),
            Step::Fail(e) => return Err(e),
            Step::Load { addr, len } => {
                let start = addr as usize;
                let data = &mem[start..start + len];
                assert!(sub.can_load(frame, data));
                if let Step::Fail(e) = sub.complete_load(frame, data) {
                    return Err(e);
                }
            }
            Step::LiteralAddress(i) => {
                sub.complete_address(frame, LITERAL_BASE + i as u64);
            }
            Step::OutputAddress(i) => {
                sub.complete_address(frame, OUTPUT_BASE + i as u64);
            }
            Step::Call(call) => {
                let value = match call {
                    SysCall::Rename { id, pid } => sc.rename(id, pid).0,
                    SysCall::NewSet => sc.new_set(),
                };
                sub.complete_call(frame, value);
            }
        }
    }
}

fn execute(
    sub: &Subroutine,
    frame: &mut Frame,
    sc: &mut NoOpSysCalls,
) -> Result<ExitReason, VmError> {
    execute_with(sub, frame, sc, &[])
}

fn make_sub(code: Vec<u64>) -> Subroutine {
    Subroutine::new(code, 0, 0, 4, vec![], vec![])
}

fn make_sub_with_consts(code: Vec<u64>, constants: Vec<u64>) -> Subroutine {
    Subroutine::new(code, 0, 1, 4, constants, vec![])
}

fn ret() -> u64 {
    Op::Ret.to_u8() as u64
}

#[test]
fn test_ret() {
    let sub = make_sub(vec![Op::Ret.to_u8() as u64]);
    let mut frame = sub.new_frame();
    let mut sc = NoOpSysCalls;
    assert_eq!(execute(&sub, &mut frame, &mut sc), Ok(ExitReason::Done));
}

#[test]
fn test_load_const() {
    let code = vec![encode_instr_imm(Op::LoadConst, 0, 0), Op::Ret.to_u8() as u64];
    let sub = make_sub_with_consts(code, vec![42]);
    let mut frame = sub.new_frame();
    let mut sc = NoOpSysCalls;
    execute(&sub, &mut frame, &mut sc).unwrap();
    assert_eq!(frame.reg(0), 42);
}

#[test]
fn test_move() {
    let code = vec![
        encode_instr_imm(Op::LoadConst, 0, 0),
        encode_instr(Op::Move, 1, 0, 0, 0),
        Op::Ret.to_u8() as u64,
    ];
    let sub = make_sub_with_consts(code, vec![99]);
    let mut frame = sub.new_frame();
    let mut sc = NoOpSysCalls;
    execute(&sub, &mut frame, &mut sc).unwrap();
    assert_eq!(frame.reg(1), 99);
}

#[test]
fn test_add_const() {
    let code = vec![
        encode_instr_imm(Op::LoadConst, 0, 0),
        encode_instr_imm(Op::AddConst, 0, 5),
        Op::Ret.to_u8() as u64,
    ];
    let sub = make_sub_with_consts(code, vec![10]);
    let mut frame = sub.new_frame();
    let mut sc = NoOpSysCalls;
    execute(&sub, &mut frame, &mut sc).unwrap();
    assert_eq!(frame.reg(0), 15);
}

#[test]
fn test_jump() {
    let code = vec![
        encode_instr_imm(Op::Jump, 0, 2),
        encode_instr_imm(Op::LoadConst, 0, 0),
        Op::Ret.to_u8() as u64,
    ];
    let sub = make_sub_with_consts(code, vec![999]);
    let mut frame = sub.new_frame();
    let mut sc = NoOpSysCalls;
    execute(&sub, &mut frame, &mut sc).unwrap();
    assert_eq!(frame.reg(0), 0);
}

#[test]
fn test_jump_if0_taken() {
    let code = vec![
        encode_instr_imm(Op::JumpIf0, 0, 2),
        encode_instr_imm(Op::LoadConst, 1, 0),
        Op::Ret.to_u8() as u64,
    ];
    let sub = make_sub_with_consts(code, vec![999]);
    let mut frame = sub.new_frame();
    let mut sc = NoOpSysCalls;
    execute(&sub, &mut frame, &mut sc).unwrap();
    assert_eq!(frame.reg(1), 0);
}

#[test]
fn test_jump_if0_not_taken() {
    let code = vec![
        encode_instr_imm(Op::LoadConst, 0, 0),
        encode_instr_imm(Op::JumpIf0, 0, 3),
        encode_instr_imm(Op::LoadConst, 1, 1),
        Op::Ret.to_u8() as u64,
    ];
    let sub = make_sub_with_consts(code, vec![1, 42]);
    let mut frame = sub.new_frame();
    let mut sc = NoOpSysCalls;
    execute(&sub, &mut frame, &mut sc).unwrap();
    assert_eq!(frame.reg(1), 42);
}

#[test]
fn test_suspend_resume() {
    let code = vec![
        encode_instr_imm(Op::LoadConst, 0, 0),
        Op::Suspend.to_u8() as u64,
        encode_instr_imm(Op::LoadConst, 1, 1),
        Op::Ret.to_u8() as u64,
    ];
    let sub = make_sub_with_consts(code, vec![7, 8]);
    let mut frame = sub.new_frame();
    let mut sc = NoOpSysCalls;

    let result = execute(&sub, &mut frame, &mut sc).unwrap();
    assert_eq!(result, ExitReason::Suspended { pc: 2 });
    assert_eq!(frame.reg(0), 7);
    assert_eq!(frame.reg(1), 0);

    let result2 = execute(&sub, &mut frame, &mut sc).unwrap();
    assert_eq!(result2, ExitReason::Done);
    assert_eq!(frame.reg(1), 8);
}

#[test]
fn test_output_nat_imm() {
    let code = vec![encode_instr_imm(Op::OutputNatImm, 0, 42), Op::Ret.to_u8() as u64];
    let sub = Subroutine::new(code, 0, 1, 0, vec![], vec![]);
    let mut frame = sub.new_frame();
    let mut sc = NoOpSysCalls;
    execute(&sub, &mut frame, &mut sc).unwrap();
    assert_eq!(frame.output(0).as_bytes(), &[0x2A]);
}

#[test]
fn test_raise() {
    let code = vec![encode_instr_imm(Op::Raise, 0, 0)];
    let sub = Subroutine::new(code, 0, 0, 0, vec![], vec![b"test error".to_vec()]);
    let mut frame = sub.new_frame();
    let mut sc = NoOpSysCalls;
    let result = execute(&sub, &mut frame, &mut sc);
    assert!(matches!(result, Err(VmError::Raised(_))));
}

#[test]
fn test_decr_and_jump() {
    let code = vec![
        encode_instr_imm(Op::LoadConst, 0, 0),
        encode_instr_imm(Op::DecrAndJumpIfNot0, 0, 1),
        Op::Ret.to_u8() as u64,
    ];
    let sub = make_sub_with_consts(code, vec![3]);
    let mut frame = sub.new_frame();
    let mut sc = NoOpSysCalls;
    execute(&sub, &mut frame, &mut sc).unwrap();
    assert_eq!(frame.reg(0), 0);
}

#[test]
fn test_invalid_opcode() {
    let code = vec![200u64];
    let sub = make_sub(code);
    let mut frame = sub.new_frame();
    let mut sc = NoOpSysCalls;
    assert!(matches!(execute(&sub, &mut frame, &mut sc), Err(VmError::InvalidOpcode(200))));
}

#[test]
fn encoded_fields_sit_where_the_interpreter_reads_them() {
    let w = encode_instr(Op::JumpIfEq, 0x12, 0x34, 0x56, 0x789A_BCDE);
    assert_eq!(w & 0xFF, 33);
    assert_eq!((w >> 8) & 0xFF, 0x12);
    assert_eq!((w >> 16) & 0xFF, 0x34);
    assert_eq!((w >> 24) & 0xFF, 0x56);
    assert_eq!(w >> 32, 0x789A_BCDE);
    assert_eq!(encode_instr_imm(Op::LoadConst, 3, 7), 20 + 3 * 0x100 + 7 * 0x1_0000_0000);
}

#[test]
fn raise_messages_read_literals_lossily() {
    let sub = Subroutine::new(
        vec![encode_instr_imm(Op::Raise, 0, 0)],
        0,
        0,
        0,
        vec![],
        vec![b"a\xFFb".to_vec()],
    );
    let mut frame = sub.new_frame();
    let mut sc = NoOpSysCalls;
    assert_eq!(
        execute(&sub, &mut frame, &mut sc),
        Err(VmError::Raised("a\u{FFFD}b".to_string()))
    );
    let sub2 = Subroutine::new(vec![encode_instr_imm(Op::Raise, 0, 5)], 0, 0, 0, vec![], vec![]);
    let mut frame2 = sub2.new_frame();
    assert_eq!(
        execute(&sub2, &mut frame2, &mut sc),
        Err(VmError::Raised("literal #5".to_string()))
    );
}

#[test]
fn failures_name_the_missing_piece() {
    let mut sc = NoOpSysCalls;
    let sub = make_sub(vec![encode_instr_imm(Op::LoadConst, 0, 3)]);
    let mut frame = sub.new_frame();
    assert_eq!(execute(&sub, &mut frame, &mut sc), Err(VmError::ConstantOutOfBounds(3)));
    assert_eq!(frame.pc, 0);

    let sub = make_sub(vec![encode_instr_imm(Op::LoadLiteral, 0, 1)]);
    let mut frame = sub.new_frame();
    assert_eq!(execute(&sub, &mut frame, &mut sc), Err(VmError::LiteralOutOfBounds(1)));

    let sub = make_sub(vec![encode_instr_imm(Op::Jump, 0, 9)]);
    let mut frame = sub.new_frame();
    assert_eq!(execute(&sub, &mut frame, &mut sc), Err(VmError::PcOutOfBounds(9)));
}

#[test]
fn input_nat_and_byte_read_memory_and_advance() {
    let mut mem = vec![0u8; 64];
    mem[0] = 0x80;
    mem[1] = 0xAC;
    mem[2] = 0x05;
    let code = vec![
        encode_instr(Op::InputNat, 1, 0, 0, 0),
        encode_instr(Op::InputByte, 2, 0, 0, 0),
        encode_instr(Op::InputSkipNat, 0, 0, 0, 0),
        ret(),
    ];
    let sub = make_sub(code);
    let mut frame = sub.new_frame();
    let mut sc = NoOpSysCalls;
    assert_eq!(execute_with(&sub, &mut frame, &mut sc, &mem), Ok(ExitReason::Done));
    assert_eq!(frame.reg(1), 0x80 + 0xAC);
    assert_eq!(frame.reg(2), 5);
    assert_eq!(frame.reg(0), 4);
}

#[test]
fn strings_from_memory_reach_the_output() {
    let mut mem = vec![0u8; 70000];
    mem[..7].copy_from_slice(b"aBc\x00\x01\x00\x00");
    let code = vec![
        encode_instr(Op::OutputStringReverse, 0, 1, 0, 0),
        encode_instr(Op::OutputStringToLower, 1, 1, 0, 0),
        encode_instr(Op::InputSkipTrustedString, 1, 0, 0, 0),
        encode_instr(Op::GetOutputSize, 2, 0, 0, 0),
        ret(),
    ];
    let sub = Subroutine::new(code, 0, 2, 3, vec![], vec![]);
    let mut frame = sub.new_frame();
    let mut sc = NoOpSysCalls;
    assert_eq!(execute_with(&sub, &mut frame, &mut sc, &mem), Ok(ExitReason::Done));
    assert_eq!(frame.output(0).as_bytes(), b"\x00\x01cBa\x00\x00");
    assert_eq!(frame.output(1).as_bytes(), b"abc\x00\x01\x00\x00");
    assert_eq!(frame.reg(1), 7);
    assert_eq!(frame.reg(2), 7);
}

#[test]
fn untrusted_string_failure_reports_the_pc() {
    let mut mem = vec![0u8; 70000];
    mem[0] = b'x';
    mem[1] = 0x00;
    mem[2] = 0x07;
    let code = vec![ret(), encode_instr(Op::InputSkipUntrustedString, 0, 0, 0, 0), ret()];
    let sub = make_sub(code);
    let mut frame = sub.new_frame();
    frame.pc = 1;
    let mut sc = NoOpSysCalls;
    assert_eq!(execute_with(&sub, &mut frame, &mut sc, &mem), Err(VmError::InvalidString(1)));
    assert_eq!(frame.reg(0), 0);
}

#[test]
fn output_bytes_and_addresses() {
    let mem = b"hello".to_vec();
    let code = vec![
        encode_instr_imm(Op::LoadConst, 2, 0),
        encode_instr(Op::OutputBytes, 0, 1, 2, 0),
        encode_instr(Op::GetOutput, 3, 0, 0, 0),
        encode_instr_imm(Op::LoadLiteral, 1, 0),
        ret(),
    ];
    let sub = Subroutine::new(code, 0, 1, 4, vec![5], vec![b"lit".to_vec()]);
    let mut frame = sub.new_frame();
    let mut sc = NoOpSysCalls;
    assert_eq!(execute_with(&sub, &mut frame, &mut sc, &mem), Ok(ExitReason::Done));
    assert_eq!(frame.output(0).as_bytes(), b"hello");
    assert_eq!(frame.reg(3), OUTPUT_BASE);
    assert_eq!(frame.reg(1), LITERAL_BASE);
}

#[test]
fn select_jumps_through_its_table() {
    let code = vec![
        encode_instr_imm(Op::LoadConst, 0, 0),
        encode_instr_imm(Op::Select, 0, 2),
        5,
        6,
        encode_instr_imm(Op::LoadConst, 1, 1),
        encode_instr_imm(Op::LoadConst, 2, 1),
        ret(),
    ];
    let sub = make_sub_with_consts(code.clone(), vec![1, 77]);
    let mut frame = sub.new_frame();
    let mut sc = NoOpSysCalls;
    assert_eq!(execute(&sub, &mut frame, &mut sc), Ok(ExitReason::Done));
    assert_eq!(frame.reg(1), 0);
    assert_eq!(frame.reg(2), 0);

    let sub = make_sub_with_consts(code, vec![9, 77]);
    let mut frame = sub.new_frame();
    assert_eq!(execute(&sub, &mut frame, &mut sc), Ok(ExitReason::Done));
    assert_eq!(frame.reg(1), 77);
    assert_eq!(frame.reg(2), 77);
}

#[test]
fn register_arithmetic_wraps() {
    let code = vec![
        encode_instr_imm(Op::SubConst, 0, 1),
        encode_instr(Op::Move, 1, 0, 0, 0),
        encode_instr(Op::Add, 1, 1, 0, 0),
        encode_instr_imm(Op::LoadLabel, 2, 12),
        encode_instr(Op::Sub, 2, 0, 0, 0),
        ret(),
    ];
    let sub = make_sub(code);
    let mut frame = sub.new_frame();
    let mut sc = NoOpSysCalls;
    assert_eq!(execute(&sub, &mut frame, &mut sc), Ok(ExitReason::Done));
    assert_eq!(frame.reg(0), u64::MAX);
    assert_eq!(frame.reg(1), u64::MAX - 1);
    assert_eq!(frame.reg(2), 13);
}

#[test]
fn compare_jumps_take_their_target_from_bits_16_to_31() {
    let code = vec![
        encode_instr(Op::JumpIfEq, 0, 3, 0, 0),
        encode_instr_imm(Op::LoadConst, 1, 0),
        ret(),
        encode_instr_imm(Op::LoadConst, 2, 0),
        ret(),
    ];
    let sub = make_sub_with_consts(code, vec![5]);
    let mut frame = sub.new_frame();
    let mut sc = NoOpSysCalls;
    assert_eq!(execute(&sub, &mut frame, &mut sc), Ok(ExitReason::Done));
    assert_eq!(frame.reg(1), 0);
    assert_eq!(frame.reg(2), 5);
}

#[test]
fn system_calls_write_their_destination() {
    let code = vec![
        encode_instr_imm(Op::LoadConst, 0, 0),
        encode_instr(Op::CallFun_1_1, 0, 2, 0, 0),
        encode_instr(Op::CallFun_0_1, 3, 0, 0, 0),
        encode_instr(Op::CallFun_2_2, 0, 0, 0, 0),
        ret(),
    ];
    let sub = make_sub_with_consts(code, vec![1234]);
    let mut frame = sub.new_frame();
    frame.set_reg(3, 9);
    let mut sc = NoOpSysCalls;
    assert_eq!(execute(&sub, &mut frame, &mut sc), Ok(ExitReason::Done));
    assert_eq!(frame.reg(2), 1234);
    assert_eq!(frame.reg(3), 0);
    assert_eq!(frame.pc, 4);
}

#[test]
fn step_leaves_a_failed_frame_alone() {
    let sub = make_sub(vec![]);
    let mut frame = sub.new_frame();
    assert_eq!(sub.step(&mut frame), Step::Fail(VmError::PcOutOfBounds(0)));
    assert_eq!(frame.pc, 0);
}

#[test]
fn can_step_rejects_missing_registers() {
    let sub = Subroutine::new(vec![encode_instr(Op::Move, 7, 0, 0, 0)], 0, 0, 2, vec![], vec![]);
    let frame = sub.new_frame();
    assert!(!sub.can_step(&frame));
}

#[test]
fn system_calls_are_handed_their_arguments() {
    let code = vec![encode_instr_imm(Op::LoadConst, 1, 0), encode_instr(Op::CallFun_1_1, 1, 0, 0, 0)];
    let sub = make_sub_with_consts(code, vec![4321]);
    let mut frame = sub.new_frame();
    assert_eq!(sub.step(&mut frame), Step::Continue);
    assert_eq!(sub.step(&mut frame), Step::Call(SysCall::Rename { id: Id(4321), pid: Pid(0) }));
    assert_eq!(frame.pc, 1);
    assert_eq!(sub.complete_call(&mut frame, 77), Step::Continue);
    assert_eq!(frame.reg(0), 77);
    assert_eq!(frame.pc, 2);
}
