use glean_hs::rts::bytecode::opcode::Op;

#[test]
fn test_from_u8_valid() {
    assert_eq!(Op::from_u8(0), Some(Op::InputNat));
    assert_eq!(Op::from_u8(29), Some(Op::Jump));
    assert_eq!(Op::from_u8(55), Some(Op::Raise));
    assert_eq!(Op::from_u8(58), Some(Op::Suspend));
    assert_eq!(Op::from_u8(59), Some(Op::Ret));
}

#[test]
fn test_from_u8_invalid() {
    assert_eq!(Op::from_u8(60), None);
    assert_eq!(Op::from_u8(100), None);
    assert_eq!(Op::from_u8(255), None);
}

#[test]
fn test_roundtrip() {
    for b in 0u8..=59 {
        let op = Op::from_u8(b).unwrap();
        assert_eq!(op.to_u8(), b);
    }
}

#[test]
fn test_syscall_detection() {
    assert!(Op::CallFun_0_1.is_syscall());
    assert!(Op::CallFun_2_5.is_syscall());
    assert!(!Op::Jump.is_syscall());
    assert!(!Op::Ret.is_syscall());
    assert!(!Op::InputNat.is_syscall());
}

#[test]
fn test_syscall_arity() {
    assert_eq!(Op::CallFun_0_1.syscall_arity(), Some((0, 1)));
    assert_eq!(Op::CallFun_2_5.syscall_arity(), Some((2, 5)));
    assert_eq!(Op::CallFun_3_1.syscall_arity(), Some((3, 1)));
    assert_eq!(Op::Jump.syscall_arity(), None);
    assert_eq!(Op::Ret.syscall_arity(), None);
}

#[test]
fn test_all_60_opcodes_decodable() {
    let mut count = 0;
    for b in 0u8..=59 {
        if Op::from_u8(b).is_some() {
            count += 1;
        }
    }
    assert_eq!(count, 60);
}

#[test]
fn test_specific_opcodes() {
    assert_eq!(Op::ResetOutput.to_u8(), 8);
    assert_eq!(Op::LoadConst.to_u8(), 20);
    assert_eq!(Op::Jump.to_u8(), 29);
    assert_eq!(Op::CallFun_0_1.to_u8(), 42);
    assert_eq!(Op::Raise.to_u8(), 55);
    assert_eq!(Op::Ret.to_u8(), 59);
}

#[test]
fn syscall_numbers_are_exactly_those_with_an_arity() {
    for b in 0u8..=59 {
        let op = Op::from_u8(b).unwrap();
        assert_eq!(op.is_syscall(), (42..=54).contains(&b));
        assert_eq!(op.is_syscall(), op.syscall_arity().is_some());
    }
    assert_eq!(Op::CallFun_1_0.syscall_arity(), Some((1, 0)));
    assert_eq!(Op::CallFun_5_1.syscall_arity(), Some((5, 1)));
    assert_eq!(Op::from_u8(54), Some(Op::CallFun_2_5));
    assert_eq!(Op::from_u8(41), Some(Op::Select));
}
