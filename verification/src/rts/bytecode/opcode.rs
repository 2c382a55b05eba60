//! The opcodes of the fact-validation bytecode. Each opcode has a fixed
//! number between 0 and 59 that fits in the low byte of an instruction
//! word; the numbers 60 to 255 are unused.
use vstd::prelude::*;

verus! {

/// A bytecode opcode.
#[allow(non_camel_case_types)]
#[derive(Debug, Clone, Copy, PartialEq, Eq, Structural)]
pub enum Op {
    // Input: reading the clause being checked.
    InputNat,
    InputByte,
    InputBytes,
    InputSkipUntrustedString,
    InputShiftLit,
    InputShiftBytes,
    InputSkipNat,
    InputSkipTrustedString,
    // Output: building the result buffers.
    ResetOutput,
    OutputNat,
    OutputNatImm,
    OutputByte,
    OutputByteImm,
    OutputBytes,
    OutputStringToLower,
    OutputRelToAbsByteSpans,
    OutputUnpackByteSpans,
    OutputStringReverse,
    GetOutput,
    GetOutputSize,
    // Registers and constants.
    LoadConst,
    LoadLiteral,
    Move,
    SubConst,
    Sub,
    AddConst,
    Add,
    PtrDiff,
    LoadLabel,
    // Control flow.
    Jump,
    JumpReg,
    JumpIf0,
    JumpIfNot0,
    JumpIfEq,
    JumpIfNe,
    JumpIfGt,
    JumpIfGe,
    JumpIfLt,
    JumpIfLe,
    DecrAndJumpIfNot0,
    DecrAndJumpIf0,
    Select,
    // System calls, named by their numbers of inputs and outputs.
    CallFun_0_1,
    CallFun_0_2,
    CallFun_1_1,
    CallFun_1_0,
    CallFun_2_1,
    CallFun_2_0,
    CallFun_3_0,
    CallFun_4_0,
    CallFun_3_1,
    CallFun_5_0,
    CallFun_5_1,
    CallFun_2_2,
    CallFun_2_5,
    // Errors, tracing and the end of a run.
    Raise,
    Trace,
    TraceReg,
    Suspend,
    Ret,
}

/// The number of an opcode.
pub open spec fn code_of(op: Op) -> u8 {
    match op {
        Op::InputNat => 0u8,
        Op::InputByte => 1u8,
        Op::InputBytes => 2u8,
        Op::InputSkipUntrustedString => 3u8,
        Op::InputShiftLit => 4u8,
        Op::InputShiftBytes => 5u8,
        Op::InputSkipNat => 6u8,
        Op::InputSkipTrustedString => 7u8,
        Op::ResetOutput => 8u8,
        Op::OutputNat => 9u8,
        Op::OutputNatImm => 10u8,
        Op::OutputByte => 11u8,
        Op::OutputByteImm => 12u8,
        Op::OutputBytes => 13u8,
        Op::OutputStringToLower => 14u8,
        Op::OutputRelToAbsByteSpans => 15u8,
        Op::OutputUnpackByteSpans => 16u8,
        Op::OutputStringReverse => 17u8,
        Op::GetOutput => 18u8,
        Op::GetOutputSize => 19u8,
        Op::LoadConst => 20u8,
        Op::LoadLiteral => 21u8,
        Op::Move => 22u8,
        Op::SubConst => 23u8,
        Op::Sub => 24u8,
        Op::AddConst => 25u8,
        Op::Add => 26u8,
        Op::PtrDiff => 27u8,
        Op::LoadLabel => 28u8,
        Op::Jump => 29u8,
        Op::JumpReg => 30u8,
        Op::JumpIf0 => 31u8,
        Op::JumpIfNot0 => 32u8,
        Op::JumpIfEq => 33u8,
        Op::JumpIfNe => 34u8,
        Op::JumpIfGt => 35u8,
        Op::JumpIfGe => 36u8,
        Op::JumpIfLt => 37u8,
        Op::JumpIfLe => 38u8,
        Op::DecrAndJumpIfNot0 => 39u8,
        Op::DecrAndJumpIf0 => 40u8,
        Op::Select => 41u8,
        Op::CallFun_0_1 => 42u8,
        Op::CallFun_0_2 => 43u8,
        Op::CallFun_1_1 => 44u8,
        Op::CallFun_1_0 => 45u8,
        Op::CallFun_2_1 => 46u8,
        Op::CallFun_2_0 => 47u8,
        Op::CallFun_3_0 => 48u8,
        Op::CallFun_4_0 => 49u8,
        Op::CallFun_3_1 => 50u8,
        Op::CallFun_5_0 => 51u8,
        Op::CallFun_5_1 => 52u8,
        Op::CallFun_2_2 => 53u8,
        Op::CallFun_2_5 => 54u8,
        Op::Raise => 55u8,
        Op::Trace => 56u8,
        Op::TraceReg => 57u8,
        Op::Suspend => 58u8,
        Op::Ret => 59u8,
    }
}

/// The opcode with number `b`, if there is one.
pub open spec fn op_of_code(b: u8) -> Option<Op> {
    match b {
        0u8 => Some(Op::InputNat),
        1u8 => Some(Op::InputByte),
        2u8 => Some(Op::InputBytes),
        3u8 => Some(Op::InputSkipUntrustedString),
        4u8 => Some(Op::InputShiftLit),
        5u8 => Some(Op::InputShiftBytes),
        6u8 => Some(Op::InputSkipNat),
        7u8 => Some(Op::InputSkipTrustedString),
        8u8 => Some(Op::ResetOutput),
        9u8 => Some(Op::OutputNat),
        10u8 => Some(Op::OutputNatImm),
        11u8 => Some(Op::OutputByte),
        12u8 => Some(Op::OutputByteImm),
        13u8 => Some(Op::OutputBytes),
        14u8 => Some(Op::OutputStringToLower),
        15u8 => Some(Op::OutputRelToAbsByteSpans),
        16u8 => Some(Op::OutputUnpackByteSpans),
        17u8 => Some(Op::OutputStringReverse),
        18u8 => Some(Op::GetOutput),
        19u8 => Some(Op::GetOutputSize),
        20u8 => Some(Op::LoadConst),
        21u8 => Some(Op::LoadLiteral),
        22u8 => Some(Op::Move),
        23u8 => Some(Op::SubConst),
        24u8 => Some(Op::Sub),
        25u8 => Some(Op::AddConst),
        26u8 => Some(Op::Add),
        27u8 => Some(Op::PtrDiff),
        28u8 => Some(Op::LoadLabel),
        29u8 => Some(Op::Jump),
        30u8 => Some(Op::JumpReg),
        31u8 => Some(Op::JumpIf0),
        32u8 => Some(Op::JumpIfNot0),
        33u8 => Some(Op::JumpIfEq),
        34u8 => Some(Op::JumpIfNe),
        35u8 => Some(Op::JumpIfGt),
        36u8 => Some(Op::JumpIfGe),
        37u8 => Some(Op::JumpIfLt),
        38u8 => Some(Op::JumpIfLe),
        39u8 => Some(Op::DecrAndJumpIfNot0),
        40u8 => Some(Op::DecrAndJumpIf0),
        41u8 => Some(Op::Select),
        42u8 => Some(Op::CallFun_0_1),
        43u8 => Some(Op::CallFun_0_2),
        44u8 => Some(Op::CallFun_1_1),
        45u8 => Some(Op::CallFun_1_0),
        46u8 => Some(Op::CallFun_2_1),
        47u8 => Some(Op::CallFun_2_0),
        48u8 => Some(Op::CallFun_3_0),
        49u8 => Some(Op::CallFun_4_0),
        50u8 => Some(Op::CallFun_3_1),
        51u8 => Some(Op::CallFun_5_0),
        52u8 => Some(Op::CallFun_5_1),
        53u8 => Some(Op::CallFun_2_2),
        54u8 => Some(Op::CallFun_2_5),
        55u8 => Some(Op::Raise),
        56u8 => Some(Op::Trace),
        57u8 => Some(Op::TraceReg),
        58u8 => Some(Op::Suspend),
        59u8 => Some(Op::Ret),
        _ => None,
    }
}

/// The numbers of inputs and outputs of a system-call opcode.
pub open spec fn arity_of(op: Op) -> Option<(u8, u8)> {
    match op {
        Op::CallFun_0_1 => Some((0u8, 1u8)),
        Op::CallFun_0_2 => Some((0u8, 2u8)),
        Op::CallFun_1_1 => Some((1u8, 1u8)),
        Op::CallFun_1_0 => Some((1u8, 0u8)),
        Op::CallFun_2_1 => Some((2u8, 1u8)),
        Op::CallFun_2_0 => Some((2u8, 0u8)),
        Op::CallFun_3_0 => Some((3u8, 0u8)),
        Op::CallFun_4_0 => Some((4u8, 0u8)),
        Op::CallFun_3_1 => Some((3u8, 1u8)),
        Op::CallFun_5_0 => Some((5u8, 0u8)),
        Op::CallFun_5_1 => Some((5u8, 1u8)),
        Op::CallFun_2_2 => Some((2u8, 2u8)),
        Op::CallFun_2_5 => Some((2u8, 5u8)),
        _ => None,
    }
}

impl Op {
    /// The opcode with number `b`, or `None` for the unused numbers 60
    /// to 255.
    pub fn from_u8(b: u8) -> (r: Option<Op>)
        ensures
            r == op_of_code(b),
            r is Some <==> b <= 59,
    {
        match b {
            0u8 => Some(Op::InputNat),
            1u8 => Some(Op::InputByte),
            2u8 => Some(Op::InputBytes),
            3u8 => Some(Op::InputSkipUntrustedString),
            4u8 => Some(Op::InputShiftLit),
            5u8 => Some(Op::InputShiftBytes),
            6u8 => Some(Op::InputSkipNat),
            7u8 => Some(Op::InputSkipTrustedString),
            8u8 => Some(Op::ResetOutput),
            9u8 => Some(Op::OutputNat),
            10u8 => Some(Op::OutputNatImm),
            11u8 => Some(Op::OutputByte),
            12u8 => Some(Op::OutputByteImm),
            13u8 => Some(Op::OutputBytes),
            14u8 => Some(Op::OutputStringToLower),
            15u8 => Some(Op::OutputRelToAbsByteSpans),
            16u8 => Some(Op::OutputUnpackByteSpans),
            17u8 => Some(Op::OutputStringReverse),
            18u8 => Some(Op::GetOutput),
            19u8 => Some(Op::GetOutputSize),
            20u8 => Some(Op::LoadConst),
            21u8 => Some(Op::LoadLiteral),
            22u8 => Some(Op::Move),
            23u8 => Some(Op::SubConst),
            24u8 => Some(Op::Sub),
            25u8 => Some(Op::AddConst),
            26u8 => Some(Op::Add),
            27u8 => Some(Op::PtrDiff),
            28u8 => Some(Op::LoadLabel),
            29u8 => Some(Op::Jump),
            30u8 => Some(Op::JumpReg),
            31u8 => Some(Op::JumpIf0),
            32u8 => Some(Op::JumpIfNot0),
            33u8 => Some(Op::JumpIfEq),
            34u8 => Some(Op::JumpIfNe),
            35u8 => Some(Op::JumpIfGt),
            36u8 => Some(Op::JumpIfGe),
            37u8 => Some(Op::JumpIfLt),
            38u8 => Some(Op::JumpIfLe),
            39u8 => Some(Op::DecrAndJumpIfNot0),
            40u8 => Some(Op::DecrAndJumpIf0),
            41u8 => Some(Op::Select),
            42u8 => Some(Op::CallFun_0_1),
            43u8 => Some(Op::CallFun_0_2),
            44u8 => Some(Op::CallFun_1_1),
            45u8 => Some(Op::CallFun_1_0),
            46u8 => Some(Op::CallFun_2_1),
            47u8 => Some(Op::CallFun_2_0),
            48u8 => Some(Op::CallFun_3_0),
            49u8 => Some(Op::CallFun_4_0),
            50u8 => Some(Op::CallFun_3_1),
            51u8 => Some(Op::CallFun_5_0),
            52u8 => Some(Op::CallFun_5_1),
            53u8 => Some(Op::CallFun_2_2),
            54u8 => Some(Op::CallFun_2_5),
            55u8 => Some(Op::Raise),
            56u8 => Some(Op::Trace),
            57u8 => Some(Op::TraceReg),
            58u8 => Some(Op::Suspend),
            59u8 => Some(Op::Ret),
            _ => None,
        }
    }

    /// The number of this opcode.
    pub fn to_u8(self) -> (r: u8)
        ensures
            r == code_of(self),
            r <= 59,
    {
        match self {
            Op::InputNat => 0u8,
            Op::InputByte => 1u8,
            Op::InputBytes => 2u8,
            Op::InputSkipUntrustedString => 3u8,
            Op::InputShiftLit => 4u8,
            Op::InputShiftBytes => 5u8,
            Op::InputSkipNat => 6u8,
            Op::InputSkipTrustedString => 7u8,
            Op::ResetOutput => 8u8,
            Op::OutputNat => 9u8,
            Op::OutputNatImm => 10u8,
            Op::OutputByte => 11u8,
            Op::OutputByteImm => 12u8,
            Op::OutputBytes => 13u8,
            Op::OutputStringToLower => 14u8,
            Op::OutputRelToAbsByteSpans => 15u8,
            Op::OutputUnpackByteSpans => 16u8,
            Op::OutputStringReverse => 17u8,
            Op::GetOutput => 18u8,
            Op::GetOutputSize => 19u8,
            Op::LoadConst => 20u8,
            Op::LoadLiteral => 21u8,
            Op::Move => 22u8,
            Op::SubConst => 23u8,
            Op::Sub => 24u8,
            Op::AddConst => 25u8,
            Op::Add => 26u8,
            Op::PtrDiff => 27u8,
            Op::LoadLabel => 28u8,
            Op::Jump => 29u8,
            Op::JumpReg => 30u8,
            Op::JumpIf0 => 31u8,
            Op::JumpIfNot0 => 32u8,
            Op::JumpIfEq => 33u8,
            Op::JumpIfNe => 34u8,
            Op::JumpIfGt => 35u8,
            Op::JumpIfGe => 36u8,
            Op::JumpIfLt => 37u8,
            Op::JumpIfLe => 38u8,
            Op::DecrAndJumpIfNot0 => 39u8,
            Op::DecrAndJumpIf0 => 40u8,
            Op::Select => 41u8,
            Op::CallFun_0_1 => 42u8,
            Op::CallFun_0_2 => 43u8,
            Op::CallFun_1_1 => 44u8,
            Op::CallFun_1_0 => 45u8,
            Op::CallFun_2_1 => 46u8,
            Op::CallFun_2_0 => 47u8,
            Op::CallFun_3_0 => 48u8,
            Op::CallFun_4_0 => 49u8,
            Op::CallFun_3_1 => 50u8,
            Op::CallFun_5_0 => 51u8,
            Op::CallFun_5_1 => 52u8,
            Op::CallFun_2_2 => 53u8,
            Op::CallFun_2_5 => 54u8,
            Op::Raise => 55u8,
            Op::Trace => 56u8,
            Op::TraceReg => 57u8,
            Op::Suspend => 58u8,
            Op::Ret => 59u8,
        }
    }

    /// Whether this is a system-call opcode, numbers 42 to 54.
    pub fn is_syscall(self) -> (r: bool)
        ensures
            r == (42 <= code_of(self) <= 54),
            r == arity_of(self) is Some,
    {
        let b = self.to_u8();
        b >= 42 && b <= 54
    }

    /// For a system-call opcode, its numbers of inputs and outputs.
    pub fn syscall_arity(self) -> (r: Option<(u8, u8)>)
        ensures
            r == arity_of(self),
    {
        match self {
            Op::CallFun_0_1 => Some((0, 1)),
            Op::CallFun_0_2 => Some((0, 2)),
            Op::CallFun_1_1 => Some((1, 1)),
            Op::CallFun_1_0 => Some((1, 0)),
            Op::CallFun_2_1 => Some((2, 1)),
            Op::CallFun_2_0 => Some((2, 0)),
            Op::CallFun_3_0 => Some((3, 0)),
            Op::CallFun_4_0 => Some((4, 0)),
            Op::CallFun_3_1 => Some((3, 1)),
            Op::CallFun_5_0 => Some((5, 0)),
            Op::CallFun_5_1 => Some((5, 1)),
            Op::CallFun_2_2 => Some((2, 2)),
            Op::CallFun_2_5 => Some((2, 5)),
            _ => None,
        }
    }
}

/// The opcode numbers are the fixed table of the bytecode format: input
/// operations 0-7, output operations 8-19, registers 20-28, control flow
/// 29-41, system calls 42-54, and `Raise`, `Trace`, `TraceReg`, `Suspend`,
/// `Ret` 55-59, each opcode at its place in that order.
pub proof fn lemma_opcode_table()
    ensures
        code_of(Op::InputNat) == 0,
        code_of(Op::InputByte) == 1,
        code_of(Op::InputBytes) == 2,
        code_of(Op::InputSkipUntrustedString) == 3,
        code_of(Op::InputShiftLit) == 4,
        code_of(Op::InputShiftBytes) == 5,
        code_of(Op::InputSkipNat) == 6,
        code_of(Op::InputSkipTrustedString) == 7,
        code_of(Op::ResetOutput) == 8,
        code_of(Op::OutputNat) == 9,
        code_of(Op::OutputNatImm) == 10,
        code_of(Op::OutputByte) == 11,
        code_of(Op::OutputByteImm) == 12,
        code_of(Op::OutputBytes) == 13,
        code_of(Op::OutputStringToLower) == 14,
        code_of(Op::OutputRelToAbsByteSpans) == 15,
        code_of(Op::OutputUnpackByteSpans) == 16,
        code_of(Op::OutputStringReverse) == 17,
        code_of(Op::GetOutput) == 18,
        code_of(Op::GetOutputSize) == 19,
        code_of(Op::LoadConst) == 20,
        code_of(Op::LoadLiteral) == 21,
        code_of(Op::Move) == 22,
        code_of(Op::SubConst) == 23,
        code_of(Op::Sub) == 24,
        code_of(Op::AddConst) == 25,
        code_of(Op::Add) == 26,
        code_of(Op::PtrDiff) == 27,
        code_of(Op::LoadLabel) == 28,
        code_of(Op::Jump) == 29,
        code_of(Op::JumpReg) == 30,
        code_of(Op::JumpIf0) == 31,
        code_of(Op::JumpIfNot0) == 32,
        code_of(Op::JumpIfEq) == 33,
        code_of(Op::JumpIfNe) == 34,
        code_of(Op::JumpIfGt) == 35,
        code_of(Op::JumpIfGe) == 36,
        code_of(Op::JumpIfLt) == 37,
        code_of(Op::JumpIfLe) == 38,
        code_of(Op::DecrAndJumpIfNot0) == 39,
        code_of(Op::DecrAndJumpIf0) == 40,
        code_of(Op::Select) == 41,
        code_of(Op::CallFun_0_1) == 42,
        code_of(Op::CallFun_0_2) == 43,
        code_of(Op::CallFun_1_1) == 44,
        code_of(Op::CallFun_1_0) == 45,
        code_of(Op::CallFun_2_1) == 46,
        code_of(Op::CallFun_2_0) == 47,
        code_of(Op::CallFun_3_0) == 48,
        code_of(Op::CallFun_4_0) == 49,
        code_of(Op::CallFun_3_1) == 50,
        code_of(Op::CallFun_5_0) == 51,
        code_of(Op::CallFun_5_1) == 52,
        code_of(Op::CallFun_2_2) == 53,
        code_of(Op::CallFun_2_5) == 54,
        code_of(Op::Raise) == 55,
        code_of(Op::Trace) == 56,
        code_of(Op::TraceReg) == 57,
        code_of(Op::Suspend) == 58,
        code_of(Op::Ret) == 59,
{
}

/// Decoding an opcode's number gives the opcode back.
pub proof fn lemma_op_roundtrip(op: Op)
    ensures
        op_of_code(code_of(op)) == Some(op),
        code_of(op) <= 59,
{
}

/// Every number up to 59 is the number of exactly one opcode, and no
/// other number is.
pub proof fn lemma_code_roundtrip(b: u8)
    ensures
        b <= 59 ==> (op_of_code(b) matches Some(op) && code_of(op) == b),
        b > 59 ==> op_of_code(b) is None,
{
}

/// Distinct opcodes have distinct numbers.
pub proof fn lemma_code_injective(a: Op, b: Op)
    requires
        code_of(a) == code_of(b),
    ensures
        a == b,
{
    lemma_op_roundtrip(a);
    lemma_op_roundtrip(b);
}

} // verus!
