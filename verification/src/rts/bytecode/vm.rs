//! The bytecode interpreter, one instruction at a time.
//!
//! An instruction is a 64-bit word: the opcode in bits 0-7, register
//! operands in bits 8-15, 16-23 and 24-31, a 16-bit immediate in bits
//! 16-31 and a 32-bit immediate in bits 32-63.
//!
//! `Subroutine::step` carries out the instruction at the frame's program
//! counter. Registers may hold addresses: an instruction that reads
//! memory, that needs the address of a literal or an output buffer, or
//! that makes a system call does not run at once but returns what it
//! needs; the caller supplies it through `complete_load`,
//! `complete_address` or `complete_call`. Running a subroutine is stepping
//! until the step returns `Exit` or `Fail`.
use vstd::prelude::*;
use vstd::pervasive::arbitrary;
use vstd::wrapping::u64_specs;
use crate::rts::nat_codec::{
    encode_nat, front_nat_size, front_nat_value, has_front_nat, load_trusted_nat,
    load_untrusted_nat, nat_size, skip_trusted_nat, EncodedNat,
};
use crate::rts::string::{
    demangle_trusted_string, lower_bytes, mangle, mangle_string, parse_mangled,
    skip_trusted_string, to_lower_string, validate_untrusted_string,
};
use crate::rts::binary::{max_output_len, Output};
use crate::rts::text::{decimal_text, push_decimal};
use crate::rts::id::{Id, Pid};
use crate::rts::bytecode::opcode::{code_of, op_of_code, Op};
use crate::rts::bytecode::frame::Frame;
use crate::rts::bytecode::syscall::ExitReason;

verus! {

/// How many bytes a nat read looks at.
pub const NAT_WINDOW: usize = 18;

/// How many bytes a string read looks at.
pub const STRING_WINDOW: usize = 65536;

/// A compiled subroutine: an immutable bytecode program.
#[derive(Debug)]
pub struct Subroutine {
    /// The instruction words.
    pub code: Vec<u64>,
    /// How many input registers a frame has.
    pub n_inputs: usize,
    /// How many output buffers a frame has.
    pub n_outputs: usize,
    /// How many local registers a frame has, after the inputs.
    pub n_locals: usize,
    /// The constants that `LoadConst` loads.
    pub constants: Vec<u64>,
    /// The byte-string literals that `LoadLiteral` and `Raise` refer to.
    pub literals: Vec<Vec<u8>>,
}

/// Why a run failed.
#[derive(Debug, Clone, PartialEq, Eq)]
pub enum VmError {
    /// The program counter left the code.
    PcOutOfBounds(usize),
    /// An instruction's opcode number is unused.
    InvalidOpcode(u8),
    /// `LoadConst` named a constant that does not exist.
    ConstantOutOfBounds(usize),
    /// `LoadLiteral` named a literal that does not exist.
    LiteralOutOfBounds(usize),
    /// `Raise` ran, with this message.
    Raised(String),
    /// A string read from the clause was not well formed.
    InvalidString(usize),
}

/// A `VmError` with its message as text.
pub enum Fault {
    PcOutOfBounds(usize),
    InvalidOpcode(u8),
    ConstantOutOfBounds(usize),
    LiteralOutOfBounds(usize),
    Raised(Seq<char>),
    InvalidString(usize),
}

impl View for VmError {
    type V = Fault;

    open spec fn view(&self) -> Fault {
        match self {
            VmError::PcOutOfBounds(p) => Fault::PcOutOfBounds(*p),
            VmError::InvalidOpcode(b) => Fault::InvalidOpcode(*b),
            VmError::ConstantOutOfBounds(i) => Fault::ConstantOutOfBounds(*i),
            VmError::LiteralOutOfBounds(i) => Fault::LiteralOutOfBounds(*i),
            VmError::Raised(m) => Fault::Raised(m@),
            VmError::InvalidString(p) => Fault::InvalidString(*p),
        }
    }
}

/// A system call that an instruction makes.
#[derive(Debug, Clone, Copy, PartialEq, Eq, Structural)]
pub enum SysCall {
    /// `SysCalls::rename` of this fact of this predicate.
    Rename { id: Id, pid: Pid },
    /// `SysCalls::new_set`.
    NewSet,
}

/// What one call of `step` (or of a completion) came to.
#[derive(Debug, Clone, PartialEq, Eq)]
pub enum Step {
    /// The instruction ran; step again.
    Continue,
    /// The run ended.
    Exit(ExitReason),
    /// The run failed.
    Fail(VmError),
    /// The instruction reads `len` bytes at address `addr`; hand them to
    /// `complete_load`.
    Load { addr: u64, len: usize },
    /// The instruction needs the address of the bytes of literal `index`;
    /// hand it to `complete_address`.
    LiteralAddress(usize),
    /// The instruction needs the address of the bytes of output buffer
    /// `index`; hand it to `complete_address`.
    OutputAddress(usize),
    /// The instruction makes this system call; hand its result, as a
    /// word, to `complete_call`.
    Call(SysCall),
}

/// What an instruction does, over the frame's registers, output bytes and
/// program counter.
pub enum Transition {
    /// Go on with these registers, outputs and program counter.
    Go { regs: Seq<u64>, outputs: Seq<Seq<u8>>, pc: int },
    /// End the run, leaving the program counter at `pc`.
    Exit { reason: ExitReason, pc: int },
    /// Fail, changing nothing.
    Fail(Fault),
    /// Wait for `len` bytes at `addr`, changing nothing.
    Load { addr: u64, len: nat },
    /// Wait for the address of a literal, changing nothing.
    LiteralAddress(nat),
    /// Wait for the address of an output buffer, changing nothing.
    OutputAddress(nat),
    /// Wait for the result of a system call, changing nothing.
    Call(SysCall),
}

/// The opcode number of an instruction word.
pub open spec fn op_byte(w: u64) -> u8 {
    (w & 0xFF) as u8
}

/// The first register operand.
pub open spec fn reg_a(w: u64) -> int {
    ((w >> 8u64) & 0xFF) as int
}

/// The second register operand.
pub open spec fn reg_b(w: u64) -> int {
    ((w >> 16u64) & 0xFF) as int
}

/// The third register operand.
pub open spec fn reg_c(w: u64) -> int {
    ((w >> 24u64) & 0xFF) as int
}

/// The 16-bit immediate, bits 16-31.
pub open spec fn imm16(w: u64) -> u64 {
    (w >> 16u64) & 0xFFFF
}

/// The 32-bit immediate, bits 32-63.
pub open spec fn imm32(w: u64) -> u64 {
    (w >> 32u64) & 0xFFFF_FFFF
}

/// The text of `bytes` read as UTF-8, with each invalid sequence replaced
/// by U+FFFD.
pub uninterp spec fn lossy_utf8(bytes: Seq<u8>) -> Seq<char>;

/// `String::from_utf8_lossy`, as an owned `String`.
#[verifier::external_body]
fn utf8_lossy(bytes: &[u8]) -> (r: String)
    ensures
        r@ == lossy_utf8(bytes@),
{
    String::from_utf8_lossy(bytes).into_owned()
}

/// Go on to the next instruction with these registers and outputs.
pub open spec fn advance(f: Frame, regs: Seq<u64>, outputs: Seq<Seq<u8>>) -> Transition {
    Transition::Go { regs, outputs, pc: f.pc + 1 }
}

/// Write register `i` and go on.
pub open spec fn write_reg(f: Frame, i: int, v: u64) -> Transition {
    advance(f, f.regs@.update(i, v), f.out_bytes())
}

/// Replace the bytes of output `i` and go on.
pub open spec fn write_out(f: Frame, i: int, bytes: Seq<u8>) -> Transition {
    advance(f, f.regs@, f.out_bytes().update(i, bytes))
}

/// Continue at `target`, changing nothing else.
pub open spec fn jump_to(f: Frame, target: int) -> Transition {
    Transition::Go { regs: f.regs@, outputs: f.out_bytes(), pc: target }
}

/// Continue at `target` if `cond`, else at the next instruction.
pub open spec fn branch(f: Frame, cond: bool, target: int) -> Transition {
    if cond {
        jump_to(f, target)
    } else {
        jump_to(f, f.pc + 1)
    }
}

/// The message of `Raise` with literal index `idx`.
pub open spec fn raise_message(literals: Seq<Vec<u8>>, idx: int) -> Seq<char> {
    if 0 <= idx < literals.len() {
        lossy_utf8(literals[idx]@)
    } else {
        "literal #"@ + decimal_text(idx as nat)
    }
}

/// `before` went to `after`, returning `r`, as `t` says.
pub open spec fn follows(before: Frame, after: Frame, r: Step, t: Transition) -> bool {
    let same = after.regs@ == before.regs@ && after.out_bytes() == before.out_bytes() && after.pc
        == before.pc;
    &&& after.n_inputs == before.n_inputs
    &&& after.n_outputs == before.n_outputs
    &&& match t {
        Transition::Go { regs, outputs, pc } => {
            &&& r is Continue
            &&& after.regs@ == regs
            &&& after.out_bytes() == outputs
            &&& after.pc == pc
        },
        Transition::Exit { reason, pc } => {
            &&& r == Step::Exit(reason)
            &&& after.regs@ == before.regs@
            &&& after.out_bytes() == before.out_bytes()
            &&& after.pc == pc
        },
        Transition::Fail(fault) => (r matches Step::Fail(e) && e@ == fault) && same,
        Transition::Load { addr, len } => r == (Step::Load { addr, len: len as usize }) && same,
        Transition::LiteralAddress(i) => r == Step::LiteralAddress(i as usize) && same,
        Transition::OutputAddress(i) => r == Step::OutputAddress(i as usize) && same,
        Transition::Call(c) => r == Step::Call(c) && same,
    }
}

impl Subroutine {
    /// The instruction word at the frame's program counter.
    pub open spec fn word_at(self, f: Frame) -> u64 {
        self.code@[f.pc as int]
    }

    /// What the instruction at the frame's program counter does.
    pub open spec fn transition(self, f: Frame) -> Transition {
        if f.pc >= self.code@.len() {
            Transition::Fail(Fault::PcOutOfBounds(f.pc))
        } else {
            let w = self.word_at(f);
            match op_of_code(op_byte(w)) {
                None => Transition::Fail(Fault::InvalidOpcode(op_byte(w))),
                Some(op) => self.op_transition(op, w, f),
            }
        }
    }

    /// What instruction `w`, with opcode `op`, does to frame `f`.
    pub open spec fn op_transition(self, op: Op, w: u64, f: Frame) -> Transition {
        let r = f.regs@;
        let o = f.out_bytes();
        let (a, b, c) = (reg_a(w), reg_b(w), reg_c(w));
        let k = imm32(w);
        match op {
            Op::InputNat => Transition::Load { addr: r[b], len: NAT_WINDOW as nat },
            Op::InputByte => Transition::Load { addr: r[b], len: 1 },
            Op::InputBytes => {
                let ptr = r[b];
                let regs = r.update(a, ptr);
                advance(f, regs.update(b, (ptr + (r[c] as usize) as u64) as u64), o)
            },
            Op::InputSkipUntrustedString => Transition::Load {
                addr: r[a],
                len: STRING_WINDOW as nat,
            },
            Op::InputShiftLit => write_reg(f, a, (r[a] + k) as u64),
            Op::InputShiftBytes => write_reg(f, a, (r[a] + r[b]) as u64),
            Op::InputSkipNat => Transition::Load { addr: r[a], len: NAT_WINDOW as nat },
            Op::InputSkipTrustedString => Transition::Load {
                addr: r[a],
                len: STRING_WINDOW as nat,
            },
            Op::ResetOutput => write_out(f, a, Seq::empty()),
            Op::OutputNat => write_out(f, a, o[a] + encode_nat(r[b])),
            Op::OutputNatImm => write_out(f, a, o[a] + encode_nat(k)),
            Op::OutputByte => write_out(f, a, o[a].push(r[b] as u8)),
            Op::OutputByteImm => write_out(f, a, o[a].push((w >> 16u64) as u8)),
            Op::OutputBytes => Transition::Load { addr: r[b], len: (r[c] as usize) as nat },
            Op::OutputStringToLower => Transition::Load { addr: r[b], len: STRING_WINDOW as nat },
            Op::OutputRelToAbsByteSpans => jump_to(f, f.pc + 1),
            Op::OutputUnpackByteSpans => jump_to(f, f.pc + 1),
            Op::OutputStringReverse => Transition::Load { addr: r[b], len: STRING_WINDOW as nat },
            Op::GetOutput => Transition::OutputAddress(b as nat),
            Op::GetOutputSize => write_reg(f, a, o[b].len() as u64),
            Op::LoadConst => {
                let idx = (k as usize) as int;
                if idx < self.constants@.len() {
                    write_reg(f, a, self.constants@[idx])
                } else {
                    Transition::Fail(Fault::ConstantOutOfBounds(idx as usize))
                }
            },
            Op::LoadLiteral => {
                let idx = (k as usize) as int;
                if idx < self.literals@.len() {
                    Transition::LiteralAddress(idx as nat)
                } else {
                    Transition::Fail(Fault::LiteralOutOfBounds(idx as usize))
                }
            },
            Op::Move => write_reg(f, a, r[b]),
            Op::SubConst => write_reg(f, a, u64_specs::wrapping_sub(r[a], k)),
            Op::Sub => write_reg(f, a, u64_specs::wrapping_sub(r[a], r[b])),
            Op::AddConst => write_reg(f, a, u64_specs::wrapping_add(r[a], k)),
            Op::Add => write_reg(f, a, u64_specs::wrapping_add(r[a], r[b])),
            Op::PtrDiff => write_reg(f, a, u64_specs::wrapping_sub(r[a], r[b])),
            Op::LoadLabel => write_reg(f, a, k),
            Op::Jump => jump_to(f, (k as usize) as int),
            Op::JumpReg => jump_to(f, (r[a] as usize) as int),
            Op::JumpIf0 => branch(f, r[a] == 0, (k as usize) as int),
            Op::JumpIfNot0 => branch(f, r[a] != 0, (k as usize) as int),
            Op::JumpIfEq => branch(f, r[a] == r[b], (imm16(w) as usize) as int),
            Op::JumpIfNe => branch(f, r[a] != r[b], (imm16(w) as usize) as int),
            Op::JumpIfGt => branch(f, r[a] > r[b], (imm16(w) as usize) as int),
            Op::JumpIfGe => branch(f, r[a] >= r[b], (imm16(w) as usize) as int),
            Op::JumpIfLt => branch(f, r[a] < r[b], (imm16(w) as usize) as int),
            Op::JumpIfLe => branch(f, r[a] <= r[b], (imm16(w) as usize) as int),
            Op::DecrAndJumpIfNot0 => {
                let v = u64_specs::wrapping_sub(r[a], 1);
                Transition::Go {
                    regs: r.update(a, v),
                    outputs: o,
                    pc: if v != 0 {
                        (k as usize) as int
                    } else {
                        f.pc + 1
                    },
                }
            },
            Op::DecrAndJumpIf0 => {
                let v = u64_specs::wrapping_sub(r[a], 1);
                Transition::Go {
                    regs: r.update(a, v),
                    outputs: o,
                    pc: if v == 0 {
                        (k as usize) as int
                    } else {
                        f.pc + 1
                    },
                }
            },
            Op::Select => {
                let idx = (r[a] as usize) as int;
                let n_arms = (k as usize) as int;
                if idx < n_arms {
                    let t = f.pc + 1 + idx;
                    if t < self.code@.len() {
                        jump_to(f, (self.code@[t] as usize) as int)
                    } else {
                        Transition::Fail(Fault::PcOutOfBounds(t as usize))
                    }
                } else {
                    jump_to(f, f.pc + 1 + n_arms)
                }
            },
            Op::CallFun_1_1 => Transition::Call(SysCall::Rename { id: Id(r[a]), pid: Pid(0) }),
            Op::CallFun_0_1 => Transition::Call(SysCall::NewSet),
            Op::CallFun_1_0 | Op::CallFun_0_2 | Op::CallFun_2_1 | Op::CallFun_2_0
            | Op::CallFun_3_0 | Op::CallFun_4_0 | Op::CallFun_3_1 | Op::CallFun_5_0
            | Op::CallFun_5_1 | Op::CallFun_2_2 | Op::CallFun_2_5 => jump_to(f, f.pc + 1),
            Op::Raise => Transition::Fail(
                Fault::Raised(raise_message(self.literals@, (k as usize) as int)),
            ),
            Op::Trace | Op::TraceReg => jump_to(f, f.pc + 1),
            Op::Suspend => Transition::Exit {
                reason: ExitReason::Suspended { pc: (f.pc + 1) as usize },
                pc: f.pc + 1,
            },
            Op::Ret => Transition::Exit { reason: ExitReason::Done, pc: f.pc as int },
        }
    }
}

impl Subroutine {
    /// The instruction at the frame's program counter names only
    /// registers and outputs the frame has, and its arithmetic on
    /// addresses, program counters and output sizes stays in range.
    pub open spec fn ready(self, f: Frame) -> bool {
        f.pc < self.code@.len() ==> match op_of_code(op_byte(self.word_at(f))) {
            Some(op) => self.op_ready(op, self.word_at(f), f),
            None => true,
        }
    }

    /// The condition of `ready` for instruction `w` with opcode `op`.
    pub open spec fn op_ready(self, op: Op, w: u64, f: Frame) -> bool {
        let nr = f.regs@.len();
        let no = f.outputs@.len();
        let r = f.regs@;
        let o = f.out_bytes();
        let (a, b, c) = (reg_a(w), reg_b(w), reg_c(w));
        let k = imm32(w);
        match op {
            Op::InputNat | Op::InputByte => a < nr && b < nr,
            Op::InputBytes => a < nr && b < nr && c < nr && r[b] + (r[c] as usize) as u64
                <= u64::MAX,
            Op::InputSkipUntrustedString | Op::InputSkipNat | Op::InputSkipTrustedString => a
                < nr,
            Op::InputShiftLit => a < nr && r[a] + k <= u64::MAX,
            Op::InputShiftBytes => a < nr && b < nr && r[a] + r[b] <= u64::MAX,
            Op::ResetOutput => a < no,
            Op::OutputNat => a < no && b < nr && o[a].len() + encode_nat(r[b]).len()
                <= max_output_len(),
            Op::OutputNatImm => a < no && o[a].len() + encode_nat(k).len() <= max_output_len(),
            Op::OutputByte => a < no && b < nr && o[a].len() + 1 <= max_output_len(),
            Op::OutputByteImm => a < no && o[a].len() + 1 <= max_output_len(),
            Op::OutputBytes => a < no && b < nr && c < nr,
            Op::OutputStringToLower | Op::OutputStringReverse => a < no && b < nr,
            Op::GetOutput | Op::GetOutputSize => a < nr && b < no,
            Op::LoadConst => (k as usize) < self.constants@.len() ==> a < nr,
            Op::LoadLiteral => (k as usize) < self.literals@.len() ==> a < nr,
            Op::Move | Op::Sub | Op::Add | Op::PtrDiff | Op::JumpIfEq | Op::JumpIfNe
            | Op::JumpIfGt | Op::JumpIfGe | Op::JumpIfLt | Op::JumpIfLe | Op::CallFun_1_1 => a
                < nr && b < nr,
            Op::SubConst | Op::AddConst | Op::LoadLabel | Op::JumpReg | Op::JumpIf0
            | Op::JumpIfNot0 | Op::DecrAndJumpIfNot0 | Op::DecrAndJumpIf0 | Op::CallFun_1_0
            | Op::CallFun_0_1 => a < nr,
            Op::Select => a < nr && {
                let idx = (r[a] as usize) as int;
                let n_arms = (k as usize) as int;
                if idx < n_arms {
                    f.pc + 1 + idx <= usize::MAX
                } else {
                    f.pc + 1 + n_arms <= usize::MAX
                }
            },
            _ => true,
        }
    }
}

/// The opcode number of an instruction word.
fn op_field(w: u64) -> (r: u8)
    ensures
        r == op_byte(w),
{
    (w & 0xFF) as u8
}

/// The first register operand of an instruction word.
fn field_a(w: u64) -> (r: usize)
    ensures
        r == reg_a(w),
        r < 256,
{
    let x = (w >> 8) & 0xFF;
    assert(x < 256) by (bit_vector)
        requires
            x == (w >> 8u64) & 0xFF,
    ;
    x as usize
}

/// The second register operand of an instruction word.
fn field_b(w: u64) -> (r: usize)
    ensures
        r == reg_b(w),
        r < 256,
{
    let x = (w >> 16) & 0xFF;
    assert(x < 256) by (bit_vector)
        requires
            x == (w >> 16u64) & 0xFF,
    ;
    x as usize
}

/// The third register operand of an instruction word.
fn field_c(w: u64) -> (r: usize)
    ensures
        r == reg_c(w),
        r < 256,
{
    let x = (w >> 24) & 0xFF;
    assert(x < 256) by (bit_vector)
        requires
            x == (w >> 24u64) & 0xFF,
    ;
    x as usize
}

/// The 16-bit immediate of an instruction word.
fn field_imm16(w: u64) -> (r: u64)
    ensures
        r == imm16(w),
        r <= 0xFFFF,
{
    let x = (w >> 16) & 0xFFFF;
    assert(x <= 0xFFFF) by (bit_vector)
        requires
            x == (w >> 16u64) & 0xFFFF,
    ;
    x
}

/// The 32-bit immediate of an instruction word.
fn field_imm32(w: u64) -> (r: u64)
    ensures
        r == imm32(w),
        r <= 0xFFFF_FFFF,
{
    let x = (w >> 32) & 0xFFFF_FFFF;
    assert(x <= 0xFFFF_FFFF) by (bit_vector)
        requires
            x == (w >> 32u64) & 0xFFFF_FFFF,
    ;
    x
}

/// Replacing one buffer of a list replaces its bytes in the list's bytes.
proof fn lemma_out_update(outs: Seq<Output>, i: int, o: Output)
    requires
        0 <= i < outs.len(),
    ensures
        outs.update(i, o).map_values(|x: Output| x@) == outs.map_values(|x: Output| x@).update(
            i,
            o@,
        ),
{
    assert(outs.update(i, o).map_values(|x: Output| x@) =~= outs.map_values(|x: Output| x@).update(
        i,
        o@,
    ));
}

impl Subroutine {
    /// A subroutine with these parts.
    pub fn new(
        code: Vec<u64>,
        n_inputs: usize,
        n_outputs: usize,
        n_locals: usize,
        constants: Vec<u64>,
        literals: Vec<Vec<u8>>,
    ) -> (r: Self)
        ensures
            r.code@ == code@,
            r.n_inputs == n_inputs,
            r.n_outputs == n_outputs,
            r.n_locals == n_locals,
            r.constants@ == constants@,
            r.literals@ == literals@,
    {
        Subroutine { code, n_inputs, n_outputs, n_locals, constants, literals }
    }

    /// A fresh frame for a run of this subroutine: zero registers, empty
    /// outputs, at the first instruction.
    pub fn new_frame(&self) -> (r: Frame)
        requires
            self.n_inputs + self.n_locals <= usize::MAX,
        ensures
            r.regs@ == Seq::new((self.n_inputs + self.n_locals) as nat, |i: int| 0u64),
            r.out_bytes() == Seq::new(self.n_outputs as nat, |i: int| Seq::<u8>::empty()),
            r.outputs@.len() == self.n_outputs,
            r.pc == 0,
            r.n_inputs == self.n_inputs,
            r.n_outputs == self.n_outputs,
    {
        Frame::new(self.n_inputs, self.n_outputs, self.n_locals)
    }

    /// Carries out the instruction at the frame's program counter, as
    /// `transition` says. An instruction that needs memory, an address or
    /// a system call changes nothing and says what it needs.
    pub fn step(&self, frame: &mut Frame) -> (r: Step)
        requires
            self.ready(*old(frame)),
        ensures
            follows(*old(frame), *final(frame), r, self.transition(*old(frame))),
    {
        if frame.pc >= self.code.len() {
            return Step::Fail(VmError::PcOutOfBounds(frame.pc));
        }
        let word = self.code[frame.pc];
        let b0 = op_field(word);
        let op = match Op::from_u8(b0) {
            Some(op) => op,
            None => {
                return Step::Fail(VmError::InvalidOpcode(b0));
            },
        };
        let a = field_a(word);
        let b = field_b(word);
        let c = field_c(word);
        let k = field_imm32(word);
        let pc = frame.pc;
        match op {
            Op::InputNat => Step::Load { addr: frame.reg(b), len: NAT_WINDOW },
            Op::InputByte => Step::Load { addr: frame.reg(b), len: 1 },
            Op::InputBytes => {
                let n = frame.reg(c) as usize;
                let ptr = frame.reg(b);
                frame.set_reg(a, ptr);
                frame.set_reg(b, ptr + n as u64);
                frame.pc = pc + 1;
                Step::Continue
            },
            Op::InputSkipUntrustedString => Step::Load { addr: frame.reg(a), len: STRING_WINDOW },
            Op::InputShiftLit => {
                let v = frame.reg(a);
                frame.set_reg(a, v + k);
                frame.pc = pc + 1;
                Step::Continue
            },
            Op::InputShiftBytes => {
                let n = frame.reg(b);
                let v = frame.reg(a);
                frame.set_reg(a, v + n);
                frame.pc = pc + 1;
                Step::Continue
            },
            Op::InputSkipNat => Step::Load { addr: frame.reg(a), len: NAT_WINDOW },
            Op::InputSkipTrustedString => Step::Load { addr: frame.reg(a), len: STRING_WINDOW },
            Op::ResetOutput => {
                frame.output_mut(a).reset();
                proof {
                    lemma_out_update(old(frame).outputs@, a as int, frame.outputs@[a as int]);
                }
                frame.pc = pc + 1;
                Step::Continue
            },
            Op::OutputNat => {
                let v = frame.reg(b);
                frame.output_mut(a).packed_nat(v);
                proof {
                    lemma_out_update(old(frame).outputs@, a as int, frame.outputs@[a as int]);
                }
                frame.pc = pc + 1;
                Step::Continue
            },
            Op::OutputNatImm => {
                frame.output_mut(a).packed_nat(k);
                proof {
                    lemma_out_update(old(frame).outputs@, a as int, frame.outputs@[a as int]);
                }
                frame.pc = pc + 1;
                Step::Continue
            },
            Op::OutputByte => {
                let v = frame.reg(b) as u8;
                frame.output_mut(a).byte(v);
                proof {
                    lemma_out_update(old(frame).outputs@, a as int, frame.outputs@[a as int]);
                }
                frame.pc = pc + 1;
                Step::Continue
            },
            Op::OutputByteImm => {
                let v = (word >> 16) as u8;
                frame.output_mut(a).byte(v);
                proof {
                    lemma_out_update(old(frame).outputs@, a as int, frame.outputs@[a as int]);
                }
                frame.pc = pc + 1;
                Step::Continue
            },
            Op::OutputBytes => Step::Load { addr: frame.reg(b), len: frame.reg(c) as usize },
            Op::OutputStringToLower => Step::Load { addr: frame.reg(b), len: STRING_WINDOW },
            Op::OutputRelToAbsByteSpans | Op::OutputUnpackByteSpans => {
                frame.pc = pc + 1;
                Step::Continue
            },
            Op::OutputStringReverse => Step::Load { addr: frame.reg(b), len: STRING_WINDOW },
            Op::GetOutput => Step::OutputAddress(b),
            Op::GetOutputSize => {
                let size = frame.output(b).len() as u64;
                frame.set_reg(a, size);
                frame.pc = pc + 1;
                Step::Continue
            },
            Op::LoadConst => {
                let idx = k as usize;
                if idx < self.constants.len() {
                    frame.set_reg(a, self.constants[idx]);
                    frame.pc = pc + 1;
                    Step::Continue
                } else {
                    Step::Fail(VmError::ConstantOutOfBounds(idx))
                }
            },
            Op::LoadLiteral => {
                let idx = k as usize;
                if idx < self.literals.len() {
                    Step::LiteralAddress(idx)
                } else {
                    Step::Fail(VmError::LiteralOutOfBounds(idx))
                }
            },
            Op::Move => {
                let v = frame.reg(b);
                frame.set_reg(a, v);
                frame.pc = pc + 1;
                Step::Continue
            },
            Op::SubConst => {
                let v = frame.reg(a).wrapping_sub(k);
                frame.set_reg(a, v);
                frame.pc = pc + 1;
                Step::Continue
            },
            Op::Sub | Op::PtrDiff => {
                let v = frame.reg(a).wrapping_sub(frame.reg(b));
                frame.set_reg(a, v);
                frame.pc = pc + 1;
                Step::Continue
            },
            Op::AddConst => {
                let v = frame.reg(a).wrapping_add(k);
                frame.set_reg(a, v);
                frame.pc = pc + 1;
                Step::Continue
            },
            Op::Add => {
                let v = frame.reg(a).wrapping_add(frame.reg(b));
                frame.set_reg(a, v);
                frame.pc = pc + 1;
                Step::Continue
            },
            Op::LoadLabel => {
                frame.set_reg(a, k);
                frame.pc = pc + 1;
                Step::Continue
            },
            Op::Jump => {
                frame.pc = k as usize;
                Step::Continue
            },
            Op::JumpReg => {
                frame.pc = frame.reg(a) as usize;
                Step::Continue
            },
            Op::JumpIf0 | Op::JumpIfNot0 => {
                let zero = frame.reg(a) == 0;
                let taken = match op {
                    Op::JumpIf0 => zero,
                    _ => !zero,
                };
                frame.pc = if taken {
                    k as usize
                } else {
                    pc + 1
                };
                Step::Continue
            },
            Op::JumpIfEq | Op::JumpIfNe | Op::JumpIfGt | Op::JumpIfGe | Op::JumpIfLt
            | Op::JumpIfLe => {
                let x = frame.reg(a);
                let y = frame.reg(b);
                let target = field_imm16(word) as usize;
                let taken = match op {
                    Op::JumpIfEq => x == y,
                    Op::JumpIfNe => x != y,
                    Op::JumpIfGt => x > y,
                    Op::JumpIfGe => x >= y,
                    Op::JumpIfLt => x < y,
                    _ => x <= y,
                };
                frame.pc = if taken {
                    target
                } else {
                    pc + 1
                };
                Step::Continue
            },
            Op::DecrAndJumpIfNot0 | Op::DecrAndJumpIf0 => {
                let v = frame.reg(a).wrapping_sub(1);
                frame.set_reg(a, v);
                let taken = match op {
                    Op::DecrAndJumpIfNot0 => v != 0,
                    _ => v == 0,
                };
                frame.pc = if taken {
                    k as usize
                } else {
                    pc + 1
                };
                Step::Continue
            },
            Op::Select => {
                let idx = frame.reg(a) as usize;
                let n_arms = k as usize;
                if idx < n_arms {
                    let t = pc + 1 + idx;
                    if t < self.code.len() {
                        frame.pc = self.code[t] as usize;
                        Step::Continue
                    } else {
                        Step::Fail(VmError::PcOutOfBounds(t))
                    }
                } else {
                    frame.pc = pc + 1 + n_arms;
                    Step::Continue
                }
            },
            Op::CallFun_1_1 => Step::Call(SysCall::Rename { id: Id(frame.reg(a)), pid: Pid(0) }),
            Op::CallFun_0_1 => Step::Call(SysCall::NewSet),
            Op::CallFun_1_0 | Op::CallFun_0_2 | Op::CallFun_2_1 | Op::CallFun_2_0
            | Op::CallFun_3_0 | Op::CallFun_4_0 | Op::CallFun_3_1 | Op::CallFun_5_0
            | Op::CallFun_5_1 | Op::CallFun_2_2 | Op::CallFun_2_5 => {
                frame.pc = pc + 1;
                Step::Continue
            },
            Op::Raise => {
                let idx = k as usize;
                let msg = if idx < self.literals.len() {
                    utf8_lossy(self.literals[idx].as_slice())
                } else {
                    let mut s = String::from_str("literal #");
                    push_decimal(&mut s, idx as u64);
                    s
                };
                Step::Fail(VmError::Raised(msg))
            },
            Op::Trace | Op::TraceReg => {
                frame.pc = pc + 1;
                Step::Continue
            },
            Op::Suspend => {
                frame.pc = pc + 1;
                Step::Exit(ExitReason::Suspended { pc: frame.pc })
            },
            Op::Ret => Step::Exit(ExitReason::Done),
        }
    }
}

/// The bytes of `s` in reverse order.
fn reversed(s: &[u8]) -> (r: Vec<u8>)
    ensures
        r@ == s@.reverse(),
{
    let n = s.len();
    let mut r: Vec<u8> = Vec::new();
    let mut i: usize = 0;
    while i < n
        invariant
            n == s@.len(),
            i <= n,
            r@ =~= Seq::new(i as nat, |j: int| s@[n - 1 - j]),
        decreases n - i,
    {
        r.push(s[n - 1 - i]);
        i = i + 1;
    }
    if n == 0 {
        assert(r@ =~= s@.reverse());
    } else {
        assert(r@ =~= s@.reverse());
    }
    r
}

impl Subroutine {
    /// What the load instruction at the frame's program counter does once
    /// `data`, the bytes it reads, is known.
    pub open spec fn loaded(self, f: Frame, data: Seq<u8>) -> Transition {
        let w = self.word_at(f);
        let r = f.regs@;
        let o = f.out_bytes();
        let (a, b) = (reg_a(w), reg_b(w));
        match op_of_code(op_byte(w)) {
            Some(Op::InputNat) => {
                let r1 = r.update(a, front_nat_value(data) as u64);
                advance(f, r1.update(b, (r1[b] + front_nat_size(data)) as u64), o)
            },
            Some(Op::InputByte) => {
                let r1 = r.update(a, data[0] as u64);
                advance(f, r1.update(b, (r1[b] + 1) as u64), o)
            },
            Some(Op::InputSkipNat) => write_reg(f, a, (r[a] + front_nat_size(data)) as u64),
            Some(Op::InputSkipTrustedString) => write_reg(
                f,
                a,
                (r[a] + parse_mangled(data).unwrap().1) as u64,
            ),
            Some(Op::InputSkipUntrustedString) => match parse_mangled(data) {
                Some((_, n)) => write_reg(f, a, (r[a] + n) as u64),
                None => Transition::Fail(Fault::InvalidString(f.pc)),
            },
            Some(Op::OutputBytes) => write_out(f, a, o[a] + data),
            Some(Op::OutputStringToLower) => write_out(
                f,
                a,
                o[a] + mangle(lower_bytes(parse_mangled(data).unwrap().0)),
            ),
            Some(Op::OutputStringReverse) => write_out(
                f,
                a,
                o[a] + mangle(parse_mangled(data).unwrap().0.reverse()),
            ),
            _ => arbitrary(),
        }
    }

    /// `data` can complete the load instruction at the frame's program
    /// counter: it holds what the instruction trusts it to hold, and the
    /// sums it adds to registers and outputs stay in range.
    pub open spec fn load_ok(self, f: Frame, data: Seq<u8>) -> bool {
        let w = self.word_at(f);
        let r = f.regs@;
        let o = f.out_bytes();
        let (a, b) = (reg_a(w), reg_b(w));
        match op_of_code(op_byte(w)) {
            Some(Op::InputNat) => has_front_nat(data) && r.update(
                a,
                front_nat_value(data) as u64,
            )[b] + front_nat_size(data) <= u64::MAX,
            Some(Op::InputByte) => r.update(a, data[0] as u64)[b] + 1 <= u64::MAX,
            Some(Op::InputSkipNat) => r[a] + front_nat_size(data) <= u64::MAX,
            Some(Op::InputSkipTrustedString) => parse_mangled(data) matches Some((_, n)) && r[a]
                + n <= u64::MAX,
            Some(Op::InputSkipUntrustedString) => parse_mangled(data) matches Some((_, n)) ==> r[a]
                + n <= u64::MAX,
            Some(Op::OutputBytes) => o[a].len() + data.len() <= max_output_len(),
            Some(Op::OutputStringToLower) => parse_mangled(data) matches Some((s, _)) && o[a].len()
                + mangle(lower_bytes(s)).len() <= max_output_len(),
            Some(Op::OutputStringReverse) => parse_mangled(data) matches Some((s, _)) && o[a].len()
                + mangle(s.reverse()).len() <= max_output_len(),
            _ => false,
        }
    }

    /// What the instruction at the frame's program counter does once the
    /// address it asked for is known: the address goes to its destination
    /// register.
    pub open spec fn addressed(self, f: Frame, addr: u64) -> Transition {
        write_reg(f, reg_a(self.word_at(f)), addr)
    }

    /// Finishes the load instruction at the frame's program counter with
    /// `data`, the bytes at the address that `step` returned.
    pub fn complete_load(&self, frame: &mut Frame, data: &[u8]) -> (r: Step)
        requires
            self.ready(*old(frame)),
            self.transition(*old(frame)) matches Transition::Load { len, .. } && data@.len()
                == len,
            self.load_ok(*old(frame), data@),
        ensures
            follows(*old(frame), *final(frame), r, self.loaded(*old(frame), data@)),
    {
        let pc = frame.pc;
        let n = self.code.len();
        let word = self.code[pc];
        assert(pc < n);
        let a = field_a(word);
        let b = field_b(word);
        match Op::from_u8(op_field(word)) {
            Some(Op::InputNat) => {
                let (val, rest) = load_trusted_nat(data);
                let consumed = data.len() - rest.len();
                assert(consumed == front_nat_size(data@));
                frame.set_reg(a, val);
                let cur = frame.reg(b);
                frame.set_reg(b, cur + consumed as u64);
                frame.pc = pc + 1;
                Step::Continue
            },
            Some(Op::InputByte) => {
                frame.set_reg(a, data[0] as u64);
                let cur = frame.reg(b);
                frame.set_reg(b, cur + 1);
                frame.pc = pc + 1;
                Step::Continue
            },
            Some(Op::InputSkipNat) => {
                let rest = skip_trusted_nat(data);
                let consumed = data.len() - rest.len();
                assert(consumed == front_nat_size(data@));
                let cur = frame.reg(a);
                frame.set_reg(a, cur + consumed as u64);
                frame.pc = pc + 1;
                Step::Continue
            },
            Some(Op::InputSkipTrustedString) => {
                let (size, _) = skip_trusted_string(data);
                assert(size == parse_mangled(data@).unwrap().1);
                let cur = frame.reg(a);
                frame.set_reg(a, cur + size as u64);
                frame.pc = pc + 1;
                Step::Continue
            },
            Some(Op::InputSkipUntrustedString) => match validate_untrusted_string(data) {
                Some(size) => {
                    proof {
                        crate::rts::string::lemma_parse_size(data@);
                    }
                    let cur = frame.reg(a);
                    frame.set_reg(a, cur + size as u64);
                    frame.pc = pc + 1;
                    Step::Continue
                },
                None => Step::Fail(VmError::InvalidString(pc)),
            },
            Some(Op::OutputBytes) => {
                frame.output_mut(a).bytes(data);
                proof {
                    lemma_out_update(old(frame).outputs@, a as int, frame.outputs@[a as int]);
                }
                frame.pc = pc + 1;
                Step::Continue
            },
            Some(Op::OutputStringToLower) => {
                let mut lowered: Vec<u8> = Vec::new();
                to_lower_string(data, &mut lowered);
                frame.output_mut(a).bytes(lowered.as_slice());
                proof {
                    lemma_out_update(old(frame).outputs@, a as int, frame.outputs@[a as int]);
                }
                frame.pc = pc + 1;
                Step::Continue
            },
            Some(Op::OutputStringReverse) => {
                let (demangled, _) = demangle_trusted_string(data);
                let rev = reversed(demangled.as_slice());
                frame.output_mut(a).mangled_string(rev.as_slice());
                proof {
                    lemma_out_update(old(frame).outputs@, a as int, frame.outputs@[a as int]);
                }
                frame.pc = pc + 1;
                Step::Continue
            },
            // No other instruction loads, which `load_ok` rules out.
            _ => Step::Continue,
        }
    }

    /// What the system call at the frame's program counter does once it
    /// returned `value`: the value goes to the call's destination register,
    /// the second operand for `rename` and the first for `new_set`.
    pub open spec fn called(self, f: Frame, value: u64) -> Transition {
        let w = self.word_at(f);
        match op_of_code(op_byte(w)) {
            Some(Op::CallFun_1_1) => write_reg(f, reg_b(w), value),
            _ => write_reg(f, reg_a(w), value),
        }
    }

    /// Finishes the system call at the frame's program counter with
    /// `value`, what the call returned as a word.
    pub fn complete_call(&self, frame: &mut Frame, value: u64) -> (r: Step)
        requires
            self.ready(*old(frame)),
            self.transition(*old(frame)) is Call,
        ensures
            follows(*old(frame), *final(frame), r, self.called(*old(frame), value)),
    {
        let n = self.code.len();
        let word = self.code[frame.pc];
        assert(frame.pc < n);
        let dst = match Op::from_u8(op_field(word)) {
            Some(Op::CallFun_1_1) => field_b(word),
            _ => field_a(word),
        };
        frame.set_reg(dst, value);
        frame.pc = frame.pc + 1;
        Step::Continue
    }

    /// Finishes the instruction at the frame's program counter that asked
    /// for the address of a literal or an output buffer, with `addr`.
    pub fn complete_address(&self, frame: &mut Frame, addr: u64) -> (r: Step)
        requires
            self.ready(*old(frame)),
            self.transition(*old(frame)) is LiteralAddress || self.transition(*old(frame)) is OutputAddress,
        ensures
            follows(*old(frame), *final(frame), r, self.addressed(*old(frame), addr)),
    {
        let n = self.code.len();
        let word = self.code[frame.pc];
        assert(frame.pc < n);
        let a = field_a(word);
        frame.set_reg(a, addr);
        frame.pc = frame.pc + 1;
        Step::Continue
    }
}

impl Subroutine {
    /// Whether the instruction at the frame's program counter is `ready`:
    /// `step` may be called exactly when this holds.
    pub fn can_step(&self, frame: &Frame) -> (r: bool)
        ensures
            r == self.ready(*frame),
    {
        let pc = frame.pc;
        let len = self.code.len();
        if pc >= len {
            return true;
        }
        let word = self.code[pc];
        let op = match Op::from_u8(op_field(word)) {
            Some(op) => op,
            None => {
                return true;
            },
        };
        let nr = frame.regs.len();
        let no = frame.outputs.len();
        let a = field_a(word);
        let b = field_b(word);
        let c = field_c(word);
        let k = field_imm32(word);
        let max = usize::MAX / 4;
        match op {
            Op::InputNat | Op::InputByte => a < nr && b < nr,
            Op::InputBytes => a < nr && b < nr && c < nr && frame.regs[b] <= u64::MAX - (
            frame.regs[c] as usize as u64),
            Op::InputSkipUntrustedString | Op::InputSkipNat | Op::InputSkipTrustedString => a
                < nr,
            Op::InputShiftLit => a < nr && frame.regs[a] <= u64::MAX - k,
            Op::InputShiftBytes => a < nr && b < nr && frame.regs[a] <= u64::MAX - frame.regs[b],
            Op::ResetOutput => a < no,
            Op::OutputNat => a < no && b < nr && {
                let l = frame.outputs[a].len();
                let e = EncodedNat::new(frame.regs[b]).len();
                l <= max && e <= max - l
            },
            Op::OutputNatImm => a < no && {
                let l = frame.outputs[a].len();
                let e = EncodedNat::new(k).len();
                l <= max && e <= max - l
            },
            Op::OutputByte => a < no && b < nr && frame.outputs[a].len() < max,
            Op::OutputByteImm => a < no && frame.outputs[a].len() < max,
            Op::OutputBytes => a < no && b < nr && c < nr,
            Op::OutputStringToLower | Op::OutputStringReverse => a < no && b < nr,
            Op::GetOutput | Op::GetOutputSize => a < nr && b < no,
            Op::LoadConst => (k as usize) >= self.constants.len() || a < nr,
            Op::LoadLiteral => (k as usize) >= self.literals.len() || a < nr,
            Op::Move | Op::Sub | Op::Add | Op::PtrDiff | Op::JumpIfEq | Op::JumpIfNe
            | Op::JumpIfGt | Op::JumpIfGe | Op::JumpIfLt | Op::JumpIfLe | Op::CallFun_1_1 => a
                < nr && b < nr,
            Op::SubConst | Op::AddConst | Op::LoadLabel | Op::JumpReg | Op::JumpIf0
            | Op::JumpIfNot0 | Op::DecrAndJumpIfNot0 | Op::DecrAndJumpIf0 | Op::CallFun_1_0
            | Op::CallFun_0_1 => a < nr,
            Op::Select => a < nr && {
                let idx = frame.regs[a] as usize;
                let n_arms = k as usize;
                let room = usize::MAX - 1 - pc;
                if idx < n_arms {
                    idx <= room
                } else {
                    n_arms <= room
                }
            },
            _ => true,
        }
    }

    /// Whether `data` meets `load_ok` for the load instruction at the
    /// frame's program counter: `complete_load` may be called exactly when
    /// this holds.
    pub fn can_load(&self, frame: &Frame, data: &[u8]) -> (r: bool)
        requires
            self.ready(*frame),
            self.transition(*frame) matches Transition::Load { len, .. } && data@.len() == len,
        ensures
            r == self.load_ok(*frame, data@),
    {
        let pc = frame.pc;
        let word = self.code[pc];
        let a = field_a(word);
        let b = field_b(word);
        let max = usize::MAX / 4;
        match Op::from_u8(op_field(word)) {
            Some(Op::InputNat) => match load_untrusted_nat(data) {
                Some((val, rest)) => {
                    let consumed = (data.len() - rest.len()) as u64;
                    let cur = if b == a {
                        val
                    } else {
                        frame.regs[b]
                    };
                    cur <= u64::MAX - consumed
                },
                None => false,
            },
            Some(Op::InputByte) => {
                let cur = if b == a {
                    data[0] as u64
                } else {
                    frame.regs[b]
                };
                cur < u64::MAX
            },
            Some(Op::InputSkipNat) => frame.regs[a] <= u64::MAX - nat_size(data[0]) as u64,
            Some(Op::InputSkipTrustedString) => match validate_untrusted_string(data) {
                Some(n) => {
                    proof {
                        crate::rts::string::lemma_parse_size(data@);
                    }
                    frame.regs[a] <= u64::MAX - n as u64
                },
                None => false,
            },
            Some(Op::InputSkipUntrustedString) => match validate_untrusted_string(data) {
                Some(n) => {
                    proof {
                        crate::rts::string::lemma_parse_size(data@);
                    }
                    frame.regs[a] <= u64::MAX - n as u64
                },
                None => true,
            },
            Some(Op::OutputBytes) => {
                let l = frame.outputs[a].len();
                l <= max && data.len() <= max - l
            },
            Some(Op::OutputStringToLower) => match validate_untrusted_string(data) {
                Some(_) => {
                    let mut lowered: Vec<u8> = Vec::new();
                    to_lower_string(data, &mut lowered);
                    let l = frame.outputs[a].len();
                    l <= max && lowered.len() <= max - l
                },
                None => false,
            },
            Some(Op::OutputStringReverse) => match validate_untrusted_string(data) {
                Some(_) => {
                    let (demangled, _) = demangle_trusted_string(data);
                    let rev = reversed(demangled.as_slice());
                    let mut mangled: Vec<u8> = Vec::new();
                    mangle_string(rev.as_slice(), &mut mangled);
                    let l = frame.outputs[a].len();
                    l <= max && mangled.len() <= max - l
                },
                None => false,
            },
            _ => false,
        }
    }
}

/// A run ends only at `Ret` or `Suspend`. `Ret` leaves the program
/// counter on itself; `Suspend` moves it past itself and reports that
/// position, so stepping the same frame again resumes after the
/// `Suspend`.
pub proof fn lemma_exits(sub: Subroutine, f: Frame)
    requires
        sub.transition(f) is Exit,
    ensures
        f.pc < sub.code@.len(),
        op_of_code(op_byte(sub.word_at(f))) == Some(Op::Ret) || op_of_code(
            op_byte(sub.word_at(f)),
        ) == Some(Op::Suspend),
        op_of_code(op_byte(sub.word_at(f))) == Some(Op::Ret) ==> sub.transition(f)
            == (Transition::Exit { reason: ExitReason::Done, pc: f.pc as int }),
        op_of_code(op_byte(sub.word_at(f))) == Some(Op::Suspend) ==> sub.transition(f)
            == (Transition::Exit {
            reason: ExitReason::Suspended { pc: (f.pc + 1) as usize },
            pc: f.pc + 1,
        }),
{
}

/// The compare jumps (opcodes 33-38) branch on the unsigned comparison of
/// registers a and b that their names say: to the 16-bit target when it
/// holds, to the next instruction when it does not, changing nothing else.
/// So `JumpIfGt` is `JumpIfLe` with its two targets swapped, and
/// `JumpIfLt` is `JumpIfGe` with them swapped.
pub proof fn lemma_compare_jumps(sub: Subroutine, f: Frame)
    requires
        f.pc < sub.code@.len(),
        33 <= op_byte(sub.word_at(f)) <= 38,
    ensures
        ({
            let w = sub.word_at(f);
            let x = f.regs@[reg_a(w)];
            let y = f.regs@[reg_b(w)];
            let target = (imm16(w) as usize) as int;
            let next = f.pc + 1;
            let to = |pc: int| Transition::Go { regs: f.regs@, outputs: f.out_bytes(), pc };
            &&& op_byte(w) == 33 ==> sub.transition(f) == to(if x == y { target } else { next })
            &&& op_byte(w) == 34 ==> sub.transition(f) == to(if x != y { target } else { next })
            &&& op_byte(w) == 35 ==> sub.transition(f) == to(if x > y { target } else { next })
            &&& op_byte(w) == 36 ==> sub.transition(f) == to(if x >= y { target } else { next })
            &&& op_byte(w) == 37 ==> sub.transition(f) == to(if x < y { target } else { next })
            &&& op_byte(w) == 38 ==> sub.transition(f) == to(if x <= y { target } else { next })
        }),
{
    let w = sub.word_at(f);
    let b = op_byte(w);
    if b == 33 {
        assert(op_of_code(b) == Some(Op::JumpIfEq));
    } else if b == 34 {
        assert(op_of_code(b) == Some(Op::JumpIfNe));
    } else if b == 35 {
        assert(op_of_code(b) == Some(Op::JumpIfGt));
    } else if b == 36 {
        assert(op_of_code(b) == Some(Op::JumpIfGe));
    } else if b == 37 {
        assert(op_of_code(b) == Some(Op::JumpIfLt));
    } else {
        assert(op_of_code(b) == Some(Op::JumpIfLe));
    }
}

/// Skipping a string of the clause (`InputSkipUntrustedString`, opcode 3,
/// and `InputSkipTrustedString`, opcode 7) moves the input register past
/// the string's whole mangled form, terminator included, to where the next
/// field begins: the bytes skipped are exactly the mangled string.
pub proof fn lemma_skip_string_lands_after_it(sub: Subroutine, f: Frame, data: Seq<u8>)
    requires
        f.pc < sub.code@.len(),
        op_byte(sub.word_at(f)) == 3 || op_byte(sub.word_at(f)) == 7,
        parse_mangled(data) is Some,
    ensures
        ({
            let w = sub.word_at(f);
            let a = reg_a(w);
            let s = parse_mangled(data).unwrap().0;
            &&& data.take(mangle(s).len() as int) == mangle(s)
            &&& sub.loaded(f, data) == (Transition::Go {
                regs: f.regs@.update(a, (f.regs@[a] + mangle(s).len()) as u64),
                outputs: f.out_bytes(),
                pc: f.pc + 1,
            })
        }),
{
    crate::rts::string::lemma_mangle_canonical(data);
    crate::rts::string::lemma_parse_size(data);
    let (st, n) = parse_mangled(data).unwrap();
    assert(data.take(n as int).len() == n);
    assert(mangle(st).len() == n);
}

/// An untrusted string that does not parse fails the skip at its
/// instruction, changing nothing.
pub proof fn lemma_skip_untrusted_rejects(sub: Subroutine, f: Frame, data: Seq<u8>)
    requires
        f.pc < sub.code@.len(),
        op_byte(sub.word_at(f)) == 3,
        parse_mangled(data) is None,
    ensures
        sub.loaded(f, data) == Transition::Fail(Fault::InvalidString(f.pc)),
{
}

/// An instruction word with register operands and a 32-bit immediate.
pub fn encode_instr(op: Op, r0: u8, r1: u8, r2: u8, imm: u32) -> (w: u64)
    ensures
        op_byte(w) == code_of(op),
        reg_a(w) == r0,
        reg_b(w) == r1,
        reg_c(w) == r2,
        imm32(w) == imm,
        w == code_of(op) + r0 * 0x100 + r1 * 0x1_0000 + r2 * 0x100_0000 + imm * 0x1_0000_0000,
{
    let c = op.to_u8();
    let w = (c as u64) | ((r0 as u64) << 8) | ((r1 as u64) << 16) | ((r2 as u64) << 24) | ((
    imm as u64) << 32);
    assert({
        &&& (w & 0xFF) as u8 == c
        &&& (w >> 8u64) & 0xFF == r0
        &&& (w >> 16u64) & 0xFF == r1
        &&& (w >> 24u64) & 0xFF == r2
        &&& (w >> 32u64) & 0xFFFF_FFFF == imm
        &&& w == c + r0 * 0x100 + r1 * 0x1_0000 + r2 * 0x100_0000 + imm * 0x1_0000_0000
    }) by (bit_vector)
        requires
            w == (c as u64) | ((r0 as u64) << 8) | ((r1 as u64) << 16) | ((r2 as u64) << 24) | ((
            imm as u64) << 32),
    ;
    w
}

/// An instruction word with one register operand and a 32-bit immediate.
pub fn encode_instr_imm(op: Op, r0: u8, imm: u32) -> (w: u64)
    ensures
        op_byte(w) == code_of(op),
        reg_a(w) == r0,
        reg_b(w) == 0,
        reg_c(w) == 0,
        imm32(w) == imm,
        w == code_of(op) + r0 * 0x100 + imm * 0x1_0000_0000,
{
    let c = op.to_u8();
    let w = (c as u64) | ((r0 as u64) << 8) | ((imm as u64) << 32);
    assert({
        &&& (w & 0xFF) as u8 == c
        &&& (w >> 8u64) & 0xFF == r0
        &&& (w >> 16u64) & 0xFF == 0
        &&& (w >> 24u64) & 0xFF == 0
        &&& (w >> 32u64) & 0xFFFF_FFFF == imm
        &&& w == c + r0 * 0x100 + imm * 0x1_0000_0000
    }) by (bit_vector)
        requires
            w == (c as u64) | ((r0 as u64) << 8) | ((imm as u64) << 32),
    ;
    w
}

} // verus!
