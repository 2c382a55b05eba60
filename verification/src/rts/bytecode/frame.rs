//! The frame of one run of a subroutine: its registers, its output
//! buffers and its program counter. Registers hold words; the inputs come
//! first, then the locals.
use vstd::prelude::*;
use crate::rts::id::{Id, Pid};
use crate::rts::binary::Output;

verus! {

/// The registers, output buffers and program counter of one run.
pub struct Frame {
    /// All registers: the inputs first, then the locals.
    pub regs: Vec<u64>,
    /// One buffer per declared output.
    pub outputs: Vec<Output>,
    /// The index of the next instruction.
    pub pc: usize,
    /// How many registers are inputs.
    pub n_inputs: usize,
    /// How many outputs there are.
    pub n_outputs: usize,
}

impl Frame {
    /// The bytes of each output buffer.
    pub open spec fn out_bytes(&self) -> Seq<Seq<u8>> {
        self.outputs@.map_values(|o: Output| o@)
    }

    /// A frame with `n_inputs + n_locals` registers, all zero, and
    /// `n_outputs` empty output buffers, at the first instruction.
    pub fn new(n_inputs: usize, n_outputs: usize, n_locals: usize) -> (r: Self)
        requires
            n_inputs + n_locals <= usize::MAX,
        ensures
            r.regs@ == Seq::new((n_inputs + n_locals) as nat, |i: int| 0u64),
            r.out_bytes() == Seq::new(n_outputs as nat, |i: int| Seq::<u8>::empty()),
            r.outputs@.len() == n_outputs,
            r.pc == 0,
            r.n_inputs == n_inputs,
            r.n_outputs == n_outputs,
    {
        let total_regs = n_inputs + n_locals;
        let regs = vec![0u64; total_regs];
        let mut outputs: Vec<Output> = Vec::new();
        let mut i: usize = 0;
        while i < n_outputs
            invariant
                i <= n_outputs,
                outputs@.len() == i,
                forall|j: int| 0 <= j < i ==> (#[trigger] outputs@[j])@ == Seq::<u8>::empty(),
            decreases n_outputs - i,
        {
            outputs.push(Output::new());
            i = i + 1;
        }
        let r = Frame { regs, outputs, pc: 0, n_inputs, n_outputs };
        assert(r.regs@ =~= Seq::new((n_inputs + n_locals) as nat, |i: int| 0u64));
        assert(r.out_bytes() =~= Seq::new(n_outputs as nat, |i: int| Seq::<u8>::empty()));
        r
    }

    /// Writes input argument `index`.
    pub fn set_input(&mut self, index: usize, val: u64)
        requires
            index < old(self).n_inputs,
            index < old(self).regs@.len(),
        ensures
            final(self).regs@ == old(self).regs@.update(index as int, val),
            final(self).outputs@ == old(self).outputs@,
            final(self).pc == old(self).pc,
            final(self).n_inputs == old(self).n_inputs,
            final(self).n_outputs == old(self).n_outputs,
    {
        self.regs.set(index, val);
    }

    /// Reads register `index`.
    pub fn reg(&self, index: usize) -> (r: u64)
        requires
            index < self.regs@.len(),
        ensures
            r == self.regs@[index as int],
    {
        self.regs[index]
    }

    /// Writes register `index`.
    pub fn set_reg(&mut self, index: usize, val: u64)
        requires
            index < old(self).regs@.len(),
        ensures
            final(self).regs@ == old(self).regs@.update(index as int, val),
            final(self).outputs@ == old(self).outputs@,
            final(self).pc == old(self).pc,
            final(self).n_inputs == old(self).n_inputs,
            final(self).n_outputs == old(self).n_outputs,
    {
        self.regs.set(index, val);
    }

    /// Reads register `index` as a fact id.
    pub fn reg_as_id(&self, index: usize) -> (r: Id)
        requires
            index < self.regs@.len(),
        ensures
            r == Id(self.regs@[index as int]),
    {
        Id(self.regs[index])
    }

    /// Reads register `index` as a predicate id.
    pub fn reg_as_pid(&self, index: usize) -> (r: Pid)
        requires
            index < self.regs@.len(),
        ensures
            r == Pid(self.regs@[index as int]),
    {
        Pid(self.regs[index])
    }

    /// Writes a fact id into register `index`.
    pub fn set_reg_id(&mut self, index: usize, id: Id)
        requires
            index < old(self).regs@.len(),
        ensures
            final(self).regs@ == old(self).regs@.update(index as int, id.0),
            final(self).outputs@ == old(self).outputs@,
            final(self).pc == old(self).pc,
            final(self).n_inputs == old(self).n_inputs,
            final(self).n_outputs == old(self).n_outputs,
    {
        self.regs.set(index, id.0);
    }

    /// Writes a predicate id into register `index`.
    pub fn set_reg_pid(&mut self, index: usize, pid: Pid)
        requires
            index < old(self).regs@.len(),
        ensures
            final(self).regs@ == old(self).regs@.update(index as int, pid.0),
            final(self).outputs@ == old(self).outputs@,
            final(self).pc == old(self).pc,
            final(self).n_inputs == old(self).n_inputs,
            final(self).n_outputs == old(self).n_outputs,
    {
        self.regs.set(index, pid.0);
    }

    /// Output buffer `index`.
    pub fn output(&self, index: usize) -> (r: &Output)
        requires
            index < self.outputs@.len(),
        ensures
            r@ == self.out_bytes()[index as int],
    {
        &self.outputs[index]
    }

    /// Output buffer `index`, to write to.
    pub fn output_mut(&mut self, index: usize) -> (r: &mut Output)
        requires
            index < old(self).outputs@.len(),
        ensures
            *r == old(self).outputs@[index as int],
            final(self).outputs@ == old(self).outputs@.update(index as int, *final(r)),
            final(self).regs@ == old(self).regs@,
            final(self).pc == old(self).pc,
            final(self).n_inputs == old(self).n_inputs,
            final(self).n_outputs == old(self).n_outputs,
    {
        &mut self.outputs[index]
    }

    /// Empties every output buffer.
    pub fn reset_outputs(&mut self)
        ensures
            final(self).out_bytes() == Seq::new(
                old(self).outputs@.len(),
                |i: int| Seq::<u8>::empty(),
            ),
            final(self).regs@ == old(self).regs@,
            final(self).pc == old(self).pc,
            final(self).n_inputs == old(self).n_inputs,
            final(self).n_outputs == old(self).n_outputs,
    {
        let n = self.outputs.len();
        let mut i: usize = 0;
        while i < n
            invariant
                i <= n,
                n == self.outputs@.len(),
                n == old(self).outputs@.len(),
                self.regs@ == old(self).regs@,
                self.pc == old(self).pc,
                self.n_inputs == old(self).n_inputs,
                self.n_outputs == old(self).n_outputs,
                forall|j: int| 0 <= j < i ==> (#[trigger] self.outputs@[j])@ == Seq::<u8>::empty(),
            decreases n - i,
        {
            self.output_mut(i).reset();
            i = i + 1;
        }
        assert(self.out_bytes() =~= Seq::new(n as nat, |i: int| Seq::<u8>::empty()));
    }

    /// Resumes at `entry_pc` with every output buffer empty.
    pub fn restart(&mut self, entry_pc: usize)
        ensures
            final(self).pc == entry_pc,
            final(self).out_bytes() == Seq::new(
                old(self).outputs@.len(),
                |i: int| Seq::<u8>::empty(),
            ),
            final(self).regs@ == old(self).regs@,
            final(self).n_inputs == old(self).n_inputs,
            final(self).n_outputs == old(self).n_outputs,
    {
        self.pc = entry_pc;
        self.reset_outputs();
    }

    /// The bytes of every output buffer, in order.
    pub fn results(&self) -> (r: Vec<&[u8]>)
        ensures
            r@.len() == self.outputs@.len(),
            forall|i: int| 0 <= i < r@.len() ==> (#[trigger] r@[i])@ == self.out_bytes()[i],
    {
        let mut r: Vec<&[u8]> = Vec::new();
        let mut i: usize = 0;
        while i < self.outputs.len()
            invariant
                i <= self.outputs@.len(),
                r@.len() == i,
                forall|j: int| 0 <= j < i ==> (#[trigger] r@[j])@ == self.out_bytes()[j],
            decreases self.outputs@.len() - i,
        {
            r.push(self.outputs[i].as_bytes());
            i = i + 1;
        }
        r
    }
}

} // verus!
