//! The register machine: a small-step operational model (`spec_step`) and an
//! executable emulator proved to follow it step for step.
//!
//! The abstract model fixes, for every start state, the whole run: the states
//! reached, the canonical byte trace streamed after each step, and the first
//! halting point. Everything the prover and verifier claim about executions
//! is stated over this model.

use vstd::prelude::*;
use vstd::arithmetic::power2::pow2;
use vstd::bytes::{spec_u64_to_le_bytes, spec_u64_from_le_bytes, u64_to_le_bytes, u64_from_le_bytes};
use crate::program::{
    Argument, AArg, AInstr, ALabel, BinOp, CmpOp, Instruction, Label, Params, Register,
    arg_wf, instr_wf, labels_view, lookup_label, prog_view, program_wf,
};
use crate::words::{
    valid_word_size, word_mask, wrap, msb_set, to_signed, lemma_word_mask_values,
    lemma_wrap_bound, lemma_bitop_bounds, mask_for, msb_for, wrap_exec, word_add, word_sub,
    word_mul, word_udiv, word_umod, word_shl, word_shr, signed_lt, signed_le,
};

verus! {

// ------------------------------------------------------------------
// Abstract machine state
// ------------------------------------------------------------------

/// The abstract state of the machine: everything a step reads or writes.
/// Tapes hold only what has not been consumed yet.
#[verifier::ext_equal]
pub ghost struct AState {
    pub running: bool,
    pub pc: u64,
    pub flag: bool,
    pub regs: Seq<u64>,
    pub mem: Seq<u8>,
    pub tape1: Seq<u64>,
    pub tape2: Seq<u64>,
    pub result: u64,
}

/// The immutable surroundings of a run: the program, the label table and
/// the machine parameters.
#[verifier::ext_equal]
pub ghost struct MachineEnv {
    pub prog: Seq<AInstr>,
    pub labels: Seq<ALabel>,
    pub word_size: u16,
    pub num_regs: u16,
}

/// A machine environment the emulator accepts.
pub open spec fn env_wf(env: MachineEnv) -> bool {
    &&& valid_word_size(env.word_size)
    &&& program_wf(env.prog, env.num_regs, env.labels)
    &&& env.prog.len() <= u64::MAX
}

/// A state that fits the environment: the register file has the declared
/// size and every register fits in a machine word.
pub open spec fn st_wf(env: MachineEnv, s: AState) -> bool {
    &&& s.regs.len() == env.num_regs
    &&& forall|i: int| 0 <= i < s.regs.len() ==> #[trigger] s.regs[i] <= word_mask(env.word_size)
}

/// The value of an operand: an immediate reinterpreted as unsigned, a
/// register's content, or the address bound to a label (0 if unbound,
/// which well-formed programs exclude).
pub open spec fn resolve_spec(env: MachineEnv, s: AState, arg: AArg) -> u64 {
    match arg {
        AArg::Imm(x) => x as u64,
        AArg::Reg(r) => s.regs[r.index as int],
        AArg::Label(name) => match lookup_label(env.labels, name) {
            Some(a) => a,
            None => 0,
        },
    }
}

// ------------------------------------------------------------------
// Word operations of the binary and compare instructions
// ------------------------------------------------------------------

/// The value computed by a binary instruction from the source register
/// value `a` and the resolved operand `b`.
pub open spec fn bin_value(op: BinOp, a: u64, b: u64, w: u16) -> u64 {
    match op {
        BinOp::And => a & wrap(b as int, w),
        BinOp::Or => a | wrap(b as int, w),
        BinOp::Xor => a ^ wrap(b as int, w),
        BinOp::Add => wrap(a + b, w),
        BinOp::Sub => wrap(a - b, w),
        BinOp::MulL => wrap(a * b, w),
        BinOp::UDiv => if b == 0 {
            0
        } else {
            wrap(a as int / b as int, w)
        },
        BinOp::UMod => if b == 0 {
            0
        } else {
            wrap(a as int % b as int, w)
        },
        BinOp::Shl => wrap(a * pow2(b as nat), w),
        BinOp::Shr => (a as nat / pow2(b as nat)) as u64,
    }
}

/// The flag set by a binary instruction whose result was `r`.
pub open spec fn bin_flag(op: BinOp, a: u64, b: u64, r: u64, w: u16) -> bool {
    match op {
        BinOp::And => r == 0,
        BinOp::Or => r == 0,
        BinOp::Xor => r == 0,
        BinOp::Add => msb_set(r, w),
        BinOp::Sub => !msb_set(r, w),
        BinOp::MulL => a * b > word_mask(w),
        BinOp::UDiv => b == 0,
        BinOp::UMod => b == 0,
        BinOp::Shl => msb_set(r, w),
        BinOp::Shr => r % 2 == 1,
    }
}

/// The flag set by a compare instruction: `b` is the resolved operand and
/// `a` the register's content; the orientation is `operand (op) register`.
pub open spec fn cmp_flag(op: CmpOp, a: u64, b: u64, w: u16) -> bool {
    match op {
        CmpOp::CmpE => b == a,
        CmpOp::CmpA => b < a,
        CmpOp::CmpAE => b <= a,
        CmpOp::CmpG => to_signed(b, w) < to_signed(a, w),
        CmpOp::CmpGE => to_signed(b, w) <= to_signed(a, w),
    }
}

/// A binary instruction's value and flag, executable.
pub fn bin_exec(op: BinOp, a: u64, b: u64, w: u16) -> (r: (u64, bool))
    requires
        valid_word_size(w),
        a <= word_mask(w),
    ensures
        r.0 == bin_value(op, a, b, w),
        r.1 == bin_flag(op, a, b, r.0, w),
        r.0 <= word_mask(w),
{
    proof {
        lemma_word_mask_values(w);
    }
    match op {
        BinOp::And => {
            let bm = wrap_exec(b, w);
            let v = a & bm;
            proof {
                lemma_bitop_bounds(a, bm, word_mask(w));
            }
            (v, v == 0)
        },
        BinOp::Or => {
            let bm = wrap_exec(b, w);
            let v = a | bm;
            proof {
                lemma_bitop_bounds(a, bm, word_mask(w));
            }
            (v, v == 0)
        },
        BinOp::Xor => {
            let bm = wrap_exec(b, w);
            let v = a ^ bm;
            proof {
                lemma_bitop_bounds(a, bm, word_mask(w));
            }
            (v, v == 0)
        },
        BinOp::Add => {
            let v = word_add(a, b, w);
            (v, v >= msb_for(w))
        },
        BinOp::Sub => {
            let v = word_sub(a, b, w);
            (v, !(v >= msb_for(w)))
        },
        BinOp::MulL => word_mul(a, b, w),
        BinOp::UDiv => (word_udiv(a, b, w), b == 0),
        BinOp::UMod => (word_umod(a, b, w), b == 0),
        BinOp::Shl => {
            let v = word_shl(a, b, w);
            (v, v >= msb_for(w))
        },
        BinOp::Shr => {
            let v = word_shr(a, b, w);
            (v, v % 2 == 1)
        },
    }
}

/// A compare instruction's flag, executable.
pub fn cmp_exec(op: CmpOp, a: u64, b: u64, w: u16) -> (r: bool)
    requires
        valid_word_size(w),
    ensures
        r == cmp_flag(op, a, b, w),
{
    match op {
        CmpOp::CmpE => b == a,
        CmpOp::CmpA => b < a,
        CmpOp::CmpAE => b <= a,
        CmpOp::CmpG => signed_lt(b, a, w),
        CmpOp::CmpGE => signed_le(b, a, w),
    }
}

// ------------------------------------------------------------------
// Memory model: a byte sequence grown lazily, zero-filled
// ------------------------------------------------------------------

/// `mem` grown (if needed) so that it covers addresses below `end`.
pub open spec fn grown(mem: Seq<u8>, end: int) -> Seq<u8> {
    if mem.len() >= end {
        mem
    } else {
        mem + Seq::new((end - mem.len()) as nat, |i: int| 0u8)
    }
}

/// `mem` with `bytes` written starting at `addr`.
pub open spec fn write_bytes(mem: Seq<u8>, addr: int, bytes: Seq<u8>) -> Seq<u8> {
    Seq::new(
        mem.len(),
        |i: int|
            if addr <= i < addr + bytes.len() {
                bytes[i - addr]
            } else {
                mem[i]
            },
    )
}

/// The little-endian word stored at address 0, reading the grown prefix as
/// if it continued with zeroes.
pub open spec fn output_word(mem: Seq<u8>) -> u64 {
    spec_u64_from_le_bytes(grown(mem, 8).subrange(0, 8))
}

// ------------------------------------------------------------------
// One step of the machine
// ------------------------------------------------------------------

/// The state after an execution fault, synthesized as `answer 1`: the
/// machine halts with result 1 and everything else unchanged.
pub open spec fn fault_state(s: AState) -> AState {
    AState { running: false, result: 1, ..s }
}

/// The state after executing instruction `i` in state `s`.
pub open spec fn spec_execute(env: MachineEnv, s: AState, i: AInstr) -> AState {
    let w = env.word_size;
    let next = (s.pc + 1) as u64;
    match i {
        AInstr::Bin(op, r1, r2, a) => {
            let av = s.regs[r2.index as int];
            let bv = resolve_spec(env, s, a);
            let r = bin_value(op, av, bv, w);
            AState {
                pc: next,
                flag: bin_flag(op, av, bv, r, w),
                regs: s.regs.update(r1.index as int, r),
                ..s
            }
        },
        AInstr::Not(r, a) => {
            let bv = resolve_spec(env, s, a);
            let res = wrap(u64::MAX - bv, w);
            AState { pc: next, flag: res == 0, regs: s.regs.update(r.index as int, res), ..s }
        },
        AInstr::Cmp(op, r, a) => {
            let av = s.regs[r.index as int];
            let bv = resolve_spec(env, s, a);
            AState { pc: next, flag: cmp_flag(op, av, bv, w), ..s }
        },
        AInstr::Mov(r, a) => {
            let bv = resolve_spec(env, s, a);
            AState { pc: next, regs: s.regs.update(r.index as int, wrap(bv as int, w)), ..s }
        },
        AInstr::CMov(r, a) => {
            let bv = resolve_spec(env, s, a);
            if s.flag {
                AState { pc: next, regs: s.regs.update(r.index as int, wrap(bv as int, w)), ..s }
            } else {
                AState { pc: next, ..s }
            }
        },
        AInstr::Jmp(a) => AState { pc: resolve_spec(env, s, a), ..s },
        AInstr::CJmp(a) => AState {
            pc: if s.flag {
                resolve_spec(env, s, a)
            } else {
                next
            },
            ..s
        },
        AInstr::CnJmp(a) => AState {
            pc: if s.flag {
                next
            } else {
                resolve_spec(env, s, a)
            },
            ..s
        },
        AInstr::StoreB(a, r) => {
            let addr = resolve_spec(env, s, a);
            let v = s.regs[r.index as int];
            if addr + 1 > usize::MAX {
                fault_state(s)
            } else {
                let m2 = write_bytes(grown(s.mem, addr + 1), addr as int, seq![(v % 256) as u8]);
                AState { pc: next, mem: m2, ..s }
            }
        },
        AInstr::StoreW(a, r) => {
            let addr = resolve_spec(env, s, a);
            let v = s.regs[r.index as int];
            if addr + 8 > usize::MAX {
                fault_state(s)
            } else {
                let m2 = write_bytes(grown(s.mem, addr + 8), addr as int, spec_u64_to_le_bytes(v));
                AState { pc: next, mem: m2, ..s }
            }
        },
        AInstr::LoadB(r, a) => {
            let addr = resolve_spec(env, s, a);
            if addr + 1 > usize::MAX {
                fault_state(s)
            } else {
                let m2 = grown(s.mem, addr + 1);
                let v = m2[addr as int] as u64;
                AState { pc: next, mem: m2, regs: s.regs.update(r.index as int, v), ..s }
            }
        },
        AInstr::LoadW(r, a) => {
            let addr = resolve_spec(env, s, a);
            if addr + 8 > usize::MAX {
                fault_state(s)
            } else {
                let m2 = grown(s.mem, addr + 8);
                let v = wrap(
                    spec_u64_from_le_bytes(m2.subrange(addr as int, addr + 8)) as int,
                    w,
                );
                AState { pc: next, mem: m2, regs: s.regs.update(r.index as int, v), ..s }
            }
        },
        AInstr::Read(r, a) => {
            let t = resolve_spec(env, s, a);
            if t == 0 && s.tape1.len() > 0 {
                AState {
                    pc: next,
                    flag: false,
                    regs: s.regs.update(r.index as int, wrap(s.tape1[0] as int, w)),
                    tape1: s.tape1.skip(1),
                    ..s
                }
            } else if t == 1 && s.tape2.len() > 0 {
                AState {
                    pc: next,
                    flag: false,
                    regs: s.regs.update(r.index as int, wrap(s.tape2[0] as int, w)),
                    tape2: s.tape2.skip(1),
                    ..s
                }
            } else {
                AState { pc: next, flag: true, regs: s.regs.update(r.index as int, 0), ..s }
            }
        },
        AInstr::Answer(a) => AState { running: false, result: resolve_spec(env, s, a), ..s },
    }
}

/// One step: do nothing when halted, fault when the program counter has left
/// the program, and otherwise execute the instruction under it.
pub open spec fn spec_step(env: MachineEnv, s: AState) -> AState {
    if !s.running {
        s
    } else if s.pc < env.prog.len() {
        spec_execute(env, s, env.prog[s.pc as int])
    } else {
        fault_state(s)
    }
}

/// The state after `n` steps.
pub open spec fn steps(env: MachineEnv, s: AState, n: nat) -> AState
    decreases n,
{
    if n == 0 {
        s
    } else {
        spec_step(env, steps(env, s, (n - 1) as nat))
    }
}

// ------------------------------------------------------------------
// The canonical per-step state bytes and the run trace
// ------------------------------------------------------------------

/// A 64-bit value as 8 big-endian bytes.
pub open spec fn u64_be_bytes(x: u64) -> Seq<u8> {
    spec_u64_to_le_bytes(x).reverse()
}

/// Each register in order, as 8 big-endian bytes each.
pub open spec fn regs_bytes(regs: Seq<u64>) -> Seq<u8>
    decreases regs.len(),
{
    if regs.len() == 0 {
        Seq::empty()
    } else {
        u64_be_bytes(regs[0]) + regs_bytes(regs.skip(1))
    }
}

/// The canonical encoding of a state: the program counter big-endian, the
/// flag as one byte, every register big-endian, then the grown memory.
pub open spec fn state_bytes(s: AState) -> Seq<u8> {
    u64_be_bytes(s.pc) + seq![
        if s.flag {
            1u8
        } else {
            0u8
        },
    ] + regs_bytes(s.regs) + s.mem
}

/// The bytes streamed during the first `n` steps: the canonical encoding of
/// every state reached after a step, in order.
pub open spec fn trace_bytes(env: MachineEnv, s: AState, n: nat) -> Seq<u8>
    decreases n,
{
    if n == 0 {
        Seq::empty()
    } else {
        trace_bytes(env, s, (n - 1) as nat) + state_bytes(steps(env, s, n))
    }
}

// ------------------------------------------------------------------
// Halting
// ------------------------------------------------------------------

/// The machine has stopped.
pub open spec fn halted(s: AState) -> bool {
    !s.running
}

/// `n` is the first step count at which the run from `s` has halted.
pub open spec fn first_halt(env: MachineEnv, s: AState, n: nat) -> bool {
    &&& halted(steps(env, s, n))
    &&& forall|m: nat| m < n ==> !halted(#[trigger] steps(env, s, m))
}

/// Once halted, the machine stays exactly where it is.
pub proof fn lemma_steps_stutter(env: MachineEnv, s: AState, n: nat, m: nat)
    requires
        halted(steps(env, s, n)),
        n <= m,
    ensures
        steps(env, s, m) == steps(env, s, n),
    decreases m - n,
{
    if m > n {
        lemma_steps_stutter(env, s, n, (m - 1) as nat);
    }
}

/// Determinism of a run: the first halting point is unique, so the halting
/// state — and with it the result, the output and the whole trace — is a
/// function of the program, the tapes and the start state alone. Two
/// independent runs from the same start agree on all of them.
pub proof fn lemma_run_deterministic(env: MachineEnv, s: AState, n1: nat, n2: nat)
    requires
        first_halt(env, s, n1),
        first_halt(env, s, n2),
    ensures
        n1 == n2,
        steps(env, s, n1) == steps(env, s, n2),
        trace_bytes(env, s, n1) == trace_bytes(env, s, n2),
{
    if n1 < n2 {
        assert(!halted(steps(env, s, n1)));
    }
    if n2 < n1 {
        assert(!halted(steps(env, s, n2)));
    }
}

// ------------------------------------------------------------------
// The executable machine
// ------------------------------------------------------------------

/// The mutable per-run state of the machine. The tapes are kept whole and
/// consumed through cursors.
pub struct State {
    pub running: bool,
    pub pc: u64,
    pub flag: bool,
    pub registers: Vec<u64>,
    pub tape1: Vec<u64>,
    pub pos1: usize,
    pub tape2: Vec<u64>,
    pub pos2: usize,
    pub memory: Vec<u8>,
}

impl State {
    /// The abstract state, with `result` supplied by the machine.
    pub open spec fn view_with(self, result: u64) -> AState {
        AState {
            running: self.running,
            pc: self.pc,
            flag: self.flag,
            regs: self.registers@,
            mem: self.memory@,
            tape1: self.tape1@.skip(self.pos1 as int),
            tape2: self.tape2@.skip(self.pos2 as int),
            result: result,
        }
    }

    /// Append the canonical encoding of this state to `trace`: the program
    /// counter big-endian, the flag byte, every register big-endian, then
    /// the grown memory. The machine result and the tapes are not part of
    /// the encoding.
    pub fn process_state(&self, trace: &mut Vec<u8>)
        ensures
            forall|result: u64|
                final(trace)@ == old(trace)@ + state_bytes(#[trigger] self.view_with(result)),
    {
        push_be_bytes(trace, self.pc);
        trace.push(if self.flag {
            1u8
        } else {
            0u8
        });
        let ghost mid = trace@;
        let mut i: usize = 0;
        while i < self.registers.len()
            invariant
                i <= self.registers@.len(),
                trace@ == mid + regs_bytes(self.registers@.take(i as int)),
            decreases self.registers@.len() - i,
        {
            proof {
                lemma_regs_bytes_take(self.registers@, i as int);
            }
            push_be_bytes(trace, self.registers[i]);
            i += 1;
        }
        proof {
            assert(self.registers@.take(i as int) =~= self.registers@);
        }
        let mut j: usize = 0;
        let ghost mid2 = trace@;
        while j < self.memory.len()
            invariant
                j <= self.memory@.len(),
                trace@ == mid2 + self.memory@.take(j as int),
            decreases self.memory@.len() - j,
        {
            trace.push(self.memory[j]);
            proof {
                assert(mid2 + self.memory@.take(j as int) + seq![self.memory@[j as int]] =~= mid2
                    + self.memory@.take(j + 1));
            }
            j += 1;
        }
        proof {
            assert(self.memory@.take(j as int) =~= self.memory@);
            assert forall|result: u64|
                trace@ == old(trace)@ + state_bytes(#[trigger] self.view_with(result)) by {
                assert(trace@ =~= old(trace)@ + state_bytes(self.view_with(result)));
            }
        }
    }
}

/// The machine: a validated program with its label table and parameters,
/// the run state, and the result of the most recent `answer`.
pub struct TinyVM {
    pub params: Params,
    pub program: Vec<Instruction>,
    pub resolved_labels: Vec<Label>,
    pub state: State,
    pub result: u64,
}

impl View for TinyVM {
    type V = AState;

    open spec fn view(&self) -> AState {
        self.state.view_with(self.result)
    }
}

impl TinyVM {
    /// The immutable surroundings of this machine's runs.
    pub open spec fn env(self) -> MachineEnv {
        MachineEnv {
            prog: prog_view(self.program@),
            labels: labels_view(self.resolved_labels@),
            word_size: self.params.word_size,
            num_regs: self.params.registers,
        }
    }

    /// The machine's internal invariant: accepted parameters, a well-formed
    /// program, a register file of the declared size holding machine words,
    /// and tape cursors within their tapes.
    pub open spec fn inv(self) -> bool {
        &&& self.params.wf()
        &&& env_wf(self.env())
        &&& st_wf(self.env(), self@)
        &&& self.state.pos1 <= self.state.tape1@.len()
        &&& self.state.pos2 <= self.state.tape2@.len()
    }

    /// A machine for a validated program, in the initial state: stopped at
    /// address 0, flag clear, zeroed registers, empty tapes and memory, and
    /// result 1 until an `answer` executes.
    pub fn new(params: Params, program: Vec<Instruction>, resolved_labels: Vec<Label>) -> (vm:
        TinyVM)
        requires
            params.wf(),
            program_wf(prog_view(program@), params.registers, labels_view(resolved_labels@)),
        ensures
            vm.inv(),
            vm.env() == (MachineEnv {
                prog: prog_view(program@),
                labels: labels_view(resolved_labels@),
                word_size: params.word_size,
                num_regs: params.registers,
            }),
            vm@ == initial_state(params.registers),
    {
        let n = program.len();
        proof {
            assert(program@.len() == n);
            assert(n <= usize::MAX);
        }
        let mut registers: Vec<u64> = Vec::new();
        let mut i: u16 = 0;
        while i < params.registers
            invariant
                i <= params.registers,
                registers@ == Seq::new(i as nat, |j: int| 0u64),
            decreases params.registers - i,
        {
            registers.push(0);
            proof {
                assert(registers@ =~= Seq::new((i + 1) as nat, |j: int| 0u64));
            }
            i += 1;
        }
        let state = State {
            running: false,
            pc: 0,
            flag: false,
            registers,
            tape1: Vec::new(),
            pos1: 0,
            tape2: Vec::new(),
            pos2: 0,
            memory: Vec::new(),
        };
        let vm = TinyVM { params, program, resolved_labels, state, result: 1 };
        proof {
            assert(vm@ =~= initial_state(params.registers));
        }
        vm
    }

    /// Install the two input tapes, rewound to their fronts.
    pub fn load_tape(&mut self, tape1: Vec<u64>, tape2: Vec<u64>)
        requires
            old(self).inv(),
        ensures
            final(self).inv(),
            final(self).env() == old(self).env(),
            final(self)@ == (AState { tape1: tape1@, tape2: tape2@, ..old(self)@ }),
    {
        self.state.tape1 = tape1;
        self.state.pos1 = 0;
        self.state.tape2 = tape2;
        self.state.pos2 = 0;
        proof {
            assert(self.state.tape1@.skip(0) =~= self.state.tape1@);
            assert(self.state.tape2@.skip(0) =~= self.state.tape2@);
        }
    }

    /// Set the machine running.
    pub fn start(&mut self)
        requires
            old(self).inv(),
        ensures
            final(self).inv(),
            final(self).env() == old(self).env(),
            final(self)@ == (AState { running: true, ..old(self)@ }),
    {
        self.state.running = true;
    }

    /// Stop the machine.
    pub fn stop(&mut self)
        requires
            old(self).inv(),
        ensures
            final(self).inv(),
            final(self).env() == old(self).env(),
            final(self)@ == (AState { running: false, ..old(self)@ }),
    {
        self.state.running = false;
    }

    /// Restore the initial post-construction state, without reparsing.
    pub fn reset_state(&mut self)
        requires
            old(self).inv(),
        ensures
            final(self).inv(),
            final(self).env() == old(self).env(),
            final(self)@ == initial_state(old(self).params.registers),
            final(self).params == old(self).params,
    {
        let k = self.params.registers;
        let mut registers: Vec<u64> = Vec::new();
        let mut i: u16 = 0;
        while i < k
            invariant
                i <= k,
                registers@ == Seq::new(i as nat, |j: int| 0u64),
            decreases k - i,
        {
            registers.push(0);
            proof {
                assert(registers@ =~= Seq::new((i + 1) as nat, |j: int| 0u64));
            }
            i += 1;
        }
        self.state.running = false;
        self.state.pc = 0;
        self.state.flag = false;
        self.state.registers = registers;
        self.state.tape1 = Vec::new();
        self.state.pos1 = 0;
        self.state.tape2 = Vec::new();
        self.state.pos2 = 0;
        self.state.memory = Vec::new();
        self.result = 1;
        proof {
            assert(self@ =~= initial_state(old(self).params.registers));
        }
    }

    /// The content of a register.
    fn read_reg(&self, reg: Register) -> (v: u64)
        requires
            reg.index < self.state.registers@.len(),
        ensures
            v == self@.regs[reg.index as int],
    {
        self.state.registers[reg.index as usize]
    }

    /// Overwrite a register.
    fn write_reg(&mut self, reg: Register, v: u64)
        requires
            reg.index < old(self).state.registers@.len(),
        ensures
            final(self).state.registers@ == old(self).state.registers@.update(reg.index as int, v),
            final(self).params == old(self).params,
            final(self).program == old(self).program,
            final(self).resolved_labels == old(self).resolved_labels,
            final(self).result == old(self).result,
            final(self).state.running == old(self).state.running,
            final(self).state.pc == old(self).state.pc,
            final(self).state.flag == old(self).state.flag,
            final(self).state.tape1 == old(self).state.tape1,
            final(self).state.pos1 == old(self).state.pos1,
            final(self).state.tape2 == old(self).state.tape2,
            final(self).state.pos2 == old(self).state.pos2,
            final(self).state.memory == old(self).state.memory,
    {
        self.state.registers[reg.index as usize] = v;
    }

    /// The value of an operand in the current state.
    fn resolve(&self, arg: &Argument) -> (v: u64)
        requires
            arg@ matches AArg::Reg(r) ==> r.index < self.state.registers@.len(),
        ensures
            v == resolve_spec(self.env(), self@, arg@),
    {
        match arg {
            Argument::Imm(x) => *x as u64,
            Argument::Reg(r) => self.read_reg(*r),
            Argument::Label(name) => match crate::program::find_label(
                &self.resolved_labels,
                name,
            ) {
                Some(a) => a,
                None => 0,
            },
        }
    }

    /// Execute one instruction: the state advances exactly as the abstract
    /// `spec_execute` step says.
    pub fn execute(&mut self, instr: &Instruction)
        requires
            old(self).inv(),
            old(self).state.pc < u64::MAX,
            instr_wf(instr@, old(self).params.registers, labels_view(old(self).resolved_labels@)),
        ensures
            final(self).inv(),
            final(self).env() == old(self).env(),
            final(self).params == old(self).params,
            final(self)@ == spec_execute(old(self).env(), old(self)@, instr@),
    {
        proof {
            lemma_word_mask_values(self.params.word_size);
        }
        let w = self.params.word_size;
        match instr {
            Instruction::Bin(op, r1, r2, a) => {
                let av = self.read_reg(*r2);
                let bv = self.resolve(a);
                let (res, fl) = bin_exec(*op, av, bv, w);
                self.write_reg(*r1, res);
                self.state.flag = fl;
                self.state.pc = self.state.pc + 1;
            },
            Instruction::Not(r, a) => {
                let bv = self.resolve(a);
                let res = wrap_exec(u64::MAX - bv, w);
                self.write_reg(*r, res);
                self.state.flag = res == 0;
                self.state.pc = self.state.pc + 1;
            },
            Instruction::Cmp(op, r, a) => {
                let av = self.read_reg(*r);
                let bv = self.resolve(a);
                self.state.flag = cmp_exec(*op, av, bv, w);
                self.state.pc = self.state.pc + 1;
            },
            Instruction::Mov(r, a) => {
                let bv = self.resolve(a);
                self.write_reg(*r, wrap_exec(bv, w));
                self.state.pc = self.state.pc + 1;
            },
            Instruction::CMov(r, a) => {
                let bv = self.resolve(a);
                if self.state.flag {
                    self.write_reg(*r, wrap_exec(bv, w));
                }
                self.state.pc = self.state.pc + 1;
            },
            Instruction::Jmp(a) => {
                self.state.pc = self.resolve(a);
            },
            Instruction::CJmp(a) => {
                if self.state.flag {
                    self.state.pc = self.resolve(a);
                } else {
                    self.state.pc = self.state.pc + 1;
                }
            },
            Instruction::CnJmp(a) => {
                if self.state.flag {
                    self.state.pc = self.state.pc + 1;
                } else {
                    self.state.pc = self.resolve(a);
                }
            },
            Instruction::StoreB(a, r) => {
                let addr = self.resolve(a);
                let v = self.read_reg(*r);
                if addr > (usize::MAX as u64) - 1 {
                    self.state.running = false;
                    self.result = 1;
                } else {
                    let au = addr as usize;
                    grow_mem(&mut self.state.memory, au + 1);
                    self.state.memory[au] = (v % 256) as u8;
                    proof {
                        assert(self.state.memory@ =~= write_bytes(
                            grown(old(self)@.mem, addr + 1),
                            addr as int,
                            seq![(v % 256) as u8],
                        ));
                    }
                    self.state.pc = self.state.pc + 1;
                }
            },
            Instruction::StoreW(a, r) => {
                let addr = self.resolve(a);
                let v = self.read_reg(*r);
                if addr > (usize::MAX as u64) - 8 {
                    self.state.running = false;
                    self.result = 1;
                } else {
                    let au = addr as usize;
                    grow_mem(&mut self.state.memory, au + 8);
                    write_word_bytes(&mut self.state.memory, au, v);
                    self.state.pc = self.state.pc + 1;
                }
            },
            Instruction::LoadB(r, a) => {
                let addr = self.resolve(a);
                if addr > (usize::MAX as u64) - 1 {
                    self.state.running = false;
                    self.result = 1;
                } else {
                    let au = addr as usize;
                    grow_mem(&mut self.state.memory, au + 1);
                    let v = self.state.memory[au] as u64;
                    proof {
                        assert(v <= word_mask(w));
                    }
                    self.write_reg(*r, v);
                    self.state.pc = self.state.pc + 1;
                }
            },
            Instruction::LoadW(r, a) => {
                let addr = self.resolve(a);
                if addr > (usize::MAX as u64) - 8 {
                    self.state.running = false;
                    self.result = 1;
                } else {
                    let au = addr as usize;
                    grow_mem(&mut self.state.memory, au + 8);
                    let raw = read_word_bytes(&self.state.memory, au);
                    let v = wrap_exec(raw, w);
                    self.write_reg(*r, v);
                    self.state.pc = self.state.pc + 1;
                }
            },
            Instruction::Read(r, a) => {
                let t = self.resolve(a);
                if t == 0 && self.state.pos1 < self.state.tape1.len() {
                    let v = wrap_exec(self.state.tape1[self.state.pos1], w);
                    self.state.pos1 = self.state.pos1 + 1;
                    self.write_reg(*r, v);
                    self.state.flag = false;
                    proof {
                        assert(self@.tape1 =~= old(self)@.tape1.skip(1));
                    }
                } else if t == 1 && self.state.pos2 < self.state.tape2.len() {
                    let v = wrap_exec(self.state.tape2[self.state.pos2], w);
                    self.state.pos2 = self.state.pos2 + 1;
                    self.write_reg(*r, v);
                    self.state.flag = false;
                    proof {
                        assert(self@.tape2 =~= old(self)@.tape2.skip(1));
                    }
                } else {
                    self.write_reg(*r, 0);
                    self.state.flag = true;
                }
                self.state.pc = self.state.pc + 1;
            },
            Instruction::Answer(a) => {
                let v = self.resolve(a);
                self.result = v;
                self.state.running = false;
            },
        }
    }

    /// One machine step: execute the instruction under the program counter,
    /// or fault — synthesized as `answer 1` — when the counter has left the
    /// program. Does nothing when the machine is stopped.
    pub fn step(&mut self)
        requires
            old(self).inv(),
        ensures
            final(self).inv(),
            final(self).env() == old(self).env(),
            final(self).params == old(self).params,
            final(self)@ == spec_step(old(self).env(), old(self)@),
    {
        if !self.state.running {
            return ;
        }
        let pc = self.state.pc;
        if pc < self.program.len() as u64 {
            let instr = self.program[pc as usize].duplicate();
            proof {
                assert(instr@ == prog_view(self.program@)[pc as int]);
            }
            self.execute(&instr);
        } else {
            self.state.running = false;
            self.result = 1;
        }
    }

    /// Run until the machine halts or `fuel` steps have passed, appending
    /// the canonical state bytes to `trace` after every step. On a halt the
    /// result of the final `answer` is returned; past `fuel` the machine is
    /// left mid-run and `None` is returned.
    pub fn run(&mut self, trace: &mut Vec<u8>, fuel: u64) -> (r: Option<u64>)
        requires
            old(self).inv(),
        ensures
            final(self).inv(),
            final(self).env() == old(self).env(),
            final(self).params == old(self).params,
            ({
                let s0 = AState { running: true, ..old(self)@ };
                let env = old(self).env();
                match r {
                    Some(res) => exists|n: nat|
                        #[trigger] first_halt(env, s0, n) && n <= fuel && final(self)@ == steps(
                            env,
                            s0,
                            n,
                        ) && final(trace)@ == old(trace)@ + trace_bytes(env, s0, n) && res
                            == final(self)@.result,
                    None => !halted(final(self)@) && final(self)@ == steps(env, s0, fuel as nat)
                        && final(trace)@ == old(trace)@ + trace_bytes(env, s0, fuel as nat),
                }
            }),
    {
        self.start();
        let ghost env = self.env();
        let ghost s0 = self@;
        let mut k: u64 = 0;
        while k < fuel && self.state.running
            invariant
                self.inv(),
                self.env() == env,
                self.params == old(self).params,
                env == old(self).env(),
                s0 == (AState { running: true, ..old(self)@ }),
                k <= fuel,
                self@ == steps(env, s0, k as nat),
                trace@ == old(trace)@ + trace_bytes(env, s0, k as nat),
                forall|m: nat| m < k ==> !halted(#[trigger] steps(env, s0, m)),
                !self.state.running ==> halted(self@),
                self.state.running ==> !halted(self@),
            decreases fuel - k,
        {
            self.step();
            self.state.process_state(trace);
            proof {
                assert(trace@ =~= old(trace)@ + (trace_bytes(env, s0, k as nat) + state_bytes(
                    steps(env, s0, (k + 1) as nat),
                )));
            }
            k += 1;
        }
        if !self.state.running {
            proof {
                assert(first_halt(env, s0, k as nat));
            }
            Some(self.result)
        } else {
            proof {
                assert(k == fuel);
            }
            None
        }
    }

    /// The program's output: the little-endian word at memory address 0,
    /// reading absent bytes as zero.
    pub fn output(&self) -> (r: u64)
        ensures
            r == output_word(self@.mem),
    {
        let mut buf: Vec<u8> = Vec::new();
        let mut i: usize = 0;
        while i < 8
            invariant
                i <= 8,
                buf@ == grown(self.state.memory@, 8).subrange(0, i as int),
            decreases 8 - i,
        {
            if i < self.state.memory.len() {
                buf.push(self.state.memory[i]);
            } else {
                buf.push(0u8);
            }
            proof {
                assert(buf@ =~= grown(self.state.memory@, 8).subrange(0, i + 1));
            }
            i += 1;
        }
        u64_from_le_bytes(buf.as_slice())
    }
}

/// The initial post-construction state for a machine with `k` registers.
pub open spec fn initial_state(k: u16) -> AState {
    AState {
        running: false,
        pc: 0,
        flag: false,
        regs: Seq::new(k as nat, |j: int| 0u64),
        mem: Seq::empty(),
        tape1: Seq::empty(),
        tape2: Seq::empty(),
        result: 1,
    }
}

// ------------------------------------------------------------------
// Byte-level helpers
// ------------------------------------------------------------------

/// Append the 8 big-endian bytes of `x`.
pub fn push_be_bytes(out: &mut Vec<u8>, x: u64)
    ensures
        final(out)@ == old(out)@ + u64_be_bytes(x),
{
    let le = u64_to_le_bytes(x);
    let mut i: usize = 8;
    while i > 0
        invariant
            i <= 8,
            le@ == spec_u64_to_le_bytes(x),
            le@.len() == 8,
            out@ == old(out)@ + u64_be_bytes(x).take(8 - i as int),
        decreases i,
    {
        out.push(le[i - 1]);
        proof {
            assert(u64_be_bytes(x)[8 - i as int] == le@[i - 1]);
            assert(out@ =~= old(out)@ + u64_be_bytes(x).take(8 - (i - 1) as int));
        }
        i -= 1;
    }
    proof {
        assert(u64_be_bytes(x).take(8) =~= u64_be_bytes(x));
    }
}

/// `regs_bytes` over a prefix, extended by one register.
proof fn lemma_regs_bytes_take(regs: Seq<u64>, i: int)
    requires
        0 <= i < regs.len(),
    ensures
        regs_bytes(regs.take(i + 1)) == regs_bytes(regs.take(i)) + u64_be_bytes(regs[i]),
    decreases i,
{
    if i == 0 {
        assert(regs.take(1).skip(1) =~= Seq::<u64>::empty());
        assert(regs.take(0) =~= Seq::<u64>::empty());
        assert(regs.take(1)[0] == regs[0]);
        assert(regs_bytes(regs.take(1)) == u64_be_bytes(regs[0]) + regs_bytes(
            Seq::<u64>::empty(),
        ));
        assert(u64_be_bytes(regs[0]) + Seq::<u8>::empty() =~= u64_be_bytes(regs[0]));
        assert(Seq::<u8>::empty() + u64_be_bytes(regs[0]) =~= u64_be_bytes(regs[0]));
    } else {
        lemma_regs_bytes_take(regs.skip(1), i - 1);
        assert(regs.take(i + 1).skip(1) =~= regs.skip(1).take(i));
        assert(regs.take(i).skip(1) =~= regs.skip(1).take(i - 1));
        assert(regs.take(i + 1)[0] == regs[0]);
        assert(regs.take(i)[0] == regs[0]);
        assert(regs.skip(1)[i - 1] == regs[i]);
        assert(regs_bytes(regs.take(i + 1)) == u64_be_bytes(regs[0]) + regs_bytes(
            regs.skip(1).take(i),
        ));
        assert(u64_be_bytes(regs[0]) + (regs_bytes(regs.skip(1).take(i - 1)) + u64_be_bytes(
            regs[i],
        )) =~= (u64_be_bytes(regs[0]) + regs_bytes(regs.skip(1).take(i - 1))) + u64_be_bytes(
            regs[i],
        ));
    }
}

/// Grow `mem` with zero bytes so that it covers addresses below `end`.
pub fn grow_mem(mem: &mut Vec<u8>, end: usize)
    ensures
        final(mem)@ == grown(old(mem)@, end as int),
        final(mem)@.len() >= end,
{
    while mem.len() < end
        invariant
            mem@ == grown(old(mem)@, mem@.len() as int),
            mem@.len() >= old(mem)@.len(),
            mem@.len() <= end || mem@.len() == old(mem)@.len(),
        decreases end - mem@.len(),
    {
        mem.push(0u8);
        proof {
            assert(mem@ =~= grown(old(mem)@, mem@.len() as int));
        }
    }
    proof {
        assert(mem@ =~= grown(old(mem)@, end as int));
    }
}

/// Write the 8 little-endian bytes of `v` at `addr`.
pub fn write_word_bytes(mem: &mut Vec<u8>, addr: usize, v: u64)
    requires
        addr + 8 <= old(mem)@.len(),
    ensures
        final(mem)@ == write_bytes(old(mem)@, addr as int, spec_u64_to_le_bytes(v)),
{
    let bytes = u64_to_le_bytes(v);
    let len = mem.len();
    let mut j: usize = 0;
    while j < 8
        invariant
            j <= 8,
            bytes@ == spec_u64_to_le_bytes(v),
            bytes@.len() == 8,
            addr + 8 <= len,
            len == mem@.len(),
            mem@.len() == old(mem)@.len(),
            forall|i: int|
                0 <= i < mem@.len() ==> mem@[i] == if addr <= i < addr + j {
                    bytes@[i - addr]
                } else {
                    old(mem)@[i]
                },
        decreases 8 - j,
    {
        self_set(mem, addr + j, bytes[j]);
        j += 1;
    }
    proof {
        assert(mem@ =~= write_bytes(old(mem)@, addr as int, spec_u64_to_le_bytes(v)));
    }
}

/// A single element overwrite, so the loop above can name the update.
fn self_set(mem: &mut Vec<u8>, i: usize, v: u8)
    requires
        i < old(mem)@.len(),
    ensures
        final(mem)@ == old(mem)@.update(i as int, v),
{
    mem[i] = v;
}

/// Read the 8 little-endian bytes at `addr` as a word.
pub fn read_word_bytes(mem: &Vec<u8>, addr: usize) -> (r: u64)
    requires
        addr + 8 <= mem@.len(),
    ensures
        r == spec_u64_from_le_bytes(mem@.subrange(addr as int, addr + 8)),
{
    let len = mem.len();
    let mut buf: Vec<u8> = Vec::new();
    let mut j: usize = 0;
    while j < 8
        invariant
            j <= 8,
            addr + 8 <= len,
            len == mem@.len(),
            buf@ == mem@.subrange(addr as int, addr + j),
        decreases 8 - j,
    {
        buf.push(mem[addr + j]);
        proof {
            assert(buf@ =~= mem@.subrange(addr as int, addr + j + 1));
        }
        j += 1;
    }
    u64_from_le_bytes(buf.as_slice())
}

} // verus!
