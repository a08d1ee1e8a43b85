//! The instrumented emulator: one machine per program, re-run across many
//! inputs. Each run feeds the program identity and the canonical state
//! trace into SHA-1 and yields the program output together with the digest.
//!
//! The whole outcome of a run — whether it halts, its exit code, its output,
//! its trace and so its digest — is a function of the machine environment
//! and the input alone (`run_output`, `run_exit`, `run_hash`), which is what
//! makes re-running a witness on the verifier's side meaningful.

use vstd::prelude::*;
use crate::encode::{encode_program, identity_bytes};
use crate::hash::{sha1_digest, sha1_of};
use crate::parser::{ParseError, Parser};
use crate::vm::{
    AState, MachineEnv, TinyVM, first_halt, halted, initial_state, output_word, steps, trace_bytes,
    lemma_run_deterministic,
};

verus! {

/// The largest number of steps one instrumented run may take.
pub const MAX_STEPS: u64 = 0xffff_ffff_ffff_ffff;

/// Why a run yielded no result.
#[derive(Debug, Clone, Copy, PartialEq, Eq, Structural)]
pub enum VmError {
    /// The program halted with the given nonzero result: a program-level
    /// error, or a fault synthesized as `answer 1`.
    ProgramError(u64),
    /// The program had not halted after `MAX_STEPS` steps.
    StepLimit,
}

/// The result of one instrumented run.
pub struct RunResult {
    /// SHA-1 digest of the program identity followed by the state trace.
    pub hash: Vec<u8>,
    /// The input the run was started on.
    pub input: u64,
    /// The program output: the little-endian word at memory address 0.
    pub output: u64,
}

/// The state a run on `input` starts from: running at address 0 with the
/// input as the whole primary tape.
pub open spec fn start_state(k: u16, input: u64) -> AState {
    AState { running: true, tape1: seq![input], ..initial_state(k) }
}

/// The run on `input` halts within `MAX_STEPS` steps.
pub open spec fn terminates(env: MachineEnv, input: u64) -> bool {
    exists|n: nat| first_halt(env, start_state(env.num_regs, input), n) && n <= MAX_STEPS
}

/// The number of steps to the halt (meaningful when the run terminates).
pub open spec fn halt_steps(env: MachineEnv, input: u64) -> nat {
    choose|n: nat| first_halt(env, start_state(env.num_regs, input), n)
}

/// The state the run on `input` halts in.
pub open spec fn final_state(env: MachineEnv, input: u64) -> AState {
    steps(env, start_state(env.num_regs, input), halt_steps(env, input))
}

/// The exit code of the run: the argument of the halting `answer`.
pub open spec fn run_exit(env: MachineEnv, input: u64) -> u64 {
    final_state(env, input).result
}

/// The output of the run: the little-endian word at memory address 0
/// when the run halts.
pub open spec fn run_output(env: MachineEnv, input: u64) -> u64 {
    output_word(final_state(env, input).mem)
}

/// The canonical state trace of the whole run.
pub open spec fn run_trace(env: MachineEnv, input: u64) -> Seq<u8> {
    trace_bytes(env, start_state(env.num_regs, input), halt_steps(env, input))
}

/// The digest of the run: SHA-1 over the program identity followed by the
/// state trace.
pub open spec fn run_hash(env: MachineEnv, identity: Seq<u8>, input: u64) -> Seq<u8> {
    sha1_of(identity + run_trace(env, input))
}

/// The run halts in time and exits successfully.
pub open spec fn run_ok(env: MachineEnv, input: u64) -> bool {
    terminates(env, input) && run_exit(env, input) == 0
}

/// Determinism at the run level: any halting point of the run on `input`
/// pins `halt_steps`, and with it the halting state, the exit code, the
/// output and the trace digest. Two independent runs of the same program
/// on the same tape therefore agree on all of them.
pub proof fn lemma_run_functions(env: MachineEnv, input: u64, n: nat)
    requires
        first_halt(env, start_state(env.num_regs, input), n),
    ensures
        halt_steps(env, input) == n,
        final_state(env, input) == steps(env, start_state(env.num_regs, input), n),
        run_trace(env, input) == trace_bytes(env, start_state(env.num_regs, input), n),
{
    let s0 = start_state(env.num_regs, input);
    assert(first_halt(env, s0, halt_steps(env, input)));
    lemma_run_deterministic(env, s0, n, halt_steps(env, input));
}

/// The machine that hashes its runs: a validated machine together with its
/// program identity, computed once at construction.
pub struct InstrumentedVM {
    /// The machine instance.
    pub vm: TinyVM,
    /// The canonical JSON encoding of the program, hashed ahead of every
    /// run's trace.
    pub program: Vec<u8>,
}

impl InstrumentedVM {
    /// The machine's internal invariant.
    pub open spec fn inv(self) -> bool {
        &&& self.vm.inv()
        &&& self.program@ == identity_bytes(self.env().prog)
    }

    /// The immutable surroundings of this machine's runs.
    pub open spec fn env(self) -> MachineEnv {
        self.vm.env()
    }

    /// An instrumented machine for a program text: the text is parsed and
    /// validated, and the identity is encoded from the instruction list.
    pub fn new(text: &Vec<u8>) -> (r: Result<InstrumentedVM, ParseError>)
        ensures
            r is Ok <==> crate::parser::load_spec(text@) is Some,
            r matches Ok(ivm) ==> {
                let (p, instrs, labels) = crate::parser::load_spec(text@)->Some_0;
                &&& ivm.inv()
                &&& ivm.env() == (MachineEnv {
                    prog: instrs,
                    labels: labels,
                    word_size: p.word_size,
                    num_regs: p.registers,
                })
            },
    {
        match Parser::load_program(text) {
            Ok(vm) => {
                let program = encode_program(&vm.program);
                Ok(InstrumentedVM { vm, program })
            },
            Err(e) => Err(e),
        }
    }

    /// An instrumented machine around an already validated machine.
    pub fn from_vm(vm: TinyVM) -> (r: InstrumentedVM)
        requires
            vm.inv(),
        ensures
            r.inv(),
            r.env() == vm.env(),
    {
        let program = encode_program(&vm.program);
        InstrumentedVM { vm, program }
    }

    /// Run the machine on one input: the input becomes the whole primary
    /// tape, the machine is reset first, and the trace of the run is
    /// hashed behind the program identity. Success means the program
    /// halted with exit code 0; its output and digest are then exactly
    /// the ones the abstract run denotes.
    pub fn run(&mut self, input: u64) -> (r: Result<RunResult, VmError>)
        requires
            old(self).inv(),
        ensures
            final(self).inv(),
            final(self).env() == old(self).env(),
            final(self).program == old(self).program,
            ({
                let env = old(self).env();
                let id = old(self).program@;
                match r {
                    Ok(rr) => run_ok(env, input) && halt_steps(env, input) <= MAX_STEPS && rr.input
                        == input && rr.output == run_output(env, input) && rr.hash@ == run_hash(
                        env,
                        id,
                        input,
                    ) && rr.hash@.len() == 20,
                    Err(VmError::ProgramError(c)) => terminates(env, input) && run_exit(env, input)
                        == c && c != 0,
                    Err(VmError::StepLimit) => !terminates(env, input),
                }
            }),
    {
        let ghost env = self.env();
        self.vm.reset_state();
        let mut tape1: Vec<u64> = Vec::new();
        tape1.push(input);
        self.vm.load_tape(tape1, Vec::new());
        proof {
            assert(self.vm@ =~= (AState { running: false, ..start_state(env.num_regs, input) }));
            assert((AState { running: true, ..self.vm@ }) =~= start_state(env.num_regs, input));
        }
        let mut trace: Vec<u8> = Vec::new();
        let res = self.vm.run(&mut trace, MAX_STEPS);
        match res {
            None => {
                proof {
                    let s0 = start_state(env.num_regs, input);
                    if terminates(env, input) {
                        let n = choose|n: nat|
                            first_halt(env, s0, n) && n <= MAX_STEPS;
                        crate::vm::lemma_steps_stutter(env, s0, n, MAX_STEPS as nat);
                        assert(halted(steps(env, s0, MAX_STEPS as nat)));
                    }
                }
                Err(VmError::StepLimit)
            },
            Some(code) => {
                proof {
                    let s0 = start_state(env.num_regs, input);
                    let n = choose|n: nat|
                        #[trigger] first_halt(env, s0, n) && n <= MAX_STEPS && self.vm@ == steps(
                            env,
                            s0,
                            n,
                        ) && trace@ == trace_bytes(env, s0, n) && code == self.vm@.result;
                    assert(first_halt(env, s0, n));
                    assert(terminates(env, input));
                    let m = halt_steps(env, input);
                    assert(first_halt(env, s0, m));
                    lemma_run_deterministic(env, s0, n, m);
                    assert(self.vm@ == final_state(env, input));
                    assert(trace@ == run_trace(env, input));
                }
                let mut data: Vec<u8> = Vec::new();
                append_bytes(&mut data, &self.program);
                append_bytes(&mut data, &trace);
                proof {
                    assert(data@ =~= self.program@ + trace@);
                }
                let hash = sha1_digest(&data);
                let output = self.vm.output();
                if code == 0 {
                    Ok(RunResult { hash, input, output })
                } else {
                    Err(VmError::ProgramError(code))
                }
            },
        }
    }
}

/// Append a copy of `src` to `out`.
pub fn append_bytes(out: &mut Vec<u8>, src: &Vec<u8>)
    ensures
        final(out)@ == old(out)@ + src@,
{
    let mut i: usize = 0;
    while i < src.len()
        invariant
            i <= src@.len(),
            out@ == old(out)@ + src@.take(i as int),
        decreases src@.len() - i,
    {
        out.push(src[i]);
        proof {
            assert(out@ =~= old(out)@ + src@.take(i + 1));
        }
        i += 1;
    }
    proof {
        assert(src@.take(i as int) =~= src@);
    }
}

/// Run a loaded machine on a primary tape: start it, let it run to the
/// halt, and hand back the output word when the program exits with 0 or
/// the exit code as an error otherwise.
pub fn run_vm(vm: &mut TinyVM, tape1: Vec<u64>) -> (r: Result<u64, VmError>)
    requires
        old(vm).inv(),
    ensures
        final(vm).inv(),
        final(vm).env() == old(vm).env(),
        ({
            let s0 = AState { running: true, tape1: tape1@, tape2: Seq::empty(), ..old(vm)@ };
            let env = old(vm).env();
            match r {
                Ok(out) => exists|n: nat|
                    #[trigger] first_halt(env, s0, n) && n <= MAX_STEPS && steps(env, s0, n).result
                        == 0 && out == output_word(steps(env, s0, n).mem),
                Err(VmError::ProgramError(c)) => exists|n: nat|
                    #[trigger] first_halt(env, s0, n) && n <= MAX_STEPS && steps(env, s0, n).result
                        == c && c != 0,
                Err(VmError::StepLimit) => !halted(steps(env, s0, MAX_STEPS as nat)),
            }
        }),
{
    vm.load_tape(tape1, Vec::new());
    let mut trace: Vec<u8> = Vec::new();
    let res = vm.run(&mut trace, MAX_STEPS);
    match res {
        None => Err(VmError::StepLimit),
        Some(code) => {
            if code == 0 {
                Ok(vm.output())
            } else {
                Err(VmError::ProgramError(code))
            }
        },
    }
}

/// The tape a command-line run uses: the parsed tape file, or the single
/// default entry 27 when no tape file was given.
pub open spec fn cli_tape(tape_text: Option<&Vec<u8>>) -> Option<Seq<u64>> {
    match tape_text {
        Some(t) => crate::parser::tape_of(crate::parser::lines_of(t@)),
        None => Some(seq![27u64]),
    }
}

/// The state a command-line run starts from.
pub open spec fn cli_start(k: u16, tape: Seq<u64>) -> AState {
    AState { running: true, tape1: tape, ..initial_state(k) }
}

/// The computing part of the command-line entry point: load a program and
/// an optional tape — a missing tape defaults to the single entry 27 —
/// run the machine, and hand back its output. The result is `Ok` exactly
/// when both files parse and the program halts in time with exit code 0;
/// the output is then the word the denoted run leaves at address 0.
pub fn from_cli(program_text: &Vec<u8>, tape_text: Option<&Vec<u8>>) -> (r: Result<
    u64,
    CliError,
>)
    ensures
        ({
            let parsed = crate::parser::load_spec(program_text@);
            let tape = cli_tape(tape_text);
            match r {
                Ok(out) => parsed is Some && tape is Some && {
                    let (p, instrs, labels) = parsed->Some_0;
                    let env = MachineEnv {
                        prog: instrs,
                        labels: labels,
                        word_size: p.word_size,
                        num_regs: p.registers,
                    };
                    let s0 = cli_start(p.registers, tape->Some_0);
                    exists|n: nat|
                        #[trigger] first_halt(env, s0, n) && n <= MAX_STEPS && steps(
                            env,
                            s0,
                            n,
                        ).result == 0 && out == output_word(steps(env, s0, n).mem)
                },
                Err(CliError::Parse(_)) => parsed is None || tape is None,
                Err(CliError::Run(e)) => parsed is Some && tape is Some && {
                    let (p, instrs, labels) = parsed->Some_0;
                    let env = MachineEnv {
                        prog: instrs,
                        labels: labels,
                        word_size: p.word_size,
                        num_regs: p.registers,
                    };
                    let s0 = cli_start(p.registers, tape->Some_0);
                    match e {
                        VmError::ProgramError(c) => exists|n: nat|
                            #[trigger] first_halt(env, s0, n) && n <= MAX_STEPS && steps(
                                env,
                                s0,
                                n,
                            ).result == c && c != 0,
                        VmError::StepLimit => !halted(steps(env, s0, MAX_STEPS as nat)),
                    }
                },
            }
        }),
{
    let mut vm = match Parser::load_program(program_text) {
        Ok(vm) => vm,
        Err(e) => {
            return Err(CliError::Parse(e));
        },
    };
    let tape = match tape_text {
        Some(text) => match Parser::load_tape_file(text) {
            Ok(tape) => tape,
            Err(e) => {
                return Err(CliError::Parse(e));
            },
        },
        None => {
            let mut t: Vec<u64> = Vec::new();
            t.push(27);
            t
        },
    };
    proof {
        let (p, instrs, labels) = crate::parser::load_spec(program_text@)->Some_0;
        assert((AState {
            running: true,
            tape1: tape@,
            tape2: Seq::<u64>::empty(),
            ..vm@
        }) =~= cli_start(p.registers, cli_tape(tape_text)->Some_0));
    }
    match run_vm(&mut vm, tape) {
        Ok(out) => Ok(out),
        Err(e) => Err(CliError::Run(e)),
    }
}

/// What the command-line entry point can fail with.
#[derive(Debug, PartialEq, Eq, Structural)]
pub enum CliError {
    /// The program or tape file does not parse.
    Parse(ParseError),
    /// The program did not exit successfully.
    Run(VmError),
}

} // verus!
