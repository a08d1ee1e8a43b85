//! Emulator-level tests: whole programs run on concrete inputs.

use ckc::emulator::{from_cli, run_vm, CliError, InstrumentedVM, VmError};
use ckc::parser::Parser;

fn fib_program() -> Vec<u8> {
    let src = "; TinyRAM V=2.0 M=hv W=32 K=4\n\
               read r0, 0\n\
               mov r1, 0\n\
               mov r2, 1\n\
               _loop:\n\
               cmpe r0, 0\n\
               cjmp _end\n\
               mov r3, r2\n\
               add r2, r2, r1\n\
               mov r1, r3\n\
               sub r0, r0, 1\n\
               jmp _loop\n\
               _end:\n\
               store.w 0, r1\n\
               answer 0\n";
    src.as_bytes().to_vec()
}

fn collatz_program() -> Vec<u8> {
    let src = "; TinyRAM V=2.0 M=hv W=64 K=4\n\
               read r0, 0\n\
               _loop:\n\
               cmpe r0, 1\n\
               cjmp _end\n\
               and r1, r0, 1\n\
               cmpe r1, 0\n\
               cjmp _even\n\
               mull r2, r0, 3\n\
               add r0, r2, 1\n\
               jmp _loop\n\
               _even:\n\
               udiv r0, r0, 2\n\
               jmp _loop\n\
               _end:\n\
               answer 0\n";
    src.as_bytes().to_vec()
}

#[test]
fn run_fib() {
    let mut vm = Parser::load_program(&fib_program()).unwrap();
    let result = run_vm(&mut vm, vec![39]).unwrap();
    assert_eq!(result, 63245986);
}

#[test]
fn run_fibo() {
    let mut vm = Parser::load_program(&fib_program()).unwrap();
    let result = run_vm(&mut vm, vec![39]).unwrap();
    assert_eq!(result, 63245986);
}

#[test]
fn run_collatz() {
    let mut vm = Parser::load_program(&collatz_program()).unwrap();
    let result = run_vm(&mut vm, vec![8]).unwrap();
    assert_eq!(result, 0);
}

#[test]
fn run_fib_with_instrumentation() {
    let mut vm = InstrumentedVM::new(&fib_program()).unwrap();
    let result = vm.run(39).unwrap();
    assert_eq!(result.output, 63245986);
    assert_eq!(result.input, 39);
    assert_eq!(result.hash.len(), 20);
}

#[test]
fn vm_run_collatz_with_instrumentation() {
    let mut vm = InstrumentedVM::new(&collatz_program()).unwrap();
    let result = vm.run(39).unwrap();
    assert_eq!(result.output, 0);
}

#[test]
fn run_fib_with_callback() {
    let mut vm = Parser::load_program(&fib_program()).unwrap();
    vm.load_tape(vec![39], Vec::new());
    let mut trace: Vec<u8> = Vec::new();
    let exit = vm.run(&mut trace, u64::MAX).unwrap();
    assert_eq!(exit, 0);
    assert!(!trace.is_empty());
    assert_eq!(vm.output(), 63245986);
}

#[test]
fn run_collatz_with_callback() {
    let mut vm = Parser::load_program(&collatz_program()).unwrap();
    vm.load_tape(vec![39], Vec::new());
    let mut trace: Vec<u8> = Vec::new();
    let exit = vm.run(&mut trace, u64::MAX).unwrap();
    assert_eq!(exit, 0);
    assert_eq!(vm.output(), 0);
}

/// Collatz indicator: every input in [1, 1000) yields output 0.
#[test]
fn collatz_domain_outputs_zero() {
    let mut vm = InstrumentedVM::new(&collatz_program()).unwrap();
    for i in 1..1000u64 {
        let result = vm.run(i).unwrap();
        assert_eq!(result.output, 0, "input {}", i);
    }
}

/// Determinism: two independent runs on the same program and tape yield
/// identical output and hash.
#[test]
fn runs_are_deterministic() {
    let mut vm1 = InstrumentedVM::new(&collatz_program()).unwrap();
    let mut vm2 = InstrumentedVM::new(&collatz_program()).unwrap();
    let r1 = vm1.run(39).unwrap();
    let r2 = vm2.run(39).unwrap();
    assert_eq!(r1.output, r2.output);
    assert_eq!(r1.hash, r2.hash);
    // and re-running on the same instance agrees too
    let r3 = vm1.run(39).unwrap();
    assert_eq!(r3.hash, r1.hash);
    // a different input gives a different trace digest
    let r4 = vm1.run(40).unwrap();
    assert_ne!(r4.hash, r1.hash);
}

/// Byte stores grow memory lazily and the output reads the first word.
#[test]
fn store_byte_output() {
    let src = "; TinyRAM V=2.0 M=hv W=32 K=2\n\
               mov r0, 171\n\
               store.b 0, r0\n\
               answer 0\n";
    let mut vm = InstrumentedVM::new(&src.as_bytes().to_vec()).unwrap();
    let result = vm.run(0).unwrap();
    assert_eq!(result.output, 171);
}

/// A word store and load round-trip through memory.
#[test]
fn store_load_word_roundtrip() {
    let src = "; TinyRAM V=2.0 M=hv W=32 K=3\n\
               mov r0, 123456789\n\
               store.w 16, r0\n\
               load.w r1, 16\n\
               store.w 0, r1\n\
               answer 0\n";
    let mut vm = InstrumentedVM::new(&src.as_bytes().to_vec()).unwrap();
    let result = vm.run(0).unwrap();
    assert_eq!(result.output, 123456789);
}

/// Reading an exhausted tape loads zero and sets the flag; `cmov` then fires.
#[test]
fn read_empty_tape_sets_flag() {
    let src = "; TinyRAM V=2.0 M=hv W=32 K=3\n\
               read r0, 0\n\
               read r1, 0\n\
               mov r2, 7\n\
               cmov r2, 9\n\
               store.w 0, r2\n\
               answer 0\n";
    let mut vm = InstrumentedVM::new(&src.as_bytes().to_vec()).unwrap();
    let result = vm.run(5).unwrap();
    // the second read found the tape empty, so the flag made cmov move 9
    assert_eq!(result.output, 9);
}

/// A nonzero answer is a program-level error, not a crash.
#[test]
fn nonzero_answer_is_program_error() {
    let src = "; TinyRAM V=2.0 M=hv W=32 K=1\n\
               answer 3\n";
    let mut vm = InstrumentedVM::new(&src.as_bytes().to_vec()).unwrap();
    match vm.run(0) {
        Err(VmError::ProgramError(code)) => assert_eq!(code, 3),
        other => panic!("expected a program error, got {:?}", other.is_ok()),
    }
}

/// A jump outside the program faults, synthesized as `answer 1`.
#[test]
fn segfault_answers_one() {
    let src = "; TinyRAM V=2.0 M=hv W=32 K=1\n\
               jmp 100\n";
    let mut vm = InstrumentedVM::new(&src.as_bytes().to_vec()).unwrap();
    match vm.run(0) {
        Err(VmError::ProgramError(code)) => assert_eq!(code, 1),
        other => panic!("expected a fault, got {:?}", other.is_ok()),
    }
}

/// A negative immediate is reduced into the word range.
#[test]
fn negative_immediate_wraps() {
    let src = "; TinyRAM V=2.0 M=hv W=8 K=1\n\
               mov r0, -1\n\
               store.b 0, r0\n\
               answer 0\n";
    let mut vm = InstrumentedVM::new(&src.as_bytes().to_vec()).unwrap();
    let result = vm.run(0).unwrap();
    assert_eq!(result.output, 255);
}

/// The command-line path: a missing tape defaults to the single entry 27.
#[test]
fn from_cli_default_tape() {
    let src = "; TinyRAM V=2.0 M=hv W=32 K=1\n\
               read r0, 0\n\
               store.w 0, r0\n\
               answer 0\n";
    let out = from_cli(&src.as_bytes().to_vec(), None).unwrap();
    assert_eq!(out, 27);
}

/// The command-line path with an explicit tape file.
#[test]
fn from_cli_with_tape() {
    let src = "; TinyRAM V=2.0 M=hv W=32 K=1\n\
               read r0, 0\n\
               store.w 0, r0\n\
               answer 0\n";
    let tape = "41\n".as_bytes().to_vec();
    let out = from_cli(&src.as_bytes().to_vec(), Some(&tape)).unwrap();
    assert_eq!(out, 41);
}

/// The command-line path surfaces a failing program as an error.
#[test]
fn from_cli_program_error() {
    let src = "; TinyRAM V=2.0 M=hv W=32 K=1\n\
               answer 2\n";
    match from_cli(&src.as_bytes().to_vec(), None) {
        Err(CliError::Run(VmError::ProgramError(2))) => {},
        other => panic!("expected a run error, got {:?}", other.is_ok()),
    }
}

/// The command-line path surfaces an unparsable program file.
#[test]
fn from_cli_parse_error() {
    let garbage = "not a program".as_bytes().to_vec();
    match from_cli(&garbage, None) {
        Err(CliError::Parse(_)) => {},
        other => panic!("expected a parse error, got {:?}", other.is_ok()),
    }
}
