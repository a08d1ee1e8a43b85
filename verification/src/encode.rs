//! The canonical JSON encoding of an instruction list: the program identity.
//!
//! The emulator seeds every trace hash with this encoding, so the identity
//! pins the program a proof speaks about. The form is a JSON array with one
//! entry per instruction: `[tag,operands...]`, where `tag` numbers the
//! instruction kind (with the binary or compare operation as its own leading
//! operand), a register appears as its index, and an operand appears as
//! `[0,imm]`, `[1,reg]` or `[2,"label"]`. Every piece of the instruction,
//! label names included, reaches the encoding, so two programs that differ
//! anywhere — even in one character of a label — have different identities.

use vstd::prelude::*;
use crate::program::{AArg, AInstr, Argument, BinOp, CmpOp, Instruction, prog_view};

verus! {

/// `"`
pub const QUOTE: u8 = 34;

/// `,`
pub const COMMA: u8 = 44;

/// `-`
pub const MINUS: u8 = 45;

/// `0`
pub const DIGIT0: u8 = 48;

/// `[`
pub const LBRACK: u8 = 91;

/// `]`
pub const RBRACK: u8 = 93;

/// The decimal digits of `n`, most significant first.
pub open spec fn dec_bytes(n: nat) -> Seq<u8>
    decreases n,
{
    if n < 10 {
        seq![(DIGIT0 + n) as u8]
    } else {
        dec_bytes(n / 10) + seq![(DIGIT0 + n % 10) as u8]
    }
}

/// A signed integer in decimal, with a leading minus where negative.
pub open spec fn int_bytes(x: int) -> Seq<u8> {
    if x >= 0 {
        dec_bytes(x as nat)
    } else {
        seq![MINUS] + dec_bytes((-x) as nat)
    }
}

/// The numeric tag of a binary operation.
pub open spec fn bin_tag(op: BinOp) -> nat {
    match op {
        BinOp::And => 0,
        BinOp::Or => 1,
        BinOp::Xor => 2,
        BinOp::Add => 3,
        BinOp::Sub => 4,
        BinOp::MulL => 5,
        BinOp::UDiv => 6,
        BinOp::UMod => 7,
        BinOp::Shl => 8,
        BinOp::Shr => 9,
    }
}

/// The numeric tag of a compare operation.
pub open spec fn cmp_tag(op: CmpOp) -> nat {
    match op {
        CmpOp::CmpE => 0,
        CmpOp::CmpA => 1,
        CmpOp::CmpAE => 2,
        CmpOp::CmpG => 3,
        CmpOp::CmpGE => 4,
    }
}

/// An operand: `[0,imm]`, `[1,reg]` or `[2,"label"]`.
pub open spec fn arg_bytes(a: AArg) -> Seq<u8> {
    match a {
        AArg::Imm(v) => seq![LBRACK, DIGIT0, COMMA] + int_bytes(v as int) + seq![RBRACK],
        AArg::Reg(r) => seq![LBRACK, (DIGIT0 + 1) as u8, COMMA] + dec_bytes(r.index as nat)
            + seq![RBRACK],
        AArg::Label(name) => seq![LBRACK, (DIGIT0 + 2) as u8, COMMA, QUOTE] + name
            + seq![QUOTE, RBRACK],
    }
}

/// One instruction: `[tag,...operands]`.
pub open spec fn instr_bytes(i: AInstr) -> Seq<u8> {
    match i {
        AInstr::Bin(op, r1, r2, a) => seq![LBRACK] + dec_bytes(0) + seq![COMMA] + dec_bytes(
            bin_tag(op),
        ) + seq![COMMA] + dec_bytes(r1.index as nat) + seq![COMMA] + dec_bytes(r2.index as nat)
            + seq![COMMA] + arg_bytes(a) + seq![RBRACK],
        AInstr::Cmp(op, r, a) => seq![LBRACK] + dec_bytes(1) + seq![COMMA] + dec_bytes(cmp_tag(op))
            + seq![COMMA] + dec_bytes(r.index as nat) + seq![COMMA] + arg_bytes(a) + seq![RBRACK],
        AInstr::Not(r, a) => seq![LBRACK] + dec_bytes(2) + seq![COMMA] + dec_bytes(r.index as nat)
            + seq![COMMA] + arg_bytes(a) + seq![RBRACK],
        AInstr::Mov(r, a) => seq![LBRACK] + dec_bytes(3) + seq![COMMA] + dec_bytes(r.index as nat)
            + seq![COMMA] + arg_bytes(a) + seq![RBRACK],
        AInstr::CMov(r, a) => seq![LBRACK] + dec_bytes(4) + seq![COMMA] + dec_bytes(r.index as nat)
            + seq![COMMA] + arg_bytes(a) + seq![RBRACK],
        AInstr::Jmp(a) => seq![LBRACK] + dec_bytes(5) + seq![COMMA] + arg_bytes(a) + seq![RBRACK],
        AInstr::CJmp(a) => seq![LBRACK] + dec_bytes(6) + seq![COMMA] + arg_bytes(a) + seq![RBRACK],
        AInstr::CnJmp(a) => seq![LBRACK] + dec_bytes(7) + seq![COMMA] + arg_bytes(a)
            + seq![RBRACK],
        AInstr::StoreB(a, r) => seq![LBRACK] + dec_bytes(8) + seq![COMMA] + arg_bytes(a)
            + seq![COMMA] + dec_bytes(r.index as nat) + seq![RBRACK],
        AInstr::StoreW(a, r) => seq![LBRACK] + dec_bytes(9) + seq![COMMA] + arg_bytes(a)
            + seq![COMMA] + dec_bytes(r.index as nat) + seq![RBRACK],
        AInstr::LoadB(r, a) => seq![LBRACK] + dec_bytes(10) + seq![COMMA] + dec_bytes(
            r.index as nat,
        ) + seq![COMMA] + arg_bytes(a) + seq![RBRACK],
        AInstr::LoadW(r, a) => seq![LBRACK] + dec_bytes(11) + seq![COMMA] + dec_bytes(
            r.index as nat,
        ) + seq![COMMA] + arg_bytes(a) + seq![RBRACK],
        AInstr::Read(r, a) => seq![LBRACK] + dec_bytes(12) + seq![COMMA] + dec_bytes(
            r.index as nat,
        ) + seq![COMMA] + arg_bytes(a) + seq![RBRACK],
        AInstr::Answer(a) => seq![LBRACK] + dec_bytes(13) + seq![COMMA] + arg_bytes(a)
            + seq![RBRACK],
    }
}

/// The instructions from position 1 on, each preceded by a comma.
pub open spec fn tail_bytes(prog: Seq<AInstr>) -> Seq<u8>
    decreases prog.len(),
{
    if prog.len() == 0 {
        Seq::empty()
    } else {
        seq![COMMA] + instr_bytes(prog[0]) + tail_bytes(prog.skip(1))
    }
}

/// The program identity: the canonical JSON array of all instructions.
pub open spec fn identity_bytes(prog: Seq<AInstr>) -> Seq<u8> {
    if prog.len() == 0 {
        seq![LBRACK, RBRACK]
    } else {
        seq![LBRACK] + instr_bytes(prog[0]) + tail_bytes(prog.skip(1)) + seq![RBRACK]
    }
}

/// Append the decimal digits of `n`.
pub fn push_dec(out: &mut Vec<u8>, n: u64)
    ensures
        final(out)@ == old(out)@ + dec_bytes(n as nat),
    decreases n,
{
    if n < 10 {
        out.push(DIGIT0 + n as u8);
        proof {
            assert(final(out)@ =~= old(out)@ + dec_bytes(n as nat));
        }
    } else {
        push_dec(out, n / 10);
        out.push(DIGIT0 + (n % 10) as u8);
        proof {
            assert(final(out)@ =~= old(out)@ + dec_bytes(n as nat));
        }
    }
}

/// Append a signed integer in decimal.
pub fn push_int(out: &mut Vec<u8>, x: i64)
    ensures
        final(out)@ == old(out)@ + int_bytes(x as int),
{
    if x >= 0 {
        push_dec(out, x as u64);
    } else {
        out.push(MINUS);
        let m: u64 = if x == i64::MIN {
            9223372036854775808u64
        } else {
            (-x) as u64
        };
        push_dec(out, m);
        proof {
            assert(final(out)@ =~= old(out)@ + int_bytes(x as int));
        }
    }
}

/// Append an encoded operand.
pub fn push_arg(out: &mut Vec<u8>, a: &Argument)
    ensures
        final(out)@ == old(out)@ + arg_bytes(a@),
{
    match a {
        Argument::Imm(v) => {
            out.push(LBRACK);
            out.push(DIGIT0);
            out.push(COMMA);
            push_int(out, *v);
            out.push(RBRACK);
            proof {
                assert(final(out)@ =~= old(out)@ + arg_bytes(a@));
            }
        },
        Argument::Reg(r) => {
            out.push(LBRACK);
            out.push(DIGIT0 + 1);
            out.push(COMMA);
            push_dec(out, r.index as u64);
            out.push(RBRACK);
            proof {
                assert(final(out)@ =~= old(out)@ + arg_bytes(a@));
            }
        },
        Argument::Label(name) => {
            out.push(LBRACK);
            out.push(DIGIT0 + 2);
            out.push(COMMA);
            out.push(QUOTE);
            let ghost mid = out@;
            let mut i: usize = 0;
            while i < name.len()
                invariant
                    i <= name@.len(),
                    out@ == mid + name@.take(i as int),
                decreases name@.len() - i,
            {
                out.push(name[i]);
                proof {
                    assert(out@ =~= mid + name@.take(i + 1));
                }
                i += 1;
            }
            out.push(QUOTE);
            out.push(RBRACK);
            proof {
                assert(name@.take(i as int) =~= name@);
                assert(final(out)@ =~= old(out)@ + arg_bytes(a@));
            }
        },
    }
}

/// The numeric tag of a binary operation, executable.
fn bin_tag_exec(op: BinOp) -> (t: u64)
    ensures
        t == bin_tag(op),
{
    match op {
        BinOp::And => 0,
        BinOp::Or => 1,
        BinOp::Xor => 2,
        BinOp::Add => 3,
        BinOp::Sub => 4,
        BinOp::MulL => 5,
        BinOp::UDiv => 6,
        BinOp::UMod => 7,
        BinOp::Shl => 8,
        BinOp::Shr => 9,
    }
}

/// The numeric tag of a compare operation, executable.
fn cmp_tag_exec(op: CmpOp) -> (t: u64)
    ensures
        t == cmp_tag(op),
{
    match op {
        CmpOp::CmpE => 0,
        CmpOp::CmpA => 1,
        CmpOp::CmpAE => 2,
        CmpOp::CmpG => 3,
        CmpOp::CmpGE => 4,
    }
}

/// Append one encoded instruction.
#[verifier::rlimit(100)]
#[verifier::spinoff_prover]
pub fn push_instr(out: &mut Vec<u8>, i: &Instruction)
    ensures
        final(out)@ == old(out)@ + instr_bytes(i@),
{
    out.push(LBRACK);
    match i {
        Instruction::Bin(op, r1, r2, a) => {
            push_dec(out, 0);
            out.push(COMMA);
            push_dec(out, bin_tag_exec(*op));
            out.push(COMMA);
            push_dec(out, r1.index as u64);
            out.push(COMMA);
            push_dec(out, r2.index as u64);
            out.push(COMMA);
            push_arg(out, a);
        },
        Instruction::Cmp(op, r, a) => {
            push_dec(out, 1);
            out.push(COMMA);
            push_dec(out, cmp_tag_exec(*op));
            out.push(COMMA);
            push_dec(out, r.index as u64);
            out.push(COMMA);
            push_arg(out, a);
        },
        Instruction::Not(r, a) => {
            push_dec(out, 2);
            out.push(COMMA);
            push_dec(out, r.index as u64);
            out.push(COMMA);
            push_arg(out, a);
        },
        Instruction::Mov(r, a) => {
            push_dec(out, 3);
            out.push(COMMA);
            push_dec(out, r.index as u64);
            out.push(COMMA);
            push_arg(out, a);
        },
        Instruction::CMov(r, a) => {
            push_dec(out, 4);
            out.push(COMMA);
            push_dec(out, r.index as u64);
            out.push(COMMA);
            push_arg(out, a);
        },
        Instruction::Jmp(a) => {
            push_dec(out, 5);
            out.push(COMMA);
            push_arg(out, a);
        },
        Instruction::CJmp(a) => {
            push_dec(out, 6);
            out.push(COMMA);
            push_arg(out, a);
        },
        Instruction::CnJmp(a) => {
            push_dec(out, 7);
            out.push(COMMA);
            push_arg(out, a);
        },
        Instruction::StoreB(a, r) => {
            push_dec(out, 8);
            out.push(COMMA);
            push_arg(out, a);
            out.push(COMMA);
            push_dec(out, r.index as u64);
        },
        Instruction::StoreW(a, r) => {
            push_dec(out, 9);
            out.push(COMMA);
            push_arg(out, a);
            out.push(COMMA);
            push_dec(out, r.index as u64);
        },
        Instruction::LoadB(r, a) => {
            push_dec(out, 10);
            out.push(COMMA);
            push_dec(out, r.index as u64);
            out.push(COMMA);
            push_arg(out, a);
        },
        Instruction::LoadW(r, a) => {
            push_dec(out, 11);
            out.push(COMMA);
            push_dec(out, r.index as u64);
            out.push(COMMA);
            push_arg(out, a);
        },
        Instruction::Read(r, a) => {
            push_dec(out, 12);
            out.push(COMMA);
            push_dec(out, r.index as u64);
            out.push(COMMA);
            push_arg(out, a);
        },
        Instruction::Answer(a) => {
            push_dec(out, 13);
            out.push(COMMA);
            push_arg(out, a);
        },
    }
    out.push(RBRACK);
    proof {
        assert(final(out)@ =~= old(out)@ + instr_bytes(i@));
    }
}

/// Append the instructions from position `from` on, each behind a comma.
fn push_tail(out: &mut Vec<u8>, prog: &Vec<Instruction>, from: usize)
    requires
        from <= prog@.len(),
    ensures
        final(out)@ == old(out)@ + tail_bytes(prog_view(prog@).skip(from as int)),
    decreases prog@.len() - from,
{
    if from == prog.len() {
        proof {
            assert(prog_view(prog@).skip(from as int).len() == 0);
            assert(final(out)@ =~= old(out)@ + tail_bytes(prog_view(prog@).skip(from as int)));
        }
    } else {
        out.push(COMMA);
        push_instr(out, &prog[from]);
        push_tail(out, prog, from + 1);
        proof {
            assert(prog_view(prog@).skip(from as int)[0] == prog@[from as int]@);
            assert(prog_view(prog@).skip(from as int).skip(1) =~= prog_view(prog@).skip(
                from + 1,
            ));
            assert(final(out)@ =~= old(out)@ + tail_bytes(prog_view(prog@).skip(from as int)));
        }
    }
}

/// The program identity: the canonical JSON array of all instructions.
pub fn encode_program(prog: &Vec<Instruction>) -> (r: Vec<u8>)
    ensures
        r@ == identity_bytes(prog_view(prog@)),
{
    let mut out: Vec<u8> = Vec::new();
    out.push(LBRACK);
    if prog.len() == 0 {
        out.push(RBRACK);
        proof {
            assert(out@ =~= identity_bytes(prog_view(prog@)));
        }
    } else {
        push_instr(&mut out, &prog[0]);
        push_tail(&mut out, prog, 1);
        out.push(RBRACK);
        proof {
            assert(prog_view(prog@)[0] == prog@[0]@);
            assert(prog_view(prog@).skip(1) =~= prog_view(prog@).skip(1));
            assert(out@ =~= identity_bytes(prog_view(prog@)));
        }
    }
    out
}

} // verus!
