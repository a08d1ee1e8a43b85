//! The data model of a machine program: registers, labels, arguments,
//! instructions and machine parameters, together with the abstract (ghost)
//! form of each and the well-formedness conditions the emulator relies on.

use vstd::prelude::*;
use crate::words::valid_word_size;

verus! {

/// A register operand: an index that must stay below the machine's
/// register count `K`.
#[derive(Debug, Clone, Copy, PartialEq, Eq, Structural)]
pub struct Register {
    pub index: u16,
}

/// The architecture tag of a program header. Only Harvard programs
/// (separate program and data spaces) are executable.
#[derive(Debug, Clone, Copy, PartialEq, Eq, Structural)]
pub enum ArchType {
    Harvard,
    VonNeumann,
    Unknown,
}

/// A program format version, `major.minor`.
#[derive(Debug, Clone, Copy, PartialEq, Eq, Structural)]
pub struct Version {
    pub major: u16,
    pub minor: u16,
}

/// Machine parameters read from a program header.
#[derive(Debug, Clone, Copy)]
pub struct Params {
    /// Version of the program format.
    pub version: Version,
    /// W parameter: word size in bits.
    pub word_size: u16,
    /// K parameter: number of registers.
    pub registers: u16,
    /// M parameter: architecture type of the machine.
    pub arch: ArchType,
}

impl Params {
    /// Parameters the machine accepts: format version 2.0, a word size of
    /// 8, 16, 32 or 64 bits, and the Harvard architecture.
    pub open spec fn wf(self) -> bool {
        &&& self.version == (Version { major: 2, minor: 0 })
        &&& valid_word_size(self.word_size)
        &&& self.arch == ArchType::Harvard
    }
}

/// A label definition: an identifier bound to an instruction address.
#[derive(Debug)]
pub struct Label {
    /// Label identifier, including the leading underscore.
    pub ident: Vec<u8>,
    /// Address of the label: the index of the next instruction.
    pub address: u64,
    /// Source line on which the label was defined.
    pub line: u64,
}

/// The abstract form of a label binding.
pub ghost struct ALabel {
    pub ident: Seq<u8>,
    pub address: u64,
}

impl View for Label {
    type V = ALabel;

    open spec fn view(&self) -> ALabel {
        ALabel { ident: self.ident@, address: self.address }
    }
}

/// The abstract form of a label table.
pub open spec fn labels_view(labels: Seq<Label>) -> Seq<ALabel> {
    labels.map_values(|l: Label| l@)
}

/// The address bound to `name`, scanning the table front to back.
pub open spec fn lookup_label(labels: Seq<ALabel>, name: Seq<u8>) -> Option<u64>
    decreases labels.len(),
{
    if labels.len() == 0 {
        None
    } else if labels[0].ident == name {
        Some(labels[0].address)
    } else {
        lookup_label(labels.skip(1), name)
    }
}

/// An instruction operand: an immediate signed integer, a register
/// reference, or a label identifier.
#[derive(Debug)]
pub enum Argument {
    /// Value
    Imm(i64),
    /// Register
    Reg(Register),
    /// Label
    Label(Vec<u8>),
}

/// The abstract form of an operand.
pub ghost enum AArg {
    Imm(i64),
    Reg(Register),
    Label(Seq<u8>),
}

impl View for Argument {
    type V = AArg;

    open spec fn view(&self) -> AArg {
        match self {
            Argument::Imm(x) => AArg::Imm(*x),
            Argument::Reg(r) => AArg::Reg(*r),
            Argument::Label(name) => AArg::Label(name@),
        }
    }
}

impl Argument {
    /// An identical operand, built field by field.
    pub fn duplicate(&self) -> (r: Argument)
        ensures
            r@ == self@,
    {
        match self {
            Argument::Imm(x) => Argument::Imm(*x),
            Argument::Reg(r) => Argument::Reg(*r),
            Argument::Label(name) => {
                let mut copy: Vec<u8> = Vec::new();
                let mut i: usize = 0;
                while i < name.len()
                    invariant
                        i <= name.len(),
                        copy@ == name@.take(i as int),
                    decreases name.len() - i,
                {
                    copy.push(name[i]);
                    proof {
                        assert(copy@ =~= name@.take(i + 1 as int));
                    }
                    i += 1;
                }
                proof {
                    assert(copy@ =~= name@);
                }
                Argument::Label(copy)
            },
        }
    }
}

/// The binary register operations: destination, source register, operand.
#[derive(Debug, Clone, Copy, PartialEq, Eq, Structural)]
pub enum BinOp {
    /// Bitwise and; flag: result is zero.
    And,
    /// Bitwise or; flag: result is zero.
    Or,
    /// Bitwise xor; flag: result is zero.
    Xor,
    /// Addition mod `2^W`; flag: top bit of the result.
    Add,
    /// Subtraction mod `2^W`; flag: top bit of the result, negated.
    Sub,
    /// Multiplication mod `2^W`; flag: the full product overflowed.
    MulL,
    /// Unsigned division, zero on a zero divisor; flag: divisor is zero.
    UDiv,
    /// Unsigned remainder, zero on a zero divisor; flag: divisor is zero.
    UMod,
    /// Left shift mod `2^W`; flag: top bit of the result.
    Shl,
    /// Right shift; flag: lowest bit of the result.
    Shr,
}

/// The compare operations; each only sets the flag.
#[derive(Debug, Clone, Copy, PartialEq, Eq, Structural)]
pub enum CmpOp {
    /// Flag: operand equals register.
    CmpE,
    /// Flag: operand is below the register, unsigned.
    CmpA,
    /// Flag: operand is below or equal to the register, unsigned.
    CmpAE,
    /// Flag: operand is below the register, signed.
    CmpG,
    /// Flag: operand is below or equal to the register, signed.
    CmpGE,
}

/// One machine instruction.
#[derive(Debug)]
pub enum Instruction {
    /// `dst <- src op operand`, setting the flag of the operation.
    Bin(BinOp, Register, Register, Argument),
    /// `dst <- !operand`, reduced to the word; flag: result is zero.
    Not(Register, Argument),
    /// Set the flag by comparing the operand with the register.
    Cmp(CmpOp, Register, Argument),
    /// `dst <- operand`, reduced to the word.
    Mov(Register, Argument),
    /// `dst <- operand`, reduced to the word, when the flag is set.
    CMov(Register, Argument),
    /// Jump to the operand address.
    Jmp(Argument),
    /// Jump when the flag is set.
    CJmp(Argument),
    /// Jump when the flag is clear.
    CnJmp(Argument),
    /// Store the low byte of the register at the operand address.
    StoreB(Argument, Register),
    /// Store the register as 8 little-endian bytes at the operand address.
    StoreW(Argument, Register),
    /// Load one byte from the operand address.
    LoadB(Register, Argument),
    /// Load 8 little-endian bytes from the operand address, reduced to the word.
    LoadW(Register, Argument),
    /// Pop the front of the tape selected by the operand into the register,
    /// reduced to the word; an unknown tape or an exhausted one loads zero
    /// and sets the flag.
    Read(Register, Argument),
    /// Halt with the operand as the machine result.
    Answer(Argument),
}

/// The abstract form of an instruction.
pub ghost enum AInstr {
    Bin(BinOp, Register, Register, AArg),
    Not(Register, AArg),
    Cmp(CmpOp, Register, AArg),
    Mov(Register, AArg),
    CMov(Register, AArg),
    Jmp(AArg),
    CJmp(AArg),
    CnJmp(AArg),
    StoreB(AArg, Register),
    StoreW(AArg, Register),
    LoadB(Register, AArg),
    LoadW(Register, AArg),
    Read(Register, AArg),
    Answer(AArg),
}

impl View for Instruction {
    type V = AInstr;

    open spec fn view(&self) -> AInstr {
        match self {
            Instruction::Bin(op, r1, r2, a) => AInstr::Bin(*op, *r1, *r2, a@),
            Instruction::Not(r, a) => AInstr::Not(*r, a@),
            Instruction::Cmp(op, r, a) => AInstr::Cmp(*op, *r, a@),
            Instruction::Mov(r, a) => AInstr::Mov(*r, a@),
            Instruction::CMov(r, a) => AInstr::CMov(*r, a@),
            Instruction::Jmp(a) => AInstr::Jmp(a@),
            Instruction::CJmp(a) => AInstr::CJmp(a@),
            Instruction::CnJmp(a) => AInstr::CnJmp(a@),
            Instruction::StoreB(a, r) => AInstr::StoreB(a@, *r),
            Instruction::StoreW(a, r) => AInstr::StoreW(a@, *r),
            Instruction::LoadB(r, a) => AInstr::LoadB(*r, a@),
            Instruction::LoadW(r, a) => AInstr::LoadW(*r, a@),
            Instruction::Read(r, a) => AInstr::Read(*r, a@),
            Instruction::Answer(a) => AInstr::Answer(a@),
        }
    }
}

impl Instruction {
    /// An identical instruction, built field by field.
    pub fn duplicate(&self) -> (r: Instruction)
        ensures
            r@ == self@,
    {
        match self {
            Instruction::Bin(op, r1, r2, a) => Instruction::Bin(*op, *r1, *r2, a.duplicate()),
            Instruction::Not(r, a) => Instruction::Not(*r, a.duplicate()),
            Instruction::Cmp(op, r, a) => Instruction::Cmp(*op, *r, a.duplicate()),
            Instruction::Mov(r, a) => Instruction::Mov(*r, a.duplicate()),
            Instruction::CMov(r, a) => Instruction::CMov(*r, a.duplicate()),
            Instruction::Jmp(a) => Instruction::Jmp(a.duplicate()),
            Instruction::CJmp(a) => Instruction::CJmp(a.duplicate()),
            Instruction::CnJmp(a) => Instruction::CnJmp(a.duplicate()),
            Instruction::StoreB(a, r) => Instruction::StoreB(a.duplicate(), *r),
            Instruction::StoreW(a, r) => Instruction::StoreW(a.duplicate(), *r),
            Instruction::LoadB(r, a) => Instruction::LoadB(*r, a.duplicate()),
            Instruction::LoadW(r, a) => Instruction::LoadW(*r, a.duplicate()),
            Instruction::Read(r, a) => Instruction::Read(*r, a.duplicate()),
            Instruction::Answer(a) => Instruction::Answer(a.duplicate()),
        }
    }
}

/// The abstract form of a program text.
pub open spec fn prog_view(prog: Seq<Instruction>) -> Seq<AInstr> {
    prog.map_values(|i: Instruction| i@)
}

/// An operand the emulator can resolve: registers exist and labels are bound.
pub open spec fn arg_wf(arg: AArg, k: u16, labels: Seq<ALabel>) -> bool {
    match arg {
        AArg::Imm(_) => true,
        AArg::Reg(r) => r.index < k,
        AArg::Label(name) => lookup_label(labels, name) is Some,
    }
}

/// An instruction whose registers exist and whose operand resolves.
pub open spec fn instr_wf(i: AInstr, k: u16, labels: Seq<ALabel>) -> bool {
    match i {
        AInstr::Bin(_, r1, r2, a) => r1.index < k && r2.index < k && arg_wf(a, k, labels),
        AInstr::Not(r, a) => r.index < k && arg_wf(a, k, labels),
        AInstr::Cmp(_, r, a) => r.index < k && arg_wf(a, k, labels),
        AInstr::Mov(r, a) => r.index < k && arg_wf(a, k, labels),
        AInstr::CMov(r, a) => r.index < k && arg_wf(a, k, labels),
        AInstr::Jmp(a) => arg_wf(a, k, labels),
        AInstr::CJmp(a) => arg_wf(a, k, labels),
        AInstr::CnJmp(a) => arg_wf(a, k, labels),
        AInstr::StoreB(a, r) => r.index < k && arg_wf(a, k, labels),
        AInstr::StoreW(a, r) => r.index < k && arg_wf(a, k, labels),
        AInstr::LoadB(r, a) => r.index < k && arg_wf(a, k, labels),
        AInstr::LoadW(r, a) => r.index < k && arg_wf(a, k, labels),
        AInstr::Read(r, a) => r.index < k && arg_wf(a, k, labels),
        AInstr::Answer(a) => arg_wf(a, k, labels),
    }
}

/// Every instruction of the program is well-formed.
pub open spec fn program_wf(prog: Seq<AInstr>, k: u16, labels: Seq<ALabel>) -> bool {
    forall|i: int| 0 <= i < prog.len() ==> instr_wf(#[trigger] prog[i], k, labels)
}

/// Byte-vector equality.
pub fn bytes_eq(a: &Vec<u8>, b: &Vec<u8>) -> (r: bool)
    ensures
        r == (a@ == b@),
{
    if a.len() != b.len() {
        proof {
            assert(a@.len() != b@.len());
        }
        return false;
    }
    let mut i: usize = 0;
    while i < a.len()
        invariant
            i <= a.len(),
            a@.len() == b@.len(),
            forall|j: int| 0 <= j < i ==> a@[j] == b@[j],
        decreases a.len() - i,
    {
        if a[i] != b[i] {
            return false;
        }
        i += 1;
    }
    proof {
        assert(a@ =~= b@);
    }
    true
}

/// The address bound to `name`, scanning the table front to back.
pub fn find_label(labels: &Vec<Label>, name: &Vec<u8>) -> (r: Option<u64>)
    ensures
        r == lookup_label(labels_view(labels@), name@),
{
    proof {
        assert(labels_view(labels@).skip(0) =~= labels_view(labels@));
    }
    let mut i: usize = 0;
    while i < labels.len()
        invariant
            i <= labels.len(),
            lookup_label(labels_view(labels@), name@) == lookup_label(
                labels_view(labels@).skip(i as int),
                name@,
            ),
        decreases labels.len() - i,
    {
        if bytes_eq(&labels[i].ident, name) {
            proof {
                assert(labels_view(labels@).skip(i as int)[0] == labels@[i as int]@);
            }
            return Some(labels[i].address);
        }
        proof {
            assert(labels_view(labels@).skip(i as int).skip(1) =~= labels_view(labels@).skip(
                i + 1,
            ));
            assert(labels_view(labels@).skip(i as int)[0] == labels@[i as int]@);
        }
        i += 1;
    }
    proof {
        assert(labels_view(labels@).skip(i as int).len() == 0);
    }
    None
}

} // verus!
