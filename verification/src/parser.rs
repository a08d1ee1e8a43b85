//! The program-text parser: from the bytes of a program file to a validated
//! machine, and from the bytes of a tape file to a tape.
//!
//! The grammar is mirrored by spec functions, so every parsing function's
//! contract says exactly which lines it accepts and what it produces: the
//! text is split into lines; the first non-blank line is the header
//! `; TinyRAM V=2.0 M=hv W=<w> K=<k>`; every further line is blank, a
//! comment starting with `;`, a label `_ident:`, or an instruction
//! `opcode op1[, op2[, op3]]`.

use vstd::prelude::*;
use vstd::string::StringSliceAdditionalSpecFns;
use crate::program::{
    AArg, AInstr, ALabel, ArchType, Argument, BinOp, CmpOp, Instruction, Label, Params, Register,
    Version, labels_view, lookup_label, prog_view, program_wf, instr_wf, arg_wf, bytes_eq,
};
use crate::vm::TinyVM;
use crate::words::valid_word_size;

verus! {

/// `;`
pub const SEMI: u8 = 59;

/// `:`
pub const COLON: u8 = 58;

/// `,`
pub const COMMA: u8 = 44;

/// `_`
pub const UNDERSCORE: u8 = 95;

/// `-`
pub const MINUS: u8 = 45;

/// `.`
pub const DOT: u8 = 46;

/// `\n`
pub const NEWLINE: u8 = 10;

/// What went wrong while reading a program or tape file.
#[derive(Debug, PartialEq, Eq, Structural)]
pub enum ParseError {
    /// The header line does not state the machine parameters.
    BadHeader,
    /// The stated parameters are outside what the machine supports.
    BadParams,
    /// A line is neither blank, comment, label nor instruction.
    BadLine(u64),
    /// Two labels share an identifier.
    DuplicateLabel(u64),
    /// An instruction names a register at or past the register count.
    BadRegister,
    /// An instruction references a label that is never defined.
    UndefinedLabel,
    /// A tape line is not an unsigned decimal that fits a word.
    BadTapeLine(u64),
}

/// The program-text parser.
pub struct Parser;

// ------------------------------------------------------------------
// Characters and tokens
// ------------------------------------------------------------------

/// Horizontal whitespace (and a stray carriage return).
pub open spec fn is_space(c: u8) -> bool {
    c == 32 || c == 9 || c == 13
}

/// A decimal digit.
pub open spec fn is_digit(c: u8) -> bool {
    48 <= c <= 57
}

/// A character allowed after the underscore of a label identifier.
pub open spec fn is_ident_char(c: u8) -> bool {
    is_digit(c) || (65 <= c <= 90) || (97 <= c <= 122) || c == UNDERSCORE
}

/// The longest space-free prefix.
pub open spec fn token_prefix(s: Seq<u8>) -> Seq<u8>
    decreases s.len(),
{
    if s.len() == 0 || is_space(s[0]) {
        Seq::empty()
    } else {
        seq![s[0]] + token_prefix(s.skip(1))
    }
}

/// `token_prefix` is never longer than the line and begins it.
proof fn lemma_token_prefix_len(s: Seq<u8>)
    ensures
        token_prefix(s).len() <= s.len(),
        s.len() > 0 && !is_space(s[0]) ==> token_prefix(s).len() >= 1,
    decreases s.len(),
{
    if s.len() > 0 && !is_space(s[0]) {
        lemma_token_prefix_len(s.skip(1));
    }
}

/// The whitespace-separated tokens of a line.
pub open spec fn tokens_of(s: Seq<u8>) -> Seq<Seq<u8>>
    decreases s.len(),
    via tokens_of_decreases
{
    if s.len() == 0 {
        Seq::empty()
    } else if is_space(s[0]) {
        tokens_of(s.skip(1))
    } else {
        let t = token_prefix(s);
        seq![t] + tokens_of(s.skip(t.len() as int))
    }
}

#[via_fn]
proof fn tokens_of_decreases(s: Seq<u8>) {
    if s.len() > 0 && !is_space(s[0]) {
        lemma_token_prefix_len(s);
    }
}

/// The tokens before the first one that opens a comment.
pub open spec fn cut_comments(toks: Seq<Seq<u8>>) -> Seq<Seq<u8>>
    decreases toks.len(),
{
    if toks.len() == 0 {
        Seq::empty()
    } else if toks[0].len() > 0 && toks[0][0] == SEMI {
        Seq::empty()
    } else {
        seq![toks[0]] + cut_comments(toks.skip(1))
    }
}

/// A token with its commas removed.
pub open spec fn strip_commas(s: Seq<u8>) -> Seq<u8>
    decreases s.len(),
{
    if s.len() == 0 {
        Seq::empty()
    } else if s[0] == COMMA {
        strip_commas(s.skip(1))
    } else {
        seq![s[0]] + strip_commas(s.skip(1))
    }
}

/// The deep view of a token list.
pub open spec fn toks_view(v: Seq<Vec<u8>>) -> Seq<Seq<u8>> {
    v.map_values(|t: Vec<u8>| t@)
}

/// Split a line into its whitespace-separated tokens.
pub fn tokenize(line: &Vec<u8>) -> (r: Vec<Vec<u8>>)
    ensures
        toks_view(r@) == tokens_of(line@),
{
    let mut out: Vec<Vec<u8>> = Vec::new();
    let mut i: usize = 0;
    proof {
        assert(line@.skip(0) =~= line@);
    }
    while i < line.len()
        invariant
            i <= line@.len(),
            tokens_of(line@) == toks_view(out@) + tokens_of(line@.skip(i as int)),
        decreases line@.len() - i,
    {
        if is_space_exec(line[i]) {
            proof {
                assert(line@.skip(i as int).skip(1) =~= line@.skip(i + 1));
            }
            i += 1;
        } else {
            let ghost rest = line@.skip(i as int);
            let mut tok: Vec<u8> = Vec::new();
            let mut j: usize = i;
            while j < line.len() && !is_space_exec(line[j])
                invariant
                    i <= j <= line@.len(),
                    token_prefix(line@.skip(i as int)) == tok@ + token_prefix(
                        line@.skip(j as int),
                    ),
                    tok@.len() == j - i,
                decreases line@.len() - j,
            {
                tok.push(line[j]);
                proof {
                    lemma_token_prefix_len(line@.skip(j as int));
                    assert(line@.skip(j as int).skip(1) =~= line@.skip(j + 1));
                    assert(token_prefix(line@.skip(j as int)) == seq![line@[j as int]]
                        + token_prefix(line@.skip(j + 1)));
                    assert(tok@ + token_prefix(line@.skip(j + 1)) =~= (tok@.drop_last() + seq![
                        line@[j as int],
                    ]) + token_prefix(line@.skip(j + 1)));
                }
                j += 1;
            }
            proof {
                assert(token_prefix(line@.skip(j as int)) =~= Seq::<u8>::empty());
                assert(tok@ + Seq::<u8>::empty() =~= tok@);
                assert(tok@ == token_prefix(rest));
                lemma_token_prefix_len(rest);
                assert(rest.skip(tok@.len() as int) =~= line@.skip(j as int));
            }
            let ghost old_out = out@;
            out.push(tok);
            proof {
                assert(toks_view(out@) =~= toks_view(old_out) + seq![token_prefix(rest)]);
                assert(tokens_of(rest) == seq![token_prefix(rest)] + tokens_of(
                    rest.skip(token_prefix(rest).len() as int),
                ));
                assert((toks_view(old_out) + seq![token_prefix(rest)]) + tokens_of(
                    line@.skip(j as int),
                ) =~= toks_view(old_out) + (seq![token_prefix(rest)] + tokens_of(
                    line@.skip(j as int),
                )));
            }
            i = j;
        }
    }
    proof {
        assert(line@.skip(i as int) =~= Seq::<u8>::empty());
        assert(toks_view(out@) + tokens_of(line@.skip(i as int)) =~= toks_view(out@));
    }
    out
}

/// Horizontal whitespace, executable.
pub fn is_space_exec(c: u8) -> (r: bool)
    ensures
        r == is_space(c),
{
    c == 32 || c == 9 || c == 13
}

/// Drop every token from the first comment opener on.
pub fn drop_comments(toks: Vec<Vec<u8>>) -> (r: Vec<Vec<u8>>)
    ensures
        toks_view(r@) == cut_comments(toks_view(toks@)),
{
    let mut out: Vec<Vec<u8>> = Vec::new();
    let mut i: usize = 0;
    proof {
        assert(toks_view(toks@).skip(0) =~= toks_view(toks@));
    }
    while i < toks.len()
        invariant
            i <= toks@.len(),
            cut_comments(toks_view(toks@)) == toks_view(out@) + cut_comments(
                toks_view(toks@).skip(i as int),
            ),
        decreases toks@.len() - i,
    {
        proof {
            assert(toks_view(toks@).skip(i as int)[0] == toks@[i as int]@);
            assert(toks_view(toks@).skip(i as int).skip(1) =~= toks_view(toks@).skip(i + 1));
        }
        if toks[i].len() > 0 && toks[i][0] == SEMI {
            proof {
                assert(cut_comments(toks_view(toks@).skip(i as int)) =~= Seq::<Seq<u8>>::empty());
                assert(toks_view(out@) + Seq::<Seq<u8>>::empty() =~= toks_view(out@));
            }
            return out;
        }
        let t = copy_bytes(&toks[i]);
        let ghost old_out = out@;
        out.push(t);
        proof {
            assert(toks_view(out@) =~= toks_view(old_out) + seq![toks@[i as int]@]);
            assert((toks_view(old_out) + seq![toks@[i as int]@]) + cut_comments(
                toks_view(toks@).skip(i + 1),
            ) =~= toks_view(old_out) + (seq![toks@[i as int]@] + cut_comments(
                toks_view(toks@).skip(i + 1),
            )));
        }
        i += 1;
    }
    proof {
        assert(toks_view(toks@).skip(i as int) =~= Seq::<Seq<u8>>::empty());
        assert(toks_view(out@) + cut_comments(toks_view(toks@).skip(i as int)) =~= toks_view(
            out@,
        ));
    }
    out
}

/// A byte-for-byte copy.
pub fn copy_bytes(src: &Vec<u8>) -> (r: Vec<u8>)
    ensures
        r@ == src@,
{
    let mut out: Vec<u8> = Vec::new();
    let mut i: usize = 0;
    while i < src.len()
        invariant
            i <= src@.len(),
            out@ == src@.take(i as int),
        decreases src@.len() - i,
    {
        out.push(src[i]);
        proof {
            assert(out@ =~= src@.take(i + 1));
        }
        i += 1;
    }
    proof {
        assert(src@.take(i as int) =~= src@);
    }
    out
}

/// A copy of the token with its commas removed.
pub fn remove_commas(src: &Vec<u8>) -> (r: Vec<u8>)
    ensures
        r@ == strip_commas(src@),
{
    let mut out: Vec<u8> = Vec::new();
    let mut i: usize = 0;
    proof {
        assert(src@.skip(0) =~= src@);
    }
    while i < src.len()
        invariant
            i <= src@.len(),
            strip_commas(src@) == out@ + strip_commas(src@.skip(i as int)),
        decreases src@.len() - i,
    {
        proof {
            assert(src@.skip(i as int).skip(1) =~= src@.skip(i + 1));
        }
        if src[i] != COMMA {
            let ghost old_out = out@;
            out.push(src[i]);
            proof {
                assert(out@ =~= old_out + seq![src@[i as int]]);
                assert((old_out + seq![src@[i as int]]) + strip_commas(src@.skip(i + 1)) =~= old_out
                    + (seq![src@[i as int]] + strip_commas(src@.skip(i + 1))));
            }
        }
        i += 1;
    }
    proof {
        assert(strip_commas(src@.skip(i as int)) =~= Seq::<u8>::empty());
        assert(out@ + Seq::<u8>::empty() =~= out@);
    }
    out
}

/// Whether the token equals the (ASCII) keyword.
pub fn tok_is(tok: &Vec<u8>, kw: &str) -> (r: bool)
    ensures
        r == (tok@ == kw.spec_bytes()),
{
    let b = kw.as_bytes();
    if tok.len() != b.len() {
        proof {
            assert(tok@.len() != kw.spec_bytes().len());
        }
        return false;
    }
    let mut i: usize = 0;
    while i < tok.len()
        invariant
            i <= tok@.len(),
            tok@.len() == b@.len(),
            b@ == kw.spec_bytes(),
            forall|j: int| 0 <= j < i ==> tok@[j] == b@[j],
        decreases tok@.len() - i,
    {
        if tok[i] != b[i] {
            return false;
        }
        i += 1;
    }
    proof {
        assert(tok@ =~= kw.spec_bytes());
    }
    true
}

// ------------------------------------------------------------------
// Numbers
// ------------------------------------------------------------------

/// `r`
pub const R_LOWER: u8 = 114;

/// The value of a decimal digit string.
pub open spec fn dec_value(s: Seq<u8>) -> nat
    decreases s.len(),
{
    if s.len() == 0 {
        0
    } else {
        dec_value(s.drop_last()) * 10 + (s.last() - 48) as nat
    }
}

/// Every byte is a decimal digit.
pub open spec fn all_digits(s: Seq<u8>) -> bool {
    forall|i: int| 0 <= i < s.len() ==> is_digit(#[trigger] s[i])
}

/// A non-empty digit string whose value fits in a `u64`.
pub open spec fn is_u64_decimal(s: Seq<u8>) -> bool {
    s.len() > 0 && all_digits(s) && dec_value(s) <= u64::MAX
}

/// A non-empty digit string whose value fits in a `u16`.
pub open spec fn is_u16_decimal(s: Seq<u8>) -> bool {
    s.len() > 0 && all_digits(s) && dec_value(s) <= u16::MAX
}

/// Extending a digit string can only grow its value.
proof fn lemma_dec_value_grows(s: Seq<u8>, i: int, j: int)
    requires
        0 <= i <= j <= s.len(),
    ensures
        dec_value(s.take(i)) <= dec_value(s.take(j)),
    decreases j - i,
{
    if i < j {
        lemma_dec_value_grows(s, i + 1, j);
        assert(s.take(i + 1).drop_last() =~= s.take(i));
        assert(dec_value(s.take(i + 1)) == dec_value(s.take(i)) * 10 + (s.take(i + 1).last()
            - 48) as nat);
    }
}

/// Parse the bytes `from .. to` as an unsigned decimal.
pub fn parse_dec(s: &Vec<u8>, from: usize, to: usize) -> (r: Option<u64>)
    requires
        from <= to <= s@.len(),
    ensures
        (r is Some) == is_u64_decimal(s@.subrange(from as int, to as int)),
        r matches Some(v) ==> v == dec_value(s@.subrange(from as int, to as int)),
{
    let ghost d = s@.subrange(from as int, to as int);
    if from == to {
        proof {
            assert(!is_u64_decimal(d));
        }
        return None;
    }
    let mut acc: u64 = 0;
    let mut i: usize = from;
    while i < to
        invariant
            from <= i <= to <= s@.len(),
            d == s@.subrange(from as int, to as int),
            acc == dec_value(d.take(i - from)),
            all_digits(d.take(i - from)),
        decreases to - i,
    {
        let c = s[i];
        if c < 48 || c > 57 {
            proof {
                assert(d[i - from] == c);
                assert(!all_digits(d));
            }
            return None;
        }
        let step: u128 = (acc as u128) * 10 + ((c - 48) as u128);
        proof {
            assert(d.take(i - from + 1).drop_last() =~= d.take(i - from));
            assert(d.take(i - from + 1).last() == d[i - from]);
            assert(d[i - from] == c);
        }
        if step > u64::MAX as u128 {
            proof {
                assert(dec_value(d.take(i - from + 1)) > u64::MAX);
                lemma_dec_value_grows(d, i - from + 1, d.len() as int);
                assert(d.take(d.len() as int) =~= d);
                assert(!is_u64_decimal(d));
            }
            return None;
        }
        acc = step as u64;
        i += 1;
    }
    proof {
        assert(d.take(i - from) =~= d);
    }
    Some(acc)
}

// ------------------------------------------------------------------
// Atoms: registers, immediates, label identifiers, arguments
// ------------------------------------------------------------------

/// A register token: `r` followed by a decimal index that fits a `u16`.
pub open spec fn reg_of(s: Seq<u8>) -> Option<Register> {
    if s.len() >= 1 && s[0] == R_LOWER && is_u16_decimal(s.skip(1)) {
        Some(Register { index: dec_value(s.skip(1)) as u16 })
    } else {
        None
    }
}

/// Parse a register token.
pub fn parse_register(s: &Vec<u8>) -> (r: Option<Register>)
    ensures
        r == reg_of(s@),
{
    if s.len() == 0 || s[0] != R_LOWER {
        return None;
    }
    proof {
        assert(s@.skip(1) =~= s@.subrange(1, s@.len() as int));
    }
    match parse_dec(s, 1, s.len()) {
        Some(v) => {
            if v <= u16::MAX as u64 {
                Some(Register { index: v as u16 })
            } else {
                None
            }
        },
        None => None,
    }
}

/// An immediate token: an optional minus sign and a decimal number that
/// fits a signed 64-bit word.
pub open spec fn imm_of(s: Seq<u8>) -> Option<i64> {
    if s.len() > 0 && s[0] == MINUS {
        let d = s.skip(1);
        if d.len() > 0 && all_digits(d) && dec_value(d) <= 0x8000_0000_0000_0000 {
            Some((-(dec_value(d) as int)) as i64)
        } else {
            None
        }
    } else {
        if s.len() > 0 && all_digits(s) && dec_value(s) <= 0x7fff_ffff_ffff_ffff {
            Some(dec_value(s) as i64)
        } else {
            None
        }
    }
}

/// Parse an immediate token.
pub fn parse_immediate(s: &Vec<u8>) -> (r: Option<i64>)
    ensures
        r == imm_of(s@),
{
    if s.len() > 0 && s[0] == MINUS {
        proof {
            assert(s@.skip(1) =~= s@.subrange(1, s@.len() as int));
        }
        match parse_dec(s, 1, s.len()) {
            Some(v) => {
                if v <= 0x8000_0000_0000_0000 {
                    if v == 0x8000_0000_0000_0000 {
                        Some(i64::MIN)
                    } else {
                        Some(-(v as i64))
                    }
                } else {
                    None
                }
            },
            None => None,
        }
    } else {
        proof {
            assert(s@.subrange(0, s@.len() as int) =~= s@);
        }
        match parse_dec(s, 0, s.len()) {
            Some(v) => {
                if v <= 0x7fff_ffff_ffff_ffff {
                    Some(v as i64)
                } else {
                    None
                }
            },
            None => None,
        }
    }
}

/// A label identifier: an underscore followed by letters, digits or
/// underscores, matched against the whole token.
pub open spec fn is_label_ident(s: Seq<u8>) -> bool {
    s.len() >= 2 && s[0] == UNDERSCORE && forall|i: int|
        1 <= i < s.len() ==> is_ident_char(#[trigger] s[i])
}

/// Parse a label identifier; the identifier itself is returned.
pub fn parse_label_ident(s: &Vec<u8>) -> (r: Option<Vec<u8>>)
    ensures
        match r {
            Some(name) => is_label_ident(s@) && name@ == s@,
            None => !is_label_ident(s@),
        },
{
    if s.len() < 2 || s[0] != UNDERSCORE {
        return None;
    }
    let mut i: usize = 1;
    while i < s.len()
        invariant
            1 <= i <= s@.len(),
            forall|j: int| 1 <= j < i ==> is_ident_char(#[trigger] s@[j]),
        decreases s@.len() - i,
    {
        let c = s[i];
        let ok = (48 <= c && c <= 57) || (65 <= c && c <= 90) || (97 <= c && c <= 122) || c
            == UNDERSCORE;
        if !ok {
            return None;
        }
        i += 1;
    }
    Some(copy_bytes(s))
}

/// The abstract form of a parsed operand.
pub open spec fn arg_of(s: Seq<u8>) -> Option<AArg> {
    if reg_of(s) is Some {
        Some(AArg::Reg(reg_of(s)->Some_0))
    } else if is_label_ident(s) {
        Some(AArg::Label(s))
    } else {
        match imm_of(s) {
            Some(x) => Some(AArg::Imm(x)),
            None => None,
        }
    }
}

/// The view of a parsed operand.
pub open spec fn opt_arg_view(r: Option<Argument>) -> Option<AArg> {
    match r {
        Some(a) => Some(a@),
        None => None,
    }
}

/// Parse an operand: a register, a label identifier, or an immediate.
pub fn parse_argument(s: &Vec<u8>) -> (r: Option<Argument>)
    ensures
        opt_arg_view(r) == arg_of(s@),
{
    match parse_register(s) {
        Some(reg) => Some(Argument::Reg(reg)),
        None => match parse_label_ident(s) {
            Some(name) => Some(Argument::Label(name)),
            None => match parse_immediate(s) {
                Some(x) => Some(Argument::Imm(x)),
                None => None,
            },
        },
    }
}

// ------------------------------------------------------------------
// Lines: comments, whitespace, labels
// ------------------------------------------------------------------

/// Whether the line starts with the given byte.
pub open spec fn spec_starts_with(line: Seq<u8>, c: u8) -> bool {
    line.len() > 0 && line[0] == c
}

/// Whether the line ends with the given byte.
pub open spec fn spec_ends_with(line: Seq<u8>, c: u8) -> bool {
    line.len() > 0 && line[line.len() - 1] == c
}

/// Whether the line starts with the given byte (false when empty).
pub fn starts_with(line: &Vec<u8>, c: u8) -> (r: bool)
    ensures
        r == spec_starts_with(line@, c),
{
    line.len() > 0 && line[0] == c
}

/// Whether the line ends with the given byte (false when empty).
pub fn ends_with(line: &Vec<u8>, c: u8) -> (r: bool)
    ensures
        r == spec_ends_with(line@, c),
{
    line.len() > 0 && line[line.len() - 1] == c
}

/// A comment line: it opens with a semicolon.
pub fn parse_comment(line: &Vec<u8>) -> (r: Option<()>)
    ensures
        r is Some <==> spec_starts_with(line@, SEMI),
{
    if starts_with(line, SEMI) {
        Some(())
    } else {
        None
    }
}

/// A line of nothing but whitespace.
pub open spec fn all_space(line: Seq<u8>) -> bool {
    forall|i: int| 0 <= i < line.len() ==> is_space(#[trigger] line[i])
}

/// A blank line: empty or whitespace only.
pub fn parse_whitespace(line: &Vec<u8>) -> (r: Option<()>)
    ensures
        r is Some <==> all_space(line@),
{
    let mut i: usize = 0;
    while i < line.len()
        invariant
            i <= line@.len(),
            forall|j: int| 0 <= j < i ==> is_space(#[trigger] line@[j]),
        decreases line@.len() - i,
    {
        if !is_space_exec(line[i]) {
            return None;
        }
        i += 1;
    }
    Some(())
}

/// A label definition line: an identifier followed by a colon.
pub open spec fn label_of(line: Seq<u8>) -> Option<Seq<u8>> {
    if spec_ends_with(line, COLON) && is_label_ident(line.take(line.len() - 1)) {
        Some(line.take(line.len() - 1))
    } else {
        None
    }
}

/// Parse a label definition line; the identifier is returned.
pub fn parse_label(line: &Vec<u8>) -> (r: Option<Vec<u8>>)
    ensures
        match r {
            Some(name) => label_of(line@) == Some(name@),
            None => label_of(line@) is None,
        },
{
    if !ends_with(line, COLON) {
        return None;
    }
    let mut body: Vec<u8> = Vec::new();
    let mut i: usize = 0;
    while i < line.len() - 1
        invariant
            line@.len() > 0,
            i <= line@.len() - 1,
            body@ == line@.take(i as int),
        decreases line@.len() - 1 - i,
    {
        body.push(line[i]);
        proof {
            assert(body@ =~= line@.take(i + 1));
        }
        i += 1;
    }
    proof {
        assert(body@ =~= line@.take(line@.len() - 1));
    }
    parse_label_ident(&body)
}

// ------------------------------------------------------------------
// Instructions
// ------------------------------------------------------------------

/// The operand tokens of an instruction line: everything after the opcode,
/// commas removed.
pub open spec fn operands_of(toks: Seq<Seq<u8>>) -> Seq<Seq<u8>> {
    toks.skip(1).map_values(|t: Seq<u8>| strip_commas(t))
}

/// A one-operand instruction: the jumps and `answer`.
pub open spec fn instr1_of(op: Seq<u8>, a: AArg) -> Option<AInstr> {
    if op == ("jmp").spec_bytes() {
        Some(AInstr::Jmp(a))
    } else if op == ("cjmp").spec_bytes() {
        Some(AInstr::CJmp(a))
    } else if op == ("cnjmp").spec_bytes() {
        Some(AInstr::CnJmp(a))
    } else if op == ("answer").spec_bytes() {
        Some(AInstr::Answer(a))
    } else {
        None
    }
}

/// The store opcodes name the address first and the register second.
pub open spec fn is_store_op(op: Seq<u8>) -> bool {
    op == ("store.b").spec_bytes() || op == ("store.w").spec_bytes()
}

/// A two-operand instruction.
pub open spec fn instr2_of(op: Seq<u8>, ops: Seq<Seq<u8>>) -> Option<AInstr>
    recommends
        ops.len() == 2,
{
    let rt = if is_store_op(op) {
        reg_of(ops[1])
    } else {
        reg_of(ops[0])
    };
    let at = if is_store_op(op) {
        arg_of(ops[0])
    } else {
        arg_of(ops[1])
    };
    if rt is None || at is None {
        None
    } else {
        let r = rt->Some_0;
        let a = at->Some_0;
        if op == ("not").spec_bytes() {
            Some(AInstr::Not(r, a))
        } else if op == ("cmpe").spec_bytes() {
            Some(AInstr::Cmp(CmpOp::CmpE, r, a))
        } else if op == ("cmpa").spec_bytes() {
            Some(AInstr::Cmp(CmpOp::CmpA, r, a))
        } else if op == ("cmpae").spec_bytes() {
            Some(AInstr::Cmp(CmpOp::CmpAE, r, a))
        } else if op == ("cmpg").spec_bytes() {
            Some(AInstr::Cmp(CmpOp::CmpG, r, a))
        } else if op == ("cmpge").spec_bytes() {
            Some(AInstr::Cmp(CmpOp::CmpGE, r, a))
        } else if op == ("mov").spec_bytes() {
            Some(AInstr::Mov(r, a))
        } else if op == ("cmov").spec_bytes() {
            Some(AInstr::CMov(r, a))
        } else if op == ("load.b").spec_bytes() {
            Some(AInstr::LoadB(r, a))
        } else if op == ("load.w").spec_bytes() {
            Some(AInstr::LoadW(r, a))
        } else if op == ("read").spec_bytes() {
            Some(AInstr::Read(r, a))
        } else if op == ("store.b").spec_bytes() {
            Some(AInstr::StoreB(a, r))
        } else if op == ("store.w").spec_bytes() {
            Some(AInstr::StoreW(a, r))
        } else {
            None
        }
    }
}

/// A three-operand opcode names a binary operation.
pub open spec fn bin_op_of(op: Seq<u8>) -> Option<BinOp> {
    if op == ("and").spec_bytes() {
        Some(BinOp::And)
    } else if op == ("or").spec_bytes() {
        Some(BinOp::Or)
    } else if op == ("xor").spec_bytes() {
        Some(BinOp::Xor)
    } else if op == ("add").spec_bytes() {
        Some(BinOp::Add)
    } else if op == ("sub").spec_bytes() {
        Some(BinOp::Sub)
    } else if op == ("mull").spec_bytes() {
        Some(BinOp::MulL)
    } else if op == ("udiv").spec_bytes() {
        Some(BinOp::UDiv)
    } else if op == ("umod").spec_bytes() {
        Some(BinOp::UMod)
    } else if op == ("shl").spec_bytes() {
        Some(BinOp::Shl)
    } else if op == ("shr").spec_bytes() {
        Some(BinOp::Shr)
    } else {
        None
    }
}

/// A three-operand instruction.
pub open spec fn instr3_of(op: Seq<u8>, ops: Seq<Seq<u8>>) -> Option<AInstr>
    recommends
        ops.len() == 3,
{
    match (bin_op_of(op), reg_of(ops[0]), reg_of(ops[1]), arg_of(ops[2])) {
        (Some(b), Some(r1), Some(r2), Some(a)) => Some(AInstr::Bin(b, r1, r2, a)),
        _ => None,
    }
}

/// The instruction denoted by a token list: the opcode decides the arity
/// and which operand is which.
pub open spec fn instr_of_tokens(toks: Seq<Seq<u8>>) -> Option<AInstr> {
    if toks.len() == 0 {
        None
    } else {
        let op = toks[0];
        let ops = operands_of(toks);
        if ops.len() == 1 {
            match arg_of(ops[0]) {
                Some(a) => instr1_of(op, a),
                None => None,
            }
        } else if ops.len() == 2 {
            instr2_of(op, ops)
        } else if ops.len() == 3 {
            instr3_of(op, ops)
        } else {
            None
        }
    }
}

/// The instruction denoted by a line, after comments are cut.
pub open spec fn instr_of_line(line: Seq<u8>) -> Option<AInstr> {
    instr_of_tokens(cut_comments(tokens_of(line)))
}

/// The view of a parsed instruction.
pub open spec fn opt_instr_view(r: Option<Instruction>) -> Option<AInstr> {
    match r {
        Some(i) => Some(i@),
        None => None,
    }
}

/// Parse an instruction line. Comments at the end of the line are
/// discarded; the opcode decides the arity and the operand order.
#[verifier::rlimit(100)]
#[verifier::spinoff_prover]
pub fn parse_instruction(line: &Vec<u8>) -> (r: Option<Instruction>)
    ensures
        opt_instr_view(r) == instr_of_line(line@),
{
    let toks = drop_comments(tokenize(line));
    if toks.len() == 0 {
        return None;
    }
    proof {
        assert(toks_view(toks@)[0] == toks@[0]@);
    }
    let op = &toks[0];
    let nargs = toks.len() - 1;
    let ghost ops = operands_of(toks_view(toks@));
    if nargs == 1 {
        let op0 = remove_commas(&toks[1]);
        proof {
            assert(ops[0] == strip_commas(toks_view(toks@)[1]));
        }
        let a = match parse_argument(&op0) {
            Some(a) => a,
            None => {
                return None;
            },
        };
        if tok_is(op, "jmp") {
            Some(Instruction::Jmp(a))
        } else if tok_is(op, "cjmp") {
            Some(Instruction::CJmp(a))
        } else if tok_is(op, "cnjmp") {
            Some(Instruction::CnJmp(a))
        } else if tok_is(op, "answer") {
            Some(Instruction::Answer(a))
        } else {
            None
        }
    } else if nargs == 2 {
        let op0 = remove_commas(&toks[1]);
        let op1 = remove_commas(&toks[2]);
        proof {
            assert(ops[0] == strip_commas(toks_view(toks@)[1]));
            assert(ops[1] == strip_commas(toks_view(toks@)[2]));
        }
        let swapped = tok_is(op, "store.b") || tok_is(op, "store.w");
        let regt = if swapped {
            parse_register(&op1)
        } else {
            parse_register(&op0)
        };
        let argt = if swapped {
            parse_argument(&op0)
        } else {
            parse_argument(&op1)
        };
        let (reg, arg) = match (regt, argt) {
            (Some(reg), Some(arg)) => (reg, arg),
            _ => {
                return None;
            },
        };
        if tok_is(op, "not") {
            Some(Instruction::Not(reg, arg))
        } else if tok_is(op, "cmpe") {
            Some(Instruction::Cmp(CmpOp::CmpE, reg, arg))
        } else if tok_is(op, "cmpa") {
            Some(Instruction::Cmp(CmpOp::CmpA, reg, arg))
        } else if tok_is(op, "cmpae") {
            Some(Instruction::Cmp(CmpOp::CmpAE, reg, arg))
        } else if tok_is(op, "cmpg") {
            Some(Instruction::Cmp(CmpOp::CmpG, reg, arg))
        } else if tok_is(op, "cmpge") {
            Some(Instruction::Cmp(CmpOp::CmpGE, reg, arg))
        } else if tok_is(op, "mov") {
            Some(Instruction::Mov(reg, arg))
        } else if tok_is(op, "cmov") {
            Some(Instruction::CMov(reg, arg))
        } else if tok_is(op, "load.b") {
            Some(Instruction::LoadB(reg, arg))
        } else if tok_is(op, "load.w") {
            Some(Instruction::LoadW(reg, arg))
        } else if tok_is(op, "read") {
            Some(Instruction::Read(reg, arg))
        } else if tok_is(op, "store.b") {
            Some(Instruction::StoreB(arg, reg))
        } else if tok_is(op, "store.w") {
            Some(Instruction::StoreW(arg, reg))
        } else {
            None
        }
    } else if nargs == 3 {
        let op0 = remove_commas(&toks[1]);
        let op1 = remove_commas(&toks[2]);
        let op2 = remove_commas(&toks[3]);
        proof {
            assert(ops[0] == strip_commas(toks_view(toks@)[1]));
            assert(ops[1] == strip_commas(toks_view(toks@)[2]));
            assert(ops[2] == strip_commas(toks_view(toks@)[3]));
        }
        let bin = if tok_is(op, "and") {
            Some(BinOp::And)
        } else if tok_is(op, "or") {
            Some(BinOp::Or)
        } else if tok_is(op, "xor") {
            Some(BinOp::Xor)
        } else if tok_is(op, "add") {
            Some(BinOp::Add)
        } else if tok_is(op, "sub") {
            Some(BinOp::Sub)
        } else if tok_is(op, "mull") {
            Some(BinOp::MulL)
        } else if tok_is(op, "udiv") {
            Some(BinOp::UDiv)
        } else if tok_is(op, "umod") {
            Some(BinOp::UMod)
        } else if tok_is(op, "shl") {
            Some(BinOp::Shl)
        } else if tok_is(op, "shr") {
            Some(BinOp::Shr)
        } else {
            None
        };
        match (bin, parse_register(&op0), parse_register(&op1), parse_argument(&op2)) {
            (Some(b), Some(r1), Some(r2), Some(a)) => Some(Instruction::Bin(b, r1, r2, a)),
            _ => None,
        }
    } else {
        None
    }
}

// ------------------------------------------------------------------
// The header line
// ------------------------------------------------------------------

/// A version number `major` or `major.minor`.
pub open spec fn version_of(s: Seq<u8>) -> Option<Version> {
    if exists|i: int| 0 <= i < s.len() && s[i] == DOT {
        let i = choose|i: int|
            0 <= i < s.len() && s[i] == DOT && forall|j: int| 0 <= j < i ==> s[j] != DOT;
        if is_u16_decimal(s.take(i)) && is_u16_decimal(s.skip(i + 1)) {
            Some(
                Version {
                    major: dec_value(s.take(i)) as u16,
                    minor: dec_value(s.skip(i + 1)) as u16,
                },
            )
        } else {
            None
        }
    } else {
        if is_u16_decimal(s) {
            Some(Version { major: dec_value(s) as u16, minor: 0 })
        } else {
            None
        }
    }
}

/// A first-occurrence witness exists whenever any occurrence does.
proof fn lemma_first_dot(s: Seq<u8>, i: int)
    requires
        0 <= i < s.len(),
        s[i] == DOT,
    ensures
        exists|k: int|
            0 <= k < s.len() && s[k] == DOT && forall|j: int| 0 <= j < k ==> s[j] != DOT,
    decreases i,
{
    if forall|j: int| 0 <= j < i ==> s[j] != DOT {
        assert(0 <= i < s.len() && s[i] == DOT && forall|j: int| 0 <= j < i ==> s[j] != DOT);
    } else {
        let w = choose|w: int| 0 <= w < i && s[w] == DOT;
        lemma_first_dot(s, w);
    }
}

/// Parse a version token.
pub fn parse_version(s: &Vec<u8>) -> (r: Option<Version>)
    ensures
        r == version_of(s@),
{
    let mut i: usize = 0;
    while i < s.len() && s[i] != DOT
        invariant
            i <= s@.len(),
            forall|j: int| 0 <= j < i ==> s@[j] != DOT,
        decreases s@.len() - i,
    {
        i += 1;
    }
    if i == s.len() {
        proof {
            assert(forall|j: int| 0 <= j < s@.len() ==> s@[j] != DOT);
            assert(s@.subrange(0, s@.len() as int) =~= s@);
        }
        match parse_dec(s, 0, s.len()) {
            Some(v) => {
                if v <= u16::MAX as u64 {
                    Some(Version { major: v as u16, minor: 0 })
                } else {
                    None
                }
            },
            None => None,
        }
    } else {
        proof {
            lemma_first_dot(s@, i as int);
            let k = choose|k: int|
                0 <= k < s@.len() && s@[k] == DOT && forall|j: int| 0 <= j < k ==> s@[j] != DOT;
            assert(k == i as int);
            assert(s@.take(i as int) =~= s@.subrange(0, i as int));
            assert(s@.skip(i as int + 1) =~= s@.subrange(i as int + 1, s@.len() as int));
        }
        let major = parse_dec(s, 0, i);
        let minor = parse_dec(s, i + 1, s.len());
        match (major, minor) {
            (Some(ma), Some(mi)) => {
                if ma <= u16::MAX as u64 && mi <= u16::MAX as u64 {
                    Some(Version { major: ma as u16, minor: mi as u16 })
                } else {
                    None
                }
            },
            _ => None,
        }
    }
}

/// A keyworded field `X=value`: the value after a fixed two-byte prefix.
pub open spec fn field_rest(tok: Seq<u8>, c: u8) -> Option<Seq<u8>> {
    if tok.len() >= 2 && tok[0] == c && tok[1] == 61 {
        Some(tok.skip(2))
    } else {
        None
    }
}

/// The machine parameters stated by a header line
/// `; TinyRAM V=<version> M=<arch> W=<word size> K=<registers>`.
pub open spec fn params_of(line: Seq<u8>) -> Option<Params> {
    let toks = tokens_of(line);
    if toks.len() != 6 || toks[0] != (";").spec_bytes() || toks[1] != ("TinyRAM").spec_bytes() {
        None
    } else {
        match (
            field_rest(toks[2], 86),
            field_rest(toks[3], 77),
            field_rest(toks[4], 87),
            field_rest(toks[5], 75),
        ) {
            (Some(v), Some(m), Some(w), Some(k)) => {
                let arch = if m == ("hv").spec_bytes() {
                    ArchType::Harvard
                } else if m == ("vn").spec_bytes() {
                    ArchType::VonNeumann
                } else {
                    ArchType::Unknown
                };
                match version_of(v) {
                    Some(ver) => {
                        if is_u16_decimal(w) && is_u16_decimal(k) {
                            Some(
                                Params {
                                    version: ver,
                                    word_size: dec_value(w) as u16,
                                    registers: dec_value(k) as u16,
                                    arch: arch,
                                },
                            )
                        } else {
                            None
                        }
                    },
                    None => None,
                }
            },
            _ => None,
        }
    }
}

/// A field token split after its `X=` prefix; the rest is returned.
fn split_field(tok: &Vec<u8>, c: u8) -> (r: Option<Vec<u8>>)
    ensures
        match r {
            Some(rest) => field_rest(tok@, c) == Some(rest@),
            None => field_rest(tok@, c) is None,
        },
{
    if tok.len() < 2 || tok[0] != c || tok[1] != 61 {
        return None;
    }
    let mut out: Vec<u8> = Vec::new();
    let mut i: usize = 2;
    while i < tok.len()
        invariant
            2 <= i <= tok@.len(),
            out@ == tok@.subrange(2, i as int),
        decreases tok@.len() - i,
    {
        out.push(tok[i]);
        proof {
            assert(out@ =~= tok@.subrange(2, i + 1));
        }
        i += 1;
    }
    proof {
        assert(out@ =~= tok@.skip(2));
    }
    Some(out)
}

/// Read the machine parameters from the header line.
pub fn read_params(line: &Vec<u8>) -> (r: Option<Params>)
    ensures
        r == params_of(line@),
{
    let toks = tokenize(line);
    if toks.len() != 6 {
        return None;
    }
    proof {
        assert(toks_view(toks@)[0] == toks@[0]@);
        assert(toks_view(toks@)[1] == toks@[1]@);
        assert(toks_view(toks@)[2] == toks@[2]@);
        assert(toks_view(toks@)[3] == toks@[3]@);
        assert(toks_view(toks@)[4] == toks@[4]@);
        assert(toks_view(toks@)[5] == toks@[5]@);
    }
    if !tok_is(&toks[0], ";") || !tok_is(&toks[1], "TinyRAM") {
        return None;
    }
    let vf = split_field(&toks[2], 86);
    let mf = split_field(&toks[3], 77);
    let wf = split_field(&toks[4], 87);
    let kf = split_field(&toks[5], 75);
    match (vf, mf, wf, kf) {
        (Some(v), Some(m), Some(w), Some(k)) => {
            let arch = if tok_is(&m, "hv") {
                ArchType::Harvard
            } else if tok_is(&m, "vn") {
                ArchType::VonNeumann
            } else {
                ArchType::Unknown
            };
            let ver = match parse_version(&v) {
                Some(ver) => ver,
                None => {
                    return None;
                },
            };
            proof {
                assert(w@.subrange(0, w@.len() as int) =~= w@);
                assert(k@.subrange(0, k@.len() as int) =~= k@);
            }
            let wd = match parse_dec(&w, 0, w.len()) {
                Some(x) => x,
                None => {
                    return None;
                },
            };
            let kd = match parse_dec(&k, 0, k.len()) {
                Some(x) => x,
                None => {
                    return None;
                },
            };
            if wd <= u16::MAX as u64 && kd <= u16::MAX as u64 {
                Some(
                    Params {
                        version: ver,
                        word_size: wd as u16,
                        registers: kd as u16,
                        arch: arch,
                    },
                )
            } else {
                None
            }
        },
        _ => None,
    }
}

// ------------------------------------------------------------------
// Lines of a file
// ------------------------------------------------------------------

/// The longest newline-free prefix.
pub open spec fn line_prefix(s: Seq<u8>) -> Seq<u8>
    decreases s.len(),
{
    if s.len() == 0 || s[0] == NEWLINE {
        Seq::empty()
    } else {
        seq![s[0]] + line_prefix(s.skip(1))
    }
}

/// The prefix is never longer than the text.
proof fn lemma_line_prefix_len(s: Seq<u8>)
    ensures
        line_prefix(s).len() <= s.len(),
    decreases s.len(),
{
    if s.len() > 0 && s[0] != NEWLINE {
        lemma_line_prefix_len(s.skip(1));
    }
}

/// The lines of a text, split at newlines; a final newline ends the last
/// line rather than opening an empty one.
pub open spec fn lines_of(s: Seq<u8>) -> Seq<Seq<u8>>
    decreases s.len(),
    via lines_of_decreases
{
    if s.len() == 0 {
        Seq::empty()
    } else {
        let l = line_prefix(s);
        if l.len() == s.len() {
            seq![l]
        } else {
            seq![l] + lines_of(s.skip(l.len() as int + 1))
        }
    }
}

#[via_fn]
proof fn lines_of_decreases(s: Seq<u8>) {
    lemma_line_prefix_len(s);
}

/// Split a text into its lines.
pub fn split_lines(text: &Vec<u8>) -> (r: Vec<Vec<u8>>)
    ensures
        toks_view(r@) == lines_of(text@),
{
    let mut out: Vec<Vec<u8>> = Vec::new();
    let mut i: usize = 0;
    proof {
        assert(text@.skip(0) =~= text@);
    }
    while i < text.len()
        invariant
            i <= text@.len(),
            lines_of(text@) == toks_view(out@) + lines_of(text@.skip(i as int)),
        decreases text@.len() - i,
    {
        let ghost rest = text@.skip(i as int);
        let mut line: Vec<u8> = Vec::new();
        let mut j: usize = i;
        while j < text.len() && text[j] != NEWLINE
            invariant
                i <= j <= text@.len(),
                line_prefix(text@.skip(i as int)) == line@ + line_prefix(text@.skip(j as int)),
                line@.len() == j - i,
            decreases text@.len() - j,
        {
            line.push(text[j]);
            proof {
                assert(text@.skip(j as int).skip(1) =~= text@.skip(j + 1));
                assert(line_prefix(text@.skip(j as int)) == seq![text@[j as int]] + line_prefix(
                    text@.skip(j + 1),
                ));
                assert(line@ + line_prefix(text@.skip(j + 1)) =~= (line@.drop_last() + seq![
                    text@[j as int],
                ]) + line_prefix(text@.skip(j + 1)));
            }
            j += 1;
        }
        proof {
            assert(line_prefix(text@.skip(j as int)) =~= Seq::<u8>::empty());
            assert(line@ + Seq::<u8>::empty() =~= line@);
            assert(line@ == line_prefix(rest));
        }
        let ghost old_out = out@;
        out.push(line);
        proof {
            assert(toks_view(out@) =~= toks_view(old_out) + seq![line_prefix(rest)]);
        }
        if j == text.len() {
            proof {
                assert(line_prefix(rest).len() == rest.len());
                assert(lines_of(rest) == seq![line_prefix(rest)]);
                assert(toks_view(old_out) + lines_of(rest) =~= toks_view(out@));
                assert(lines_of(text@.skip(text@.len() as int)) =~= Seq::<Seq<u8>>::empty());
                assert(toks_view(out@) + Seq::<Seq<u8>>::empty() =~= toks_view(out@));
            }
            i = j;
        } else {
            proof {
                assert(line_prefix(rest).len() < rest.len());
                assert(rest.skip(line_prefix(rest).len() as int + 1) =~= text@.skip(j + 1));
                assert(lines_of(rest) == seq![line_prefix(rest)] + lines_of(text@.skip(j + 1)));
                assert((toks_view(old_out) + seq![line_prefix(rest)]) + lines_of(
                    text@.skip(j + 1),
                ) =~= toks_view(old_out) + (seq![line_prefix(rest)] + lines_of(
                    text@.skip(j + 1),
                )));
            }
            i = j + 1;
        }
    }
    proof {
        assert(lines_of(text@.skip(i as int)) =~= Seq::<Seq<u8>>::empty());
        assert(toks_view(out@) + lines_of(text@.skip(i as int)) =~= toks_view(out@));
    }
    out
}

/// The line with leading whitespace removed.
pub open spec fn trim_start(s: Seq<u8>) -> Seq<u8>
    decreases s.len(),
{
    if s.len() > 0 && is_space(s[0]) {
        trim_start(s.skip(1))
    } else {
        s
    }
}

/// The line with trailing whitespace removed.
pub open spec fn trim_end(s: Seq<u8>) -> Seq<u8>
    decreases s.len(),
{
    if s.len() > 0 && is_space(s[s.len() - 1]) {
        trim_end(s.drop_last())
    } else {
        s
    }
}

/// The line with whitespace removed at both ends.
pub open spec fn trim_spaces(s: Seq<u8>) -> Seq<u8> {
    trim_end(trim_start(s))
}

/// A copy of the line with whitespace removed at both ends.
pub fn trim(line: &Vec<u8>) -> (r: Vec<u8>)
    ensures
        r@ == trim_spaces(line@),
{
    let mut lo: usize = 0;
    proof {
        assert(line@.skip(0) =~= line@);
    }
    while lo < line.len() && is_space_exec(line[lo])
        invariant
            lo <= line@.len(),
            trim_start(line@) == trim_start(line@.skip(lo as int)),
        decreases line@.len() - lo,
    {
        proof {
            assert(line@.skip(lo as int).skip(1) =~= line@.skip(lo + 1));
        }
        lo += 1;
    }
    proof {
        assert(trim_start(line@) == line@.skip(lo as int));
    }
    let mut hi: usize = line.len();
    proof {
        assert(line@.subrange(lo as int, line@.len() as int) =~= line@.skip(lo as int));
    }
    while hi > lo && is_space_exec(line[hi - 1])
        invariant
            lo <= hi <= line@.len(),
            trim_end(line@.skip(lo as int)) == trim_end(line@.subrange(lo as int, hi as int)),
        decreases hi,
    {
        proof {
            assert(line@.subrange(lo as int, hi as int).drop_last() =~= line@.subrange(
                lo as int,
                hi - 1,
            ));
        }
        hi -= 1;
    }
    proof {
        assert(trim_end(line@.subrange(lo as int, hi as int)) == line@.subrange(
            lo as int,
            hi as int,
        ));
    }
    let mut out: Vec<u8> = Vec::new();
    let mut i: usize = lo;
    while i < hi
        invariant
            lo <= i <= hi <= line@.len(),
            out@ == line@.subrange(lo as int, i as int),
        decreases hi - i,
    {
        out.push(line[i]);
        proof {
            assert(out@ =~= line@.subrange(lo as int, i + 1));
        }
        i += 1;
    }
    proof {
        assert(out@ =~= trim_spaces(line@));
    }
    out
}

// ------------------------------------------------------------------
// Whole-program checks
// ------------------------------------------------------------------

/// Pairwise-distinct label identifiers.
pub open spec fn unique_idents(ls: Seq<ALabel>) -> bool {
    forall|p: int, q: int| 0 <= p < q < ls.len() ==> ls[p].ident != ls[q].ident
}

impl Parser {
    /// Whether the stated parameters are ones the machine supports:
    /// format version 2.0, a word size of 8, 16, 32 or 64 bits, and the
    /// Harvard architecture.
    pub fn check_params(params: Params) -> (r: Result<(), ParseError>)
        ensures
            r is Ok <==> params.wf(),
    {
        if !(params.version.major == 2 && params.version.minor == 0) {
            return Err(ParseError::BadParams);
        }
        let w = params.word_size;
        if !(w == 8 || w == 16 || w == 32 || w == 64) {
            return Err(ParseError::BadParams);
        }
        match params.arch {
            ArchType::Harvard => Ok(()),
            _ => Err(ParseError::BadParams),
        }
    }

    /// Whether one operand resolves: its register exists and its label
    /// is defined.
    fn check_arg(arg: &Argument, k: u16, labels: &Vec<Label>) -> (r: Result<(), ParseError>)
        ensures
            r is Ok <==> arg_wf(arg@, k, labels_view(labels@)),
    {
        match arg {
            Argument::Imm(_) => Ok(()),
            Argument::Reg(reg) => {
                if reg.index < k {
                    Ok(())
                } else {
                    Err(ParseError::BadRegister)
                }
            },
            Argument::Label(name) => match crate::program::find_label(labels, name) {
                Some(_) => Ok(()),
                None => Err(ParseError::UndefinedLabel),
            },
        }
    }

    /// Whether one register exists.
    fn check_reg(reg: &Register, k: u16) -> (r: Result<(), ParseError>)
        ensures
            r is Ok <==> reg.index < k,
    {
        if reg.index < k {
            Ok(())
        } else {
            Err(ParseError::BadRegister)
        }
    }

    /// Whether a register and an operand both resolve.
    fn check_reg_arg(reg: &Register, arg: &Argument, k: u16, labels: &Vec<Label>) -> (r: Result<
        (),
        ParseError,
    >)
        ensures
            r is Ok <==> (reg.index < k && arg_wf(arg@, k, labels_view(labels@))),
    {
        match Self::check_reg(reg, k) {
            Ok(()) => Self::check_arg(arg, k, labels),
            Err(e) => Err(e),
        }
    }

    /// Whether one instruction is well-formed for the machine.
    fn check_instr(i: &Instruction, k: u16, labels: &Vec<Label>) -> (r: Result<(), ParseError>)
        ensures
            r is Ok <==> instr_wf(i@, k, labels_view(labels@)),
    {
        match i {
            Instruction::Bin(_, r1, r2, a) => {
                match Self::check_reg(r1, k) {
                    Ok(()) => Self::check_reg_arg(r2, a, k, labels),
                    Err(e) => Err(e),
                }
            },
            Instruction::Not(r, a) => Self::check_reg_arg(r, a, k, labels),
            Instruction::Cmp(_, r, a) => Self::check_reg_arg(r, a, k, labels),
            Instruction::Mov(r, a) => Self::check_reg_arg(r, a, k, labels),
            Instruction::CMov(r, a) => Self::check_reg_arg(r, a, k, labels),
            Instruction::Jmp(a) => Self::check_arg(a, k, labels),
            Instruction::CJmp(a) => Self::check_arg(a, k, labels),
            Instruction::CnJmp(a) => Self::check_arg(a, k, labels),
            Instruction::StoreB(a, r) => Self::check_reg_arg(r, a, k, labels),
            Instruction::StoreW(a, r) => Self::check_reg_arg(r, a, k, labels),
            Instruction::LoadB(r, a) => Self::check_reg_arg(r, a, k, labels),
            Instruction::LoadW(r, a) => Self::check_reg_arg(r, a, k, labels),
            Instruction::Read(r, a) => Self::check_reg_arg(r, a, k, labels),
            Instruction::Answer(a) => Self::check_arg(a, k, labels),
        }
    }

    /// Whether every instruction of the program is well-formed: every
    /// register index is below the register count and every label
    /// reference is defined.
    pub fn check_instructions(
        params: Params,
        instructions: &Vec<Instruction>,
        resolved_labels: &Vec<Label>,
    ) -> (r: Result<(), ParseError>)
        ensures
            r is Ok <==> program_wf(
                prog_view(instructions@),
                params.registers,
                labels_view(resolved_labels@),
            ),
    {
        let mut i: usize = 0;
        while i < instructions.len()
            invariant
                i <= instructions@.len(),
                forall|j: int|
                    0 <= j < i ==> instr_wf(
                        #[trigger] prog_view(instructions@)[j],
                        params.registers,
                        labels_view(resolved_labels@),
                    ),
            decreases instructions@.len() - i,
        {
            match Self::check_instr(&instructions[i], params.registers, resolved_labels) {
                Ok(()) => {},
                Err(e) => {
                    proof {
                        assert(prog_view(instructions@)[i as int] == instructions@[i as int]@);
                    }
                    return Err(e);
                },
            }
            proof {
                assert(prog_view(instructions@)[i as int] == instructions@[i as int]@);
            }
            i += 1;
        }
        Ok(())
    }

    /// Whether the label identifiers are pairwise distinct; the table is
    /// handed back unchanged.
    pub fn check_and_resolve_labels(labels: Vec<Label>) -> (r: Result<Vec<Label>, ParseError>)
        ensures
            r is Ok <==> unique_idents(labels_view(labels@)),
            r matches Ok(m) ==> m@ == labels@,
    {
        let mut i: usize = 0;
        while i < labels.len()
            invariant
                i <= labels@.len(),
                forall|p: int, q: int|
                    0 <= p < q < i ==> labels_view(labels@)[p].ident != labels_view(
                        labels@,
                    )[q].ident,
            decreases labels@.len() - i,
        {
            let mut j: usize = 0;
            while j < i
                invariant
                    j <= i < labels@.len(),
                    forall|q: int|
                        0 <= q < j ==> labels_view(labels@)[q].ident != labels_view(
                            labels@,
                        )[i as int].ident,
                decreases i - j,
            {
                if bytes_eq(&labels[j].ident, &labels[i].ident) {
                    proof {
                        assert(labels_view(labels@)[j as int].ident == labels_view(
                            labels@,
                        )[i as int].ident);
                        assert(!unique_idents(labels_view(labels@)));
                    }
                    return Err(ParseError::DuplicateLabel(labels[i].line));
                }
                j += 1;
            }
            i += 1;
        }
        Ok(labels)
    }
}

// ------------------------------------------------------------------
// Whole files
// ------------------------------------------------------------------

/// The instructions and labels denoted by the lines after the header,
/// with `n` instructions already seen: a line is blank, a comment, an
/// instruction, or a label bound to the address of the next instruction;
/// anything else fails the parse.
pub open spec fn parse_lines(lines: Seq<Seq<u8>>, n: nat) -> Option<(Seq<AInstr>, Seq<ALabel>)>
    decreases lines.len(),
{
    if lines.len() == 0 {
        Some((Seq::empty(), Seq::empty()))
    } else {
        let t = trim_spaces(lines[0]);
        if t.len() == 0 || t[0] == SEMI {
            parse_lines(lines.skip(1), n)
        } else {
            match instr_of_line(t) {
                Some(i) => match parse_lines(lines.skip(1), n + 1) {
                    Some(r) => Some((seq![i] + r.0, r.1)),
                    None => None,
                },
                None => match label_of(t) {
                    Some(name) => match parse_lines(lines.skip(1), n) {
                        Some(r) => Some(
                            (r.0, seq![ALabel { ident: name, address: n as u64 }] + r.1),
                        ),
                        None => None,
                    },
                    None => None,
                },
            }
        }
    }
}

/// The index of the header: the first line that is not blank.
pub open spec fn header_index(lines: Seq<Seq<u8>>) -> int {
    choose|h: int|
        0 <= h < lines.len() && !all_space(lines[h]) && forall|j: int|
            0 <= j < h ==> all_space(#[trigger] lines[j])
}

/// Whether any line is not blank.
pub open spec fn has_header(lines: Seq<Seq<u8>>) -> bool {
    exists|h: int| 0 <= h < lines.len() && !all_space(#[trigger] lines[h])
}

/// What a program text denotes: the header's parameters — which must be
/// supported — and the instructions and labels of the remaining lines,
/// with distinct label identifiers, every register below the register
/// count and every label reference defined.
pub open spec fn load_spec(text: Seq<u8>) -> Option<(Params, Seq<AInstr>, Seq<ALabel>)> {
    let lines = lines_of(text);
    if !has_header(lines) {
        None
    } else {
        let h = header_index(lines);
        match params_of(lines[h]) {
            None => None,
            Some(p) => if !p.wf() {
                None
            } else {
                match parse_lines(lines.skip(h + 1), 0) {
                    None => None,
                    Some((instrs, labels)) => if unique_idents(labels) && program_wf(
                        instrs,
                        p.registers,
                        labels,
                    ) {
                        Some((p, instrs, labels))
                    } else {
                        None
                    },
                }
            },
        }
    }
}

/// A first non-blank line is a witness for the header choice.
proof fn lemma_header_index(lines: Seq<Seq<u8>>, h: int)
    requires
        0 <= h < lines.len(),
        !all_space(lines[h]),
        forall|j: int| 0 <= j < h ==> all_space(#[trigger] lines[j]),
    ensures
        has_header(lines),
        header_index(lines) == h,
{
    assert(has_header(lines));
    let w = header_index(lines);
    assert(0 <= w < lines.len() && !all_space(lines[w]) && forall|j: int|
        0 <= j < w ==> all_space(#[trigger] lines[j]));
    if w < h {
        assert(all_space(lines[w]));
    }
    if h < w {
        assert(all_space(lines[h]));
    }
}

/// One more line's contribution joined onto an accumulated prefix.
pub open spec fn opt_extend(
    instrs: Seq<AInstr>,
    labels: Seq<ALabel>,
    rest: Option<(Seq<AInstr>, Seq<ALabel>)>,
) -> Option<(Seq<AInstr>, Seq<ALabel>)> {
    match rest {
        Some(r) => Some((instrs + r.0, labels + r.1)),
        None => None,
    }
}

/// The line with a trailing carriage return removed.
pub open spec fn spec_strip_cr(line: Seq<u8>) -> Seq<u8> {
    if line.len() > 0 && line[line.len() - 1] == 13 {
        line.drop_last()
    } else {
        line
    }
}

/// The tape denoted by the lines of a tape file: every line, with its
/// carriage return stripped, must be an unsigned decimal that fits a word.
pub open spec fn tape_of(lines: Seq<Seq<u8>>) -> Option<Seq<u64>>
    decreases lines.len(),
{
    if lines.len() == 0 {
        Some(Seq::empty())
    } else {
        let d = spec_strip_cr(lines[0]);
        if is_u64_decimal(d) {
            match tape_of(lines.skip(1)) {
                Some(rest) => Some(seq![dec_value(d) as u64] + rest),
                None => None,
            }
        } else {
            None
        }
    }
}

/// One tape entry joined onto an accumulated prefix.
pub open spec fn opt_tape_extend(tape: Seq<u64>, rest: Option<Seq<u64>>) -> Option<Seq<u64>> {
    match rest {
        Some(r) => Some(tape + r),
        None => None,
    }
}

impl Parser {
    /// Parse a whole program text into a machine, ready to run: exactly
    /// the texts `load_spec` accepts are accepted, and the machine starts
    /// in the initial state over the denoted program.
    #[verifier::rlimit(60)]
    pub fn load_program(text: &Vec<u8>) -> (r: Result<TinyVM, ParseError>)
        ensures
            r is Ok <==> load_spec(text@) is Some,
            r matches Ok(vm) ==> {
                let (p, instrs, labels) = load_spec(text@)->Some_0;
                &&& vm.inv()
                &&& vm.params == p
                &&& vm.env() == (crate::vm::MachineEnv {
                    prog: instrs,
                    labels: labels,
                    word_size: p.word_size,
                    num_regs: p.registers,
                })
                &&& vm@ == crate::vm::initial_state(p.registers)
            },
    {
        let lines = split_lines(text);
        let ghost ls = lines_of(text@);
        let mut h: usize = 0;
        while h < lines.len() && parse_whitespace(&lines[h]).is_some()
            invariant
                h <= ls.len(),
                ls == toks_view(lines@),
                forall|j: int| 0 <= j < h ==> all_space(#[trigger] ls[j]),
            decreases ls.len() - h,
        {
            proof {
                assert(ls[h as int] == lines@[h as int]@);
            }
            h += 1;
        }
        if h == lines.len() {
            proof {
                if has_header(ls) {
                    let w = header_index(ls);
                    assert(all_space(ls[w]));
                }
            }
            return Err(ParseError::BadHeader);
        }
        proof {
            assert(ls[h as int] == lines@[h as int]@);
            lemma_header_index(ls, h as int);
        }
        let params = match read_params(&lines[h]) {
            Some(p) => p,
            None => {
                return Err(ParseError::BadHeader);
            },
        };
        match Self::check_params(params) {
            Ok(()) => {},
            Err(e) => {
                return Err(e);
            },
        }
        let mut instructions: Vec<Instruction> = Vec::new();
        let mut labels: Vec<Label> = Vec::new();
        let base = h + 1;
        let mut i: usize = base;
        proof {
            assert(prog_view(instructions@) =~= Seq::<AInstr>::empty());
            assert(labels_view(labels@) =~= Seq::<ALabel>::empty());
        }
        while i < lines.len()
            invariant
                base <= i <= ls.len(),
                base == h + 1,
                h < ls.len(),
                ls == toks_view(lines@),
                ls == lines_of(text@),
                has_header(ls),
                header_index(ls) == h as int,
                params_of(ls[h as int]) == Some(params),
                params.wf(),
                parse_lines(ls.skip(base as int), 0) == opt_extend(
                    prog_view(instructions@),
                    labels_view(labels@),
                    parse_lines(ls.skip(i as int), prog_view(instructions@).len()),
                ),
            decreases ls.len() - i,
        {
            proof {
                assert(ls.skip(i as int)[0] == lines@[i as int]@);
                assert(ls.skip(i as int).skip(1) =~= ls.skip(i + 1));
            }
            let t = trim(&lines[i]);
            if t.len() == 0 || t[0] == SEMI {
                i += 1;
                continue ;
            }
            match parse_instruction(&t) {
                Some(ins) => {
                    let ghost old_instrs = prog_view(instructions@);
                    let ghost old_labels = labels_view(labels@);
                    let ghost iv = ins@;
                    instructions.push(ins);
                    proof {
                        assert(prog_view(instructions@) =~= old_instrs + seq![iv]);
                        let rest = parse_lines(ls.skip(i + 1), prog_view(instructions@).len());
                        if rest is Some {
                            assert((old_instrs + seq![iv]) + rest->Some_0.0 =~= old_instrs + (seq![
                                iv,
                            ] + rest->Some_0.0));
                        }
                    }
                },
                None => {
                    match parse_label(&t) {
                        Some(name) => {
                            let address = instructions.len() as u64;
                            let ghost old_labels = labels_view(labels@);
                            let lab = Label { ident: name, address, line: (i as u64) + 1 };
                            let ghost lv = lab@;
                            labels.push(lab);
                            proof {
                                assert(labels_view(labels@) =~= old_labels + seq![lv]);
                                let rest = parse_lines(
                                    ls.skip(i + 1),
                                    prog_view(instructions@).len(),
                                );
                                if rest is Some {
                                    assert((old_labels + seq![lv]) + rest->Some_0.1 =~= old_labels
                                        + (seq![lv] + rest->Some_0.1));
                                }
                            }
                        },
                        None => {
                            return Err(ParseError::BadLine((i as u64) + 1));
                        },
                    }
                },
            }
            i += 1;
        }
        proof {
            assert(ls.skip(i as int).len() == 0);
            assert(parse_lines(ls.skip(i as int), prog_view(instructions@).len()) == Some(
                (Seq::<AInstr>::empty(), Seq::<ALabel>::empty()),
            ));
            assert(prog_view(instructions@) + Seq::<AInstr>::empty() =~= prog_view(
                instructions@,
            ));
            assert(labels_view(labels@) + Seq::<ALabel>::empty() =~= labels_view(labels@));
        }
        let labels = match Self::check_and_resolve_labels(labels) {
            Ok(m) => m,
            Err(e) => {
                return Err(e);
            },
        };
        match Self::check_instructions(params, &instructions, &labels) {
            Ok(()) => {},
            Err(e) => {
                return Err(e);
            },
        }
        Ok(TinyVM::new(params, instructions, labels))
    }

    /// The line with a trailing carriage return removed.
    fn strip_cr(line: &Vec<u8>) -> (r: Vec<u8>)
        ensures
            r@ == spec_strip_cr(line@),
    {
        let mut out = copy_bytes(line);
        if out.len() > 0 && out[out.len() - 1] == 13 {
            let _ = out.pop();
            proof {
                assert(out@ =~= spec_strip_cr(line@));
            }
        }
        out
    }

    /// Parse a tape file: one unsigned decimal per line, in file order.
    pub fn load_tape_file(text: &Vec<u8>) -> (r: Result<Vec<u64>, ParseError>)
        ensures
            r is Ok <==> tape_of(lines_of(text@)) is Some,
            r matches Ok(tape) ==> Some(tape@) == tape_of(lines_of(text@)),
    {
        let lines = split_lines(text);
        let ghost ls = lines_of(text@);
        let mut tape: Vec<u64> = Vec::new();
        let mut i: usize = 0;
        proof {
            assert(ls.skip(0) =~= ls);
            assert(tape@ + Seq::<u64>::empty() =~= tape@);
        }
        while i < lines.len()
            invariant
                i <= ls.len(),
                ls == toks_view(lines@),
                ls == lines_of(text@),
                tape_of(ls) == opt_tape_extend(tape@, tape_of(ls.skip(i as int))),
            decreases ls.len() - i,
        {
            proof {
                assert(ls.skip(i as int)[0] == lines@[i as int]@);
                assert(ls.skip(i as int).skip(1) =~= ls.skip(i + 1));
            }
            let d = Self::strip_cr(&lines[i]);
            proof {
                assert(d@.subrange(0, d@.len() as int) =~= d@);
            }
            match parse_dec(&d, 0, d.len()) {
                Some(v) => {
                    let ghost old_tape = tape@;
                    tape.push(v);
                    proof {
                        assert(tape@ =~= old_tape + seq![v]);
                        let rest = tape_of(ls.skip(i + 1));
                        if rest is Some {
                            assert((old_tape + seq![v]) + rest->Some_0 =~= old_tape + (seq![v]
                                + rest->Some_0));
                        }
                    }
                },
                None => {
                    return Err(ParseError::BadTapeLine((i as u64) + 1));
                },
            }
            i += 1;
        }
        proof {
            assert(ls.skip(i as int).len() == 0);
            assert(tape@ + Seq::<u64>::empty() =~= tape@);
        }
        Ok(tape)
    }
}

} // verus!
