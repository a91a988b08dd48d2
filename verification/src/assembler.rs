//! The two-pass assembler: from source text to the bytes of a program.
//!
//! A source is a sequence of lines. What follows a `;` or a `#` on a line is a
//! comment. A line that ends in `:` declares a label, `ORG` sets the address
//! of what follows, and any other line that is not blank is one instruction.
//! The first pass lays the program out and collects the labels; the second
//! reads the operands and encodes. A label may therefore be used before the
//! line that declares it.

use crate::error::{AsmError, AsmErrorKind};
use crate::isa::{Instr, Mnemonic};
use crate::labels::LabelTable;
use crate::operand::{
    addr_in, byte_in, none_in, parse_no_operands, parse_number, parse_one_operand_addr,
    parse_reg_operand, parse_two_operands_reg_addr, parse_two_operands_reg_imm,
    parse_two_operands_reg_reg, reg_addr_in, reg_imm_in, reg_in, reg_reg_in,
};
use crate::text::{
    chars_of, find, first_in, first_token, first_word, head, lines_of, matches_word, split, tail,
    trim, trimmed, upper_text, views, Class,
};
use vstd::prelude::*;

verus! {

/// What one line of source says, read by itself.
pub enum Statement {
    /// Nothing: the line is empty but for white space and a comment.
    Blank,
    /// The declaration of a label of this name.
    Label(Seq<char>),
    /// An `ORG` directive with this address.
    Org(u8),
    /// An instruction: its mnemonic, and the text of its operands.
    Code(Mnemonic, Seq<char>),
    /// A line that is rejected whatever the other lines are.
    Bad(AsmErrorKind),
}

/// A line without its comment and without the white space around the rest.
pub open spec fn clean(line: Seq<char>) -> Seq<char> {
    trim(line.take(first_in(line, Class::Comment)))
}

/// Whether a cleaned line is an `ORG` directive: the word `ORG` in either
/// case, alone or followed by a space.
pub open spec fn is_org(t: Seq<char>) -> bool {
    t.len() >= 3 && upper_text(t.take(3)) == seq!['O', 'R', 'G'] && (t.len() == 3 || t[3] == ' ')
}

/// A cleaned line split at its first white space: the mnemonic, and the
/// operands without the white space around them and without commas at their
/// start.
pub open spec fn mnemonic_and_operands(t: Seq<char>) -> (Seq<char>, Seq<char>) {
    let idx = first_in(t, Class::Space);
    if 0 <= idx < t.len() {
        let rest = trim(t.skip(idx));
        (trim(t.take(idx)), rest.skip(first_in(rest, Class::Except(','))))
    } else {
        (trim(t), Seq::empty())
    }
}

/// What a line of source says.
pub open spec fn statement(line: Seq<char>) -> Statement {
    let t = clean(line);
    if t.len() == 0 {
        Statement::Blank
    } else if t.last() == ':' {
        let name = trim(t.drop_last());
        if name.len() == 0 {
            Statement::Bad(AsmErrorKind::EmptyLabel)
        } else {
            Statement::Label(name)
        }
    } else if is_org(t) {
        if t.len() == 3 {
            Statement::Bad(AsmErrorKind::OrgWithoutAddress)
        } else {
            match byte_in(first_word(t.skip(3))) {
                Ok(addr) => Statement::Org(addr),
                Err(kind) => Statement::Bad(kind),
            }
        }
    } else {
        let (m, ops) = mnemonic_and_operands(t);
        match Mnemonic::named(m) {
            Some(op) => Statement::Code(op, ops),
            None => Statement::Bad(AsmErrorKind::UnknownMnemonic),
        }
    }
}

/// What each of `lines` says.
pub open spec fn statements(lines: Seq<Seq<char>>) -> Seq<Statement> {
    Seq::new(lines.len(), |i: int| statement(lines[i]))
}

/// The address of line `k`: where an instruction on that line would start.
/// It is 0 at the first line, what the last `ORG` before the line set, and
/// moves on by the size of every instruction since, modulo 256.
pub open spec fn address_before(stmts: Seq<Statement>, k: int) -> int
    decreases k,
{
    if k <= 0 {
        0
    } else {
        match stmts[k - 1] {
            Statement::Org(addr) => addr as int,
            Statement::Code(op, _) => (address_before(stmts, k - 1) + op.size()) % 256,
            _ => address_before(stmts, k - 1),
        }
    }
}

/// The labels that the first `k` lines declare, each with the address of the
/// line that declares it first.
pub open spec fn labels_upto(stmts: Seq<Statement>, k: int) -> Map<Seq<char>, u8>
    decreases k,
{
    if k <= 0 {
        Map::empty()
    } else {
        let before = labels_upto(stmts, k - 1);
        match stmts[k - 1] {
            Statement::Label(name) => if before.contains_key(name) {
                before
            } else {
                before.insert(name, address_before(stmts, k - 1) as u8)
            },
            _ => before,
        }
    }
}

/// The labels of the whole source.
pub open spec fn label_table(stmts: Seq<Statement>) -> Map<Seq<char>, u8> {
    labels_upto(stmts, stmts.len() as int)
}

/// Why the first pass rejects line `k`, if it does: the line is bad by
/// itself, or declares a label that an earlier line has declared.
pub open spec fn layout_error(stmts: Seq<Statement>, k: int) -> Option<AsmErrorKind> {
    match stmts[k] {
        Statement::Bad(kind) => Some(kind),
        Statement::Label(name) => if labels_upto(stmts, k).contains_key(name) {
            Some(AsmErrorKind::DuplicateLabel)
        } else {
            None
        },
        _ => None,
    }
}

/// The first rejection of the first pass among the first `k` lines.
pub open spec fn first_layout_error(stmts: Seq<Statement>, k: int) -> Option<AsmError>
    decreases k,
{
    if k <= 0 {
        None
    } else {
        match first_layout_error(stmts, k - 1) {
            Some(e) => Some(e),
            None => match layout_error(stmts, k - 1) {
                Some(kind) => Some(AsmError { line: k as usize, kind }),
                None => None,
            },
        }
    }
}

/// `reg` as a register of the machine, or the error that there is none such.
pub open spec fn checked(reg: u8) -> Result<u8, AsmErrorKind> {
    if reg > 3 {
        Err(AsmErrorKind::RegisterOutOfRange)
    } else {
        Ok(reg)
    }
}

/// The instruction that mnemonic `op` makes with the operands `ops`, given
/// the labels of the source. Every mnemonic takes exactly the operands of its
/// shape: `HLT` and `NOP` none, `OUT` and `JMP` one, the others two. The
/// operands are read first and the registers checked after.
#[verifier::opaque]
pub open spec fn instruction(op: Mnemonic, ops: Seq<char>, labels: Map<Seq<char>, u8>) -> Result<
    Instr,
    AsmErrorKind,
> {
    match op {
        Mnemonic::Ldi => match reg_imm_in(ops) {
            Err(e) => Err(e),
            Ok((reg, imm)) => match checked(reg) {
                Err(e) => Err(e),
                Ok(reg) => Ok(Instr::Ldi { reg, imm }),
            },
        },
        Mnemonic::Add => match reg_reg_in(ops) {
            Err(e) => Err(e),
            Ok((dst, src)) => if dst > 3 || src > 3 {
                Err(AsmErrorKind::RegisterOutOfRange)
            } else {
                Ok(Instr::Add { dst, src })
            },
        },
        Mnemonic::Sub => match reg_reg_in(ops) {
            Err(e) => Err(e),
            Ok((dst, src)) => if dst > 3 || src > 3 {
                Err(AsmErrorKind::RegisterOutOfRange)
            } else {
                Ok(Instr::Sub { dst, src })
            },
        },
        Mnemonic::Load => match reg_addr_in(ops, labels) {
            Err(e) => Err(e),
            Ok((reg, addr)) => match checked(reg) {
                Err(e) => Err(e),
                Ok(reg) => Ok(Instr::Load { reg, addr }),
            },
        },
        Mnemonic::Store => match reg_addr_in(ops, labels) {
            Err(e) => Err(e),
            Ok((reg, addr)) => match checked(reg) {
                Err(e) => Err(e),
                Ok(reg) => Ok(Instr::Store { reg, addr }),
            },
        },
        Mnemonic::Jmp => match addr_in(ops, labels) {
            Err(e) => Err(e),
            Ok(addr) => Ok(Instr::Jmp { addr }),
        },
        Mnemonic::Jz => match reg_addr_in(ops, labels) {
            Err(e) => Err(e),
            Ok((reg, addr)) => match checked(reg) {
                Err(e) => Err(e),
                Ok(reg) => Ok(Instr::Jz { reg, addr }),
            },
        },
        Mnemonic::Out => match reg_in(ops) {
            Err(e) => Err(e),
            Ok(reg) => match checked(reg) {
                Err(e) => Err(e),
                Ok(reg) => Ok(Instr::Out { reg }),
            },
        },
        Mnemonic::Hlt => match none_in(ops) {
            Err(e) => Err(e),
            Ok(_) => Ok(Instr::Hlt),
        },
        Mnemonic::Nop => match none_in(ops) {
            Err(e) => Err(e),
            Ok(_) => Ok(Instr::Nop),
        },
    }
}

/// The bytes that the first `k` lines encode to, or the first rejection of
/// the second pass among them.
pub open spec fn encoded(stmts: Seq<Statement>, labels: Map<Seq<char>, u8>, k: int) -> Result<
    Seq<u8>,
    AsmError,
>
    decreases k,
{
    if k <= 0 {
        Ok(Seq::empty())
    } else {
        match encoded(stmts, labels, k - 1) {
            Err(e) => Err(e),
            Ok(bytes) => match stmts[k - 1] {
                Statement::Code(op, ops) => match instruction(op, ops, labels) {
                    Err(kind) => Err(AsmError { line: k as usize, kind }),
                    Ok(i) => Ok(bytes + i.encoding()),
                },
                _ => Ok(bytes),
            },
        }
    }
}

/// What assembling the statements `stmts` gives: the first rejection of the
/// first pass; where it has none, the first rejection of the second pass;
/// where that has none either, the encodings of the instructions in the
/// order of their lines, with nothing between them.
pub open spec fn assembled_statements(stmts: Seq<Statement>) -> Result<Seq<u8>, AsmError> {
    match first_layout_error(stmts, stmts.len() as int) {
        Some(e) => Err(e),
        None => encoded(stmts, label_table(stmts), stmts.len() as int),
    }
}

/// What assembling the source `src` gives.
pub open spec fn assembled(src: Seq<char>) -> Result<Seq<u8>, AsmError> {
    assembled_statements(statements(lines_of(src)))
}

/// Once the first pass has rejected a line, later lines change nothing.
pub proof fn lemma_layout_error_stays(stmts: Seq<Statement>, k: int, n: int)
    requires
        first_layout_error(stmts, k) is Some,
        k <= n,
    ensures
        first_layout_error(stmts, n) == first_layout_error(stmts, k),
    decreases n - k,
{
    if k < n {
        lemma_layout_error_stays(stmts, k, n - 1);
    }
}

/// Once the second pass has rejected a line, later lines change nothing.
pub proof fn lemma_encoded_error_stays(
    stmts: Seq<Statement>,
    labels: Map<Seq<char>, u8>,
    k: int,
    n: int,
)
    requires
        encoded(stmts, labels, k) is Err,
        k <= n,
    ensures
        encoded(stmts, labels, n) == encoded(stmts, labels, k),
    decreases n - k,
{
    if k < n {
        lemma_encoded_error_stays(stmts, labels, k, n - 1);
    }
}

/// A line of source as the assembler holds it between the passes.
pub enum Line<'a> {
    /// Nothing.
    Blank,
    /// The declaration of a label.
    Label(&'a [char]),
    /// An `ORG` directive.
    Org(u8),
    /// An instruction and the text of its operands.
    Code(Mnemonic, &'a [char]),
    /// A line that is rejected.
    Bad(AsmErrorKind),
}

impl<'a> View for Line<'a> {
    type V = Statement;

    open spec fn view(&self) -> Statement {
        match *self {
            Line::Blank => Statement::Blank,
            Line::Label(name) => Statement::Label(name@),
            Line::Org(addr) => Statement::Org(addr),
            Line::Code(op, ops) => Statement::Code(op, ops@),
            Line::Bad(kind) => Statement::Bad(kind),
        }
    }
}

/// The statements that parsed lines stand for.
pub open spec fn line_views(lines: Seq<Line>) -> Seq<Statement> {
    Seq::new(lines.len(), |i: int| lines[i]@)
}

/// Splits a cleaned line into its mnemonic and its operands.
pub fn split_mnemonic_operands<'a>(line: &'a [char]) -> (r: (&'a [char], &'a [char]))
    ensures
        (r.0@, r.1@) == mnemonic_and_operands(line@),
{
    let idx = find(line, Class::Space);
    if idx < line.len() {
        let rest = trimmed(tail(line, idx));
        (trimmed(head(line, idx)), tail(rest, find(rest, Class::Except(','))))
    } else {
        let empty = head(line, 0);
        assert(empty@ =~= Seq::<char>::empty());
        (trimmed(line), empty)
    }
}

/// The size in bytes of the instruction that `mnemonic` names, if it names
/// one.
pub fn instruction_size(mnemonic: &[char]) -> (r: Option<usize>)
    ensures
        r == match Mnemonic::named(mnemonic@) {
            Some(op) => Some(op.size() as usize),
            None => None,
        },
{
    match Mnemonic::parse(mnemonic) {
        Some(op) => Some(op.encoded_size() as usize),
        None => None,
    }
}

/// Reads one line of source.
pub fn parse_line<'a>(line: &'a [char]) -> (r: Line<'a>)
    ensures
        r@ == statement(line@),
{
    let t = trimmed(head(line, find(line, Class::Comment)));
    if t.len() == 0 {
        return Line::Blank;
    }
    if t[t.len() - 1] == ':' {
        let name = trimmed(head(t, t.len() - 1));
        assert(t@.take(t@.len() - 1) =~= t@.drop_last());
        if name.len() == 0 {
            return Line::Bad(AsmErrorKind::EmptyLabel);
        }
        return Line::Label(name);
    }
    let org = ['O', 'R', 'G'];
    assert(org@ =~= seq!['O', 'R', 'G']);
    if t.len() >= 3 && matches_word(head(t, 3), org.as_slice()) && (t.len() == 3 || t[3] == ' ') {
        if t.len() == 3 {
            return Line::Bad(AsmErrorKind::OrgWithoutAddress);
        }
        return match parse_number(first_token(tail(t, 3))) {
            Ok(addr) => Line::Org(addr),
            Err(kind) => Line::Bad(kind),
        };
    }
    let (mnemonic, operands) = split_mnemonic_operands(t);
    match Mnemonic::parse(mnemonic) {
        Some(op) => Line::Code(op, operands),
        None => Line::Bad(AsmErrorKind::UnknownMnemonic),
    }
}

/// Reads the operands of an instruction of line `lineno` and checks its
/// registers.
pub fn parse_instruction(op: Mnemonic, operands: &[char], lineno: usize, labels: &LabelTable) -> (r:
    Result<Instr, AsmError>)
    ensures
        r == crate::operand::at_line(instruction(op, operands@, labels.map()), lineno),
{
    reveal(instruction);
    let out_of_range = AsmError { line: lineno, kind: AsmErrorKind::RegisterOutOfRange };
    match op {
        Mnemonic::Ldi => {
            let (reg, imm) = parse_two_operands_reg_imm(operands, lineno)?;
            if reg > 3 {
                return Err(out_of_range);
            }
            Ok(Instr::Ldi { reg, imm })
        },
        Mnemonic::Add => {
            let (dst, src) = parse_two_operands_reg_reg(operands, lineno)?;
            if dst > 3 || src > 3 {
                return Err(out_of_range);
            }
            Ok(Instr::Add { dst, src })
        },
        Mnemonic::Sub => {
            let (dst, src) = parse_two_operands_reg_reg(operands, lineno)?;
            if dst > 3 || src > 3 {
                return Err(out_of_range);
            }
            Ok(Instr::Sub { dst, src })
        },
        Mnemonic::Load => {
            let (reg, addr) = parse_two_operands_reg_addr(operands, lineno, labels)?;
            if reg > 3 {
                return Err(out_of_range);
            }
            Ok(Instr::Load { reg, addr })
        },
        Mnemonic::Store => {
            let (reg, addr) = parse_two_operands_reg_addr(operands, lineno, labels)?;
            if reg > 3 {
                return Err(out_of_range);
            }
            Ok(Instr::Store { reg, addr })
        },
        Mnemonic::Jmp => {
            let addr = parse_one_operand_addr(operands, lineno, labels)?;
            Ok(Instr::Jmp { addr })
        },
        Mnemonic::Jz => {
            let (reg, addr) = parse_two_operands_reg_addr(operands, lineno, labels)?;
            if reg > 3 {
                return Err(out_of_range);
            }
            Ok(Instr::Jz { reg, addr })
        },
        Mnemonic::Out => {
            let reg = parse_reg_operand(operands, lineno)?;
            if reg > 3 {
                return Err(out_of_range);
            }
            Ok(Instr::Out { reg })
        },
        Mnemonic::Hlt => {
            parse_no_operands(operands, lineno)?;
            Ok(Instr::Hlt)
        },
        Mnemonic::Nop => {
            parse_no_operands(operands, lineno)?;
            Ok(Instr::Nop)
        },
    }
}

/// The first pass: reads every line, lays the program out and collects the
/// labels.
pub fn layout<'a>(lines: &Vec<&'a [char]>) -> (r: Result<(LabelTable<'a>, Vec<Line<'a>>), AsmError>)
    ensures
        match r {
            Ok((labels, parsed)) => {
                &&& first_layout_error(statements(views(lines@)), lines@.len() as int) is None
                &&& line_views(parsed@) == statements(views(lines@))
                &&& labels.map() == label_table(statements(views(lines@)))
            },
            Err(e) => first_layout_error(statements(views(lines@)), lines@.len() as int) == Some(e),
        },
{
    let ghost stmts = statements(views(lines@));
    let mut labels: LabelTable<'a> = LabelTable::new();
    let mut parsed: Vec<Line<'a>> = Vec::new();
    let mut pc: u8 = 0;
    let mut k: usize = 0;
    while k < lines.len()
        invariant
            k <= lines@.len(),
            stmts == statements(views(lines@)),
            first_layout_error(stmts, k as int) is None,
            labels.map() == labels_upto(stmts, k as int),
            pc == address_before(stmts, k as int),
            parsed@.len() == k,
            forall|i: int| 0 <= i < k ==> (#[trigger] parsed@[i])@ == stmts[i],
        decreases lines@.len() - k,
    {
        let line = parse_line(lines[k]);
        assert(line@ == stmts[k as int]);
        match line {
            Line::Bad(kind) => {
                proof {
                    lemma_layout_error_stays(stmts, k + 1, lines@.len() as int);
                }
                return Err(AsmError { line: k + 1, kind });
            },
            Line::Label(name) => {
                if !labels.define(name, pc) {
                    proof {
                        lemma_layout_error_stays(stmts, k + 1, lines@.len() as int);
                    }
                    return Err(AsmError { line: k + 1, kind: AsmErrorKind::DuplicateLabel });
                }
            },
            Line::Org(addr) => {
                pc = addr;
            },
            Line::Code(op, _) => {
                let size = op.encoded_size();
                pc = if pc as u16 + size as u16 >= 256 {
                    (pc as u16 + size as u16 - 256) as u8
                } else {
                    pc + size
                };
            },
            Line::Blank => {},
        }
        parsed.push(line);
        k += 1;
    }
    proof {
        assert(line_views(parsed@) =~= stmts);
    }
    Ok((labels, parsed))
}

/// The second pass: reads the operands of every instruction and encodes it.
pub fn encode_lines(parsed: &Vec<Line>, labels: &LabelTable) -> (r: Result<Vec<u8>, AsmError>)
    ensures
        match r {
            Ok(bytes) => encoded(line_views(parsed@), labels.map(), parsed@.len() as int) == Ok::<
                Seq<u8>,
                AsmError,
            >(bytes@),
            Err(e) => encoded(line_views(parsed@), labels.map(), parsed@.len() as int) == Err::<
                Seq<u8>,
                AsmError,
            >(e),
        },
{
    let ghost stmts = line_views(parsed@);
    let mut out: Vec<u8> = Vec::new();
    let mut k: usize = 0;
    while k < parsed.len()
        invariant
            k <= parsed@.len(),
            stmts == line_views(parsed@),
            encoded(stmts, labels.map(), k as int) == Ok::<Seq<u8>, AsmError>(out@),
        decreases parsed@.len() - k,
    {
        assert(stmts[k as int] == parsed@[k as int]@);
        let ghost before = out@;
        match &parsed[k] {
            Line::Code(op, operands) => {
                match parse_instruction(*op, operands, k + 1, labels) {
                    Ok(i) => {
                        i.encode(&mut out);
                        assert(encoded(stmts, labels.map(), k + 1) == Ok::<Seq<u8>, AsmError>(
                            before + i.encoding(),
                        ));
                    },
                    Err(e) => {
                        assert(encoded(stmts, labels.map(), k + 1) == Err::<Seq<u8>, AsmError>(e));
                        proof {
                            lemma_encoded_error_stays(
                                stmts,
                                labels.map(),
                                k + 1,
                                parsed@.len() as int,
                            );
                        }
                        return Err(e);
                    },
                }
            },
            _ => {
                assert(encoded(stmts, labels.map(), k + 1) == Ok::<Seq<u8>, AsmError>(before));
            },
        }
        k += 1;
    }
    Ok(out)
}

/// Assembles the characters of a source.
pub fn assemble_chars(text: &[char]) -> (r: Result<Vec<u8>, AsmError>)
    ensures
        match r {
            Ok(bytes) => assembled(text@) == Ok::<Seq<u8>, AsmError>(bytes@),
            Err(e) => assembled(text@) == Err::<Seq<u8>, AsmError>(e),
        },
{
    let lines = split(text, '\n');
    match layout(&lines) {
        Err(e) => Err(e),
        Ok((labels, parsed)) => encode_lines(&parsed, &labels),
    }
}

/// Assembles a source: the bytes of the program, or the first line that is
/// rejected and why. On a rejection no byte is returned.
pub fn assemble(src: &str) -> (r: Result<Vec<u8>, AsmError>)
    ensures
        match r {
            Ok(bytes) => assembled(src@) == Ok::<Seq<u8>, AsmError>(bytes@),
            Err(e) => assembled(src@) == Err::<Seq<u8>, AsmError>(e),
        },
{
    let text = chars_of(src);
    assemble_chars(text.as_slice())
}

} // verus!
