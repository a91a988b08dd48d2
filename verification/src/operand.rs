//! The operands of an instruction in assembly source: registers, numbers
//! and addresses.

use crate::error::{AsmError, AsmErrorKind};
use crate::labels::LabelTable;
use crate::number::{number_in, parse_bounded, split_radix, Parsed, Radix};
use crate::text::{kept, split_on, split_trimmed, trim, trimmed, views, Class};
use vstd::prelude::*;

verus! {

/// The byte that `s` writes as a number, white space around it aside.
pub open spec fn byte_in(s: Seq<char>) -> Result<u8, AsmErrorKind> {
    match number_in(s) {
        None => Err(AsmErrorKind::InvalidNumber),
        Some(v) => if v > 255 {
            Err(AsmErrorKind::NumberOutOfRange)
        } else {
            Ok(v as u8)
        },
    }
}

/// The register index that `s` names, white space around it aside: `R` or `r`
/// and one decimal digit. The index may be above 3.
pub open spec fn register_in(s: Seq<char>) -> Result<u8, AsmErrorKind> {
    let t = trim(s);
    if t.len() == 2 && (t[0] == 'R' || t[0] == 'r') && Radix::Decimal.digit(t[1]) is Some {
        Ok(Radix::Decimal.digit(t[1]).unwrap() as u8)
    } else {
        Err(AsmErrorKind::InvalidRegister)
    }
}

/// The one operand of `s`, or the error that there is not one.
pub open spec fn one_operand(s: Seq<char>) -> Result<Seq<char>, AsmErrorKind> {
    let parts = operands(s);
    if parts.len() != 1 {
        Err(AsmErrorKind::OperandCount)
    } else {
        Ok(parts[0])
    }
}

/// One register, as `OUT` takes it.
pub open spec fn reg_in(s: Seq<char>) -> Result<u8, AsmErrorKind> {
    match one_operand(s) {
        Err(e) => Err(e),
        Ok(a) => register_in(a),
    }
}

/// One address, as `JMP` takes it.
pub open spec fn addr_in(s: Seq<char>, labels: Map<Seq<char>, u8>) -> Result<u8, AsmErrorKind> {
    match one_operand(s) {
        Err(e) => Err(e),
        Ok(a) => address_in(a, labels),
    }
}

/// No operand, as `HLT` and `NOP` take none.
pub open spec fn none_in(s: Seq<char>) -> Result<(), AsmErrorKind> {
    if operands(s).len() != 0 {
        Err(AsmErrorKind::OperandCount)
    } else {
        Ok(())
    }
}

/// The address that `s` stands for, white space around it aside: the address
/// of the label of that name, where `labels` has one, else the byte that `s`
/// writes as a number.
pub open spec fn address_in(s: Seq<char>, labels: Map<Seq<char>, u8>) -> Result<u8, AsmErrorKind> {
    let t = trim(s);
    if t.len() == 0 {
        Err(AsmErrorKind::OperandCount)
    } else if labels.contains_key(t) {
        Ok(labels[t])
    } else {
        match number_in(t) {
            None => Err(AsmErrorKind::UnresolvedAddress),
            Some(v) => if v > 255 {
                Err(AsmErrorKind::NumberOutOfRange)
            } else {
                Ok(v as u8)
            },
        }
    }
}

/// The operands that `s` lists: its pieces between commas, each trimmed, the
/// empty ones left out.
pub open spec fn operands(s: Seq<char>) -> Seq<Seq<char>> {
    kept(split_on(s, ','))
}

/// The two operands of `s`, or the error that there are not two.
pub open spec fn two_operands(s: Seq<char>) -> Result<(Seq<char>, Seq<char>), AsmErrorKind> {
    let parts = operands(s);
    if parts.len() != 2 {
        Err(AsmErrorKind::OperandCount)
    } else {
        Ok((parts[0], parts[1]))
    }
}

/// A register and an immediate byte, as `LDI` takes them.
pub open spec fn reg_imm_in(s: Seq<char>) -> Result<(u8, u8), AsmErrorKind> {
    match two_operands(s) {
        Err(e) => Err(e),
        Ok((a, b)) => match register_in(a) {
            Err(e) => Err(e),
            Ok(r) => match byte_in(b) {
                Err(e) => Err(e),
                Ok(imm) => Ok((r, imm)),
            },
        },
    }
}

/// Two registers, as `ADD` and `SUB` take them.
pub open spec fn reg_reg_in(s: Seq<char>) -> Result<(u8, u8), AsmErrorKind> {
    match two_operands(s) {
        Err(e) => Err(e),
        Ok((a, b)) => match register_in(a) {
            Err(e) => Err(e),
            Ok(d) => match register_in(b) {
                Err(e) => Err(e),
                Ok(r) => Ok((d, r)),
            },
        },
    }
}

/// A register and an address, as `LOAD`, `STORE` and `JZ` take them.
pub open spec fn reg_addr_in(s: Seq<char>, labels: Map<Seq<char>, u8>) -> Result<
    (u8, u8),
    AsmErrorKind,
> {
    match two_operands(s) {
        Err(e) => Err(e),
        Ok((a, b)) => match register_in(a) {
            Err(e) => Err(e),
            Ok(r) => match address_in(b, labels) {
                Err(e) => Err(e),
                Ok(addr) => Ok((r, addr)),
            },
        },
    }
}

/// `kind` as an error of line `lineno`.
pub open spec fn at_line<T>(r: Result<T, AsmErrorKind>, lineno: usize) -> Result<T, AsmError> {
    match r {
        Ok(v) => Ok(v),
        Err(kind) => Err(AsmError { line: lineno, kind }),
    }
}

/// Reads a number of one byte: decimal, or hexadecimal after `0x`.
pub fn parse_number(s: &[char]) -> (r: Result<u8, AsmErrorKind>)
    ensures
        r == byte_in(s@),
{
    let (radix, literal) = split_radix(trimmed(s));
    match parse_bounded(radix, literal, 255) {
        Parsed::Malformed => Err(AsmErrorKind::InvalidNumber),
        Parsed::TooLarge => Err(AsmErrorKind::NumberOutOfRange),
        Parsed::Value(v) => Ok(v as u8),
    }
}

/// Reads a register: `R` or `r` and its index.
pub fn parse_reg(s: &[char]) -> (r: Result<u8, AsmErrorKind>)
    ensures
        r == register_in(s@),
{
    let t = trimmed(s);
    if t.len() == 2 && (t[0] == 'R' || t[0] == 'r') {
        match Radix::Decimal.digit_of(t[1]) {
            Some(d) => Ok(d as u8),
            None => Err(AsmErrorKind::InvalidRegister),
        }
    } else {
        Err(AsmErrorKind::InvalidRegister)
    }
}

/// Reads the one register that an instruction takes, for line `lineno`.
pub fn parse_reg_operand(ops: &[char], lineno: usize) -> (r: Result<u8, AsmError>)
    ensures
        r == at_line(reg_in(ops@), lineno),
{
    let parts = split_operands(ops);
    if parts.len() != 1 {
        return Err(AsmError { line: lineno, kind: AsmErrorKind::OperandCount });
    }
    assert(views(parts@)[0] == parts@[0]@);
    match parse_reg(parts[0]) {
        Ok(v) => Ok(v),
        Err(kind) => Err(AsmError { line: lineno, kind }),
    }
}

/// Reads the one address that an instruction takes, for line `lineno`.
pub fn parse_one_operand_addr(ops: &[char], lineno: usize, labels: &LabelTable) -> (r: Result<
    u8,
    AsmError,
>)
    ensures
        r == at_line(addr_in(ops@, labels.map()), lineno),
{
    let parts = split_operands(ops);
    if parts.len() != 1 {
        return Err(AsmError { line: lineno, kind: AsmErrorKind::OperandCount });
    }
    assert(views(parts@)[0] == parts@[0]@);
    parse_addr_operand(parts[0], lineno, labels)
}

/// Checks that an instruction that takes no operand has none, for line
/// `lineno`.
pub fn parse_no_operands(ops: &[char], lineno: usize) -> (r: Result<(), AsmError>)
    ensures
        r == at_line(none_in(ops@), lineno),
{
    let parts = split_operands(ops);
    if parts.len() != 0 {
        return Err(AsmError { line: lineno, kind: AsmErrorKind::OperandCount });
    }
    Ok(())
}

/// Reads an address for line `lineno`: a label of `labels`, or a number.
pub fn parse_addr_operand(op: &[char], lineno: usize, labels: &LabelTable) -> (r: Result<
    u8,
    AsmError,
>)
    ensures
        r == at_line(address_in(op@, labels.map()), lineno),
{
    let s = trimmed(op);
    if s.len() == 0 {
        return Err(AsmError { line: lineno, kind: AsmErrorKind::OperandCount });
    }
    if let Some(addr) = labels.get(s) {
        return Ok(addr);
    }
    let (radix, literal) = split_radix(s);
    proof {
        crate::text::lemma_trim_is_trimmed(op@);
    }
    match parse_bounded(radix, literal, 255) {
        Parsed::Malformed => Err(AsmError { line: lineno, kind: AsmErrorKind::UnresolvedAddress }),
        Parsed::TooLarge => Err(AsmError { line: lineno, kind: AsmErrorKind::NumberOutOfRange }),
        Parsed::Value(v) => Ok(v as u8),
    }
}

/// The operands that `s` lists.
pub fn split_operands<'a>(s: &'a [char]) -> (parts: Vec<&'a [char]>)
    ensures
        views(parts@) == operands(s@),
{
    split_trimmed(s, Class::Exactly(','))
}

/// Reads a register and an immediate byte for line `lineno`.
pub fn parse_two_operands_reg_imm(ops: &[char], lineno: usize) -> (r: Result<(u8, u8), AsmError>)
    ensures
        r == at_line(reg_imm_in(ops@), lineno),
{
    let parts = split_operands(ops);
    if parts.len() != 2 {
        return Err(AsmError { line: lineno, kind: AsmErrorKind::OperandCount });
    }
    assert(views(parts@)[0] == parts@[0]@ && views(parts@)[1] == parts@[1]@);
    let reg = match parse_reg(parts[0]) {
        Ok(v) => v,
        Err(kind) => {
            return Err(AsmError { line: lineno, kind });
        },
    };
    match parse_number(parts[1]) {
        Ok(imm) => Ok((reg, imm)),
        Err(kind) => Err(AsmError { line: lineno, kind }),
    }
}

/// Reads two registers for line `lineno`.
pub fn parse_two_operands_reg_reg(ops: &[char], lineno: usize) -> (r: Result<(u8, u8), AsmError>)
    ensures
        r == at_line(reg_reg_in(ops@), lineno),
{
    let parts = split_operands(ops);
    if parts.len() != 2 {
        return Err(AsmError { line: lineno, kind: AsmErrorKind::OperandCount });
    }
    assert(views(parts@)[0] == parts@[0]@ && views(parts@)[1] == parts@[1]@);
    let dst = match parse_reg(parts[0]) {
        Ok(v) => v,
        Err(kind) => {
            return Err(AsmError { line: lineno, kind });
        },
    };
    match parse_reg(parts[1]) {
        Ok(src) => Ok((dst, src)),
        Err(kind) => Err(AsmError { line: lineno, kind }),
    }
}

/// Reads a register and an address for line `lineno`.
pub fn parse_two_operands_reg_addr(ops: &[char], lineno: usize, labels: &LabelTable) -> (r: Result<
    (u8, u8),
    AsmError,
>)
    ensures
        r == at_line(reg_addr_in(ops@, labels.map()), lineno),
{
    let parts = split_operands(ops);
    if parts.len() != 2 {
        return Err(AsmError { line: lineno, kind: AsmErrorKind::OperandCount });
    }
    assert(views(parts@)[0] == parts@[0]@ && views(parts@)[1] == parts@[1]@);
    let reg = match parse_reg(parts[0]) {
        Ok(v) => v,
        Err(kind) => {
            return Err(AsmError { line: lineno, kind });
        },
    };
    match parse_addr_operand(parts[1], lineno, labels) {
        Ok(addr) => Ok((reg, addr)),
        Err(e) => Err(e),
    }
}

} // verus!
