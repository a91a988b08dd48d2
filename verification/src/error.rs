//! What the assembler reports when it rejects its input.

use vstd::prelude::*;
use vstd::string::*;

verus! {

/// Why a line was rejected.
#[derive(Clone, Copy, PartialEq, Eq, Debug, Structural)]
pub enum AsmErrorKind {
    /// A label declaration with nothing before the colon.
    EmptyLabel,
    /// A label that an earlier line has declared already.
    DuplicateLabel,
    /// An `ORG` directive without an address.
    OrgWithoutAddress,
    /// A line that starts with no known mnemonic.
    UnknownMnemonic,
    /// An instruction with too few or too many operands.
    OperandCount,
    /// An operand that should name a register and is no `R` or `r` followed
    /// by one decimal digit.
    InvalidRegister,
    /// A register with an index above 3.
    RegisterOutOfRange,
    /// An operand that should be a number and is no literal.
    InvalidNumber,
    /// A literal of a number above 255.
    NumberOutOfRange,
    /// An address that is neither a declared label nor a literal.
    UnresolvedAddress,
}

/// A rejection: the line of the source that it is about, counted from 1, and
/// the reason.
#[derive(Clone, Copy, PartialEq, Eq, Debug, Structural)]
pub struct AsmError {
    /// The line of the source, counted from 1.
    pub line: usize,
    /// The reason.
    pub kind: AsmErrorKind,
}

/// The character that writes the digit `d`.
pub open spec fn digit_char(d: nat) -> char {
    ((48 + d) as u8) as char
}

/// The digits that write `n` in base 10, without leading zeros.
pub open spec fn decimal_digits(n: nat) -> Seq<char>
    decreases n,
{
    if n < 10 {
        seq![digit_char(n)]
    } else {
        decimal_digits(n / 10).push(digit_char(n % 10))
    }
}

impl AsmErrorKind {
    /// The reason in words.
    pub open spec fn words(self) -> Seq<char> {
        match self {
            AsmErrorKind::EmptyLabel => "empty label"@,
            AsmErrorKind::DuplicateLabel => "duplicate label"@,
            AsmErrorKind::OrgWithoutAddress => "ORG without address"@,
            AsmErrorKind::UnknownMnemonic => "unknown mnemonic"@,
            AsmErrorKind::OperandCount => "wrong number of operands"@,
            AsmErrorKind::InvalidRegister => "invalid register"@,
            AsmErrorKind::RegisterOutOfRange => "register out of range (R0..R3)"@,
            AsmErrorKind::InvalidNumber => "invalid number"@,
            AsmErrorKind::NumberOutOfRange => "number out of range (0..255)"@,
            AsmErrorKind::UnresolvedAddress => "address is neither a label nor a number"@,
        }
    }

    /// The reason in words.
    pub fn description(self) -> (s: &'static str)
        ensures
            s@ == self.words(),
    {
        match self {
            AsmErrorKind::EmptyLabel => "empty label",
            AsmErrorKind::DuplicateLabel => "duplicate label",
            AsmErrorKind::OrgWithoutAddress => "ORG without address",
            AsmErrorKind::UnknownMnemonic => "unknown mnemonic",
            AsmErrorKind::OperandCount => "wrong number of operands",
            AsmErrorKind::InvalidRegister => "invalid register",
            AsmErrorKind::RegisterOutOfRange => "register out of range (R0..R3)",
            AsmErrorKind::InvalidNumber => "invalid number",
            AsmErrorKind::NumberOutOfRange => "number out of range (0..255)",
            AsmErrorKind::UnresolvedAddress => "address is neither a label nor a number",
        }
    }
}

/// The digit `d` as text.
pub fn digit_text(d: usize) -> (s: &'static str)
    requires
        d < 10,
    ensures
        s@ == seq![digit_char(d as nat)],
{
    proof {
        reveal_strlit("0");
        reveal_strlit("1");
        reveal_strlit("2");
        reveal_strlit("3");
        reveal_strlit("4");
        reveal_strlit("5");
        reveal_strlit("6");
        reveal_strlit("7");
        reveal_strlit("8");
        reveal_strlit("9");
    }
    let s = if d == 0 {
        "0"
    } else if d == 1 {
        "1"
    } else if d == 2 {
        "2"
    } else if d == 3 {
        "3"
    } else if d == 4 {
        "4"
    } else if d == 5 {
        "5"
    } else if d == 6 {
        "6"
    } else if d == 7 {
        "7"
    } else if d == 8 {
        "8"
    } else {
        "9"
    };
    assert(s@ =~= seq![digit_char(d as nat)]);
    s
}

/// `n` in base 10.
pub fn decimal(n: usize) -> (s: String)
    ensures
        s@ == decimal_digits(n as nat),
    decreases n,
{
    if n < 10 {
        String::from_str(digit_text(n))
    } else {
        let mut s = decimal(n / 10);
        s.append(digit_text(n % 10));
        assert(s@ =~= decimal_digits(n as nat));
        s
    }
}

impl AsmError {
    /// The rejection as a sentence: the word `line`, the number of the line,
    /// a colon and the reason.
    pub open spec fn sentence(self) -> Seq<char> {
        "line "@ + decimal_digits(self.line as nat) + ": "@ + self.kind.words()
    }

    /// The rejection as a sentence for a reader.
    pub fn message(&self) -> (s: String)
        ensures
            s@ == self.sentence(),
    {
        let mut s = String::from_str("line ");
        let number = decimal(self.line);
        s.append(number.as_str());
        s.append(": ");
        s.append(self.kind.description());
        s
    }
}

} // verus!
