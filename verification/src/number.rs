//! Unsigned number literals, decimal and hexadecimal.

use crate::text::{tail, trim, trimmed};
use vstd::prelude::*;

verus! {

/// The base that a literal is written in.
#[derive(Clone, Copy, PartialEq, Eq, Debug, Structural)]
pub enum Radix {
    /// Base 10.
    Decimal,
    /// Base 16, with the digits `a` to `f` in either case.
    Hex,
}

impl Radix {
    /// The base as a number.
    pub open spec fn base(self) -> nat {
        match self {
            Radix::Decimal => 10,
            Radix::Hex => 16,
        }
    }

    /// The value of `c` as a digit of this base.
    pub open spec fn digit(self, c: char) -> Option<nat> {
        if '0' <= c && c <= '9' {
            Some((c as u32 - 48) as nat)
        } else if self == Radix::Hex && 'a' <= c && c <= 'f' {
            Some((c as u32 - 87) as nat)
        } else if self == Radix::Hex && 'A' <= c && c <= 'F' {
            Some((c as u32 - 55) as nat)
        } else {
            None
        }
    }

    /// Whether every character of `s` is a digit of this base.
    pub open spec fn all_digits(self, s: Seq<char>) -> bool {
        forall|i: int| 0 <= i < s.len() ==> (#[trigger] self.digit(s[i])) is Some
    }

    /// The number that the digits `s` write, the first digit counting most.
    pub open spec fn value(self, s: Seq<char>) -> nat
        decreases s.len(),
    {
        if s.len() == 0 {
            0
        } else {
            self.value(s.drop_last()) * self.base() + self.digit(s.last()).unwrap_or(0)
        }
    }

    /// The number that literal `s` writes: one or more digits and nothing
    /// else, no sign either. `None` where `s` is no such literal. The number
    /// is not bounded.
    pub open spec fn literal(self, s: Seq<char>) -> Option<nat> {
        if s.len() > 0 && self.all_digits(s) {
            Some(self.value(s))
        } else {
            None
        }
    }

    /// The base as a number.
    pub fn base_of(self) -> (b: usize)
        ensures
            b == self.base(),
    {
        match self {
            Radix::Decimal => 10,
            Radix::Hex => 16,
        }
    }

    /// The value of `c` as a digit of this base.
    pub fn digit_of(self, c: char) -> (d: Option<usize>)
        ensures
            d is Some <==> self.digit(c) is Some,
            d is Some ==> d.unwrap() == self.digit(c).unwrap() && d.unwrap() < self.base(),
    {
        let n = c as u32;
        if '0' <= c && c <= '9' {
            Some((n - 48) as usize)
        } else if matches!(self, Radix::Hex) && 'a' <= c && c <= 'f' {
            Some((n - 87) as usize)
        } else if matches!(self, Radix::Hex) && 'A' <= c && c <= 'F' {
            Some((n - 55) as usize)
        } else {
            None
        }
    }
}

/// What reading a literal against a limit gives.
#[derive(Clone, Copy, PartialEq, Eq, Debug, Structural)]
pub enum Parsed {
    /// The text is no literal.
    Malformed,
    /// The text is a literal, and its number is above the limit.
    TooLarge,
    /// The text is a literal of this number, which is within the limit.
    Value(usize),
}

/// What reading literal `s` in base `radix` against `limit` gives.
pub open spec fn bounded(radix: Radix, s: Seq<char>, limit: usize) -> Parsed {
    match radix.literal(s) {
        None => Parsed::Malformed,
        Some(v) => if v > limit {
            Parsed::TooLarge
        } else {
            Parsed::Value(v as usize)
        },
    }
}

/// Whether `s` starts with `0x` or `0X`.
pub open spec fn has_hex_prefix(s: Seq<char>) -> bool {
    s.len() >= 2 && s[0] == '0' && (s[1] == 'x' || s[1] == 'X')
}

/// The number that `s` writes, white space around it aside: hexadecimal after
/// `0x` or `0X`, decimal otherwise. `None` where `s` writes no number.
pub open spec fn number_in(s: Seq<char>) -> Option<nat> {
    let t = trim(s);
    if has_hex_prefix(t) {
        Radix::Hex.literal(t.skip(2))
    } else {
        Radix::Decimal.literal(t)
    }
}

/// The value of a run of digits with one more digit behind it.
pub proof fn lemma_value_push(radix: Radix, s: Seq<char>, c: char)
    ensures
        radix.value(s.push(c)) == radix.value(s) * radix.base() + radix.digit(c).unwrap_or(0),
{
    assert(s.push(c).drop_last() =~= s);
}

/// Reads literal `s` in base `radix`. No number above `limit` is computed, so
/// a literal of any length can be read.
pub fn parse_bounded(radix: Radix, s: &[char], limit: usize) -> (r: Parsed)
    ensures
        r == bounded(radix, s@, limit),
{
    let digits = s;
    if digits.len() == 0 {
        return Parsed::Malformed;
    }
    let base = radix.base_of();
    let mut acc: usize = 0;
    let mut large = false;
    let mut i: usize = 0;
    assert(digits@.take(0) =~= Seq::<char>::empty());
    while i < digits.len()
        invariant
            i <= digits@.len(),
            digits@.len() > 0,
            digits@ == s@,
            base == radix.base(),
            radix.all_digits(digits@.take(i as int)),
            !large ==> acc == radix.value(digits@.take(i as int)) && acc <= limit,
            large ==> radix.value(digits@.take(i as int)) > limit,
        decreases digits@.len() - i,
    {
        let ghost before = digits@.take(i as int);
        let ghost v = radix.value(before);
        proof {
            lemma_value_push(radix, before, digits@[i as int]);
            assert(before.push(digits@[i as int]) =~= digits@.take(i + 1));
        }
        match radix.digit_of(digits[i]) {
            None => {
                assert(!radix.all_digits(digits@)) by {
                    assert(radix.digit(digits@[i as int]) is None);
                }
                return Parsed::Malformed;
            },
            Some(d) => {
                assert(radix.all_digits(digits@.take(i + 1))) by {
                    assert forall|j: int| 0 <= j < i + 1 implies (#[trigger] radix.digit(
                        digits@.take(i + 1)[j],
                    )) is Some by {
                        if j < i {
                            assert(digits@.take(i + 1)[j] == before[j]);
                        }
                    }
                }
                if large {
                    assert(v * base + d >= v) by (nonlinear_arith)
                        requires
                            base >= 1,
                            v >= 0,
                            d >= 0,
                    ;
                } else if d > limit || acc > (limit - d) / base {
                    large = true;
                    assert(v * base + d > limit) by (nonlinear_arith)
                        requires
                            base >= 1,
                            v >= 0,
                            d >= 0,
                            d > limit || v > (limit - d) / (base as int),
                    ;
                } else {
                    assert(v * base + d <= limit) by (nonlinear_arith)
                        requires
                            base >= 1,
                            v >= 0,
                            0 <= d <= limit,
                            v <= (limit - d) / (base as int),
                    ;
                    acc = acc * base + d;
                }
            },
        }
        i += 1;
    }
    assert(digits@.take(i as int) =~= digits@);
    if large {
        Parsed::TooLarge
    } else {
        Parsed::Value(acc)
    }
}

/// Splits a hexadecimal prefix off: the base that `s` is written in, and the
/// literal itself.
pub fn split_radix(s: &[char]) -> (r: (Radix, &[char]))
    ensures
        has_hex_prefix(s@) ==> r.0 == Radix::Hex && r.1@ == s@.skip(2),
        !has_hex_prefix(s@) ==> r.0 == Radix::Decimal && r.1@ == s@,
{
    if s.len() >= 2 && s[0] == '0' && (s[1] == 'x' || s[1] == 'X') {
        (Radix::Hex, tail(s, 2))
    } else {
        (Radix::Decimal, s)
    }
}

/// Reads an address or a count as a command line gives it: the number that
/// `s` writes, or `None` where it writes none or one that `usize` cannot hold.
pub fn parse_num(s: &[char]) -> (r: Option<usize>)
    ensures
        r == match number_in(s@) {
            Some(v) if v <= usize::MAX => Some(v as usize),
            _ => None,
        },
{
    let (radix, literal) = split_radix(trimmed(s));
    match parse_bounded(radix, literal, usize::MAX) {
        Parsed::Value(v) => Some(v),
        _ => None,
    }
}

} // verus!
