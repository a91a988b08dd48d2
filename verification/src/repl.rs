//! The commands of the interactive shell, read from a line of input.

use crate::number::{number_in, parse_bounded, parse_num, Parsed, Radix};
use crate::text::{chars_of, matches_word, split_words, upper_text, views, words};
use vstd::prelude::*;

verus! {

/// A command of the shell.
#[derive(Clone, Copy, PartialEq, Eq, Debug, Structural)]
pub enum Command {
    /// Nothing: the line holds no word.
    Empty,
    /// Show the commands.
    Help,
    /// Read assembly source, assemble it and load it at address 0.
    Asm,
    /// Run until the CPU halts.
    Run,
    /// Run until the CPU halts and show every instruction.
    Trace,
    /// Execute this many instructions.
    Step(usize),
    /// Show the state of the CPU.
    Dump,
    /// Show the registers.
    Regs,
    /// Show `len` bytes of memory from `addr` on.
    Mem { addr: usize, len: usize },
    /// `mem` without an address that can be read.
    MemWithoutAddress,
    /// Leave the shell.
    Quit,
    /// A word that is no command.
    Unknown,
}

/// How many instructions `step` executes where the line does not say.
pub const DEFAULT_STEPS: usize = 1;

/// How many bytes `mem` shows where the line does not say.
pub const DEFAULT_MEM_LEN: usize = 16;

/// The count that the word at `index` writes in base 10, or `fallback` where
/// there is no such word, or it writes no number that `usize` holds.
pub open spec fn count_at(w: Seq<Seq<char>>, index: int, fallback: usize) -> usize {
    if index < w.len() {
        match Radix::Decimal.literal(w[index]) {
            Some(v) if v <= usize::MAX => v as usize,
            _ => fallback,
        }
    } else {
        fallback
    }
}

/// The command that a line of input gives. The first word names the command,
/// in either case; `step` takes a count, `mem` an address, decimal or
/// hexadecimal after `0x`, and a count. Further words are not looked at.
pub open spec fn command(line: Seq<char>) -> Command {
    let w = words(line);
    if w.len() == 0 {
        Command::Empty
    } else {
        let name = upper_text(w[0]);
        if name == seq!['H', 'E', 'L', 'P'] {
            Command::Help
        } else if name == seq!['A', 'S', 'M'] {
            Command::Asm
        } else if name == seq!['R', 'U', 'N'] {
            Command::Run
        } else if name == seq!['T', 'R', 'A', 'C', 'E'] {
            Command::Trace
        } else if name == seq!['S', 'T', 'E', 'P'] {
            Command::Step(count_at(w, 1, DEFAULT_STEPS))
        } else if name == seq!['D', 'U', 'M', 'P'] {
            Command::Dump
        } else if name == seq!['R', 'E', 'G', 'S'] {
            Command::Regs
        } else if name == seq!['M', 'E', 'M'] {
            if w.len() > 1 && number_in(w[1]) is Some && number_in(w[1]).unwrap() <= usize::MAX {
                Command::Mem {
                    addr: number_in(w[1]).unwrap() as usize,
                    len: count_at(w, 2, DEFAULT_MEM_LEN),
                }
            } else {
                Command::MemWithoutAddress
            }
        } else if name == seq!['E', 'X', 'I', 'T'] || name == seq!['Q', 'U', 'I', 'T'] {
            Command::Quit
        } else {
            Command::Unknown
        }
    }
}

/// Reads the count that the word at `index` writes.
fn parse_count(w: &Vec<&[char]>, index: usize, fallback: usize) -> (n: usize)
    ensures
        n == count_at(views(w@), index as int, fallback),
{
    if index < w.len() {
        assert(views(w@)[index as int] == w@[index as int]@);
        match parse_bounded(Radix::Decimal, w[index], usize::MAX) {
            Parsed::Value(v) => v,
            _ => fallback,
        }
    } else {
        fallback
    }
}

/// Reads a command from the characters of a line of input.
pub fn parse_command_chars(line: &[char]) -> (c: Command)
    ensures
        c == command(line@),
{
    let w = split_words(line);
    if w.len() == 0 {
        return Command::Empty;
    }
    let name = w[0];
    assert(views(w@)[0] == name@);
    let help = ['H', 'E', 'L', 'P'];
    let enter = ['A', 'S', 'M'];
    let run = ['R', 'U', 'N'];
    let trace = ['T', 'R', 'A', 'C', 'E'];
    let step = ['S', 'T', 'E', 'P'];
    let dump = ['D', 'U', 'M', 'P'];
    let regs = ['R', 'E', 'G', 'S'];
    let mem = ['M', 'E', 'M'];
    let exit = ['E', 'X', 'I', 'T'];
    let quit = ['Q', 'U', 'I', 'T'];
    assert(help@ =~= seq!['H', 'E', 'L', 'P']);
    assert(enter@ =~= seq!['A', 'S', 'M']);
    assert(run@ =~= seq!['R', 'U', 'N']);
    assert(trace@ =~= seq!['T', 'R', 'A', 'C', 'E']);
    assert(step@ =~= seq!['S', 'T', 'E', 'P']);
    assert(dump@ =~= seq!['D', 'U', 'M', 'P']);
    assert(regs@ =~= seq!['R', 'E', 'G', 'S']);
    assert(mem@ =~= seq!['M', 'E', 'M']);
    assert(exit@ =~= seq!['E', 'X', 'I', 'T']);
    assert(quit@ =~= seq!['Q', 'U', 'I', 'T']);
    if matches_word(name, help.as_slice()) {
        Command::Help
    } else if matches_word(name, enter.as_slice()) {
        Command::Asm
    } else if matches_word(name, run.as_slice()) {
        Command::Run
    } else if matches_word(name, trace.as_slice()) {
        Command::Trace
    } else if matches_word(name, step.as_slice()) {
        Command::Step(parse_count(&w, 1, DEFAULT_STEPS))
    } else if matches_word(name, dump.as_slice()) {
        Command::Dump
    } else if matches_word(name, regs.as_slice()) {
        Command::Regs
    } else if matches_word(name, mem.as_slice()) {
        if w.len() > 1 {
            assert(views(w@)[1] == w@[1]@);
            match parse_num(w[1]) {
                Some(addr) => Command::Mem { addr, len: parse_count(&w, 2, DEFAULT_MEM_LEN) },
                None => Command::MemWithoutAddress,
            }
        } else {
            Command::MemWithoutAddress
        }
    } else if matches_word(name, exit.as_slice()) || matches_word(name, quit.as_slice()) {
        Command::Quit
    } else {
        Command::Unknown
    }
}

/// Reads a command from a line of input.
pub fn parse_command(line: &str) -> (c: Command)
    ensures
        c == command(line@),
{
    let text = chars_of(line);
    parse_command_chars(text.as_slice())
}

} // verus!
