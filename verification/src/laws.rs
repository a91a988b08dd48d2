//! What holds of the assembler and the CPU together: the CPU reads an
//! instruction as the assembler wrote it, the layout of the first pass agrees
//! with the bytes of the second, and a label stands for the address of its
//! declaration wherever it is used.

use crate::assembler::{
    address_before, assembled, clean, encoded, first_layout_error, instruction, label_table,
    labels_upto, layout_error, statement, statements, Statement,
};
use crate::error::{decimal_digits, digit_char, AsmError, AsmErrorKind};
use crate::number::Radix;
use crate::isa::{lemma_decode_encoding, Instr, Mnemonic};
use crate::machine::Machine;
use crate::memory::{cell, lemma_written_wraps};
use crate::operand::address_in;
use crate::text::{first_in, lemma_trim_is_trimmed, lines_of, Class};
use vstd::prelude::*;

verus! {

/// Assembling is a function of the source: the same source gives the same
/// bytes, or the same rejection.
pub proof fn law_assembly_is_deterministic(a: Seq<char>, b: Seq<char>)
    requires
        a == b,
    ensures
        assembled(a) == assembled(b),
{
}

/// An address 256 further on is the same cell.
pub proof fn law_addresses_wrap(addr: int)
    ensures
        cell(addr + 256) == cell(addr),
        0 <= cell(addr) < 256,
{
}

/// An instruction that the second pass accepts is of the mnemonic of its
/// line and names registers of the machine only.
pub proof fn lemma_instruction_is_valid(op: Mnemonic, ops: Seq<char>, labels: Map<Seq<char>, u8>)
    requires
        instruction(op, ops, labels) is Ok,
    ensures
        instruction(op, ops, labels).unwrap().mnemonic() == op,
        instruction(op, ops, labels).unwrap().valid(),
{
    reveal(instruction);
}

/// The CPU reads an instruction as it was encoded. Let an instruction that
/// names registers of the machine only be encoded and loaded at any address
/// of any running machine. Then the instruction that the machine fetches is
/// that instruction, the step costs the cycles of its mnemonic, and the step
/// moves the program counter on by the length of the encoding and does what
/// the instruction says.
pub proof fn law_step_executes_encoding(m: Machine, i: Instr, addr: int)
    requires
        m.wf(),
        !m.halted,
        addr >= 0,
        i.valid(),
    ensures
        m.loaded(i.encoding(), addr).fetched() == i,
        m.loaded(i.encoding(), addr).cost() == i.mnemonic().cycles(),
        i.encoding().len() == i.mnemonic().size(),
        m.loaded(i.encoding(), addr).step() == (Machine {
            pc: cell(addr + i.encoding().len()),
            ..m.loaded(i.encoding(), addr)
        }).executed(i),
{
    let bytes = i.encoding();
    let m1 = m.loaded(bytes, addr);
    lemma_decode_encoding(i);
    lemma_written_wraps(m.mem, addr, bytes, 0);
    assert(m1.opcode() == bytes[0]);
    if bytes.len() == 2 {
        lemma_written_wraps(m.mem, addr, bytes, 1);
        assert(m1.operand() == bytes[1]);
    }
}

/// A source of one instruction assembles to the encoding of that
/// instruction, which names registers of the machine only. With
/// `law_step_executes_encoding` this says that assembling an instruction,
/// loading the bytes and stepping once does what the instruction says.
pub proof fn law_single_instruction_assembles(
    line: Seq<char>,
    op: Mnemonic,
    ops: Seq<char>,
    i: Instr,
)
    requires
        first_in(line, Class::Exactly('\n')) == line.len(),
        statement(line) == Statement::Code(op, ops),
        instruction(op, ops, Map::<Seq<char>, u8>::empty()) == Ok::<Instr, AsmErrorKind>(i),
    ensures
        assembled(line) == Ok::<Seq<u8>, AsmError>(i.encoding()),
        i.valid(),
        i.mnemonic() == op,
{
    let lines = lines_of(line);
    assert(lines =~= seq![line]);
    let stmts = statements(lines);
    assert(stmts[0] == statement(line));
    assert(first_layout_error(stmts, 0) is None);
    assert(layout_error(stmts, 0) is None);
    assert(first_layout_error(stmts, 1) is None);
    assert(labels_upto(stmts, 0) == Map::<Seq<char>, u8>::empty());
    assert(label_table(stmts) == Map::<Seq<char>, u8>::empty());
    assert(encoded(stmts, label_table(stmts), 0) == Ok::<Seq<u8>, AsmError>(Seq::empty()));
    assert(Seq::<u8>::empty() + i.encoding() =~= i.encoding());
    lemma_instruction_is_valid(op, ops, Map::<Seq<char>, u8>::empty());
}

/// The first pass and the second agree on sizes: a line that is no `ORG`
/// moves the address of the layout on by as many bytes as the line encodes
/// to.
pub proof fn law_layout_matches_encoding(
    stmts: Seq<Statement>,
    labels: Map<Seq<char>, u8>,
    k: int,
)
    requires
        0 <= k < stmts.len(),
        encoded(stmts, labels, k + 1) is Ok,
        !(stmts[k] is Org),
    ensures
        encoded(stmts, labels, k) is Ok,
        encoded(stmts, labels, k + 1).unwrap().len() >= encoded(stmts, labels, k).unwrap().len(),
        address_before(stmts, k + 1) == (address_before(stmts, k) + (encoded(
            stmts,
            labels,
            k + 1,
        ).unwrap().len() - encoded(stmts, labels, k).unwrap().len())) % 256,
{
    lemma_address_in_range(stmts, k);
    match stmts[k] {
        Statement::Code(op, ops) => {
            lemma_instruction_is_valid(op, ops, labels);
            lemma_decode_encoding(instruction(op, ops, labels).unwrap());
        },
        _ => {},
    }
}

/// The address of a line is an address of the memory.
pub proof fn lemma_address_in_range(stmts: Seq<Statement>, k: int)
    ensures
        0 <= address_before(stmts, k) < 256,
    decreases k,
{
    if k > 0 {
        lemma_address_in_range(stmts, k - 1);
    }
}

/// Where the first pass rejects nothing among the first `k` lines, a label
/// that one of them declares stands for the address of that line.
pub proof fn lemma_label_recorded(stmts: Seq<Statement>, j: int, k: int, name: Seq<char>)
    requires
        0 <= j < k <= stmts.len(),
        stmts[j] == Statement::Label(name),
        first_layout_error(stmts, k) is None,
    ensures
        labels_upto(stmts, k).contains_key(name),
        labels_upto(stmts, k)[name] == address_before(stmts, j) as u8,
    decreases k,
{
    assert(first_layout_error(stmts, k - 1) is None);
    assert(layout_error(stmts, k - 1) is None);
    if k - 1 > j {
        lemma_label_recorded(stmts, j, k - 1, name);
    }
}

/// A label stands for the address of its declaration, whether it is used
/// before or after it. In a source that the first pass accepts, let line `j`
/// declare a label. Then an address operand that is the label's name is the
/// address of line `j`, on whatever line the operand stands.
pub proof fn law_label_resolution_ignores_order(lines: Seq<Seq<char>>, j: int, name: Seq<char>)
    requires
        0 <= j < lines.len(),
        statement(lines[j]) == Statement::Label(name),
        first_layout_error(statements(lines), lines.len() as int) is None,
    ensures
        label_table(statements(lines)).contains_key(name),
        address_in(name, label_table(statements(lines))) == Ok::<u8, AsmErrorKind>(
            address_before(statements(lines), j) as u8,
        ),
{
    let stmts = statements(lines);
    assert(stmts[j] == statement(lines[j]));
    lemma_trim_is_trimmed(clean(lines[j]).drop_last());
    lemma_label_recorded(stmts, j, stmts.len() as int, name);
}

/// On a rejection nothing is encoded, and the rejection names a line of the
/// source.
pub proof fn law_rejection_names_a_line(stmts: Seq<Statement>, e: AsmError)
    requires
        stmts.len() <= usize::MAX,
        crate::assembler::assembled_statements(stmts) == Err::<Seq<u8>, AsmError>(e),
    ensures
        1 <= e.line <= stmts.len(),
{
    if first_layout_error(stmts, stmts.len() as int) is Some {
        lemma_layout_error_line(stmts, stmts.len() as int);
    } else {
        lemma_encoded_error_line(stmts, label_table(stmts), stmts.len() as int);
    }
}

/// A rejection of the first pass among the first `k` lines names one of
/// them, and it is the first line that the pass rejects.
pub proof fn lemma_layout_error_line(stmts: Seq<Statement>, k: int)
    requires
        0 <= k <= stmts.len() <= usize::MAX,
        first_layout_error(stmts, k) is Some,
    ensures
        1 <= first_layout_error(stmts, k).unwrap().line <= k,
        layout_error(stmts, first_layout_error(stmts, k).unwrap().line - 1) == Some(
            first_layout_error(stmts, k).unwrap().kind,
        ),
        forall|i: int|
            0 <= i < first_layout_error(stmts, k).unwrap().line - 1 ==> (#[trigger] layout_error(
                stmts,
                i,
            )) is None,
    decreases k,
{
    if k > 0 {
        if first_layout_error(stmts, k - 1) is Some {
            lemma_layout_error_line(stmts, k - 1);
        } else {
            lemma_no_layout_error(stmts, k - 1);
        }
    }
}

/// Where the first pass rejects nothing among the first `k` lines, it
/// rejects none of them.
pub proof fn lemma_no_layout_error(stmts: Seq<Statement>, k: int)
    requires
        first_layout_error(stmts, k) is None,
    ensures
        forall|i: int| 0 <= i < k ==> (#[trigger] layout_error(stmts, i)) is None,
    decreases k,
{
    if k > 0 {
        lemma_no_layout_error(stmts, k - 1);
    }
}

/// A rejection of the second pass among the first `k` lines names one of
/// them.
pub proof fn lemma_encoded_error_line(
    stmts: Seq<Statement>,
    labels: Map<Seq<char>, u8>,
    k: int,
)
    requires
        0 <= k <= stmts.len() <= usize::MAX,
        encoded(stmts, labels, k) is Err,
    ensures
        1 <= encoded(stmts, labels, k)->Err_0.line <= k,
    decreases k,
{
    if k > 0 {
        if encoded(stmts, labels, k - 1) is Err {
            lemma_encoded_error_line(stmts, labels, k - 1);
        }
    }
}

/// The digits that write a number are digits, and are read as that number.
pub proof fn lemma_decimal_digits_value(n: nat)
    ensures
        decimal_digits(n).len() > 0,
        Radix::Decimal.all_digits(decimal_digits(n)),
        Radix::Decimal.value(decimal_digits(n)) == n,
    decreases n,
{
    let s = decimal_digits(n);
    if n < 10 {
        assert(Radix::Decimal.digit(digit_char(n)) == Some(n));
        assert(s.drop_last() =~= Seq::<char>::empty());
        assert(Radix::Decimal.value(s.drop_last()) == 0);
        assert(s.last() == digit_char(n));
        assert(Radix::Decimal.value(s) == 0 * 10 + n);
    } else {
        let front = decimal_digits(n / 10);
        lemma_decimal_digits_value(n / 10);
        assert(Radix::Decimal.digit(digit_char(n % 10)) == Some(n % 10));
        assert(s.drop_last() =~= front);
        assert forall|i: int| 0 <= i < s.len() implies (#[trigger] Radix::Decimal.digit(
            s[i],
        )) is Some by {
            if i < front.len() {
                assert(s[i] == front[i]);
            }
        }
        assert(s.last() == digit_char(n % 10));
        assert(Radix::Decimal.value(s) == (n / 10) * 10 + n % 10);
    }
}

/// The line number of a message can be read back: the digits that
/// `decimal_digits` writes are a decimal literal of the number.
pub proof fn law_decimal_reads_back(n: nat)
    ensures
        Radix::Decimal.literal(decimal_digits(n)) == Some(n),
{
    lemma_decimal_digits_value(n);
}

} // verus!
