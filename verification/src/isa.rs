//! The instruction set: one table of mnemonics, opcodes, sizes and cycle
//! costs, used by the assembler to encode and by the CPU to decode.
//!
//! An instruction is one opcode byte, followed by one operand byte where the
//! instruction has size 2.
//!
//! | mnemonic | opcode byte  | operand byte     | size | cycles |
//! |----------|--------------|------------------|------|--------|
//! | `LDI`    | `0x10 \| reg` | immediate        | 2    | 2      |
//! | `ADD`    | `0x20 \| dst` | source register  | 2    | 3      |
//! | `LOAD`   | `0x30 \| reg` | address          | 2    | 4      |
//! | `JMP`    | `0x40`       | address          | 2    | 3      |
//! | `OUT`    | `0x50 \| reg` |                  | 1    | 4      |
//! | `SUB`    | `0x60 \| dst` | source register  | 2    | 3      |
//! | `STORE`  | `0x70 \| reg` | address          | 2    | 4      |
//! | `JZ`     | `0x80 \| reg` | address          | 2    | 3      |
//! | `HLT`    | `0xFF`       |                  | 1    | 1      |
//! | `NOP`    | `0x00`       |                  | 1    | 1      |
//!
//! A family that packs a register owns a whole high nibble: the decoder looks
//! at the high nibble for the family and at the low two bits for the
//! register. `JMP`, `HLT` and `NOP` are single bytes. Every byte that the table
//! does not assign executes as `NOP`. A memory access costs 4 cycles, load and
//! store alike.

use crate::text::{matches_word, upper_text};
use vstd::prelude::*;

verus! {

/// The operations of the machine.
#[derive(Clone, Copy, PartialEq, Eq, Debug, Structural)]
pub enum Mnemonic {
    /// Load an immediate byte into a register.
    Ldi,
    /// Add a register to a register, wrapping.
    Add,
    /// Subtract a register from a register, wrapping.
    Sub,
    /// Load a register from memory.
    Load,
    /// Store a register to memory.
    Store,
    /// Jump.
    Jmp,
    /// Jump if a register is zero.
    Jz,
    /// Emit a register's value.
    Out,
    /// Halt for good.
    Hlt,
    /// Do nothing.
    Nop,
}

/// What operands an instruction takes in assembly source.
#[derive(Clone, Copy, PartialEq, Eq, Debug, Structural)]
pub enum Shape {
    /// No operand.
    Bare,
    /// One register.
    Reg,
    /// A register and an immediate byte.
    RegImm,
    /// Two registers.
    RegReg,
    /// A register and an address.
    RegAddr,
    /// An address.
    Addr,
}

impl Mnemonic {
    /// The opcode byte, before a register is packed into it.
    pub open spec fn base(self) -> u8 {
        match self {
            Mnemonic::Ldi => 0x10,
            Mnemonic::Add => 0x20,
            Mnemonic::Load => 0x30,
            Mnemonic::Jmp => 0x40,
            Mnemonic::Out => 0x50,
            Mnemonic::Sub => 0x60,
            Mnemonic::Store => 0x70,
            Mnemonic::Jz => 0x80,
            Mnemonic::Hlt => 0xFF,
            Mnemonic::Nop => 0x00,
        }
    }

    /// The operands in assembly source.
    pub open spec fn shape(self) -> Shape {
        match self {
            Mnemonic::Ldi => Shape::RegImm,
            Mnemonic::Add | Mnemonic::Sub => Shape::RegReg,
            Mnemonic::Load | Mnemonic::Store | Mnemonic::Jz => Shape::RegAddr,
            Mnemonic::Jmp => Shape::Addr,
            Mnemonic::Out => Shape::Reg,
            Mnemonic::Hlt | Mnemonic::Nop => Shape::Bare,
        }
    }

    /// Whether the low two bits of the opcode byte hold a register.
    pub open spec fn packs_register(self) -> bool {
        self.shape() != Shape::Addr && self.shape() != Shape::Bare
    }

    /// The encoded size in bytes: 1 or 2.
    pub open spec fn size(self) -> nat {
        match self.shape() {
            Shape::Bare | Shape::Reg => 1,
            _ => 2,
        }
    }

    /// The cycles that executing the instruction takes.
    pub open spec fn cycles(self) -> nat {
        match self {
            Mnemonic::Ldi => 2,
            Mnemonic::Add | Mnemonic::Sub => 3,
            Mnemonic::Load | Mnemonic::Store => 4,
            Mnemonic::Jmp | Mnemonic::Jz => 3,
            Mnemonic::Out => 4,
            Mnemonic::Hlt | Mnemonic::Nop => 1,
        }
    }

    /// The mnemonic as assembly source spells it, in upper case.
    pub open spec fn word(self) -> Seq<char> {
        match self {
            Mnemonic::Ldi => seq!['L', 'D', 'I'],
            Mnemonic::Add => seq!['A', 'D', 'D'],
            Mnemonic::Sub => seq!['S', 'U', 'B'],
            Mnemonic::Load => seq!['L', 'O', 'A', 'D'],
            Mnemonic::Store => seq!['S', 'T', 'O', 'R', 'E'],
            Mnemonic::Jmp => seq!['J', 'M', 'P'],
            Mnemonic::Jz => seq!['J', 'Z'],
            Mnemonic::Out => seq!['O', 'U', 'T'],
            Mnemonic::Hlt => seq!['H', 'L', 'T'],
            Mnemonic::Nop => seq!['N', 'O', 'P'],
        }
    }

    /// The mnemonic that `s` spells, the case of ASCII letters aside.
    pub open spec fn named(s: Seq<char>) -> Option<Mnemonic> {
        let up = upper_text(s);
        if up == Mnemonic::Ldi.word() {
            Some(Mnemonic::Ldi)
        } else if up == Mnemonic::Add.word() {
            Some(Mnemonic::Add)
        } else if up == Mnemonic::Sub.word() {
            Some(Mnemonic::Sub)
        } else if up == Mnemonic::Load.word() {
            Some(Mnemonic::Load)
        } else if up == Mnemonic::Store.word() {
            Some(Mnemonic::Store)
        } else if up == Mnemonic::Jmp.word() {
            Some(Mnemonic::Jmp)
        } else if up == Mnemonic::Jz.word() {
            Some(Mnemonic::Jz)
        } else if up == Mnemonic::Out.word() {
            Some(Mnemonic::Out)
        } else if up == Mnemonic::Hlt.word() {
            Some(Mnemonic::Hlt)
        } else if up == Mnemonic::Nop.word() {
            Some(Mnemonic::Nop)
        } else {
            None
        }
    }

    /// Whether `s` spells this mnemonic, the case of ASCII letters aside.
    pub fn spelled_by(self, s: &[char]) -> (r: bool)
        ensures
            r == (upper_text(s@) == self.word()),
    {
        match self {
            Mnemonic::Ldi => {
                let w = ['L', 'D', 'I'];
                assert(w@ =~= self.word());
                matches_word(s, w.as_slice())
            },
            Mnemonic::Add => {
                let w = ['A', 'D', 'D'];
                assert(w@ =~= self.word());
                matches_word(s, w.as_slice())
            },
            Mnemonic::Sub => {
                let w = ['S', 'U', 'B'];
                assert(w@ =~= self.word());
                matches_word(s, w.as_slice())
            },
            Mnemonic::Load => {
                let w = ['L', 'O', 'A', 'D'];
                assert(w@ =~= self.word());
                matches_word(s, w.as_slice())
            },
            Mnemonic::Store => {
                let w = ['S', 'T', 'O', 'R', 'E'];
                assert(w@ =~= self.word());
                matches_word(s, w.as_slice())
            },
            Mnemonic::Jmp => {
                let w = ['J', 'M', 'P'];
                assert(w@ =~= self.word());
                matches_word(s, w.as_slice())
            },
            Mnemonic::Jz => {
                let w = ['J', 'Z'];
                assert(w@ =~= self.word());
                matches_word(s, w.as_slice())
            },
            Mnemonic::Out => {
                let w = ['O', 'U', 'T'];
                assert(w@ =~= self.word());
                matches_word(s, w.as_slice())
            },
            Mnemonic::Hlt => {
                let w = ['H', 'L', 'T'];
                assert(w@ =~= self.word());
                matches_word(s, w.as_slice())
            },
            Mnemonic::Nop => {
                let w = ['N', 'O', 'P'];
                assert(w@ =~= self.word());
                matches_word(s, w.as_slice())
            },
        }
    }

    /// The mnemonic that `s` spells, the case of ASCII letters aside.
    pub fn parse(s: &[char]) -> (m: Option<Mnemonic>)
        ensures
            m == Mnemonic::named(s@),
    {
        if Mnemonic::Ldi.spelled_by(s) {
            Some(Mnemonic::Ldi)
        } else if Mnemonic::Add.spelled_by(s) {
            Some(Mnemonic::Add)
        } else if Mnemonic::Sub.spelled_by(s) {
            Some(Mnemonic::Sub)
        } else if Mnemonic::Load.spelled_by(s) {
            Some(Mnemonic::Load)
        } else if Mnemonic::Store.spelled_by(s) {
            Some(Mnemonic::Store)
        } else if Mnemonic::Jmp.spelled_by(s) {
            Some(Mnemonic::Jmp)
        } else if Mnemonic::Jz.spelled_by(s) {
            Some(Mnemonic::Jz)
        } else if Mnemonic::Out.spelled_by(s) {
            Some(Mnemonic::Out)
        } else if Mnemonic::Hlt.spelled_by(s) {
            Some(Mnemonic::Hlt)
        } else if Mnemonic::Nop.spelled_by(s) {
            Some(Mnemonic::Nop)
        } else {
            None
        }
    }

    /// The opcode byte, before a register is packed into it.
    pub fn opcode_base(self) -> (b: u8)
        ensures
            b == self.base(),
    {
        match self {
            Mnemonic::Ldi => 0x10,
            Mnemonic::Add => 0x20,
            Mnemonic::Load => 0x30,
            Mnemonic::Jmp => 0x40,
            Mnemonic::Out => 0x50,
            Mnemonic::Sub => 0x60,
            Mnemonic::Store => 0x70,
            Mnemonic::Jz => 0x80,
            Mnemonic::Hlt => 0xFF,
            Mnemonic::Nop => 0x00,
        }
    }

    /// The operands in assembly source.
    pub fn operand_shape(self) -> (s: Shape)
        ensures
            s == self.shape(),
    {
        match self {
            Mnemonic::Ldi => Shape::RegImm,
            Mnemonic::Add | Mnemonic::Sub => Shape::RegReg,
            Mnemonic::Load | Mnemonic::Store | Mnemonic::Jz => Shape::RegAddr,
            Mnemonic::Jmp => Shape::Addr,
            Mnemonic::Out => Shape::Reg,
            Mnemonic::Hlt | Mnemonic::Nop => Shape::Bare,
        }
    }

    /// The encoded size in bytes: 1 or 2.
    pub fn encoded_size(self) -> (n: u8)
        ensures
            n == self.size(),
    {
        match self.operand_shape() {
            Shape::Bare | Shape::Reg => 1,
            _ => 2,
        }
    }

    /// The cycles that executing the instruction takes.
    pub fn cycle_cost(self) -> (c: u64)
        ensures
            c == self.cycles(),
            1 <= c <= 4,
    {
        match self {
            Mnemonic::Ldi => 2,
            Mnemonic::Add | Mnemonic::Sub => 3,
            Mnemonic::Load | Mnemonic::Store => 4,
            Mnemonic::Jmp | Mnemonic::Jz => 3,
            Mnemonic::Out => 4,
            Mnemonic::Hlt | Mnemonic::Nop => 1,
        }
    }
}

/// The operation that an opcode byte stands for. A byte that the table does
/// not assign stands for `NOP`.
pub open spec fn operation(opcode: u8) -> Mnemonic {
    if opcode == 0x40 {
        Mnemonic::Jmp
    } else if opcode == 0xFF {
        Mnemonic::Hlt
    } else if opcode & 0xF0 == 0x10 {
        Mnemonic::Ldi
    } else if opcode & 0xF0 == 0x20 {
        Mnemonic::Add
    } else if opcode & 0xF0 == 0x30 {
        Mnemonic::Load
    } else if opcode & 0xF0 == 0x50 {
        Mnemonic::Out
    } else if opcode & 0xF0 == 0x60 {
        Mnemonic::Sub
    } else if opcode & 0xF0 == 0x70 {
        Mnemonic::Store
    } else if opcode & 0xF0 == 0x80 {
        Mnemonic::Jz
    } else {
        Mnemonic::Nop
    }
}

/// The register in the low two bits of a byte.
pub open spec fn register_bits(byte: u8) -> u8 {
    byte & 0x03
}

/// The opcode byte of `op` with register `reg` packed into it; for an
/// operation without a packed register, its one opcode byte.
pub open spec fn packed(op: Mnemonic, reg: u8) -> u8 {
    if op.packs_register() {
        op.base() | reg
    } else {
        op.base()
    }
}

/// Decodes an opcode byte: the operation, and the register in its low bits.
pub fn decode_opcode(opcode: u8) -> (r: (Mnemonic, u8))
    ensures
        r.0 == operation(opcode),
        r.1 == register_bits(opcode),
        r.1 <= 3,
{
    let reg = opcode & 0x03;
    assert(opcode & 0x03 <= 3) by (bit_vector);
    let family = opcode & 0xF0;
    let op = if opcode == 0x40 {
        Mnemonic::Jmp
    } else if opcode == 0xFF {
        Mnemonic::Hlt
    } else if family == 0x10 {
        Mnemonic::Ldi
    } else if family == 0x20 {
        Mnemonic::Add
    } else if family == 0x30 {
        Mnemonic::Load
    } else if family == 0x50 {
        Mnemonic::Out
    } else if family == 0x60 {
        Mnemonic::Sub
    } else if family == 0x70 {
        Mnemonic::Store
    } else if family == 0x80 {
        Mnemonic::Jz
    } else {
        Mnemonic::Nop
    };
    (op, reg)
}

/// Encodes an opcode byte: `op` with `reg` packed into it where `op` packs a
/// register.
pub fn encode_opcode(op: Mnemonic, reg: u8) -> (b: u8)
    ensures
        b == packed(op, reg),
{
    match op.operand_shape() {
        Shape::Addr | Shape::Bare => op.opcode_base(),
        _ => op.opcode_base() | reg,
    }
}

/// Packing a register in 0..=3 into an opcode and decoding the byte gives the
/// operation and the register back: no two families share an opcode byte.
pub proof fn lemma_decode_packed(op: Mnemonic, reg: u8)
    requires
        reg <= 3,
    ensures
        operation(packed(op, reg)) == op,
        op.packs_register() ==> register_bits(packed(op, reg)) == reg,
{
    assert(reg <= 3 ==> (0x10u8 | reg) & 0xF0 == 0x10 && (0x10u8 | reg) & 0x03 == reg) by (bit_vector);
    assert(reg <= 3 ==> (0x20u8 | reg) & 0xF0 == 0x20 && (0x20u8 | reg) & 0x03 == reg) by (bit_vector);
    assert(reg <= 3 ==> (0x30u8 | reg) & 0xF0 == 0x30 && (0x30u8 | reg) & 0x03 == reg) by (bit_vector);
    assert(reg <= 3 ==> (0x50u8 | reg) & 0xF0 == 0x50 && (0x50u8 | reg) & 0x03 == reg) by (bit_vector);
    assert(reg <= 3 ==> (0x60u8 | reg) & 0xF0 == 0x60 && (0x60u8 | reg) & 0x03 == reg) by (bit_vector);
    assert(reg <= 3 ==> (0x70u8 | reg) & 0xF0 == 0x70 && (0x70u8 | reg) & 0x03 == reg) by (bit_vector);
    assert(reg <= 3 ==> (0x80u8 | reg) & 0xF0 == 0x80 && (0x80u8 | reg) & 0x03 == reg) by (bit_vector);
    assert(reg <= 3 ==> (0x10u8 | reg) != 0x40 && (0x10u8 | reg) != 0xFF) by (bit_vector);
    assert(reg <= 3 ==> (0x20u8 | reg) != 0x40 && (0x20u8 | reg) != 0xFF) by (bit_vector);
    assert(reg <= 3 ==> (0x30u8 | reg) != 0x40 && (0x30u8 | reg) != 0xFF) by (bit_vector);
    assert(reg <= 3 ==> (0x50u8 | reg) != 0x40 && (0x50u8 | reg) != 0xFF) by (bit_vector);
    assert(reg <= 3 ==> (0x60u8 | reg) != 0x40 && (0x60u8 | reg) != 0xFF) by (bit_vector);
    assert(reg <= 3 ==> (0x70u8 | reg) != 0x40 && (0x70u8 | reg) != 0xFF) by (bit_vector);
    assert(reg <= 3 ==> (0x80u8 | reg) != 0x40 && (0x80u8 | reg) != 0xFF) by (bit_vector);
    assert(0x00u8 & 0xF0 == 0x00) by (bit_vector);
}

/// One instruction with its operands.
#[derive(Clone, Copy, PartialEq, Eq, Debug, Structural)]
pub enum Instr {
    /// `reg = imm`
    Ldi { reg: u8, imm: u8 },
    /// `dst = dst + src`, wrapping
    Add { dst: u8, src: u8 },
    /// `dst = dst - src`, wrapping
    Sub { dst: u8, src: u8 },
    /// `reg = memory[addr]`
    Load { reg: u8, addr: u8 },
    /// `memory[addr] = reg`
    Store { reg: u8, addr: u8 },
    /// `pc = addr`
    Jmp { addr: u8 },
    /// `pc = addr` if `reg` is zero
    Jz { reg: u8, addr: u8 },
    /// emit `reg`
    Out { reg: u8 },
    /// halt
    Hlt,
    /// nothing
    Nop,
}

impl Instr {
    /// The operation.
    pub open spec fn mnemonic(self) -> Mnemonic {
        match self {
            Instr::Ldi { .. } => Mnemonic::Ldi,
            Instr::Add { .. } => Mnemonic::Add,
            Instr::Sub { .. } => Mnemonic::Sub,
            Instr::Load { .. } => Mnemonic::Load,
            Instr::Store { .. } => Mnemonic::Store,
            Instr::Jmp { .. } => Mnemonic::Jmp,
            Instr::Jz { .. } => Mnemonic::Jz,
            Instr::Out { .. } => Mnemonic::Out,
            Instr::Hlt => Mnemonic::Hlt,
            Instr::Nop => Mnemonic::Nop,
        }
    }

    /// The register packed into the opcode byte; 0 where there is none.
    pub open spec fn packed_register(self) -> u8 {
        match self {
            Instr::Ldi { reg, .. } => reg,
            Instr::Add { dst, .. } => dst,
            Instr::Sub { dst, .. } => dst,
            Instr::Load { reg, .. } => reg,
            Instr::Store { reg, .. } => reg,
            Instr::Jz { reg, .. } => reg,
            Instr::Out { reg } => reg,
            Instr::Jmp { .. } | Instr::Hlt | Instr::Nop => 0,
        }
    }

    /// The operand byte; 0 where the instruction has size 1.
    pub open spec fn operand(self) -> u8 {
        match self {
            Instr::Ldi { imm, .. } => imm,
            Instr::Add { src, .. } => src,
            Instr::Sub { src, .. } => src,
            Instr::Load { addr, .. } => addr,
            Instr::Store { addr, .. } => addr,
            Instr::Jmp { addr } => addr,
            Instr::Jz { addr, .. } => addr,
            Instr::Out { .. } | Instr::Hlt | Instr::Nop => 0,
        }
    }

    /// Every register it names is one of the four.
    pub open spec fn valid(self) -> bool {
        match self {
            Instr::Add { dst, src } => dst <= 3 && src <= 3,
            Instr::Sub { dst, src } => dst <= 3 && src <= 3,
            _ => self.packed_register() <= 3,
        }
    }

    /// The bytes that encode the instruction.
    pub open spec fn encoding(self) -> Seq<u8> {
        let opcode = packed(self.mnemonic(), self.packed_register());
        if self.mnemonic().size() == 2 {
            seq![opcode, self.operand()]
        } else {
            seq![opcode]
        }
    }

    /// The instruction that opcode byte `opcode` and operand byte `operand`
    /// stand for. An instruction of size 1 has no operand byte and `operand`
    /// is not looked at. Of the operand byte of `ADD` and `SUB` only the low
    /// two bits count.
    pub open spec fn decoding(opcode: u8, operand: u8) -> Instr {
        let reg = register_bits(opcode);
        match operation(opcode) {
            Mnemonic::Ldi => Instr::Ldi { reg, imm: operand },
            Mnemonic::Add => Instr::Add { dst: reg, src: register_bits(operand) },
            Mnemonic::Sub => Instr::Sub { dst: reg, src: register_bits(operand) },
            Mnemonic::Load => Instr::Load { reg, addr: operand },
            Mnemonic::Store => Instr::Store { reg, addr: operand },
            Mnemonic::Jmp => Instr::Jmp { addr: operand },
            Mnemonic::Jz => Instr::Jz { reg, addr: operand },
            Mnemonic::Out => Instr::Out { reg },
            Mnemonic::Hlt => Instr::Hlt,
            Mnemonic::Nop => Instr::Nop,
        }
    }

    /// Appends the instruction's encoding to `out`.
    pub fn encode(self, out: &mut Vec<u8>)
        ensures
            final(out)@ == old(out)@ + self.encoding(),
    {
        match self {
            Instr::Ldi { reg, imm } => {
                out.push(encode_opcode(Mnemonic::Ldi, reg));
                out.push(imm);
            },
            Instr::Add { dst, src } => {
                out.push(encode_opcode(Mnemonic::Add, dst));
                out.push(src);
            },
            Instr::Sub { dst, src } => {
                out.push(encode_opcode(Mnemonic::Sub, dst));
                out.push(src);
            },
            Instr::Load { reg, addr } => {
                out.push(encode_opcode(Mnemonic::Load, reg));
                out.push(addr);
            },
            Instr::Store { reg, addr } => {
                out.push(encode_opcode(Mnemonic::Store, reg));
                out.push(addr);
            },
            Instr::Jmp { addr } => {
                out.push(encode_opcode(Mnemonic::Jmp, 0));
                out.push(addr);
            },
            Instr::Jz { reg, addr } => {
                out.push(encode_opcode(Mnemonic::Jz, reg));
                out.push(addr);
            },
            Instr::Out { reg } => {
                out.push(encode_opcode(Mnemonic::Out, reg));
            },
            Instr::Hlt => {
                out.push(encode_opcode(Mnemonic::Hlt, 0));
            },
            Instr::Nop => {
                out.push(encode_opcode(Mnemonic::Nop, 0));
            },
        }
        assert(out@ =~= old(out)@ + self.encoding());
    }

    /// The instruction that an opcode byte and an operand byte stand for.
    pub fn decode(opcode: u8, operand: u8) -> (i: Instr)
        ensures
            i == Instr::decoding(opcode, operand),
            i.valid(),
            i.mnemonic() == operation(opcode),
    {
        let (op, reg) = decode_opcode(opcode);
        assert(operand & 0x03 <= 3) by (bit_vector);
        match op {
            Mnemonic::Ldi => Instr::Ldi { reg, imm: operand },
            Mnemonic::Add => Instr::Add { dst: reg, src: operand & 0x03 },
            Mnemonic::Sub => Instr::Sub { dst: reg, src: operand & 0x03 },
            Mnemonic::Load => Instr::Load { reg, addr: operand },
            Mnemonic::Store => Instr::Store { reg, addr: operand },
            Mnemonic::Jmp => Instr::Jmp { addr: operand },
            Mnemonic::Jz => Instr::Jz { reg, addr: operand },
            Mnemonic::Out => Instr::Out { reg },
            Mnemonic::Hlt => Instr::Hlt,
            Mnemonic::Nop => Instr::Nop,
        }
    }
}

/// Whatever the bytes, what they decode to names registers of the machine
/// only.
pub proof fn lemma_decoding_valid(opcode: u8, operand: u8)
    ensures
        Instr::decoding(opcode, operand).valid(),
        Instr::decoding(opcode, operand).mnemonic() == operation(opcode),
{
    assert(opcode & 0x03 <= 3) by (bit_vector);
    assert(operand & 0x03 <= 3) by (bit_vector);
}

/// Decoding what was encoded gives the instruction back, and the encoding is
/// as long as the table says.
pub proof fn lemma_decode_encoding(i: Instr)
    requires
        i.valid(),
    ensures
        i.encoding().len() == i.mnemonic().size(),
        operation(i.encoding()[0]) == i.mnemonic(),
        i.mnemonic().size() == 2 ==> Instr::decoding(i.encoding()[0], i.encoding()[1]) == i,
        i.mnemonic().size() == 1 ==> forall|b: u8| Instr::decoding(i.encoding()[0], b) == i,
{
    lemma_decode_packed(i.mnemonic(), i.packed_register());
    let src = i.operand();
    assert(src <= 3 ==> src & 0x03 == src) by (bit_vector);
}

} // verus!
