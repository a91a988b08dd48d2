//! The machine as a mathematical object: its state, what one instruction does
//! to it, and what it costs. The CPU is held to this.

use crate::isa::{lemma_decoding_valid, Instr};
use crate::memory::{cell, written};
use vstd::prelude::*;

verus! {

/// The state of the machine, devices and cycle counter aside.
pub struct Machine {
    /// The four registers.
    pub regs: Seq<u8>,
    /// The program counter. It is reduced modulo 256 whenever it is used.
    pub pc: int,
    /// The zero flag.
    pub z: bool,
    /// The 256 bytes of memory.
    pub mem: Seq<u8>,
    /// Whether the machine has halted. A halted machine stays halted.
    pub halted: bool,
    /// The bytes that `OUT` has emitted, oldest first.
    pub output: Seq<u8>,
}

impl Machine {
    /// Four registers and 256 bytes of memory.
    pub open spec fn wf(self) -> bool {
        self.regs.len() == 4 && self.mem.len() == 256 && self.pc >= 0
    }

    /// The machine at power-on: everything zero, running, nothing emitted.
    pub open spec fn initial() -> Machine {
        Machine {
            regs: Seq::new(4, |i: int| 0u8),
            pc: 0,
            z: false,
            mem: Seq::new(256, |i: int| 0u8),
            halted: false,
            output: Seq::empty(),
        }
    }

    /// The machine after `program` has been loaded at `addr`: the bytes are
    /// written with wraparound and the program counter is `addr`.
    pub open spec fn loaded(self, program: Seq<u8>, addr: int) -> Machine {
        Machine { mem: written(self.mem, addr, program), pc: addr, ..self }
    }

    /// The opcode byte at the program counter.
    pub open spec fn opcode(self) -> u8 {
        self.mem[cell(self.pc)]
    }

    /// The byte behind the opcode byte, which is the operand byte of an
    /// instruction of size 2.
    pub open spec fn operand(self) -> u8 {
        self.mem[cell(self.pc + 1)]
    }

    /// The instruction at the program counter.
    pub open spec fn fetched(self) -> Instr {
        Instr::decoding(self.opcode(), self.operand())
    }

    /// What instruction `i` does to a machine whose program counter is
    /// already behind it.
    pub open spec fn executed(self, i: Instr) -> Machine {
        match i {
            Instr::Ldi { reg, imm } => Machine {
                regs: self.regs.update(reg as int, imm),
                z: imm == 0,
                ..self
            },
            Instr::Add { dst, src } => {
                let sum = ((self.regs[dst as int] + self.regs[src as int]) % 256) as u8;
                Machine { regs: self.regs.update(dst as int, sum), z: sum == 0, ..self }
            },
            Instr::Sub { dst, src } => {
                let diff = ((self.regs[dst as int] - self.regs[src as int]) % 256) as u8;
                Machine { regs: self.regs.update(dst as int, diff), z: diff == 0, ..self }
            },
            Instr::Load { reg, addr } => {
                let value = self.mem[addr as int];
                Machine { regs: self.regs.update(reg as int, value), z: value == 0, ..self }
            },
            Instr::Store { reg, addr } => Machine {
                mem: self.mem.update(addr as int, self.regs[reg as int]),
                ..self
            },
            Instr::Jmp { addr } => Machine { pc: addr as int, ..self },
            Instr::Jz { reg, addr } => if self.regs[reg as int] == 0 {
                Machine { pc: addr as int, ..self }
            } else {
                self
            },
            Instr::Out { reg } => Machine {
                output: self.output.push(self.regs[reg as int]),
                ..self
            },
            Instr::Hlt => Machine { halted: true, ..self },
            Instr::Nop => self,
        }
    }

    /// The machine one instruction later: the instruction at the program
    /// counter is fetched, the program counter moves behind it with
    /// wraparound, and the instruction is executed. A halted machine stays as
    /// it is.
    pub open spec fn step(self) -> Machine {
        if self.halted {
            self
        } else {
            let i = self.fetched();
            Machine { pc: cell(self.pc + i.mnemonic().size()), ..self }.executed(i)
        }
    }

    /// The cycles that the next instruction takes: 0 for a halted machine.
    pub open spec fn cost(self) -> nat {
        if self.halted {
            0
        } else {
            self.fetched().mnemonic().cycles()
        }
    }

    /// The machine `n` steps later.
    pub open spec fn steps(self, n: nat) -> Machine
        decreases n,
    {
        if n == 0 {
            self
        } else {
            self.step().steps((n - 1) as nat)
        }
    }

    /// The cycles that the next `n` steps take together.
    pub open spec fn total_cost(self, n: nat) -> nat
        decreases n,
    {
        if n == 0 {
            0
        } else {
            self.cost() + self.step().total_cost((n - 1) as nat)
        }
    }

    /// How many of the next `n` steps execute an instruction: those before
    /// the machine halts.
    pub open spec fn executions(self, n: nat) -> nat
        decreases n,
    {
        if n == 0 || self.halted {
            0
        } else {
            1 + self.step().executions((n - 1) as nat)
        }
    }

    /// A step keeps the machine well-formed.
    pub proof fn lemma_step_wf(self)
        requires
            self.wf(),
        ensures
            self.step().wf(),
            self.cost() <= 4,
            !self.halted ==> self.cost() >= 1,
    {
        if !self.halted {
            let i = self.fetched();
            lemma_decoding_valid(self.opcode(), self.operand());
            let m = Machine { pc: cell(self.pc + i.mnemonic().size()), ..self };
            assert(m.wf());
            match i {
                Instr::Ldi { .. } => {},
                Instr::Add { .. } => {},
                Instr::Sub { .. } => {},
                Instr::Load { .. } => {},
                Instr::Store { .. } => {},
                Instr::Jmp { .. } => {},
                Instr::Jz { .. } => {},
                Instr::Out { .. } => {},
                Instr::Hlt => {},
                Instr::Nop => {},
            }
            assert(m.executed(i).wf());
        }
    }

    /// Halting is for good: a halted machine does not change, costs nothing
    /// and executes nothing.
    pub proof fn lemma_halted_stays(self, n: nat)
        requires
            self.halted,
        ensures
            self.steps(n) == self,
            self.total_cost(n) == 0,
            self.executions(n) == 0,
        decreases n,
    {
        if n > 0 {
            self.lemma_halted_stays((n - 1) as nat);
        }
    }

    /// `n` steps are `a` steps and then the rest.
    pub proof fn lemma_steps_split(self, a: nat, n: nat)
        requires
            a <= n,
        ensures
            self.steps(n) == self.steps(a).steps((n - a) as nat),
            self.total_cost(n) == self.total_cost(a) + self.steps(a).total_cost((n - a) as nat),
        decreases a,
    {
        if a > 0 {
            self.step().lemma_steps_split((a - 1) as nat, (n - 1) as nat);
        }
    }

    /// No more instructions are executed than steps are taken.
    pub proof fn lemma_executions_bound(self, n: nat)
        ensures
            self.executions(n) <= n,
        decreases n,
    {
        if n > 0 && !self.halted {
            self.step().lemma_executions_bound((n - 1) as nat);
        }
    }

    /// A machine that has halted after `a` steps is in the same state after
    /// any number of steps that is not smaller, and has taken the same
    /// cycles.
    pub proof fn lemma_halted_after(self, a: nat, n: nat)
        requires
            self.steps(a).halted,
            a <= n,
        ensures
            self.steps(n) == self.steps(a),
            self.total_cost(n) == self.total_cost(a),
    {
        self.lemma_steps_split(a, n);
        self.steps(a).lemma_halted_stays((n - a) as nat);
    }

    /// The cost of `n` steps is at most 4 cycles a step.
    pub proof fn lemma_total_cost_bound(self, n: nat)
        requires
            self.wf(),
        ensures
            self.total_cost(n) <= 4 * n,
            self.steps(n).wf(),
        decreases n,
    {
        if n > 0 {
            self.lemma_step_wf();
            self.step().lemma_total_cost_bound((n - 1) as nat);
        }
    }
}

} // verus!
