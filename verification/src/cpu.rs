//! The CPU: registers, memory and devices, and the fetch-decode-execute cycle.

use crate::device::{
    lemma_notified_through_split, lemma_rounds_split, notified_through, round, rounds, Device,
    Notification, TimerDevice,
};
use crate::isa::{lemma_decoding_valid, Instr};
use crate::machine::Machine;
use crate::memory::{cell, Memory};
use vstd::prelude::*;

verus! {

/// The processor. It owns its memory and its devices.
///
/// `OUT` appends the register's value to `output`; whoever shows the values
/// takes them from there.
pub struct CPU<D: Device = TimerDevice> {
    /// The registers R0 to R3.
    pub regs: [u8; 4],
    /// The program counter. Addresses are taken modulo 256.
    pub pc: usize,
    /// The zero flag.
    pub z: bool,
    /// The memory.
    pub mem: Memory,
    /// The cycles that have passed since the CPU was made.
    pub cycles: u64,
    /// Whether `HLT` has been executed.
    pub halted: bool,
    /// What `OUT` has emitted, oldest first.
    pub output: Vec<u8>,
    /// The attached devices, in the order in which they were attached.
    pub devices: Vec<D>,
    /// Every notification that the CPU has made of a device, oldest first.
    /// It is there for the contracts and takes no room.
    pub notifications: Ghost<Seq<Notification>>,
}

impl CPU<TimerDevice> {
    /// A CPU at power-on, without devices, for timers to be attached to.
    pub fn new() -> (cpu: CPU<TimerDevice>)
        ensures
            cpu.state() == Machine::initial(),
            cpu.cycles == 0,
            cpu.devices() == Seq::<TimerDevice>::empty(),
            cpu.notifications@ == Seq::<Notification>::empty(),
    {
        CPU::with_devices(Vec::new())
    }
}

impl<D: Device> CPU<D> {
    /// The machine that the CPU is.
    pub open spec fn state(&self) -> Machine {
        Machine {
            regs: self.regs@,
            pc: self.pc as int,
            z: self.z,
            mem: self.mem@,
            halted: self.halted,
            output: self.output@,
        }
    }

    /// The attached devices, in the order in which they were attached.
    pub open spec fn devices(&self) -> Seq<D> {
        self.devices@
    }

    /// A CPU at power-on with the devices `devices` attached.
    pub fn with_devices(devices: Vec<D>) -> (cpu: CPU<D>)
        ensures
            cpu.state() == Machine::initial(),
            cpu.cycles == 0,
            cpu.devices() == devices@,
            cpu.notifications@ == Seq::<Notification>::empty(),
    {
        let cpu = CPU {
            regs: [0u8; 4],
            pc: 0,
            z: false,
            mem: Memory::new(),
            cycles: 0,
            halted: false,
            output: Vec::new(),
            devices,
            notifications: Ghost(Seq::empty()),
        };
        assert(cpu.state().regs =~= Machine::initial().regs);
        cpu
    }

    /// Attaches a device behind those that are attached already.
    pub fn attach_device(&mut self, dev: D)
        ensures
            final(self).devices() == old(self).devices().push(dev),
            final(self).state() == old(self).state(),
            final(self).cycles == old(self).cycles,
            final(self).notifications@ == old(self).notifications@,
    {
        self.devices.push(dev);
    }

    /// Writes `program` into memory from `addr` on, with wraparound, and sets
    /// the program counter to `addr`.
    pub fn load(&mut self, program: &[u8], addr: usize)
        ensures
            final(self).state() == old(self).state().loaded(program@, addr as int),
            final(self).cycles == old(self).cycles,
            final(self).devices() == old(self).devices(),
            final(self).notifications@ == old(self).notifications@,
    {
        self.mem.write_bytes(addr, program);
        self.pc = addr;
    }

    /// Reads the byte at the program counter and moves the program counter
    /// behind it, with wraparound.
    pub fn fetch(&mut self) -> (b: u8)
        ensures
            b == old(self).state().mem[cell(old(self).pc as int)],
            final(self).state() == (Machine {
                pc: cell(old(self).pc + 1),
                ..old(self).state()
            }),
            final(self).cycles == old(self).cycles,
            final(self).devices() == old(self).devices(),
            final(self).notifications@ == old(self).notifications@,
    {
        let b = self.mem.read(self.pc);
        self.pc = (self.pc % 256 + 1) % 256;
        b
    }

    /// Does what instruction `i` says. The program counter is expected
    /// behind the instruction already.
    pub fn execute(&mut self, i: Instr)
        requires
            i.valid(),
        ensures
            final(self).state() == old(self).state().executed(i),
            final(self).cycles == old(self).cycles,
            final(self).devices() == old(self).devices(),
            final(self).notifications@ == old(self).notifications@,
    {
        proof {
            self.mem.lemma_is_image();
        }
        match i {
            Instr::Ldi { reg, imm } => {
                self.regs[reg as usize] = imm;
                self.z = imm == 0;
            },
            Instr::Add { dst, src } => {
                let sum = self.regs[dst as usize].wrapping_add(self.regs[src as usize]);
                self.regs[dst as usize] = sum;
                self.z = sum == 0;
            },
            Instr::Sub { dst, src } => {
                let diff = self.regs[dst as usize].wrapping_sub(self.regs[src as usize]);
                self.regs[dst as usize] = diff;
                self.z = diff == 0;
            },
            Instr::Load { reg, addr } => {
                let value = self.mem.read(addr as usize);
                self.regs[reg as usize] = value;
                self.z = value == 0;
            },
            Instr::Store { reg, addr } => {
                self.mem.write(addr as usize, self.regs[reg as usize]);
            },
            Instr::Jmp { addr } => {
                self.pc = addr as usize;
            },
            Instr::Jz { reg, addr } => {
                if self.regs[reg as usize] == 0 {
                    self.pc = addr as usize;
                }
            },
            Instr::Out { reg } => {
                self.output.push(self.regs[reg as usize]);
            },
            Instr::Hlt => {
                self.halted = true;
            },
            Instr::Nop => {},
        }
        assert(self.state().regs =~= old(self).state().executed(i).regs);
        assert(self.state().mem =~= old(self).state().executed(i).mem);
    }

    /// Executes the instruction at the program counter and returns the cycles
    /// that it takes. The cycle counter stays and no device is notified. A
    /// halted CPU does nothing and returns 0.
    pub fn step_instruction(&mut self) -> (cost: u64)
        ensures
            final(self).state() == old(self).state().step(),
            cost == old(self).state().cost(),
            cost <= 4,
            final(self).cycles == old(self).cycles,
            final(self).devices() == old(self).devices(),
            final(self).notifications@ == old(self).notifications@,
    {
        if self.halted {
            return 0;
        }
        let ghost before = self.state();
        proof {
            self.mem.lemma_is_image();
            lemma_decoding_valid(before.opcode(), before.operand());
        }
        let opcode = self.fetch();
        let (op, _) = crate::isa::decode_opcode(opcode);
        let operand = if op.encoded_size() == 2 {
            self.fetch()
        } else {
            0
        };
        let i = Instr::decode(opcode, operand);
        assert(i == before.fetched());
        assert(self.state() == (Machine {
            pc: cell(before.pc + i.mnemonic().size()),
            ..before
        }));
        self.execute(i);
        op.cycle_cost()
    }

    /// Notifies the device at place `j` of the cycle that the counter shows.
    fn notify_device(&mut self, j: usize)
        requires
            j < old(self).devices().len(),
        ensures
            final(self).devices() == old(self).devices().update(
                j as int,
                old(self).devices()[j as int].notified(old(self).cycles),
            ),
            final(self).notifications@ == old(self).notifications@.push(
                Notification { device: j as int, cycle: old(self).cycles },
            ),
            final(self).state() == old(self).state(),
            final(self).cycles == old(self).cycles,
    {
        let cycle = self.cycles;
        self.devices[j].tick(cycle);
        proof {
            self.notifications@ = self.notifications@.push(
                Notification { device: j as int, cycle },
            );
        }
        assert(self.devices@ =~= old(self).devices@.update(
            j as int,
            old(self).devices@[j as int].notified(cycle),
        ));
    }

    /// Notifies every device of the cycle that the counter shows, in the
    /// order in which the devices were attached.
    fn notify_devices(&mut self)
        ensures
            final(self).devices().len() == old(self).devices().len(),
            forall|j: int|
                0 <= j < old(self).devices().len() ==> #[trigger] final(self).devices()[j] == old(
                    self,
                ).devices()[j].notified(old(self).cycles),
            final(self).notifications@ == old(self).notifications@ + round(
                old(self).devices().len(),
                old(self).cycles,
            ),
            final(self).state() == old(self).state(),
            final(self).cycles == old(self).cycles,
    {
        let cycle = self.cycles;
        let mut i: usize = 0;
        assert(round(0, cycle) =~= Seq::<Notification>::empty());
        assert(self.notifications@ + Seq::<Notification>::empty() =~= self.notifications@);
        while i < self.devices.len()
            invariant
                i <= self.devices@.len(),
                self.devices@.len() == old(self).devices@.len(),
                forall|j: int|
                    0 <= j < i ==> #[trigger] self.devices@[j] == old(self).devices@[j].notified(
                        cycle,
                    ),
                forall|j: int|
                    i <= j < self.devices@.len() ==> #[trigger] self.devices@[j] == old(
                        self,
                    ).devices@[j],
                self.notifications@ == old(self).notifications@ + round(i as nat, cycle),
                self.state() == old(self).state(),
                self.cycles == old(self).cycles,
                cycle == self.cycles,
            decreases self.devices@.len() - i,
        {
            self.notify_device(i);
            assert(round((i + 1) as nat, cycle) =~= round(i as nat, cycle).push(
                Notification { device: i as int, cycle },
            ));
            assert(self.notifications@ =~= old(self).notifications@ + round(
                (i + 1) as nat,
                cycle,
            ));
            i += 1;
        }
    }

    /// Lets `count` cycles pass: the counter goes up one by one, and after
    /// each step every device is notified of the new count.
    fn pass_cycles(&mut self, count: u64)
        requires
            old(self).cycles + count <= u64::MAX,
        ensures
            final(self).cycles == old(self).cycles + count,
            final(self).state() == old(self).state(),
            final(self).devices().len() == old(self).devices().len(),
            forall|j: int|
                0 <= j < old(self).devices().len() ==> #[trigger] final(self).devices()[j]
                    == notified_through(old(self).devices()[j], old(self).cycles, count as nat),
            final(self).notifications@ == old(self).notifications@ + rounds(
                old(self).devices().len(),
                old(self).cycles,
                count as nat,
            ),
    {
        let mut passed: u64 = 0;
        assert(self.notifications@ + Seq::<Notification>::empty() =~= self.notifications@);
        while passed < count
            invariant
                passed <= count,
                old(self).cycles + count <= u64::MAX,
                self.cycles == old(self).cycles + passed,
                self.state() == old(self).state(),
                self.devices@.len() == old(self).devices@.len(),
                forall|j: int|
                    0 <= j < self.devices@.len() ==> #[trigger] self.devices@[j]
                        == notified_through(
                        old(self).devices@[j],
                        old(self).cycles,
                        passed as nat,
                    ),
                self.notifications@ == old(self).notifications@ + rounds(
                    old(self).devices@.len(),
                    old(self).cycles,
                    passed as nat,
                ),
            decreases count - passed,
        {
            self.cycles += 1;
            self.notify_devices();
            passed += 1;
            assert(self.notifications@ =~= old(self).notifications@ + rounds(
                old(self).devices@.len(),
                old(self).cycles,
                passed as nat,
            ));
        }
    }

    /// Executes one instruction and lets the cycles pass that it takes. The
    /// cycle counter goes up by that number, one by one; after each step
    /// every device is notified of the new count, in the order in which the
    /// devices were attached. A halted CPU does nothing and returns 0.
    pub fn step_and_tick_instruction(&mut self) -> (cost: u64)
        requires
            old(self).cycles + old(self).state().cost() <= u64::MAX,
        ensures
            final(self).state() == old(self).state().step(),
            cost == old(self).state().cost(),
            final(self).cycles == old(self).cycles + cost,
            final(self).devices().len() == old(self).devices().len(),
            forall|j: int|
                0 <= j < old(self).devices().len() ==> #[trigger] final(self).devices()[j]
                    == notified_through(old(self).devices()[j], old(self).cycles, cost as nat),
            final(self).notifications@ == old(self).notifications@ + rounds(
                old(self).devices().len(),
                old(self).cycles,
                cost as nat,
            ),
    {
        if self.halted {
            assert(self.notifications@ + Seq::<Notification>::empty() =~= self.notifications@);
            return 0;
        }
        let cost = self.step_instruction();
        self.pass_cycles(cost);
        cost
    }

    /// Executes up to `n` instructions with the cycles that they take, and
    /// stops before that where the CPU halts. Returns how many instructions
    /// it executed and how many cycles passed.
    pub fn step_n_instructions(&mut self, n: usize) -> (r: (usize, u64))
        requires
            old(self).cycles + old(self).state().total_cost(n as nat) <= u64::MAX,
        ensures
            final(self).state() == old(self).state().steps(n as nat),
            r.0 == old(self).state().executions(n as nat),
            r.1 == old(self).state().total_cost(n as nat),
            final(self).cycles == old(self).cycles + r.1,
            final(self).devices().len() == old(self).devices().len(),
            forall|j: int|
                0 <= j < old(self).devices().len() ==> #[trigger] final(self).devices()[j]
                    == notified_through(old(self).devices()[j], old(self).cycles, r.1 as nat),
            final(self).notifications@ == old(self).notifications@ + rounds(
                old(self).devices().len(),
                old(self).cycles,
                r.1 as nat,
            ),
    {
        let ghost start = self.state();
        let mut executed: usize = 0;
        let mut cycles_consumed: u64 = 0;
        let mut i: usize = 0;
        assert(self.notifications@ + Seq::<Notification>::empty() =~= self.notifications@);
        while i < n && !self.halted
            invariant
                i <= n,
                executed == i,
                old(self).state() == start,
                old(self).cycles + start.total_cost(n as nat) <= u64::MAX,
                start.steps(n as nat) == self.state().steps((n - i) as nat),
                start.total_cost(n as nat) == cycles_consumed + self.state().total_cost(
                    (n - i) as nat,
                ),
                start.executions(n as nat) == executed + self.state().executions((n - i) as nat),
                self.cycles == old(self).cycles + cycles_consumed,
                self.devices@.len() == old(self).devices@.len(),
                forall|j: int|
                    0 <= j < self.devices@.len() ==> #[trigger] self.devices@[j]
                        == notified_through(
                        old(self).devices@[j],
                        old(self).cycles,
                        cycles_consumed as nat,
                    ),
                self.notifications@ == old(self).notifications@ + rounds(
                    old(self).devices@.len(),
                    old(self).cycles,
                    cycles_consumed as nat,
                ),
            decreases n - i,
        {
            let ghost devices_before = self.devices@;
            let ghost consumed_before = cycles_consumed;
            let c = self.step_and_tick_instruction();
            proof {
                self.lemma_progress(*old(self), devices_before, consumed_before as nat, c as nat);
            }
            executed += 1;
            cycles_consumed += c;
            i += 1;
        }
        proof {
            if self.halted {
                self.state().lemma_halted_stays((n - i) as nat);
            }
        }
        (executed, cycles_consumed)
    }

    /// Going on from a CPU that is `a` cycles behind `from` by `c` more cycles
    /// leaves it `a + c` cycles behind `from`, for the devices and for the
    /// notifications.
    proof fn lemma_progress(&self, from: CPU<D>, middle: Seq<D>, a: nat, c: nat)
        requires
            from.cycles + a + c <= u64::MAX,
            middle.len() == from.devices().len(),
            self.devices().len() == from.devices().len(),
            forall|j: int|
                0 <= j < middle.len() ==> #[trigger] middle[j] == notified_through(
                    from.devices()[j],
                    from.cycles,
                    a,
                ),
            forall|j: int|
                0 <= j < middle.len() ==> #[trigger] self.devices()[j] == notified_through(
                    middle[j],
                    (from.cycles + a) as u64,
                    c,
                ),
        ensures
            forall|j: int|
                0 <= j < self.devices().len() ==> #[trigger] self.devices()[j] == notified_through(
                    from.devices()[j],
                    from.cycles,
                    a + c,
                ),
            from.notifications@ + rounds(from.devices().len(), from.cycles, a) + rounds(
                from.devices().len(),
                (from.cycles + a) as u64,
                c,
            ) == from.notifications@ + rounds(from.devices().len(), from.cycles, a + c),
    {
        assert forall|j: int| 0 <= j < self.devices().len() implies #[trigger] self.devices()[j]
            == notified_through(from.devices()[j], from.cycles, a + c) by {
            lemma_notified_through_split(from.devices()[j], from.cycles, a, c);
            assert(self.devices()[j] == notified_through(middle[j], (from.cycles + a) as u64, c));
        }
        lemma_rounds_split(from.devices().len(), from.cycles, a, c);
        assert(from.notifications@ + rounds(from.devices().len(), from.cycles, a) + rounds(
            from.devices().len(),
            (from.cycles + a) as u64,
            c,
        ) =~= from.notifications@ + rounds(from.devices().len(), from.cycles, a + c));
    }

    /// Executes instructions, with the cycles that they take, until the CPU
    /// has halted. The program has to halt.
    pub fn run(&mut self)
        requires
            exists|n: nat|
                (#[trigger] old(self).state().steps(n)).halted && old(self).cycles + old(
                    self,
                ).state().total_cost(n) <= u64::MAX,
        ensures
            final(self).halted,
            forall|n: nat|
                (#[trigger] old(self).state().steps(n)).halted ==> {
                    &&& final(self).state() == old(self).state().steps(n)
                    &&& final(self).cycles == old(self).cycles + old(self).state().total_cost(n)
                },
            final(self).devices().len() == old(self).devices().len(),
            forall|j: int|
                0 <= j < old(self).devices().len() ==> #[trigger] final(self).devices()[j]
                    == notified_through(
                    old(self).devices()[j],
                    old(self).cycles,
                    (final(self).cycles - old(self).cycles) as nat,
                ),
            final(self).notifications@ == old(self).notifications@ + rounds(
                old(self).devices().len(),
                old(self).cycles,
                (final(self).cycles - old(self).cycles) as nat,
            ),
    {
        let ghost start = self.state();
        let ghost fuel: nat = choose|n: nat|
            (#[trigger] start.steps(n)).halted && old(self).cycles + start.total_cost(n)
                <= u64::MAX;
        let ghost done: nat = 0;
        assert(self.notifications@ + Seq::<Notification>::empty() =~= self.notifications@);
        while !self.halted
            invariant
                done <= fuel,
                old(self).state() == start,
                start.steps(fuel).halted,
                old(self).cycles + start.total_cost(fuel) <= u64::MAX,
                start.steps(fuel) == self.state().steps((fuel - done) as nat),
                start.total_cost(fuel) == (self.cycles - old(self).cycles) + self.state().total_cost(
                    (fuel - done) as nat,
                ),
                self.cycles >= old(self).cycles,
                self.devices@.len() == old(self).devices@.len(),
                forall|j: int|
                    0 <= j < self.devices@.len() ==> #[trigger] self.devices@[j]
                        == notified_through(
                        old(self).devices@[j],
                        old(self).cycles,
                        (self.cycles - old(self).cycles) as nat,
                    ),
                self.notifications@ == old(self).notifications@ + rounds(
                    old(self).devices@.len(),
                    old(self).cycles,
                    (self.cycles - old(self).cycles) as nat,
                ),
            decreases fuel - done,
        {
            let ghost devices_before = self.devices@;
            let ghost consumed_before = (self.cycles - old(self).cycles) as nat;
            assert(done < fuel);
            let c = self.step_and_tick_instruction();
            proof {
                self.lemma_progress(*old(self), devices_before, consumed_before, c as nat);
                done = done + 1;
            }
        }
        proof {
            self.state().lemma_halted_stays((fuel - done) as nat);
            assert forall|n: nat| (#[trigger] start.steps(n)).halted implies {
                &&& self.state() == start.steps(n)
                &&& self.cycles == old(self).cycles + start.total_cost(n)
            } by {
                if n <= fuel {
                    start.lemma_halted_after(n, fuel);
                } else {
                    start.lemma_halted_after(fuel, n);
                }
            }
        }
    }
}

} // verus!
