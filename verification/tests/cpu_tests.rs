use toy_cpu::assembler::assemble;
use toy_cpu::cpu::CPU;
use toy_cpu::device::TimerDevice;

#[test]
fn test_add_and_cycles() {
    let program: &[u8] = &[
        0x10, 0x05, // LDI R0,5
        0x11, 0x0A, // LDI R1,10
        0x20, 0x01, // ADD R0,R1
        0x50, // OUT R0
        0xFF, // HLT
    ];

    let mut cpu = CPU::new();
    cpu.load(program, 0);
    cpu.run();
    assert_eq!(cpu.regs[0], 15);
    assert_eq!(cpu.cycles, 12);
    assert!(cpu.halted);
}

#[test]
fn scenario_assemble_and_run() {
    let bytes = assemble("LDI R0, 5\nLDI R1, 10\nADD R0, R1\nOUT R0\nHLT").unwrap();
    let mut cpu = CPU::new();
    cpu.load(&bytes, 0);
    cpu.run();
    assert_eq!(cpu.regs[0], 15);
    assert!(!cpu.z);
    assert_eq!(cpu.cycles, 12);
    assert!(cpu.halted);
    assert_eq!(cpu.output, vec![15]);
}

#[test]
fn load_immediate_then_halt_takes_three_cycles() {
    let mut cpu = CPU::new();
    cpu.load(&[0x12, 0x00, 0xFF], 0);
    assert_eq!(cpu.step_and_tick_instruction(), 2);
    assert!(cpu.z);
    assert_eq!(cpu.step_and_tick_instruction(), 1);
    assert_eq!(cpu.cycles, 3);
    assert!(cpu.halted);
}

#[test]
fn halted_cpu_does_nothing() {
    let mut cpu = CPU::new();
    cpu.load(&[0xFF, 0x10, 0x05], 0);
    cpu.run();
    let pc = cpu.pc;
    assert_eq!(cpu.step_instruction(), 0);
    assert_eq!(cpu.step_and_tick_instruction(), 0);
    assert_eq!(cpu.step_n_instructions(5), (0, 0));
    assert_eq!((cpu.pc, cpu.cycles, cpu.regs[0]), (pc, 1, 0));
}

#[test]
fn step_instruction_leaves_the_cycle_counter() {
    let mut cpu = CPU::new();
    cpu.attach_device(TimerDevice::new(1));
    cpu.load(&[0x50], 0);
    assert_eq!(cpu.step_instruction(), 4);
    assert_eq!(cpu.cycles, 0);
    assert_eq!(cpu.devices[0].fired(), 0);
    assert_eq!(cpu.output, vec![0]);
}

#[test]
fn each_instruction_has_its_effect_and_cost() {
    let src = "LDI R1, 200\nLDI R2, 100\nADD R1, R2\nSUB R2, R1\nSTORE R2, 0x80\nLOAD R3, 0x80\nSUB R3, R3\nJZ R3, skip\nLDI R0, 1\nskip:\nNOP\nJMP end\nLDI R0, 2\nend:\nOUT R1\nHLT\n";
    let bytes = assemble(src).unwrap();
    let mut cpu = CPU::new();
    cpu.load(&bytes, 0);
    assert_eq!(cpu.step_instruction(), 2);
    assert_eq!(cpu.step_instruction(), 2);
    assert_eq!(cpu.step_instruction(), 3);
    assert_eq!((cpu.regs[1], cpu.z), (44, false));
    assert_eq!(cpu.step_instruction(), 3);
    assert_eq!((cpu.regs[2], cpu.z), (56, false));
    assert_eq!(cpu.step_instruction(), 4);
    assert_eq!(cpu.mem.read(0x80), 56);
    assert!(!cpu.z);
    assert_eq!(cpu.step_instruction(), 4);
    assert_eq!((cpu.regs[3], cpu.z), (56, false));
    assert_eq!(cpu.step_instruction(), 3);
    assert_eq!((cpu.regs[3], cpu.z), (0, true));
    assert_eq!(cpu.step_instruction(), 3);
    assert_eq!(cpu.pc, 18);
    assert_eq!(cpu.step_instruction(), 1);
    assert_eq!(cpu.step_instruction(), 3);
    assert_eq!(cpu.pc, 23);
    assert_eq!(cpu.step_instruction(), 4);
    assert_eq!(cpu.output, vec![44]);
    assert_eq!(cpu.step_instruction(), 1);
    assert!(cpu.halted);
    assert_eq!(cpu.regs[0], 0);
    assert!(cpu.z);
}

#[test]
fn jump_if_zero_falls_through_on_nonzero() {
    let mut cpu = CPU::new();
    cpu.load(&[0x10, 0x01, 0x80, 0x40, 0xFF], 0);
    cpu.step_instruction();
    assert_eq!(cpu.step_instruction(), 3);
    assert_eq!(cpu.pc, 4);
}

#[test]
fn stepping_consumes_the_bytes_the_assembler_wrote() {
    let lines = [
        "LDI R0, 1", "ADD R0, R1", "SUB R0, R1", "LOAD R0, 9", "STORE R0, 9", "OUT R0", "NOP",
        "HLT",
    ];
    for line in lines {
        let bytes = assemble(line).unwrap();
        let mut cpu = CPU::new();
        cpu.load(&bytes, 0x20);
        cpu.step_instruction();
        assert_eq!(cpu.pc, 0x20 + bytes.len());
    }
}

#[test]
fn unknown_opcode_is_a_one_cycle_nop() {
    let mut cpu = CPU::new();
    cpu.load(&[0x9A, 0x41, 0xF0], 0);
    assert_eq!(cpu.step_instruction(), 1);
    assert_eq!(cpu.step_instruction(), 1);
    assert_eq!(cpu.step_instruction(), 1);
    assert_eq!(cpu.pc, 3);
    assert!(!cpu.halted);
    assert_eq!(cpu.regs, [0, 0, 0, 0]);
}

#[test]
fn program_counter_wraps() {
    let mut cpu = CPU::new();
    cpu.load(&[0x11, 0x07], 255);
    assert_eq!(cpu.pc, 255);
    assert_eq!(cpu.mem.read(0), 0x07);
    assert_eq!(cpu.step_instruction(), 2);
    assert_eq!(cpu.regs[1], 7);
    assert_eq!(cpu.pc, 1);
}

#[test]
fn load_beyond_memory_wraps_when_fetching() {
    let mut cpu = CPU::new();
    cpu.load(&[0xFF], 300);
    assert_eq!(cpu.pc, 300);
    assert_eq!(cpu.mem.read(44), 0xFF);
    assert_eq!(cpu.step_instruction(), 1);
    assert!(cpu.halted);
    assert_eq!(cpu.pc, 45);
}

#[test]
fn arithmetic_wraps() {
    let mut cpu = CPU::new();
    cpu.load(&[0x10, 0xFF, 0x11, 0x01, 0x20, 0x01, 0x62, 0x01], 0);
    cpu.step_n_instructions(3);
    assert_eq!((cpu.regs[0], cpu.z), (0, true));
    cpu.step_n_instructions(1);
    assert_eq!((cpu.regs[2], cpu.z), (255, false));
}

#[test]
fn step_n_stops_at_halt() {
    let mut cpu = CPU::new();
    cpu.load(&[0x00, 0x00, 0xFF, 0x00], 0);
    assert_eq!(cpu.step_n_instructions(10), (3, 3));
    assert!(cpu.halted);
    let mut cpu = CPU::new();
    cpu.load(&[0x00, 0x50, 0xFF], 0);
    assert_eq!(cpu.step_n_instructions(2), (2, 5));
    assert!(!cpu.halted);
    assert_eq!(cpu.step_n_instructions(0), (0, 0));
}

#[test]
fn devices_are_notified_of_every_cycle() {
    let mut cpu = CPU::new();
    cpu.attach_device(TimerDevice::new(5));
    cpu.attach_device(TimerDevice::new(1));
    cpu.load(&[0x10, 0x05, 0x50, 0xFF], 0);
    cpu.run();
    assert_eq!(cpu.cycles, 7);
    assert_eq!(cpu.devices[0].fired(), 1);
    assert_eq!(cpu.devices[1].fired(), 7);
    assert_eq!(cpu.devices[0].next(), 10);
}

#[test]
fn a_program_may_stop_short_of_the_steps_asked_for() {
    let mut cpu = CPU::new();
    cpu.load(&[0xFF], 0);
    cpu.cycles = u64::MAX - 1;
    assert_eq!(cpu.step_and_tick_instruction(), 1);
    assert_eq!(cpu.cycles, u64::MAX);
    assert!(cpu.halted);
    assert_eq!(cpu.step_n_instructions(usize::MAX), (0, 0));
}

#[test]
fn with_devices_attaches_in_order() {
    let mut cpu = CPU::with_devices(vec![TimerDevice::new(2), TimerDevice::new(3)]);
    cpu.load(&[0x50, 0x50, 0xFF], 0);
    cpu.run();
    assert_eq!(cpu.cycles, 9);
    assert_eq!(cpu.devices[0].fired(), 4);
    assert_eq!(cpu.devices[1].fired(), 3);
}
