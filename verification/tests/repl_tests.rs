use toy_cpu::number::parse_num;
use toy_cpu::repl::{parse_command, Command};

fn chars(s: &str) -> Vec<char> {
    s.chars().collect()
}

#[test]
fn commands_are_read_in_either_case() {
    assert_eq!(parse_command("help"), Command::Help);
    assert_eq!(parse_command("  ASM  "), Command::Asm);
    assert_eq!(parse_command("Run"), Command::Run);
    assert_eq!(parse_command("trace"), Command::Trace);
    assert_eq!(parse_command("dump"), Command::Dump);
    assert_eq!(parse_command("regs extra words"), Command::Regs);
    assert_eq!(parse_command("exit"), Command::Quit);
    assert_eq!(parse_command("QUIT"), Command::Quit);
}

#[test]
fn empty_and_unknown_lines() {
    assert_eq!(parse_command(""), Command::Empty);
    assert_eq!(parse_command(" \t \n"), Command::Empty);
    assert_eq!(parse_command("frobnicate 3"), Command::Unknown);
    assert_eq!(parse_command("helpme"), Command::Unknown);
}

#[test]
fn step_takes_a_count() {
    assert_eq!(parse_command("step"), Command::Step(1));
    assert_eq!(parse_command("step 12"), Command::Step(12));
    assert_eq!(parse_command("step\t3"), Command::Step(3));
    assert_eq!(parse_command("step +3"), Command::Step(1));
    assert_eq!(parse_command("step 0x10"), Command::Step(1));
    assert_eq!(parse_command("step many"), Command::Step(1));
    assert_eq!(parse_command("step 99999999999999999999999999"), Command::Step(1));
}

#[test]
fn mem_takes_an_address_and_a_length() {
    assert_eq!(parse_command("mem 0x10 4"), Command::Mem { addr: 16, len: 4 });
    assert_eq!(parse_command("mem 32"), Command::Mem { addr: 32, len: 16 });
    assert_eq!(parse_command("mem 0XfF x"), Command::Mem { addr: 255, len: 16 });
    assert_eq!(parse_command("mem"), Command::MemWithoutAddress);
    assert_eq!(parse_command("mem here 4"), Command::MemWithoutAddress);
}

#[test]
fn parse_num_reads_decimal_and_hex() {
    assert_eq!(parse_num(&chars("42")), Some(42));
    assert_eq!(parse_num(&chars(" 0x2A ")), Some(42));
    assert_eq!(parse_num(&chars("0X2a")), Some(42));
    assert_eq!(parse_num(&chars("007")), Some(7));
    assert_eq!(parse_num(&chars("18446744073709551615")), Some(usize::MAX));
    assert_eq!(parse_num(&chars("0xFFFFFFFFFFFFFFFF")), Some(usize::MAX));
}

#[test]
fn parse_num_rejects_what_is_no_number() {
    assert_eq!(parse_num(&chars("")), None);
    assert_eq!(parse_num(&chars("0x")), None);
    assert_eq!(parse_num(&chars("+")), None);
    assert_eq!(parse_num(&chars("+5")), None);
    assert_eq!(parse_num(&chars("++1")), None);
    assert_eq!(parse_num(&chars("-1")), None);
    assert_eq!(parse_num(&chars("12a")), None);
    assert_eq!(parse_num(&chars("0xG")), None);
    assert_eq!(parse_num(&chars("1 2")), None);
    assert_eq!(parse_num(&chars("18446744073709551616")), None);
    assert_eq!(parse_num(&chars("0x10000000000000000")), None);
}
