use toy_cpu::assembler::{assemble, instruction_size, split_mnemonic_operands};
use toy_cpu::error::{decimal, AsmError, AsmErrorKind};
use toy_cpu::isa::{decode_opcode, encode_opcode, Instr, Mnemonic};
use toy_cpu::operand::{parse_number, parse_reg, split_operands};
use toy_cpu::text::{chars_of, is_whitespace, split, trimmed};

fn chars(s: &str) -> Vec<char> {
    s.chars().collect()
}

fn text(s: &[char]) -> String {
    s.iter().collect()
}

#[test]
fn messages_name_the_line_and_the_reason() {
    let e = AsmError { line: 12, kind: AsmErrorKind::NumberOutOfRange };
    assert_eq!(e.message(), "line 12: number out of range (0..255)");
    let e = assemble("NOP\nLDI R4, 1").unwrap_err();
    assert_eq!(e.message(), "line 2: register out of range (R0..R3)");
    assert_eq!(
        AsmError { line: 1, kind: AsmErrorKind::EmptyLabel }.message(),
        "line 1: empty label"
    );
}

#[test]
fn every_kind_has_its_words() {
    let kinds = [
        (AsmErrorKind::EmptyLabel, "empty label"),
        (AsmErrorKind::DuplicateLabel, "duplicate label"),
        (AsmErrorKind::OrgWithoutAddress, "ORG without address"),
        (AsmErrorKind::UnknownMnemonic, "unknown mnemonic"),
        (AsmErrorKind::OperandCount, "wrong number of operands"),
        (AsmErrorKind::InvalidRegister, "invalid register"),
        (AsmErrorKind::RegisterOutOfRange, "register out of range (R0..R3)"),
        (AsmErrorKind::InvalidNumber, "invalid number"),
        (AsmErrorKind::NumberOutOfRange, "number out of range (0..255)"),
        (AsmErrorKind::UnresolvedAddress, "address is neither a label nor a number"),
    ];
    for (kind, words) in kinds {
        assert_eq!(kind.description(), words);
    }
}

#[test]
fn decimal_writes_numbers() {
    assert_eq!(decimal(0), "0");
    assert_eq!(decimal(7), "7");
    assert_eq!(decimal(10), "10");
    assert_eq!(decimal(1234567890), "1234567890");
    assert_eq!(decimal(usize::MAX), usize::MAX.to_string());
}

#[test]
fn chars_of_gives_the_characters() {
    assert_eq!(chars_of("a\u{e9}\u{3000}z"), vec!['a', '\u{e9}', '\u{3000}', 'z']);
    assert_eq!(chars_of(""), Vec::<char>::new());
}

#[test]
fn white_space_is_what_unicode_says() {
    for code in 0u32..0x11000 {
        if let Some(c) = char::from_u32(code) {
            assert_eq!(is_whitespace(c), c.is_whitespace());
        }
    }
}

#[test]
fn trimming_and_splitting() {
    assert_eq!(text(trimmed(&chars(" \t a b \u{a0}\r\n"))), "a b");
    assert_eq!(text(trimmed(&chars("   "))), "");
    let s = chars("a,,b,");
    let pieces = split(&s, ',');
    let pieces: Vec<String> = pieces.iter().map(|p| text(p)).collect();
    assert_eq!(pieces, vec!["a", "", "b", ""]);
    let s = chars(" R0 ,, 5 ,");
    let parts: Vec<String> = split_operands(&s).iter().map(|p| text(p)).collect();
    assert_eq!(parts, vec!["R0", "5"]);
}

#[test]
fn mnemonic_and_operands_are_split_at_white_space() {
    let line = chars("LDI   ,R0, 5");
    let (m, ops) = split_mnemonic_operands(&line);
    assert_eq!((text(m), text(ops)), ("LDI".to_string(), "R0, 5".to_string()));
    let line = chars("HLT");
    let (m, ops) = split_mnemonic_operands(&line);
    assert_eq!((text(m), text(ops)), ("HLT".to_string(), String::new()));
}

#[test]
fn instruction_sizes() {
    for (name, size) in [
        ("LDI", 2), ("add", 2), ("Sub", 2), ("LOAD", 2), ("store", 2), ("JMP", 2), ("jz", 2),
        ("OUT", 1), ("hlt", 1), ("NOP", 1),
    ] {
        assert_eq!(instruction_size(&chars(name)), Some(size));
    }
    assert_eq!(instruction_size(&chars("MOV")), None);
    assert_eq!(instruction_size(&chars("")), None);
    assert_eq!(instruction_size(&chars("LD\u{131}")), None);
}

#[test]
fn registers_and_numbers() {
    assert_eq!(parse_reg(&chars(" r3 ")), Ok(3));
    assert_eq!(parse_reg(&chars("R9")), Ok(9));
    assert_eq!(parse_reg(&chars("R10")), Err(AsmErrorKind::InvalidRegister));
    assert_eq!(parse_reg(&chars("R+1")), Err(AsmErrorKind::InvalidRegister));
    assert_eq!(parse_reg(&chars("R")), Err(AsmErrorKind::InvalidRegister));
    assert_eq!(parse_reg(&chars("3")), Err(AsmErrorKind::InvalidRegister));
    assert_eq!(parse_number(&chars("255")), Ok(255));
    assert_eq!(parse_number(&chars("0xff")), Ok(255));
    assert_eq!(parse_number(&chars("256")), Err(AsmErrorKind::NumberOutOfRange));
    assert_eq!(parse_number(&chars("")), Err(AsmErrorKind::InvalidNumber));
    assert_eq!(parse_number(&chars("+1")), Err(AsmErrorKind::InvalidNumber));
}

#[test]
fn opcodes_decode_to_what_was_encoded() {
    let ops = [
        Mnemonic::Ldi, Mnemonic::Add, Mnemonic::Sub, Mnemonic::Load, Mnemonic::Store,
        Mnemonic::Jz, Mnemonic::Out,
    ];
    for op in ops {
        for reg in 0u8..4 {
            assert_eq!(decode_opcode(encode_opcode(op, reg)), (op, reg));
        }
    }
    assert_eq!(decode_opcode(0x40).0, Mnemonic::Jmp);
    assert_eq!(decode_opcode(0xFF).0, Mnemonic::Hlt);
    assert_eq!(decode_opcode(0x00).0, Mnemonic::Nop);
    assert_eq!(decode_opcode(0x41).0, Mnemonic::Nop);
    assert_eq!(decode_opcode(0x1C), (Mnemonic::Ldi, 0));
}

#[test]
fn instructions_decode_to_what_was_encoded() {
    let all = [
        Instr::Ldi { reg: 2, imm: 9 },
        Instr::Add { dst: 1, src: 3 },
        Instr::Sub { dst: 3, src: 0 },
        Instr::Load { reg: 0, addr: 200 },
        Instr::Store { reg: 1, addr: 0 },
        Instr::Jmp { addr: 77 },
        Instr::Jz { reg: 2, addr: 5 },
        Instr::Out { reg: 3 },
        Instr::Hlt,
        Instr::Nop,
    ];
    for i in all {
        let mut bytes = Vec::new();
        i.encode(&mut bytes);
        let operand = if bytes.len() == 2 { bytes[1] } else { 0xEE };
        assert_eq!(Instr::decode(bytes[0], operand), i);
    }
    assert_eq!(Instr::decode(0x20, 0xFE), Instr::Add { dst: 0, src: 2 });
}
