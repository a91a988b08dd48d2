use toy_cpu::assembler::assemble;
use toy_cpu::error::{AsmError, AsmErrorKind};

fn rejected(src: &str) -> AsmError {
    match assemble(src) {
        Ok(bytes) => panic!("assembled to {:?}", bytes),
        Err(e) => e,
    }
}

#[test]
fn assemble_basic_program() {
    let src = r#"
            start:
            LDI R0, 5
            LDI R1, 10
            ADD R0, R1
            OUT R0
            HLT
        "#;
    let bytes = assemble(src).expect("assemble failed");
    let expected: Vec<u8> = vec![
        0x10, 0x05, // LDI R0,5
        0x11, 0x0A, // LDI R1,10
        0x20, 0x01, // ADD R0,R1
        0x50, // OUT R0
        0xFF, // HLT
    ];
    assert_eq!(bytes, expected);
}

#[test]
fn assemble_labels_and_jmp() {
    let src = r#"
            ORG 0x10
            loop:
            LDI R0, 1
            JMP loop
        "#;
    let bytes = assemble(src).expect("assemble failed");
    assert_eq!(bytes.len(), 4);
}

#[test]
fn assemble_single_line_scenario() {
    let bytes = assemble("LDI R0, 5\nLDI R1, 10\nADD R0, R1\nOUT R0\nHLT").unwrap();
    assert_eq!(bytes, vec![0x10, 0x05, 0x11, 0x0A, 0x20, 0x01, 0x50, 0xFF]);
}

#[test]
fn assemble_is_deterministic() {
    let src = "start:\nLDI R2, 0x7f\nJZ R2, start\nHLT\n";
    assert_eq!(assemble(src), assemble(src));
}

#[test]
fn org_sets_the_label_address_without_padding() {
    let bytes = assemble("ORG 0x10\nloop:\nLDI R0, 1\nJMP loop\n").unwrap();
    assert_eq!(bytes, vec![0x10, 0x01, 0x40, 0x10]);
}

#[test]
fn every_mnemonic_encodes() {
    let src = "LDI R3, 255\nADD R1, R2\nSUB R2, R3\nLOAD R1, 0x20\nSTORE R2, 33\nJMP 7\nJZ R3, 9\nOUT R2\nHLT\nNOP\n";
    let bytes = assemble(src).unwrap();
    assert_eq!(
        bytes,
        vec![
            0x13, 0xFF, 0x21, 0x02, 0x62, 0x03, 0x31, 0x20, 0x72, 0x21, 0x40, 0x07, 0x83, 0x09,
            0x52, 0xFF, 0x00
        ]
    );
}

#[test]
fn forward_and_backward_references_resolve_alike() {
    let forward = assemble("JMP end\nNOP\nend:\nHLT\n").unwrap();
    assert_eq!(forward, vec![0x40, 0x03, 0x00, 0xFF]);
    let backward = assemble("NOP\nNOP\nNOP\nend:\nHLT\nJMP end\n").unwrap();
    assert_eq!(backward, vec![0x00, 0x00, 0x00, 0xFF, 0x40, 0x03]);
}

#[test]
fn mnemonics_and_registers_ignore_case() {
    assert_eq!(assemble("ldi r1, 0X0a\nhLt").unwrap(), vec![0x11, 0x0A, 0xFF]);
    assert_eq!(assemble("org 2\nl:\njmp l").unwrap(), vec![0x40, 0x02]);
}

#[test]
fn labels_are_case_sensitive() {
    assert_eq!(
        rejected("Loop:\nJMP loop"),
        AsmError { line: 2, kind: AsmErrorKind::UnresolvedAddress }
    );
}

#[test]
fn comments_and_blank_lines_are_skipped() {
    let src = "; a comment\n\n   # another\nLDI R0, 1 ; trailing\nHLT # done\n";
    assert_eq!(assemble(src).unwrap(), vec![0x10, 0x01, 0xFF]);
}

#[test]
fn carriage_returns_end_lines_too() {
    assert_eq!(assemble("LDI R0, 1\r\nHLT\r\n").unwrap(), vec![0x10, 0x01, 0xFF]);
}

#[test]
fn empty_source_assembles_to_nothing() {
    assert_eq!(assemble("").unwrap(), Vec::<u8>::new());
    assert_eq!(assemble("\n\n; only comments\n").unwrap(), Vec::<u8>::new());
}

#[test]
fn addresses_wrap_in_the_layout() {
    let mut src = String::from("ORG 255\nNOP\nhere:\n");
    src.push_str("JMP here\n");
    assert_eq!(assemble(&src).unwrap(), vec![0x00, 0x40, 0x00]);
}

#[test]
fn a_label_named_like_a_number_wins() {
    assert_eq!(assemble("NOP\n5:\nJMP 5").unwrap(), vec![0x00, 0x40, 0x01]);
}

#[test]
fn signs_are_rejected_in_literals() {
    assert_eq!(rejected("LDI R1, +7"), AsmError { line: 1, kind: AsmErrorKind::InvalidNumber });
    assert_eq!(rejected("LDI R1, 0x+7"), AsmError { line: 1, kind: AsmErrorKind::InvalidNumber });
    assert_eq!(rejected("LDI R+1, 7"), AsmError { line: 1, kind: AsmErrorKind::InvalidRegister });
    assert_eq!(rejected("ORG +1"), AsmError { line: 1, kind: AsmErrorKind::InvalidNumber });
    assert_eq!(rejected("JMP +1"), AsmError { line: 1, kind: AsmErrorKind::UnresolvedAddress });
}

#[test]
fn leading_zeros_are_accepted_in_numbers() {
    assert_eq!(assemble("LDI R1, 007\nJMP 0x0001").unwrap(), vec![0x11, 0x07, 0x40, 0x01]);
}

#[test]
fn bare_instructions_reject_operands() {
    assert_eq!(rejected("HLT R0"), AsmError { line: 1, kind: AsmErrorKind::OperandCount });
    assert_eq!(rejected("NOP\nNOP 1, 2"), AsmError { line: 2, kind: AsmErrorKind::OperandCount });
    assert_eq!(rejected("HLT now"), AsmError { line: 1, kind: AsmErrorKind::OperandCount });
    assert_eq!(assemble("HLT ,\nNOP ; nothing").unwrap(), vec![0xFF, 0x00]);
}

#[test]
fn invalid_register_is_rejected_with_its_line() {
    assert_eq!(
        rejected("LDI R0, 1\nLDI R4, 2\nHLT"),
        AsmError { line: 2, kind: AsmErrorKind::RegisterOutOfRange }
    );
    assert_eq!(
        rejected("NOP\n\nADD R0, R7"),
        AsmError { line: 3, kind: AsmErrorKind::RegisterOutOfRange }
    );
    assert_eq!(rejected("OUT R9"), AsmError { line: 1, kind: AsmErrorKind::RegisterOutOfRange });
}

#[test]
fn out_of_range_literal_is_rejected_with_its_line() {
    assert_eq!(
        rejected("start:\n; comment\nLDI R0, 300"),
        AsmError { line: 3, kind: AsmErrorKind::NumberOutOfRange }
    );
    assert_eq!(rejected("LDI R0, 0x100"), AsmError {
        line: 1,
        kind: AsmErrorKind::NumberOutOfRange
    });
    assert_eq!(
        rejected("LDI R0, 99999999999999999999999999"),
        AsmError { line: 1, kind: AsmErrorKind::NumberOutOfRange }
    );
    assert_eq!(rejected("JMP 256"), AsmError { line: 1, kind: AsmErrorKind::NumberOutOfRange });
    assert_eq!(rejected("ORG 256"), AsmError { line: 1, kind: AsmErrorKind::NumberOutOfRange });
}

#[test]
fn empty_label_is_rejected() {
    assert_eq!(rejected("NOP\n  :"), AsmError { line: 2, kind: AsmErrorKind::EmptyLabel });
}

#[test]
fn duplicate_label_is_rejected() {
    assert_eq!(
        rejected("a:\nNOP\na:\nHLT"),
        AsmError { line: 3, kind: AsmErrorKind::DuplicateLabel }
    );
}

#[test]
fn org_without_address_is_rejected() {
    assert_eq!(rejected("ORG"), AsmError { line: 1, kind: AsmErrorKind::OrgWithoutAddress });
    assert_eq!(rejected("ORG zz"), AsmError { line: 1, kind: AsmErrorKind::InvalidNumber });
}

#[test]
fn unknown_mnemonic_is_rejected() {
    assert_eq!(rejected("NOP\nMOV R0, R1"), AsmError {
        line: 2,
        kind: AsmErrorKind::UnknownMnemonic
    });
    assert_eq!(rejected("ORG\t5"), AsmError { line: 1, kind: AsmErrorKind::UnknownMnemonic });
}

#[test]
fn wrong_operand_count_is_rejected() {
    assert_eq!(rejected("LDI R0"), AsmError { line: 1, kind: AsmErrorKind::OperandCount });
    assert_eq!(rejected("ADD R0, R1, R2"), AsmError {
        line: 1,
        kind: AsmErrorKind::OperandCount
    });
    assert_eq!(rejected("JMP"), AsmError { line: 1, kind: AsmErrorKind::OperandCount });
    assert_eq!(rejected("JMP 1, 2"), AsmError { line: 1, kind: AsmErrorKind::OperandCount });
    assert_eq!(rejected("OUT"), AsmError { line: 1, kind: AsmErrorKind::OperandCount });
    assert_eq!(rejected("OUT R0, R1"), AsmError { line: 1, kind: AsmErrorKind::OperandCount });
    assert_eq!(rejected("LDI R0, 1, 2"), AsmError { line: 1, kind: AsmErrorKind::OperandCount });
    assert_eq!(rejected("STORE R0"), AsmError { line: 1, kind: AsmErrorKind::OperandCount });
}

#[test]
fn malformed_register_is_rejected() {
    assert_eq!(rejected("LDI X0, 1"), AsmError { line: 1, kind: AsmErrorKind::InvalidRegister });
    assert_eq!(rejected("OUT R"), AsmError { line: 1, kind: AsmErrorKind::InvalidRegister });
    assert_eq!(rejected("OUT R256"), AsmError { line: 1, kind: AsmErrorKind::InvalidRegister });
    assert_eq!(rejected("OUT R10"), AsmError { line: 1, kind: AsmErrorKind::InvalidRegister });
    assert_eq!(rejected("OUT R01"), AsmError { line: 1, kind: AsmErrorKind::InvalidRegister });
    assert_eq!(rejected("OUT Rx"), AsmError { line: 1, kind: AsmErrorKind::InvalidRegister });
    assert_eq!(rejected("OUT 1"), AsmError { line: 1, kind: AsmErrorKind::InvalidRegister });
}

#[test]
fn malformed_number_is_rejected() {
    assert_eq!(rejected("LDI R0, 1x"), AsmError { line: 1, kind: AsmErrorKind::InvalidNumber });
    assert_eq!(rejected("LDI R0, 0x"), AsmError { line: 1, kind: AsmErrorKind::InvalidNumber });
    assert_eq!(rejected("LDI R0, -1"), AsmError { line: 1, kind: AsmErrorKind::InvalidNumber });
}

#[test]
fn unresolved_address_is_rejected() {
    assert_eq!(rejected("JMP nowhere"), AsmError {
        line: 1,
        kind: AsmErrorKind::UnresolvedAddress
    });
    assert_eq!(
        rejected("NOP\nLOAD R0, missing"),
        AsmError { line: 2, kind: AsmErrorKind::UnresolvedAddress }
    );
}

#[test]
fn first_pass_rejections_come_first() {
    assert_eq!(
        rejected("LDI R9, 1\nFOO"),
        AsmError { line: 2, kind: AsmErrorKind::UnknownMnemonic }
    );
}

#[test]
fn operands_are_read_before_registers_are_checked() {
    assert_eq!(
        rejected("LDI R9, 300"),
        AsmError { line: 1, kind: AsmErrorKind::NumberOutOfRange }
    );
}
