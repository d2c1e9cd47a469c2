use chip8::assembler::{assemble, get_address, get_hex_str, parse_asm_line, AsmError, OpcodeError};
use chip8::labels::LabelTable;

#[test]
fn test_parse_asm_line() {
    let mut labels = LabelTable::new();
    // Default tests
    assert_eq!(parse_asm_line("SYS 0xFE9", &mut labels, 0x200), Ok(0x0FE9));
    assert_eq!(parse_asm_line("CLS", &mut labels, 0x200), Ok(0x00E0));
    assert_eq!(parse_asm_line("RET", &mut labels, 0x200), Ok(0x00EE));
    assert_eq!(parse_asm_line("JP 0xE13", &mut labels, 0x200), Ok(0x1E13));
    assert_eq!(parse_asm_line("CALL 0x5C1", &mut labels, 0x200), Ok(0x25C1));
    assert_eq!(parse_asm_line("SE V5, 0xFE", &mut labels, 0x200), Ok(0x35FE));
    assert_eq!(parse_asm_line("SNE VC, 0xD1", &mut labels, 0x200), Ok(0x4CD1));
    assert_eq!(parse_asm_line("SE V1, VF", &mut labels, 0x200), Ok(0x51F0));
    assert_eq!(parse_asm_line("LD VD, 0x92", &mut labels, 0x200), Ok(0x6D92));
    assert_eq!(parse_asm_line("ADD V0, 0xFF", &mut labels, 0x200), Ok(0x70FF));
    assert_eq!(parse_asm_line("LD V0, V3", &mut labels, 0x200), Ok(0x8030));
    assert_eq!(parse_asm_line("OR V1, V2", &mut labels, 0x200), Ok(0x8121));
    assert_eq!(parse_asm_line("AND V5, V1", &mut labels, 0x200), Ok(0x8512));
    assert_eq!(parse_asm_line("XOR V2, VA", &mut labels, 0x200), Ok(0x82A3));
    assert_eq!(parse_asm_line("ADD VC, VF", &mut labels, 0x200), Ok(0x8CF4));
    assert_eq!(parse_asm_line("SUB V0, V8", &mut labels, 0x200), Ok(0x8085));
    assert_eq!(parse_asm_line("SHR V1", &mut labels, 0x200), Ok(0x8106));
    assert_eq!(parse_asm_line("SHR V1 VC", &mut labels, 0x200), Ok(0x81C6));
    assert_eq!(parse_asm_line("SUBN VA, V6", &mut labels, 0x200), Ok(0x8A67));
    assert_eq!(parse_asm_line("SHL V2", &mut labels, 0x200), Ok(0x820E));
    assert_eq!(parse_asm_line("SHL V2 V1", &mut labels, 0x200), Ok(0x821E));
    assert_eq!(parse_asm_line("SNE V0, VE", &mut labels, 0x200), Ok(0x90E0));
    assert_eq!(parse_asm_line("LD I, 0x46E", &mut labels, 0x200), Ok(0xA46E));
    assert_eq!(parse_asm_line("JP V0, 0xF12", &mut labels, 0x200), Ok(0xBF12));
    assert_eq!(parse_asm_line("RND V4, 0xBC", &mut labels, 0x200), Ok(0xC4BC));
    assert_eq!(parse_asm_line("DRW V5, VF, 0xC", &mut labels, 0x200), Ok(0xD5FC));
    assert_eq!(parse_asm_line("SKP V5", &mut labels, 0x200), Ok(0xE59E));
    assert_eq!(parse_asm_line("SKNP VF", &mut labels, 0x200), Ok(0xEFA1));
    assert_eq!(parse_asm_line("LD VA, DT", &mut labels, 0x200), Ok(0xFA07));
    assert_eq!(parse_asm_line("LD VA, K", &mut labels, 0x200), Ok(0xFA0A));
    assert_eq!(parse_asm_line("LD DT, V4", &mut labels, 0x200), Ok(0xF415));
    assert_eq!(parse_asm_line("LD ST, V4", &mut labels, 0x200), Ok(0xF418));
    assert_eq!(parse_asm_line("ADD I, VF", &mut labels, 0x200), Ok(0xFF1E));
    assert_eq!(parse_asm_line("LD F, VC", &mut labels, 0x200), Ok(0xFC29));
    assert_eq!(parse_asm_line("LD B, VB", &mut labels, 0x200), Ok(0xFB33));
    assert_eq!(parse_asm_line("LD I, VD", &mut labels, 0x200), Ok(0xFD55));
    assert_eq!(parse_asm_line("LD VC, I", &mut labels, 0x200), Ok(0xFC65));

    // Edge cases
    assert_eq!(parse_asm_line("LD VA, 0x2", &mut labels, 0x200), Ok(0x6A02));
    assert_eq!(
        parse_asm_line("CLS ; some comments", &mut labels, 0x200),
        Ok(0x00E0)
    );
    assert_eq!(
        parse_asm_line(";LD VA, 0x2", &mut labels, 0x200),
        Err(OpcodeError::NoOpcode)
    );
    assert_eq!(
        parse_asm_line("some_label:", &mut labels, 0x200),
        Err(OpcodeError::NoOpcode)
    );
}

#[test]
fn label_definition_is_recorded_and_resolves() {
    let mut labels = LabelTable::new();
    assert_eq!(
        parse_asm_line("loop_start:", &mut labels, 0x208),
        Err(OpcodeError::NoOpcode)
    );
    assert_eq!(parse_asm_line("JP loop_start", &mut labels, 0x20A), Ok(0x1208));
    assert_eq!(parse_asm_line("CALL loop_start", &mut labels, 0x20C), Ok(0x2208));
}

#[test]
fn unknown_label_is_incomplete() {
    let mut labels = LabelTable::new();
    assert_eq!(
        parse_asm_line("JP nowhere", &mut labels, 0x200),
        Err(OpcodeError::Incomplete)
    );
}

#[test]
fn label_redefinition_overwrites() {
    let mut labels = LabelTable::new();
    assert_eq!(parse_asm_line("spot:", &mut labels, 0x200), Err(OpcodeError::NoOpcode));
    assert_eq!(parse_asm_line("spot:", &mut labels, 0x20A), Err(OpcodeError::NoOpcode));
    assert_eq!(parse_asm_line("JP spot", &mut labels, 0x20C), Ok(0x120A));
}

#[test]
fn malformed_lines_are_rejected() {
    let mut labels = LabelTable::new();
    assert_eq!(
        parse_asm_line("BOGUS V0", &mut labels, 0x200),
        Err(OpcodeError::Malformed)
    );
    assert_eq!(
        parse_asm_line("SE V5, 0xZZ", &mut labels, 0x200),
        Err(OpcodeError::Malformed)
    );
    assert_eq!(
        parse_asm_line("SE V5", &mut labels, 0x200),
        Err(OpcodeError::Malformed)
    );
    assert_eq!(
        parse_asm_line("DRW V5, VF, 0x1C", &mut labels, 0x200),
        Err(OpcodeError::Malformed)
    );
    assert_eq!(
        parse_asm_line("LD V0, 0x123", &mut labels, 0x200),
        Err(OpcodeError::Malformed)
    );
    assert_eq!(
        parse_asm_line("JP 0x1234", &mut labels, 0x200),
        Err(OpcodeError::Malformed)
    );
}

#[test]
fn decimal_immediates_are_accepted() {
    let mut labels = LabelTable::new();
    assert_eq!(parse_asm_line("LD V1, 18", &mut labels, 0x200), Ok(0x6112));
    assert_eq!(parse_asm_line("ADD V1, 255", &mut labels, 0x200), Ok(0x71FF));
}

#[test]
fn get_hex_str_parses_numerals() {
    assert_eq!(get_hex_str("0xFE9"), Some(0xFE9));
    assert_eq!(get_hex_str("0x0"), Some(0));
    assert_eq!(get_hex_str("18"), Some(18));
    assert_eq!(get_hex_str("65535"), Some(0xFFFF));
    assert_eq!(get_hex_str("65536"), None);
    assert_eq!(get_hex_str("0x10000"), None);
    assert_eq!(get_hex_str("0x"), None);
    assert_eq!(get_hex_str("0xZZ"), None);
    assert_eq!(get_hex_str("V5"), None);
    assert_eq!(get_hex_str(""), None);
}

#[test]
fn get_address_resolves_labels_and_numerals() {
    let mut labels = LabelTable::new();
    assert_eq!(
        parse_asm_line("here:", &mut labels, 0x234),
        Err(OpcodeError::NoOpcode)
    );
    assert_eq!(get_address("0x46E", &labels), Ok(0x46E));
    assert_eq!(get_address("here", &labels), Ok(0x234));
    assert!(get_address("gone", &labels).is_err());
    assert!(get_address("0x1234", &labels).is_err());
}

#[test]
fn assemble_emits_big_endian_opcodes_in_order() {
    let bytes = assemble("LD V0, 0x05\nADD V0, 0x03\n").unwrap();
    assert_eq!(bytes, vec![0x60, 0x05, 0x70, 0x03]);
}

#[test]
fn assemble_skips_blank_and_comment_lines() {
    let bytes = assemble("\n; just a comment\nCLS\n\nRET").unwrap();
    assert_eq!(bytes, vec![0x00, 0xE0, 0x00, 0xEE]);
}

#[test]
fn assemble_resolves_forward_reference() {
    // The jump precedes the label: the second pass must encode the
    // label's assigned position, 0x202.
    let bytes = assemble("JP target\ntarget:").unwrap();
    assert_eq!(bytes, vec![0x12, 0x02]);
}

#[test]
fn assemble_resolves_backward_reference() {
    let bytes = assemble("start:\nJP start\n").unwrap();
    assert_eq!(bytes, vec![0x12, 0x00]);
}

#[test]
fn assemble_label_shares_position_of_next_instruction() {
    // CLS at 0x200, label at 0x202, RET at 0x202, JP label at 0x204.
    let bytes = assemble("CLS\nhere:\nRET\nJP here\n").unwrap();
    assert_eq!(bytes, vec![0x00, 0xE0, 0x00, 0xEE, 0x12, 0x02]);
}

#[test]
fn assemble_reports_undefined_label_with_line() {
    match assemble("CLS\nJP nowhere\n") {
        Err(AsmError::Undefined { line }) => assert_eq!(line, "JP nowhere"),
        other => panic!("expected an undefined-label error, got {:?}", other),
    }
}

#[test]
fn assemble_reports_malformed_line_with_line() {
    match assemble("CLS\nFROB V0, V1\n") {
        Err(AsmError::Malformed { line }) => assert_eq!(line, "FROB V0, V1"),
        other => panic!("expected a malformed-line error, got {:?}", other),
    }
}

#[test]
fn assemble_rejects_program_past_end_of_memory() {
    // 0xE00 bytes of program memory hold 0x700 two-byte instructions;
    // one more must be refused.
    let mut src = String::new();
    for _ in 0..0x701 {
        src.push_str("CLS\n");
    }
    assert!(matches!(assemble(&src), Err(AsmError::TooLarge)));
    let mut fits = String::new();
    for _ in 0..0x700 {
        fits.push_str("CLS\n");
    }
    assert_eq!(assemble(&fits).unwrap().len(), 0xE00);
}

#[test]
fn assemble_accepts_crlf_line_endings() {
    let bytes = assemble("CLS\r\nRET\r\n").unwrap();
    assert_eq!(bytes, vec![0x00, 0xE0, 0x00, 0xEE]);
}
