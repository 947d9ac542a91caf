use monkey::code::{
    format_instruction, instructions_string, make, read_operands, read_u16, Opcode,
};
use monkey::text::{byte_len, byte_slice, decimal_string, divide, signed_decimal_string};

#[test]
fn decimal_notation_of_the_extremes() {
    assert_eq!(decimal_string(0), "0");
    assert_eq!(decimal_string(10), "10");
    assert_eq!(decimal_string(u64::MAX), "18446744073709551615");
    assert_eq!(signed_decimal_string(-1), "-1");
    assert_eq!(signed_decimal_string(i64::MIN), "-9223372036854775808");
    assert_eq!(signed_decimal_string(i64::MAX), "9223372036854775807");
}

#[test]
fn division_rounds_toward_zero_and_wraps() {
    assert_eq!(divide(7, 2), 3);
    assert_eq!(divide(-7, 2), -3);
    assert_eq!(divide(7, -2), -3);
    assert_eq!(divide(-7, -2), 3);
    assert_eq!(divide(i64::MIN, -1), i64::MIN);
    assert_eq!(divide(i64::MIN, 1), i64::MIN);
    assert_eq!(divide(i64::MIN, i64::MIN), 1);
    assert_eq!(divide(i64::MAX, i64::MIN), 0);
}

#[test]
fn byte_slices_stop_at_character_boundaries() {
    assert_eq!(byte_len("héllo"), 6);
    assert_eq!(byte_slice("héllo", 0, 1), Some("h".to_string()));
    assert_eq!(byte_slice("héllo", 1, 3), Some("é".to_string()));
    assert_eq!(byte_slice("héllo", 1, 2), None);
    assert_eq!(byte_slice("héllo", 2, 3), None);
    assert_eq!(byte_slice("héllo", 3, 6), Some("llo".to_string()));
    assert_eq!(byte_slice("héllo", 3, 7), None);
    assert_eq!(byte_slice("héllo", 4, 3), None);
    assert_eq!(byte_slice("héllo", 6, 6), Some(String::new()));
}

#[test]
fn every_opcode_has_its_own_byte() {
    for byte in 0u8..=255 {
        match Opcode::from_byte(byte) {
            Some(op) => {
                assert!(byte <= 30);
                assert_eq!(op.to_byte(), byte);
                assert_eq!(Opcode::try_from(byte), Ok(op));
            }
            None => {
                assert!(byte > 30);
                assert_eq!(
                    Opcode::try_from(byte),
                    Err(format!("Invalid opcode: {}", byte))
                );
            }
        }
    }
    assert_eq!(Opcode::OpConstant as u8, Opcode::OpConstant.to_byte());
    assert_eq!(Opcode::OpCurrentClosure as u8, Opcode::OpCurrentClosure.to_byte());
    assert_eq!(Opcode::OpCurrentClosure.to_byte(), 30);
}

#[test]
fn operands_are_written_big_endian_and_cut_to_their_width() {
    assert_eq!(make(Opcode::OpConstant, vec![0x1234]), vec![0, 0x12, 0x34]);
    assert_eq!(make(Opcode::OpConstant, vec![0x1_0001]), vec![0, 0, 1]);
    assert_eq!(make(Opcode::OpGetLocal, vec![0x1ff]), vec![25, 0xff]);
    assert_eq!(make(Opcode::OpConstant, vec![]), vec![0, 0, 0]);
    assert_eq!(make(Opcode::OpClosure, vec![7]), vec![28, 0, 7, 0]);
    assert_eq!(read_u16(&[0x12, 0x34]), 0x1234);
    assert_eq!(read_u16(&[0xff, 0xff, 7]), 65535);
}

#[test]
fn instruction_length_is_one_more_than_the_operand_widths() {
    for byte in 0u8..=30 {
        let op = Opcode::from_byte(byte).unwrap();
        let def = op.lookup();
        let width: usize = def.operand_widths.iter().sum();
        assert_eq!(op.instruction_len(), width + 1);
        assert_eq!(make(op, vec![]).len(), width + 1);
        assert_eq!(def.name, op.to_string());
    }
}

#[test]
fn reading_undoes_making() {
    let cases = vec![
        (Opcode::OpConstant, vec![0u64]),
        (Opcode::OpJump, vec![9999]),
        (Opcode::OpHash, vec![65535]),
        (Opcode::OpCall, vec![255]),
        (Opcode::OpClosure, vec![513, 2]),
        (Opcode::OpAdd, vec![]),
    ];
    for (op, operands) in cases {
        let instruction = make(op, operands.clone());
        let (read, n) = read_operands(&op.lookup(), &instruction[1..]);
        assert_eq!(read, operands);
        assert_eq!(n + 1, instruction.len());
    }
}

#[test]
fn format_instruction_reports_a_wrong_operand_count() {
    let def = Opcode::OpConstant.lookup();
    assert_eq!(format_instruction(&def, vec![7]), "OpConstant 7");
    assert_eq!(
        format_instruction(&def, vec![]),
        "ERROR: operand len 0 does not match defined 1\n"
    );
    let def = Opcode::OpClosure.lookup();
    assert_eq!(format_instruction(&def, vec![1, 2]), "OpClosure 1 2");
    let def = Opcode::OpPop.lookup();
    assert_eq!(format_instruction(&def, vec![]), "OpPop");
}

#[test]
fn disassembly_of_bytes_that_are_no_program() {
    assert_eq!(instructions_string(&vec![]), "");
    assert_eq!(
        instructions_string(&vec![200, 1]),
        "ERROR: Invalid opcode: 200\n0001 OpPop\n"
    );
    assert_eq!(
        instructions_string(&vec![1, 0, 5]),
        "0000 OpPop\nERROR: truncated instruction OpConstant\n"
    );
    let mut long = vec![1u8; 1000];
    long.extend(make(Opcode::OpConstant, vec![258]));
    let text = instructions_string(&long);
    assert!(text.ends_with("0999 OpPop\n1000 OpConstant 258\n"));
}
