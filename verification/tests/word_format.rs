use simpletron::word::{
    calculate_page_address, encode_word, format_instruction, read_opcode, read_operand,
};

#[test]
fn encode_decode_round_trip_positive() {
    let w = encode_word(10, 5);
    assert_eq!(w, 100005);
    assert_eq!(read_opcode(w), 10);
    assert_eq!(read_operand(w), 5);
}

#[test]
fn encode_decode_round_trip_negative_operand() {
    let w = encode_word(21, -3456);
    assert_eq!(w, -213456);
    assert_eq!(read_opcode(w), 21);
    assert_eq!(read_operand(w), -3456);
}

#[test]
fn encode_decode_round_trip_extremes() {
    for &(op, val) in &[(0u32, 0i32), (0, -9999), (49, 9999), (49, -9999), (45, 0)] {
        let w = encode_word(op, val);
        assert_eq!(read_opcode(w) as u32, op);
        assert_eq!(read_operand(w), val);
    }
}

#[test]
fn decode_of_raw_word() {
    assert_eq!(read_opcode(-123456), 12);
    assert_eq!(read_operand(-123456), -3456);
    assert_eq!(read_opcode(999999), 99);
    assert_eq!(read_operand(999999), 9999);
}

#[test]
fn format_instruction_exact_text() {
    assert_eq!(format_instruction(10, 5), "+100005");
    assert_eq!(format_instruction(45, 0), "+450000");
    assert_eq!(format_instruction(21, -3456), "-213456");
    assert_eq!(format_instruction(0, 7), "+000007");
    assert_eq!(format_instruction(0, -9999), "-009999");
}

#[test]
fn page_address_split() {
    assert_eq!(calculate_page_address(0), (0, 0));
    assert_eq!(calculate_page_address(305), (3, 5));
    assert_eq!(calculate_page_address(9999), (99, 99));
}
