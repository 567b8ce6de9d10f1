use hack_assembler::code::{comp, dest, jump, variable};
use hack_assembler::error::ErrorKind;
use hack_assembler::code::{encode_address, encode_compute};

#[test]
fn dest_null() {
    assert_eq!(Ok(String::from("000")), dest("null"));
}

#[test]
fn dest_m() {
    assert_eq!(Ok(String::from("001")), dest("M"));
}

#[test]
fn dest_d() {
    assert_eq!(Ok(String::from("010")), dest("D"));
}

#[test]
fn dest_dm() {
    assert_eq!(Ok(String::from("011")), dest("DM"));
}

#[test]
fn dest_a() {
    assert_eq!(Ok(String::from("100")), dest("A"));
}

#[test]
fn dest_am() {
    assert_eq!(Ok(String::from("101")), dest("AM"));
}

#[test]
fn dest_ad() {
    assert_eq!(Ok(String::from("110")), dest("AD"));
}

#[test]
fn dest_adm() {
    assert_eq!(Ok(String::from("111")), dest("ADM"));
}

#[test]
fn dest_invalid_symbol() {
    assert_eq!(Err(ErrorKind::UnknownDest), dest("INVALID_SYMBOL"));
}

#[test]
fn comp_0() {
    assert_eq!(Ok(String::from("0101010")), comp("0"));
}

#[test]
fn comp_1() {
    assert_eq!(Ok(String::from("0111111")), comp("1"));
}

#[test]
fn comp_minus1() {
    assert_eq!(Ok(String::from("0111010")), comp("-1"));
}

#[test]
fn comp_d() {
    assert_eq!(Ok(String::from("0001100")), comp("D"));
}

#[test]
fn comp_a() {
    assert_eq!(Ok(String::from("0110000")), comp("A"));
}

#[test]
fn comp_m() {
    assert_eq!(Ok(String::from("1110000")), comp("M"));
}

#[test]
fn comp_not_d() {
    assert_eq!(Ok(String::from("0001101")), comp("!D"));
}

#[test]
fn comp_not_a() {
    assert_eq!(Ok(String::from("0110001")), comp("!A"));
}

#[test]
fn comp_not_m() {
    assert_eq!(Ok(String::from("1110001")), comp("!M"));
}

#[test]
fn comp_minus_d() {
    assert_eq!(Ok(String::from("0001111")), comp("-D"));
}

#[test]
fn comp_minus_a() {
    assert_eq!(Ok(String::from("0110011")), comp("-A"));
}

#[test]
fn comp_minus_m() {
    assert_eq!(Ok(String::from("1110011")), comp("-M"));
}

#[test]
fn comp_d_plus1() {
    assert_eq!(Ok(String::from("0011111")), comp("D+1"));
}

#[test]
fn comp_a_plus1() {
    assert_eq!(Ok(String::from("0110111")), comp("A+1"));
}

#[test]
fn comp_m_plus1() {
    assert_eq!(Ok(String::from("1110111")), comp("M+1"));
}

#[test]
fn comp_d_minus1() {
    assert_eq!(Ok(String::from("0001110")), comp("D-1"));
}

#[test]
fn comp_a_minus1() {
    assert_eq!(Ok(String::from("0110010")), comp("A-1"));
}

#[test]
fn comp_m_minus1() {
    assert_eq!(Ok(String::from("1110010")), comp("M-1"));
}

#[test]
fn comp_d_plus_a() {
    assert_eq!(Ok(String::from("0000010")), comp("D+A"));
}

#[test]
fn comp_d_plus_m() {
    assert_eq!(Ok(String::from("1000010")), comp("D+M"));
}

#[test]
fn comp_d_minus_a() {
    assert_eq!(Ok(String::from("0010011")), comp("D-A"));
}

#[test]
fn comp_d_minus_m() {
    assert_eq!(Ok(String::from("1010011")), comp("D-M"));
}

#[test]
fn comp_a_minus_d() {
    assert_eq!(Ok(String::from("0000111")), comp("A-D"));
}

#[test]
fn comp_m_minus_d() {
    assert_eq!(Ok(String::from("1000111")), comp("M-D"));
}

#[test]
fn comp_d_and_a() {
    assert_eq!(Ok(String::from("0000000")), comp("D&A"));
}

#[test]
fn comp_d_and_m() {
    assert_eq!(Ok(String::from("1000000")), comp("D&M"));
}

#[test]
fn comp_d_or_a() {
    assert_eq!(Ok(String::from("0010101")), comp("D|A"));
}

#[test]
fn comp_d_or_m() {
    assert_eq!(Ok(String::from("1010101")), comp("D|M"));
}

#[test]
fn comp_invalid_symbol() {
    assert_eq!(Err(ErrorKind::UnknownComp), comp("INVALID_SYMBOL"));
}

#[test]
fn jump_null() {
    assert_eq!(Ok(String::from("000")), jump("null"));
}

#[test]
fn jump_jgt() {
    assert_eq!(Ok(String::from("001")), jump("JGT"));
}

#[test]
fn jump_jeq() {
    assert_eq!(Ok(String::from("010")), jump("JEQ"));
}

#[test]
fn jump_jge() {
    assert_eq!(Ok(String::from("011")), jump("JGE"));
}

#[test]
fn jump_jlt() {
    assert_eq!(Ok(String::from("100")), jump("JLT"));
}

#[test]
fn jump_jne() {
    assert_eq!(Ok(String::from("101")), jump("JNE"));
}

#[test]
fn jump_jle() {
    assert_eq!(Ok(String::from("110")), jump("JLE"));
}

#[test]
fn jump_jmp() {
    assert_eq!(Ok(String::from("111")), jump("JMP"));
}

#[test]
fn jump_invalid_symbol() {
    assert_eq!(Err(ErrorKind::UnknownDest), dest("INVALID_SYMBOL"));
    assert_eq!(Err(ErrorKind::UnknownJump), jump("INVALID_SYMBOL"));
}

#[test]
fn code_variable_r0() {
    assert_eq!(Ok(String::from("0000000000000000")), variable("R0"));
}

#[test]
fn code_variable_r1() {
    assert_eq!(Ok(String::from("0000000000000001")), variable("R1"));
}

#[test]
fn code_variable_r2() {
    assert_eq!(Ok(String::from("0000000000000010")), variable("R2"));
}

#[test]
fn code_variable_r3() {
    assert_eq!(Ok(String::from("0000000000000011")), variable("R3"));
}

#[test]
fn code_variable_r4() {
    assert_eq!(Ok(String::from("0000000000000100")), variable("R4"));
}

#[test]
fn code_variable_r5() {
    assert_eq!(Ok(String::from("0000000000000101")), variable("R5"));
}

#[test]
fn code_variable_r6() {
    assert_eq!(Ok(String::from("0000000000000110")), variable("R6"));
}

#[test]
fn code_variable_r7() {
    assert_eq!(Ok(String::from("0000000000000111")), variable("R7"));
}

#[test]
fn code_variable_r8() {
    assert_eq!(Ok(String::from("0000000000001000")), variable("R8"));
}

#[test]
fn code_variable_r9() {
    assert_eq!(Ok(String::from("0000000000001001")), variable("R9"));
}

#[test]
fn code_variable_r10() {
    assert_eq!(Ok(String::from("0000000000001010")), variable("R10"));
}

#[test]
fn code_variable_r11() {
    assert_eq!(Ok(String::from("0000000000001011")), variable("R11"));
}

#[test]
fn code_variable_r12() {
    assert_eq!(Ok(String::from("0000000000001100")), variable("R12"));
}

#[test]
fn code_variable_r13() {
    assert_eq!(Ok(String::from("0000000000001101")), variable("R13"));
}

#[test]
fn code_variable_r14() {
    assert_eq!(Ok(String::from("0000000000001110")), variable("R14"));
}

#[test]
fn code_variable_r15() {
    assert_eq!(Ok(String::from("0000000000001111")), variable("R15"));
}

#[test]
fn code_variable_sp() {
    assert_eq!(Ok(String::from("0000000000000000")), variable("SP"));
}

#[test]
fn code_variable_lcl() {
    assert_eq!(Ok(String::from("0000000000000001")), variable("LCL"));
}

#[test]
fn code_variable_arg() {
    assert_eq!(Ok(String::from("0000000000000010")), variable("ARG"));
}

#[test]
fn code_variable_this() {
    assert_eq!(Ok(String::from("0000000000000011")), variable("THIS"));
}

#[test]
fn code_variable_that() {
    assert_eq!(Ok(String::from("0000000000000100")), variable("THAT"));
}

#[test]
fn code_variable_screen() {
    assert_eq!(Ok(String::from("0100000000000000")), variable("SCREEN"));
}

#[test]
fn code_variable_kbd() {
    assert_eq!(Ok(String::from("0110000000000000")), variable("KBD"));
}

#[test]
fn variable_42() {
    assert_eq!(Ok(String::from("0000000000101010")), variable("42"));
}

#[test]
fn variable_8() {
    assert_eq!(Ok(String::from("0000000000001000")), variable("8"));
}

#[test]
fn variable_16() {
    assert_eq!(Ok(String::from("0000000000010000")), variable("16"));
}

#[test]
fn dest_letters_in_any_order() {
    assert_eq!(Ok(String::from("011")), dest("MD"));
    assert_eq!(Ok(String::from("111")), dest("AMD"));
    assert_eq!(Ok(String::from("111")), dest("MDA"));
    assert_eq!(Ok(String::from("000")), dest(""));
}

#[test]
fn dest_repeated_letter_is_unknown() {
    assert_eq!(Err(ErrorKind::UnknownDest), dest("MM"));
    assert_eq!(Err(ErrorKind::UnknownDest), dest("AMDA"));
    assert_eq!(Err(ErrorKind::UnknownDest), dest("X"));
}

#[test]
fn jump_empty_is_no_jump() {
    assert_eq!(Ok(String::from("000")), jump(""));
}

#[test]
fn comp_near_misses_are_unknown() {
    assert_eq!(Err(ErrorKind::UnknownComp), comp(""));
    assert_eq!(Err(ErrorKind::UnknownComp), comp("A+D"));
    assert_eq!(Err(ErrorKind::UnknownComp), comp("D+2"));
}

#[test]
fn variable_largest_address() {
    assert_eq!(Ok(String::from("0111111111111111")), variable("32767"));
}

#[test]
fn variable_address_out_of_range() {
    assert_eq!(Err(ErrorKind::AddressOutOfRange), variable("32768"));
    assert_eq!(Err(ErrorKind::AddressOutOfRange), variable("99999999999999999999"));
}

#[test]
fn variable_unknown_and_malformed() {
    assert_eq!(Err(ErrorKind::UnknownSymbol), variable("foo"));
    assert_eq!(Err(ErrorKind::MalformedSymbol), variable("12abc"));
    assert_eq!(Err(ErrorKind::MalformedSymbol), variable(""));
    assert_eq!(Err(ErrorKind::MalformedSymbol), variable("a-b"));
}

#[test]
fn encode_compute_concatenates_fields() {
    assert_eq!(Ok(String::from("1110001100001000")), encode_compute("M", "D", ""));
    assert_eq!(Ok(String::from("1111110111011110")), encode_compute("MD", "M+1", "JLE"));
    assert_eq!(Err(ErrorKind::UnknownDest), encode_compute("X", "Y", "Z"));
    assert_eq!(Err(ErrorKind::UnknownComp), encode_compute("D", "Y", "Z"));
    assert_eq!(Err(ErrorKind::UnknownJump), encode_compute("D", "0", "Z"));
}

#[test]
fn encode_address_bits() {
    assert_eq!(Ok(String::from("0000000000000101")), encode_address(5));
    assert_eq!(Err(ErrorKind::AddressOutOfRange), encode_address(32768));
}
