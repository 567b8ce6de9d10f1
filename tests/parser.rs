use hack_assembler::parser::{InstructionType, Parser};
use hack_assembler::error::ErrorKind;
use hack_assembler::parser::{classify, Instruction};

#[test]
fn ignore_empty_file() {
    let parser = Parser::new(String::from(""));
    assert_eq!(0, parser.lines.len());
}

#[test]
fn ignore_file_with_no_content() {
    let parser = Parser::new(String::from("\n\n// Comment\n\n"));
    assert_eq!(0, parser.lines.len());
}

#[test]
fn remove_whitespaces() {
    let parser = Parser::new(String::from("  D=M "));
    assert_eq!(1, parser.lines.len());
    assert_eq!("D=M", parser.lines[0]);
}

#[test]
fn remove_comment() {
    let parser = Parser::new(String::from("// Comment"));
    assert_eq!(0, parser.lines.len());
}

#[test]
fn remove_empty_lines() {
    let parser = Parser::new(String::from("D=M\n\n\n@8"));
    assert_eq!(2, parser.lines.len());
    assert_eq!("D=M", parser.lines[0]);
    assert_eq!("@8", parser.lines[1]);
}

#[test]
fn remove_comments() {
    let parser = Parser::new(String::from("D=M\n// Comment\n@8\n// Another comment"));
    assert_eq!(2, parser.lines.len());
    assert_eq!("D=M", parser.lines[0]);
    assert_eq!("@8", parser.lines[1]);
}

#[test]
fn symbol_number() {
    let parser = Parser::new(String::from("@8"));
    assert_eq!(Ok(String::from("8")), parser.symbol());
}

#[test]
fn symbol_text() {
    let parser = Parser::new(String::from("@sum"));
    assert_eq!(Ok(String::from("sum")), parser.symbol());
}

#[test]
fn symbol_label() {
    let parser = Parser::new(String::from("(LOOP)"));
    assert_eq!(Ok(String::from("LOOP")), parser.symbol());
}

#[test]
fn has_more_lines_one_line() {
    let parser = Parser::new(String::from("@foo"));
    assert_eq!(false, parser.has_more_lines());
}

#[test]
fn has_more_lines_two_lines() {
    let parser = Parser::new(String::from("@foo\n@bar"));
    assert_eq!(true, parser.has_more_lines());
}

#[test]
fn advance_two_lines() {
    let mut parser = Parser::new(String::from("@foo\n@bar"));
    assert_eq!(true, parser.has_more_lines());
    parser.advance();
    assert_eq!(false, parser.has_more_lines());
}

#[test]
fn ignore_non_symbols() {
    let parser = Parser::new(String::from("D=M"));
    assert_eq!(Ok(String::from("")), parser.symbol());
}

#[test]
fn return_ainstruction_number() {
    let parser = Parser::new(String::from("@8"));
    assert_eq!(InstructionType::AINSTRUCTION, parser.instruction_type());
}

#[test]
fn return_ainstruction_symbol() {
    let parser = Parser::new(String::from("@foo"));
    assert_eq!(InstructionType::AINSTRUCTION, parser.instruction_type());
}

#[test]
fn return_linstruction() {
    let parser = Parser::new(String::from("(FOO)"));
    assert_eq!(InstructionType::LINSTRUCTION, parser.instruction_type());
}

#[test]
fn return_cinstruction_() {
    let parser = Parser::new(String::from("D=M"));
    assert_eq!(InstructionType::CINSTRUCTION, parser.instruction_type());
}

#[test]
fn dest_01() {
    let parser = Parser::new(String::from("D=M"));
    assert_eq!("D", parser.dest());
}

#[test]
fn dest_02() {
    let parser = Parser::new(String::from("0;JMP"));
    assert_eq!("", parser.dest());
}

#[test]
fn dest_03() {
    let parser = Parser::new(String::from("@foo"));
    assert_eq!("", parser.dest());
}

#[test]
fn dest_04() {
    let mut parser = Parser::new(String::from("D=M\n// comment\n@foo\nM=M+D"));
    assert_eq!("D", parser.dest());
    parser.advance(); // @foo
    assert_eq!("", parser.dest()); // wrong instruction
    parser.advance(); // M=M+D
    assert_eq!("M", parser.dest());
}

#[test]
fn comp_01() {
    let parser = Parser::new(String::from("D=M"));
    assert_eq!(Ok(String::from("M")), parser.comp());
}

#[test]
fn comp_02() {
    let parser = Parser::new(String::from("D=D-M"));
    assert_eq!(Ok(String::from("D-M")), parser.comp());
}

#[test]
fn comp_03() {
    let parser = Parser::new(String::from("0;JMP"));
    assert_eq!(Ok(String::from("0")), parser.comp());
}

#[test]
fn comp_04() {
    let parser = Parser::new(String::from("D=M;JMP"));
    assert_eq!(Ok(String::from("M")), parser.comp());
}

#[test]
fn comp_05() {
    let parser = Parser::new(String::from("D=D+1;JLE"));
    assert_eq!(Ok(String::from("D+1")), parser.comp());
}

#[test]
fn jump_01() {
    let parser = Parser::new(String::from("@foo"));
    assert_eq!("", parser.jump());
}

#[test]
fn jump_02() {
    let parser = Parser::new(String::from("D=M"));
    assert_eq!("", parser.jump());
}

#[test]
fn jump_03() {
    let parser = Parser::new(String::from("0;JEQ"));
    assert_eq!("JEQ", parser.jump());
}

#[test]
fn dest_and_jmp() {
    let parser = Parser::new(String::from("D=D+1;JLE"));
    assert_eq!("D", parser.dest());
    assert_eq!("JLE", parser.jump());
}

#[test]
fn source_line_numbers_are_kept() {
    let parser = Parser::new(String::from("\n// c\n  @1 \n\nD=A\r\n"));
    assert_eq!(2, parser.lines.len());
    assert_eq!("@1", parser.lines[0]);
    assert_eq!("D=A", parser.lines[1]);
    assert_eq!(vec![3, 5], parser.source_line);
}

#[test]
fn comp_without_dest_or_jump() {
    let parser = Parser::new(String::from("D"));
    assert_eq!(Ok(String::from("D")), parser.comp());
    assert_eq!("", parser.dest());
    assert_eq!("", parser.jump());
}

#[test]
fn single_slash_is_no_comment() {
    let parser = Parser::new(String::from("/x"));
    assert_eq!(1, parser.lines.len());
}

#[test]
fn advance_stops_at_last_line() {
    let mut parser = Parser::new(String::from("@a\n@b"));
    parser.advance();
    parser.advance();
    assert_eq!(1, parser.line_number);
    assert_eq!(Ok(String::from("b")), parser.symbol());
}

#[test]
fn classify_address_label_compute() {
    assert_eq!(Ok(Instruction::Address(String::from("17"))), classify("@17"));
    assert_eq!(Ok(Instruction::Address(String::from("sum_1.$:"))), classify("@sum_1.$:"));
    assert_eq!(Ok(Instruction::Label(String::from("LOOP"))), classify("(LOOP)"));
    assert_eq!(
        Ok(Instruction::Compute {
            dest: Some(String::from("D")),
            comp: String::from("D+1"),
            jump: Some(String::from("JLE")),
        }),
        classify("D=D+1;JLE")
    );
    assert_eq!(
        Ok(Instruction::Compute { dest: None, comp: String::from("0"), jump: Some(String::from("JMP")) }),
        classify("0;JMP")
    );
}

#[test]
fn classify_errors() {
    assert_eq!(Err(ErrorKind::MalformedSymbol), classify("@"));
    assert_eq!(Err(ErrorKind::MalformedSymbol), classify("@1a"));
    assert_eq!(Err(ErrorKind::MalformedSymbol), classify("@a b"));
    assert_eq!(Err(ErrorKind::UnterminatedLabel), classify("(LOOP"));
    assert_eq!(Err(ErrorKind::UnterminatedLabel), classify("("));
    assert_eq!(Err(ErrorKind::MalformedSymbol), classify("()"));
    assert_eq!(Err(ErrorKind::MalformedSymbol), classify("(1X)"));
    assert_eq!(Err(ErrorKind::MissingComp), classify("D="));
    assert_eq!(Err(ErrorKind::MissingComp), classify(";JMP"));
}

#[test]
fn symbol_of_malformed_lines_fails() {
    assert_eq!(Err(ErrorKind::MalformedSymbol), Parser::new(String::from("@")).symbol());
    assert_eq!(Err(ErrorKind::UnterminatedLabel), Parser::new(String::from("(LOOP")).symbol());
    assert_eq!(Err(ErrorKind::MalformedSymbol), Parser::new(String::from("()")).symbol());
    assert_eq!(Err(ErrorKind::MalformedSymbol), Parser::new(String::from("@a#b")).symbol());
    assert_eq!(Err(ErrorKind::MalformedSymbol), Parser::new(String::from("@1x")).symbol());
}

#[test]
fn empty_comp_fails() {
    assert_eq!(Err(ErrorKind::MissingComp), Parser::new(String::from("D=")).comp());
    assert_eq!(Err(ErrorKind::MissingComp), Parser::new(String::from(";JMP")).comp());
    assert_eq!(Err(ErrorKind::MissingComp), Parser::new(String::from("D=;JGT")).comp());
    assert_eq!(Ok(String::new()), Parser::new(String::from("@x")).comp());
}
