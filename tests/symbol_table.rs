use hack_assembler::error::ErrorKind;
use hack_assembler::symbol_table::SymbolTable;

#[test]
fn symbol_table_variable_r0() {
    let mut st = SymbolTable::new();
    st.add_predefined_symbols();
    assert_eq!(0, st.get_address("R0"));
}

#[test]
fn symbol_table_variable_r1() {
    let mut st = SymbolTable::new();
    st.add_predefined_symbols();
    assert_eq!(1, st.get_address("R1"));
}

#[test]
fn symbol_table_variable_r2() {
    let mut st = SymbolTable::new();
    st.add_predefined_symbols();
    assert_eq!(2, st.get_address("R2"));
}

#[test]
fn symbol_table_variable_r3() {
    let mut st = SymbolTable::new();
    st.add_predefined_symbols();
    assert_eq!(3, st.get_address("R3"));
}

#[test]
fn symbol_table_variable_r4() {
    let mut st = SymbolTable::new();
    st.add_predefined_symbols();
    assert_eq!(4, st.get_address("R4"));
}

#[test]
fn symbol_table_variable_r5() {
    let mut st = SymbolTable::new();
    st.add_predefined_symbols();
    assert_eq!(5, st.get_address("R5"));
}

#[test]
fn symbol_table_variable_r6() {
    let mut st = SymbolTable::new();
    st.add_predefined_symbols();
    assert_eq!(6, st.get_address("R6"));
}

#[test]
fn symbol_table_variable_r7() {
    let mut st = SymbolTable::new();
    st.add_predefined_symbols();
    assert_eq!(7, st.get_address("R7"));
}

#[test]
fn symbol_table_variable_r8() {
    let mut st = SymbolTable::new();
    st.add_predefined_symbols();
    assert_eq!(8, st.get_address("R8"));
}

#[test]
fn symbol_table_variable_r9() {
    let mut st = SymbolTable::new();
    st.add_predefined_symbols();
    assert_eq!(9, st.get_address("R9"));
}

#[test]
fn symbol_table_variable_r10() {
    let mut st = SymbolTable::new();
    st.add_predefined_symbols();
    assert_eq!(10, st.get_address("R10"));
}

#[test]
fn symbol_table_variable_r11() {
    let mut st = SymbolTable::new();
    st.add_predefined_symbols();
    assert_eq!(11, st.get_address("R11"));
}

#[test]
fn symbol_table_variable_r12() {
    let mut st = SymbolTable::new();
    st.add_predefined_symbols();
    assert_eq!(12, st.get_address("R12"));
}

#[test]
fn symbol_table_variable_r13() {
    let mut st = SymbolTable::new();
    st.add_predefined_symbols();
    assert_eq!(13, st.get_address("R13"));
}

#[test]
fn symbol_table_variable_r14() {
    let mut st = SymbolTable::new();
    st.add_predefined_symbols();
    assert_eq!(14, st.get_address("R14"));
}

#[test]
fn symbol_table_variable_r15() {
    let mut st = SymbolTable::new();
    st.add_predefined_symbols();
    assert_eq!(15, st.get_address("R15"));
}

#[test]
fn symbol_table_variable_sp() {
    let mut st = SymbolTable::new();
    st.add_predefined_symbols();
    assert_eq!(0, st.get_address("SP"));
}

#[test]
fn symbol_table_variable_lcl() {
    let mut st = SymbolTable::new();
    st.add_predefined_symbols();
    assert_eq!(1, st.get_address("LCL"));
}

#[test]
fn symbol_table_variable_arg() {
    let mut st = SymbolTable::new();
    st.add_predefined_symbols();
    assert_eq!(2, st.get_address("ARG"));
}

#[test]
fn symbol_table_variable_this() {
    let mut st = SymbolTable::new();
    st.add_predefined_symbols();
    assert_eq!(3, st.get_address("THIS"));
}

#[test]
fn symbol_table_variable_that() {
    let mut st = SymbolTable::new();
    st.add_predefined_symbols();
    assert_eq!(4, st.get_address("THAT"));
}

#[test]
fn symbol_table_variable_screen() {
    let mut st = SymbolTable::new();
    st.add_predefined_symbols();
    assert_eq!(16384, st.get_address("SCREEN"));
}

#[test]
fn symbol_table_variable_kbd() {
    let mut st = SymbolTable::new();
    st.add_predefined_symbols();
    assert_eq!(24576, st.get_address("KBD"));
}

#[test]
fn fresh_table_holds_predefined() {
    let st = SymbolTable::new();
    assert!(st.contains("KBD"));
    assert_eq!(Ok(16384), st.resolve("SCREEN"));
    assert_eq!(Err(ErrorKind::UnknownSymbol), st.resolve("LOOP"));
}

#[test]
fn add_predefined_keeps_bindings() {
    let mut st = SymbolTable::new();
    st.add_entry(String::from("LOOP"), 7);
    st.add_predefined_symbols();
    assert_eq!(7, st.get_address("LOOP"));
    assert_eq!(15, st.get_address("R15"));
}
