use hack_assembler::error::ErrorKind;
use hack_assembler::table::Table;

#[test]
fn new_table_binds_the_registers() {
    let table = Table::new();
    for i in 0..16i16 {
        let name = format!("R{}", i);
        assert!(table.is_exists(&name));
        assert_eq!(table.lookup(&name), Some(i));
    }
}

#[test]
fn new_table_binds_the_named_addresses() {
    let table = Table::new();
    assert_eq!(table.lookup("SCREEN"), Some(16384));
    assert_eq!(table.lookup("KBD"), Some(24576));
    assert_eq!(table.lookup("SP"), Some(0));
    assert_eq!(table.lookup("LCL"), Some(1));
    assert_eq!(table.lookup("ARG"), Some(2));
    assert_eq!(table.lookup("THIS"), Some(3));
    assert_eq!(table.lookup("THAT"), Some(4));
}

#[test]
fn new_table_binds_nothing_else() {
    let table = Table::new();
    assert!(!table.is_exists("R16"));
    assert!(!table.is_exists("r0"));
    assert!(!table.is_exists("screen"));
    assert!(!table.is_exists(""));
    assert!(!table.is_exists("LOOP"));
    assert_eq!(table.lookup("LOOP"), None);
}

#[test]
fn computations_without_memory() {
    let table = Table::new();
    let expected = [
        ("0", "101010"),
        ("1", "111111"),
        ("-1", "111010"),
        ("D", "001100"),
        ("A", "110000"),
        ("!D", "001101"),
        ("!A", "110001"),
        ("-D", "001111"),
        ("-A", "110011"),
        ("D+1", "011111"),
        ("A+1", "110111"),
        ("D-1", "001110"),
        ("A-1", "110010"),
        ("D+A", "000010"),
        ("D-A", "010011"),
        ("A-D", "000111"),
        ("D&A", "000000"),
        ("D|A", "010101"),
    ];
    for (mnemonic, code) in expected {
        assert_eq!(table.get_a0(mnemonic), Some(&code.to_string()));
        assert_eq!(table.get_a1(mnemonic), None);
    }
}

#[test]
fn computations_on_memory() {
    let table = Table::new();
    let expected = [
        ("M", "110000"),
        ("!M", "110001"),
        ("-M", "110011"),
        ("M+1", "110111"),
        ("M-1", "110010"),
        ("D+M", "000010"),
        ("D-M", "010011"),
        ("M-D", "000111"),
        ("D&M", "000000"),
        ("D|M", "010101"),
    ];
    for (mnemonic, code) in expected {
        assert_eq!(table.get_a1(mnemonic), Some(&code.to_string()));
        assert_eq!(table.get_a0(mnemonic), None);
    }
}

#[test]
fn destinations() {
    let table = Table::new();
    let expected = [
        ("null", "000"),
        ("M", "001"),
        ("D", "010"),
        ("MD", "011"),
        ("A", "100"),
        ("AM", "101"),
        ("AD", "110"),
        ("AMD", "111"),
    ];
    for (mnemonic, code) in expected {
        assert_eq!(table.get_dst(mnemonic), Some(&code.to_string()));
    }
}

#[test]
fn jumps() {
    let table = Table::new();
    let expected = [
        ("null", "000"),
        ("JGT", "001"),
        ("JEQ", "010"),
        ("JGE", "011"),
        ("JLT", "100"),
        ("JNE", "101"),
        ("JLE", "110"),
        ("JMP", "111"),
    ];
    for (mnemonic, code) in expected {
        assert_eq!(table.get_jmp(mnemonic), Some(&code.to_string()));
    }
}

#[test]
fn mnemonics_match_exactly() {
    let table = Table::new();
    assert_eq!(table.get_a0("d+1"), None);
    assert_eq!(table.get_a0("D + 1"), None);
    assert_eq!(table.get_a0("1+D"), None);
    assert_eq!(table.get_a0(""), None);
    assert_eq!(table.get_a1("m"), None);
    assert_eq!(table.get_a1("M+D"), None);
    assert_eq!(table.get_dst("DM"), None);
    assert_eq!(table.get_dst(""), None);
    assert_eq!(table.get_dst("md"), None);
    assert_eq!(table.get_jmp("jmp"), None);
    assert_eq!(table.get_jmp("JM"), None);
    assert_eq!(table.get_jmp(""), None);
}

#[test]
fn add_binds_a_new_name() {
    let mut table = Table::new();
    table.add("LOOP", 4);
    assert!(table.is_exists("LOOP"));
    assert_eq!(table.lookup("LOOP"), Some(4));
}

#[test]
fn add_keeps_the_first_binding() {
    let mut table = Table::new();
    table.add("LOOP", 4);
    table.add("LOOP", 9);
    assert_eq!(table.lookup("LOOP"), Some(4));
}

#[test]
fn add_does_not_rebind_a_predefined_symbol() {
    let mut table = Table::new();
    table.add("SCREEN", 7);
    table.add("R5", 100);
    assert_eq!(table.lookup("SCREEN"), Some(16384));
    assert_eq!(table.lookup("R5"), Some(5));
}

#[test]
fn add_if_not_exist_says_whether_it_bound() {
    let mut table = Table::new();
    assert!(table.add_if_not_exist("i", 16));
    assert!(!table.add_if_not_exist("i", 17));
    assert!(!table.add_if_not_exist("KBD", 17));
    assert_eq!(table.lookup("i"), Some(16));
    assert_eq!(table.lookup("KBD"), Some(24576));
}

#[test]
fn names_are_case_sensitive() {
    let mut table = Table::new();
    table.add("loop", 1);
    table.add("LOOP", 2);
    assert_eq!(table.lookup("loop"), Some(1));
    assert_eq!(table.lookup("LOOP"), Some(2));
    assert_eq!(table.lookup("Loop"), None);
}

#[test]
fn variables_start_at_16() {
    let mut table = Table::new();
    assert_eq!(table.allocate_variable("first"), Ok(16));
    assert_eq!(table.allocate_variable("second"), Ok(17));
    assert_eq!(table.allocate_variable("first"), Ok(16));
    assert_eq!(table.allocate_variable("third"), Ok(18));
    assert_eq!(table.lookup("second"), Some(17));
}

#[test]
fn allocating_a_bound_name_takes_no_address() {
    let mut table = Table::new();
    table.add("LOOP", 300);
    assert_eq!(table.allocate_variable("LOOP"), Ok(300));
    assert_eq!(table.allocate_variable("SP"), Ok(0));
    assert_eq!(table.allocate_variable("x"), Ok(16));
}

#[test]
fn labels_do_not_move_the_variable_counter() {
    let mut table = Table::new();
    table.add("A_LABEL", 16);
    table.add("B_LABEL", 17);
    assert_eq!(table.allocate_variable("x"), Ok(16));
}

#[test]
fn variables_run_out_after_32767() {
    let mut table = Table::new();
    for i in 16..=32767i32 {
        let name = format!("v{}", i);
        assert_eq!(table.allocate_variable(&name), Ok(i as i16));
    }
    assert_eq!(table.allocate_variable("one_more"), Err(ErrorKind::AddressOutOfRange));
    assert!(!table.is_exists("one_more"));
    assert_eq!(table.allocate_variable("v16"), Ok(16));
    assert_eq!(table.allocate_variable("v32767"), Ok(32767));
}
