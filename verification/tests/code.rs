use hack_assembler::code::Code;
use hack_assembler::error::ErrorKind;
use hack_assembler::table::Table;
use hack_assembler::text::starts_with;

fn compute(text: &str) -> Result<String, ErrorKind> {
    Code::new().c_instruction(&text.to_string(), &Table::new())
}

fn word(w: &str) -> Result<String, ErrorKind> {
    Ok(w.to_string())
}

#[test]
fn address_zero() {
    assert_eq!(Code::new().a_instruction(0), word("0000000000000000"));
}

#[test]
fn address_one() {
    assert_eq!(Code::new().a_instruction(1), word("0000000000000001"));
}

#[test]
fn address_42() {
    assert_eq!(Code::new().a_instruction(42), word("0000000000101010"));
}

#[test]
fn address_123() {
    assert_eq!(Code::new().a_instruction(123), word("0000000001111011"));
}

#[test]
fn address_of_the_screen_and_keyboard() {
    assert_eq!(Code::new().a_instruction(16384), word("0100000000000000"));
    assert_eq!(Code::new().a_instruction(24576), word("0110000000000000"));
}

#[test]
fn largest_address() {
    assert_eq!(Code::new().a_instruction(32767), word("0111111111111111"));
}

#[test]
fn every_address_reads_back() {
    let code = Code::new();
    for a in 0..=32767i32 {
        let w = code.a_instruction(a as i16).unwrap();
        assert_eq!(w.len(), 16);
        assert_eq!(i32::from_str_radix(&w, 2), Ok(a));
    }
}

#[test]
fn negative_address_is_rejected() {
    assert_eq!(Code::new().a_instruction(-1), Err(ErrorKind::AddressOutOfRange));
    assert_eq!(Code::new().a_instruction(i16::MIN), Err(ErrorKind::AddressOutOfRange));
}

#[test]
fn computation_with_destination() {
    assert_eq!(compute("D=A"), word("1110110000010000"));
    assert_eq!(compute("M=D"), word("1110001100001000"));
    assert_eq!(compute("D=D+A"), word("1110000010010000"));
    assert_eq!(compute("D=M"), word("1111110000010000"));
    assert_eq!(compute("M=D+M"), word("1111000010001000"));
    assert_eq!(compute("AMD=M-1"), word("1111110010111000"));
    assert_eq!(compute("MD=-1"), word("1110111010011000"));
    assert_eq!(compute("AD=D|M"), word("1111010101110000"));
    assert_eq!(compute("AM=!A"), word("1110110001101000"));
    assert_eq!(compute("A=D&A"), word("1110000000100000"));
}

#[test]
fn computation_with_jump() {
    assert_eq!(compute("0;JMP"), word("1110101010000111"));
    assert_eq!(compute("D;JGT"), word("1110001100000001"));
    assert_eq!(compute("D;JEQ"), word("1110001100000010"));
    assert_eq!(compute("D;JGE"), word("1110001100000011"));
    assert_eq!(compute("D;JLT"), word("1110001100000100"));
    assert_eq!(compute("D;JNE"), word("1110001100000101"));
    assert_eq!(compute("D;JLE"), word("1110001100000110"));
    assert_eq!(compute("M;JNE"), word("1111110000000101"));
}

#[test]
fn computation_with_destination_and_jump() {
    assert_eq!(compute("D=M;JGT"), word("1111110000010001"));
    assert_eq!(compute("AMD=D+1;JMP"), word("1110011111111111"));
    assert_eq!(compute("M=M-D;JLE"), word("1111000111001110"));
}

#[test]
fn computation_alone() {
    assert_eq!(compute("D"), word("1110001100000000"));
    assert_eq!(compute("M"), word("1111110000000000"));
    assert_eq!(compute("D-M"), word("1111010011000000"));
}

#[test]
fn null_and_empty_fields_have_the_code_000() {
    assert_eq!(compute("null=D"), word("1110001100000000"));
    assert_eq!(compute("D;null"), word("1110001100000000"));
    assert_eq!(compute("null=D;null"), word("1110001100000000"));
    assert_eq!(compute("=D"), word("1110001100000000"));
    assert_eq!(compute("D;"), word("1110001100000000"));
    assert_eq!(compute("=D;"), word("1110001100000000"));
}

#[test]
fn white_space_around_fields_is_ignored() {
    assert_eq!(compute("  D = A  "), word("1110110000010000"));
    assert_eq!(compute("D =M ; JGT"), word("1111110000010001"));
    assert_eq!(compute("\t0 ;\tJMP"), word("1110101010000111"));
    assert_eq!(compute("AMD\u{a0}=\u{2003}D+1"), word("1110011111111000"));
}

#[test]
fn white_space_inside_a_mnemonic_is_not() {
    assert_eq!(compute("D=D + A"), Err(ErrorKind::UnknownMnemonic));
    assert_eq!(compute("A M=D"), Err(ErrorKind::UnknownMnemonic));
    assert_eq!(compute("0;J MP"), Err(ErrorKind::UnknownMnemonic));
}

#[test]
fn unknown_computation() {
    assert_eq!(compute("D=Q"), Err(ErrorKind::UnknownMnemonic));
    assert_eq!(compute("D=A+D"), Err(ErrorKind::UnknownMnemonic));
    assert_eq!(compute("D=M+D"), Err(ErrorKind::UnknownMnemonic));
    assert_eq!(compute("D=d+1"), Err(ErrorKind::UnknownMnemonic));
    assert_eq!(compute("D="), Err(ErrorKind::UnknownMnemonic));
    assert_eq!(compute(";JMP"), Err(ErrorKind::UnknownMnemonic));
    assert_eq!(compute(""), Err(ErrorKind::UnknownMnemonic));
    assert_eq!(compute("2"), Err(ErrorKind::UnknownMnemonic));
}

#[test]
fn unknown_destination() {
    assert_eq!(compute("DM=A"), Err(ErrorKind::UnknownMnemonic));
    assert_eq!(compute("X=A"), Err(ErrorKind::UnknownMnemonic));
    assert_eq!(compute("d=A"), Err(ErrorKind::UnknownMnemonic));
    assert_eq!(compute("D=A=M"), Err(ErrorKind::UnknownMnemonic));
}

#[test]
fn unknown_jump() {
    assert_eq!(compute("D;JXX"), Err(ErrorKind::UnknownMnemonic));
    assert_eq!(compute("D;jmp"), Err(ErrorKind::UnknownMnemonic));
    assert_eq!(compute("D;JMP;JMP"), Err(ErrorKind::UnknownMnemonic));
    assert_eq!(compute("0;JMP=D"), Err(ErrorKind::UnknownMnemonic));
}

#[test]
fn memory_bit_follows_the_operand() {
    for m in ["M", "!M", "-M", "M+1", "M-1", "D+M", "D-M", "M-D", "D&M", "D|M"] {
        let w = compute(m).unwrap();
        assert_eq!(&w[0..4], "1111");
    }
    for m in ["0", "1", "-1", "D", "A", "!D", "!A", "-D", "-A", "D+1", "A+1", "D-1", "A-1",
        "D+A", "D-A", "A-D", "D&A", "D|A"]
    {
        let w = compute(m).unwrap();
        assert_eq!(&w[0..4], "1110");
    }
}

#[test]
fn every_valid_computation_is_16_bits() {
    let comps = ["0", "1", "-1", "D", "A", "!D", "!A", "-D", "-A", "D+1", "A+1", "D-1", "A-1",
        "D+A", "D-A", "A-D", "D&A", "D|A", "M", "!M", "-M", "M+1", "M-1", "D+M", "D-M", "M-D",
        "D&M", "D|M"];
    let dests = ["", "null=", "M=", "D=", "MD=", "A=", "AM=", "AD=", "AMD="];
    let jumps = ["", ";null", ";JGT", ";JEQ", ";JGE", ";JLT", ";JNE", ";JLE", ";JMP"];
    for c in comps {
        for d in dests {
            for j in jumps {
                let w = compute(&format!("{}{}{}", d, c, j)).unwrap();
                assert_eq!(w.len(), 16);
                assert!(w.chars().all(|b| b == '0' || b == '1'));
                assert!(w.starts_with("111"));
            }
        }
    }
}

#[test]
fn resolve_reads_a_literal() {
    let code = Code::new();
    let mut table = Table::new();
    assert_eq!(code.resolve("0", &mut table), Ok(0));
    assert_eq!(code.resolve("123", &mut table), Ok(123));
    assert_eq!(code.resolve("32767", &mut table), Ok(32767));
    assert_eq!(code.resolve("007", &mut table), Ok(7));
    assert_eq!(code.resolve("+5", &mut table), Ok(5));
    assert_eq!(code.resolve("-0", &mut table), Ok(0));
    assert_eq!(code.resolve("  12  ", &mut table), Ok(12));
    assert_eq!(table.allocate_variable("x"), Ok(16));
}

#[test]
fn resolve_rejects_a_literal_out_of_range() {
    let code = Code::new();
    let mut table = Table::new();
    for text in ["32768", "-1", "65536", "99999999999999999999999", "-32768", "0032768"] {
        assert_eq!(
            code.resolve(text, &mut table),
            Err(ErrorKind::AddressOutOfRange)
        );
    }
}

#[test]
fn resolve_rejects_what_is_no_literal_and_no_symbol() {
    let code = Code::new();
    let mut table = Table::new();
    for text in ["", " ", "1abc", "a b", "a-b", "-", "+", "--1", "1.5", "a.b", "$x", "@x",
        "\u{e9}t\u{e9}", "1_000"]
    {
        assert_eq!(
            code.resolve(text, &mut table),
            Err(ErrorKind::MalformedOperand)
        );
    }
    assert_eq!(table.allocate_variable("x"), Ok(16));
}

#[test]
fn resolve_looks_a_symbol_up_or_binds_it() {
    let code = Code::new();
    let mut table = Table::new();
    table.add("LOOP", 4);
    assert_eq!(code.resolve("LOOP", &mut table), Ok(4));
    assert_eq!(code.resolve("R13", &mut table), Ok(13));
    assert_eq!(code.resolve("i", &mut table), Ok(16));
    assert_eq!(code.resolve("_tmp1", &mut table), Ok(17));
    assert_eq!(code.resolve(" i ", &mut table), Ok(16));
    assert_eq!(table.lookup("i"), Some(16));
    assert_eq!(table.lookup("_tmp1"), Some(17));
}

#[test]
fn encode_tells_the_two_kinds_apart() {
    let code = Code::new();
    let mut table = Table::new();
    assert_eq!(code.encode(&"@123".to_string(), &mut table), word("0000000001111011"));
    assert_eq!(code.encode(&"@KBD".to_string(), &mut table), word("0110000000000000"));
    assert_eq!(code.encode(&"@x".to_string(), &mut table), word("0000000000010000"));
    assert_eq!(code.encode(&"D=A".to_string(), &mut table), word("1110110000010000"));
    assert_eq!(code.encode(&"@".to_string(), &mut table), Err(ErrorKind::MalformedOperand));
    assert_eq!(code.encode(&"@40000".to_string(), &mut table), Err(ErrorKind::AddressOutOfRange));
    assert_eq!(code.encode(&"D=X".to_string(), &mut table), Err(ErrorKind::UnknownMnemonic));
}

#[test]
fn encode_rejects_a_symbol_bound_below_zero() {
    let code = Code::new();
    let mut table = Table::new();
    table.add("BAD", -3);
    assert_eq!(code.encode(&"@BAD".to_string(), &mut table), Err(ErrorKind::AddressOutOfRange));
}

#[test]
fn literal_does_not_depend_on_the_table() {
    let code = Code::new();
    let mut fresh = Table::new();
    let mut used = Table::new();
    used.add("LOOP", 123);
    assert_eq!(used.allocate_variable("x"), Ok(16));
    let a = code.encode(&"@123".to_string(), &mut fresh);
    let b = code.encode(&"@123".to_string(), &mut used);
    assert_eq!(a, word("0000000001111011"));
    assert_eq!(a, b);
}

#[test]
fn write_collects_the_words_in_order() {
    let mut code = Code::new();
    code.write("0000000000000010");
    code.write("1110110000010000");
    assert_eq!(
        code.into_lines(),
        vec!["0000000000000010".to_string(), "1110110000010000".to_string()]
    );
}

#[test]
fn new_encoder_has_written_nothing() {
    assert_eq!(Code::new().into_lines(), Vec::<String>::new());
}

#[test]
fn starts_with_looks_at_the_first_character() {
    assert!(starts_with(&"@x".to_string(), '@'));
    assert!(!starts_with(&" @x".to_string(), '@'));
    assert!(!starts_with(&"".to_string(), '@'));
    assert!(starts_with(&"(L)".to_string(), '('));
}
