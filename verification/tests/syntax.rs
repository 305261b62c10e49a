use hack_assembler::syntax::{
    is_decimal_digit, is_symbol_character, is_symbol_range, label_range, parse_literal,
    split_fields, text_range, Literal,
};
use hack_assembler::text::{find_char, is_whitespace, to_chars, trim_range};

fn chars(s: &str) -> Vec<char> {
    s.chars().collect()
}

fn window(v: &Vec<char>, r: (usize, usize)) -> String {
    v[r.0..r.1].iter().collect()
}

fn literal(s: &str) -> Literal {
    let v = chars(s);
    parse_literal(&v, 0, v.len())
}

fn symbol(s: &str) -> bool {
    let v = chars(s);
    is_symbol_range(&v, 0, v.len())
}

fn text_of(line: &str) -> String {
    let v = chars(line);
    window(&v, text_range(&v))
}

fn label_of(text: &str) -> Option<String> {
    let v = chars(text);
    label_range(&v).map(|r| window(&v, r))
}

fn fields_of(text: &str) -> (String, String, String) {
    let v = chars(text);
    let f = split_fields(&v);
    (window(&v, f.dest), window(&v, f.comp), window(&v, f.jump))
}

#[test]
fn to_chars_keeps_every_character() {
    assert_eq!(to_chars(""), Vec::<char>::new());
    assert_eq!(to_chars("@i"), vec!['@', 'i']);
    assert_eq!(to_chars("a\u{e9}\u{4e2d}b"), vec!['a', '\u{e9}', '\u{4e2d}', 'b']);
}

#[test]
fn white_space_is_what_unicode_says() {
    for c in [' ', '\t', '\n', '\r', '\u{b}', '\u{c}', '\u{85}', '\u{a0}', '\u{1680}',
        '\u{2000}', '\u{2005}', '\u{200a}', '\u{2028}', '\u{2029}', '\u{202f}', '\u{205f}',
        '\u{3000}']
    {
        assert!(is_whitespace(c));
    }
    for c in ['a', '0', '/', '@', '(', '\u{8}', '\u{e}', '\u{200b}', '\u{feff}', '\u{180e}'] {
        assert!(!is_whitespace(c));
    }
}

#[test]
fn white_space_agrees_with_char_on_every_code_point() {
    for n in 0..=0x10FFFFu32 {
        if let Some(c) = char::from_u32(n) {
            assert_eq!(is_whitespace(c), c.is_whitespace());
        }
    }
}

#[test]
fn trim_range_drops_white_space_at_both_ends() {
    let v = chars("  ab c \t");
    assert_eq!(trim_range(&v, 0, v.len()), (2, 6));
    assert_eq!(trim_range(&v, 3, v.len()), (3, 6));
    assert_eq!(trim_range(&v, 0, 2), (2, 2));
    assert_eq!(trim_range(&v, 4, 5), (5, 5));
    assert_eq!(trim_range(&v, 2, 6), (2, 6));
    let empty: Vec<char> = Vec::new();
    assert_eq!(trim_range(&empty, 0, 0), (0, 0));
}

#[test]
fn trim_range_agrees_with_str_trim() {
    for s in ["", " ", "a", " a", "a ", "  a b  ", "\t\u{a0}x\u{3000}\n", "   ", "x\u{200b} "] {
        let v = chars(s);
        assert_eq!(window(&v, trim_range(&v, 0, v.len())), s.trim());
    }
}

#[test]
fn find_char_gives_the_first_place_or_the_end() {
    let v = chars("a=b=c");
    assert_eq!(find_char(&v, 0, v.len(), '='), 1);
    assert_eq!(find_char(&v, 2, v.len(), '='), 3);
    assert_eq!(find_char(&v, 4, v.len(), '='), 5);
    assert_eq!(find_char(&v, 0, 1, '='), 1);
    assert_eq!(find_char(&v, 0, v.len(), ';'), 5);
    assert_eq!(find_char(&v, 0, 0, 'a'), 0);
}

#[test]
fn digits_and_symbol_characters() {
    for c in '0'..='9' {
        assert!(is_decimal_digit(c));
        assert!(is_symbol_character(c));
    }
    for c in ('a'..='z').chain('A'..='Z') {
        assert!(!is_decimal_digit(c));
        assert!(is_symbol_character(c));
    }
    assert!(is_symbol_character('_'));
    for c in ['/', ':', '@', '[', '`', '{', '.', '$', '-', ' ', '\u{e9}', '\u{661}'] {
        assert!(!is_decimal_digit(c));
        assert!(!is_symbol_character(c));
    }
}

#[test]
fn symbols() {
    for s in ["a", "A", "_", "i", "LOOP", "loop_1", "_x", "R0", "x9", "END_OF_FILE", "a_b_c"] {
        assert!(symbol(s));
    }
    for s in ["", "1", "1a", "9_", "a b", "a.b", "a$", "a-b", " a", "a ", "(a)", "@a", "\u{e9}"] {
        assert!(!symbol(s));
    }
}

#[test]
fn symbol_in_a_window() {
    let v = chars("(LOOP)");
    assert!(is_symbol_range(&v, 1, 5));
    assert!(!is_symbol_range(&v, 0, 5));
    assert!(!is_symbol_range(&v, 1, 6));
    assert!(!is_symbol_range(&v, 3, 3));
}

#[test]
fn literals_in_range() {
    assert_eq!(literal("0"), Literal::Address(0));
    assert_eq!(literal("7"), Literal::Address(7));
    assert_eq!(literal("123"), Literal::Address(123));
    assert_eq!(literal("32767"), Literal::Address(32767));
    assert_eq!(literal("00000000000000000000000000012"), Literal::Address(12));
    assert_eq!(literal("+32767"), Literal::Address(32767));
    assert_eq!(literal("+0"), Literal::Address(0));
    assert_eq!(literal("-0"), Literal::Address(0));
    assert_eq!(literal("-000"), Literal::Address(0));
}

#[test]
fn literals_out_of_range() {
    assert_eq!(literal("32768"), Literal::OutOfRange);
    assert_eq!(literal("65535"), Literal::OutOfRange);
    assert_eq!(literal("4294967296"), Literal::OutOfRange);
    assert_eq!(literal("429496729600000000000000000000000000"), Literal::OutOfRange);
    assert_eq!(literal("-1"), Literal::OutOfRange);
    assert_eq!(literal("-32768"), Literal::OutOfRange);
    assert_eq!(literal("+32768"), Literal::OutOfRange);
    assert_eq!(literal("-99999999999999999999"), Literal::OutOfRange);
}

#[test]
fn not_literals() {
    for s in ["", "-", "+", "a", "1a", "a1", "1 2", " 1", "1 ", "--1", "+-1", "1-", "0x10", "1.0",
        "1_000", "\u{661}", "12\u{663}", "99999999999999999999x"]
    {
        assert_eq!(literal(s), Literal::NotLiteral);
    }
}

#[test]
fn literals_agree_with_integer_parsing() {
    for n in -40000i32..=40000 {
        let expected = if (0..=32767).contains(&n) {
            Literal::Address(n as i16)
        } else {
            Literal::OutOfRange
        };
        assert_eq!(literal(&n.to_string()), expected);
    }
}

#[test]
fn literal_in_a_window() {
    let v = chars("@12 ");
    assert_eq!(parse_literal(&v, 1, 3), Literal::Address(12));
    assert_eq!(parse_literal(&v, 0, 3), Literal::NotLiteral);
    assert_eq!(parse_literal(&v, 1, 4), Literal::NotLiteral);
    assert_eq!(parse_literal(&v, 2, 3), Literal::Address(2));
    assert_eq!(parse_literal(&v, 2, 2), Literal::NotLiteral);
}

#[test]
fn instruction_text_drops_comment_and_white_space() {
    assert_eq!(text_of("D=A"), "D=A");
    assert_eq!(text_of("   D=A   "), "D=A");
    assert_eq!(text_of("D=A // load"), "D=A");
    assert_eq!(text_of("\t@i\t// counter"), "@i");
    assert_eq!(text_of("(LOOP) // again"), "(LOOP)");
    assert_eq!(text_of("D=A/comment"), "D=A");
    assert_eq!(text_of("D = A ; JMP // x / y"), "D = A ; JMP");
    assert_eq!(text_of("@x\r"), "@x");
}

#[test]
fn blank_and_comment_lines_have_no_text() {
    for line in ["", " ", "\t", "   \t  ", "// comment", "   // comment", "/", "/ odd", "\r",
        "//", " \u{a0}\u{3000} "]
    {
        assert_eq!(text_of(line), "");
    }
}

#[test]
fn label_names() {
    assert_eq!(label_of("(LOOP)"), Some("LOOP".to_string()));
    assert_eq!(label_of("(end_1)"), Some("end_1".to_string()));
    assert_eq!(label_of("( LOOP )"), Some("LOOP".to_string()));
    assert_eq!(label_of("(_)"), Some("_".to_string()));
    assert_eq!(label_of("(R0)"), Some("R0".to_string()));
}

#[test]
fn malformed_labels() {
    for text in ["", "(", ")", "()", "( )", "(LOOP", "LOOP)", "(1LOOP)", "(LO OP)", "(LOOP))",
        "((LOOP)", "(LOOP) x", "(a.b)", "(a-b)", "(@a)", "LOOP"]
    {
        assert_eq!(label_of(text), None);
    }
}

#[test]
fn fields_of_a_full_computation() {
    assert_eq!(fields_of("D=M;JGT"), ("D".into(), "M".into(), "JGT".into()));
    assert_eq!(fields_of(" AMD = D+1 ; JMP "), ("AMD".into(), "D+1".into(), "JMP".into()));
}

#[test]
fn fields_without_destination_or_jump() {
    assert_eq!(fields_of("0;JMP"), ("".into(), "0".into(), "JMP".into()));
    assert_eq!(fields_of("D=A"), ("D".into(), "A".into(), "".into()));
    assert_eq!(fields_of("D"), ("".into(), "D".into(), "".into()));
    assert_eq!(fields_of(""), ("".into(), "".into(), "".into()));
    assert_eq!(fields_of("=D"), ("".into(), "D".into(), "".into()));
    assert_eq!(fields_of("D;"), ("".into(), "D".into(), "".into()));
    assert_eq!(fields_of("="), ("".into(), "".into(), "".into()));
    assert_eq!(fields_of(";"), ("".into(), "".into(), "".into()));
}

#[test]
fn fields_split_at_the_first_separators() {
    assert_eq!(fields_of("A=D=M"), ("A".into(), "D=M".into(), "".into()));
    assert_eq!(fields_of("D;JMP;JEQ"), ("".into(), "D".into(), "JMP;JEQ".into()));
    assert_eq!(fields_of("D;JMP=A"), ("D;JMP".into(), "A".into(), "".into()));
    assert_eq!(fields_of("A=D;J=M"), ("A".into(), "D".into(), "J=M".into()));
}
