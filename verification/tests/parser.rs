use hack_assembler::parser::Parser;

fn source(text: &str) -> Vec<String> {
    text.lines().map(String::from).collect()
}

#[test]
fn new_parser_has_read_nothing() {
    let parser = Parser::new(source("@1\nD=A\n"));
    assert_eq!(parser.line_number(), 0);
    assert_eq!(parser.current_command(), "");
}

#[test]
fn set_command_hands_out_the_commands_in_order() {
    let mut parser = Parser::new(source("@1\nD=A\n(END)\n0;JMP"));
    assert!(parser.set_command());
    assert_eq!(parser.current_command(), "@1");
    assert_eq!(parser.line_number(), 1);
    assert!(parser.set_command());
    assert_eq!(parser.current_command(), "D=A");
    assert_eq!(parser.line_number(), 2);
    assert!(parser.set_command());
    assert_eq!(parser.current_command(), "(END)");
    assert_eq!(parser.line_number(), 3);
    assert!(parser.set_command());
    assert_eq!(parser.current_command(), "0;JMP");
    assert_eq!(parser.line_number(), 4);
    assert!(!parser.set_command());
    assert_eq!(parser.line_number(), 4);
}

#[test]
fn set_command_skips_blank_lines_and_comments() {
    let mut parser = Parser::new(source(
        "// header\n\n   \n  @i   // counter\n\t// indented comment\nM=1\n\n// end\n",
    ));
    assert!(parser.set_command());
    assert_eq!(parser.current_command(), "@i");
    assert_eq!(parser.line_number(), 4);
    assert!(parser.set_command());
    assert_eq!(parser.current_command(), "M=1");
    assert_eq!(parser.line_number(), 6);
    assert!(!parser.set_command());
    assert_eq!(parser.line_number(), 8);
}

#[test]
fn set_command_keeps_the_last_command_at_the_end() {
    let mut parser = Parser::new(source("D=A\n// done"));
    assert!(parser.set_command());
    assert!(!parser.set_command());
    assert_eq!(parser.current_command(), "D=A");
    assert!(!parser.set_command());
    assert_eq!(parser.current_command(), "D=A");
}

#[test]
fn set_command_on_no_lines() {
    let mut parser = Parser::new(Vec::new());
    assert!(!parser.set_command());
    assert_eq!(parser.line_number(), 0);
    assert_eq!(parser.current_command(), "");
}

#[test]
fn set_command_on_comments_only() {
    let mut parser = Parser::new(source("// a\n// b\n\n"));
    assert!(!parser.set_command());
    assert_eq!(parser.line_number(), 3);
}

#[test]
fn rewind_starts_over() {
    let mut parser = Parser::new(source("@1\nD=A"));
    assert!(parser.set_command());
    assert!(parser.set_command());
    assert!(!parser.set_command());
    parser.rewind();
    assert_eq!(parser.line_number(), 0);
    assert_eq!(parser.current_command(), "D=A");
    assert!(parser.set_command());
    assert_eq!(parser.current_command(), "@1");
    assert!(parser.set_command());
    assert_eq!(parser.current_command(), "D=A");
    assert!(!parser.set_command());
}

#[test]
fn set_command_handles_carriage_returns_and_wide_characters() {
    let mut parser = Parser::new(vec![
        "@x\r".to_string(),
        "\u{3000}D=M\u{a0}// \u{4e2d}\u{6587}".to_string(),
    ]);
    assert!(parser.set_command());
    assert_eq!(parser.current_command(), "@x");
    assert!(parser.set_command());
    assert_eq!(parser.current_command(), "D=M");
    assert!(!parser.set_command());
}
