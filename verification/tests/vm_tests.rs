use hack_tools::code_writer::CodeWriter;
use hack_tools::error::ErrorKind;
use hack_tools::vm_parser::{arg1, arg2, classify_line, translate, Parser, Token};

fn lines_of(w: &CodeWriter) -> Vec<String> {
    w.get_lines().clone()
}

#[test]
fn classify_recognizes_the_command_words() {
    assert!(matches!(classify_line("push constant 7"), Some(Token::CPush(_))));
    assert!(matches!(classify_line("pop local 2"), Some(Token::CPop(_))));
    assert!(matches!(classify_line("add"), Some(Token::CArithmetic(_))));
    assert!(matches!(classify_line("label LOOP"), Some(Token::CLabel(_))));
    assert!(matches!(classify_line("goto END"), Some(Token::CGoto(_))));
    assert!(matches!(classify_line("if-goto END"), Some(Token::CIfGoTo(_))));
    assert!(matches!(classify_line("function F 2"), Some(Token::CFunction(_))));
    assert!(matches!(classify_line("return"), Some(Token::CReturn(_))));
    assert!(matches!(classify_line("call F 1"), Some(Token::CCall(_))));
    // a line matching no command word is dropped
    assert!(classify_line("xor 1").is_none());
    assert!(classify_line("").is_none());
}

#[test]
fn operands_come_by_whitespace_position() {
    let t = classify_line("push  constant   7").unwrap();
    assert_eq!(arg1(&t), Some("constant".to_string()));
    assert_eq!(arg2(&t), Some("7".to_string()));
    let a = classify_line("add").unwrap();
    assert_eq!(arg1(&a), Some("add".to_string()));
    assert_eq!(arg2(&a), None);
    let c = classify_line("call Other.go 2").unwrap();
    assert_eq!(arg1(&c), Some("Other.go".to_string()));
    assert_eq!(arg2(&c), Some("2".to_string()));
    let missing = classify_line("push constant").unwrap();
    assert_eq!(arg2(&missing), None);
}

#[test]
fn add_emits_the_stack_combination() {
    let mut w = CodeWriter::new("Main.vm");
    w.write_arithmetic("add").unwrap();
    assert_eq!(
        lines_of(&w),
        vec![
            "// add", "@SP", "M=M-1", "A=M", "D=M", "@SP", "M=M-1", "@SP", "A=M", "M=D+M", "@SP",
            "M=M+1",
        ]
    );
}

#[test]
fn push_constant_stores_the_literal() {
    let mut w = CodeWriter::new("Main.vm");
    w.write_push_pop("push", "constant", 7).unwrap();
    assert_eq!(
        lines_of(&w),
        vec!["// push constant 7", "@7", "D=A", "@SP", "A=M", "M=D", "@SP", "M=M+1"]
    );
}

#[test]
fn pointer_and_temp_address_fixed_registers() {
    let mut w = CodeWriter::new("Main.vm");
    w.write_push_pop("push", "pointer", 1).unwrap();
    assert!(lines_of(&w).contains(&"@R4".to_string()));
    let mut w2 = CodeWriter::new("Main.vm");
    w2.write_push_pop("push", "temp", 3).unwrap();
    assert!(lines_of(&w2).contains(&"@R8".to_string()));
}

#[test]
fn static_symbols_are_isolated_by_file_stem() {
    let mut foo = CodeWriter::new("Foo.vm");
    foo.write_push_pop("push", "static", 3).unwrap();
    let mut bar = CodeWriter::new("Bar.vm");
    bar.write_push_pop("push", "static", 3).unwrap();
    assert!(lines_of(&foo).contains(&"@Foo.3".to_string()));
    assert!(lines_of(&bar).contains(&"@Bar.3".to_string()));
    assert!(!lines_of(&foo).contains(&"@Bar.3".to_string()));
}

#[test]
fn independent_comparisons_never_share_a_label_pair() {
    let mut w = CodeWriter::new("Main.vm");
    w.write_arithmetic("eq").unwrap();
    w.write_arithmetic("eq").unwrap();
    let ls = lines_of(&w);
    assert!(ls.contains(&"(LABEL0)".to_string()));
    assert!(ls.contains(&"(ENDLABEL0)".to_string()));
    assert!(ls.contains(&"(LABEL1)".to_string()));
    assert!(ls.contains(&"(ENDLABEL1)".to_string()));
    // each declaration appears exactly once
    assert_eq!(ls.iter().filter(|l| *l == "(LABEL0)").count(), 1);
    assert_eq!(ls.iter().filter(|l| *l == "(LABEL1)").count(), 1);
}

#[test]
fn comparisons_pick_their_jump() {
    let mut w = CodeWriter::new("Main.vm");
    w.write_arithmetic("gt").unwrap();
    assert!(lines_of(&w).contains(&"D;JGT".to_string()));
    let mut w2 = CodeWriter::new("Main.vm");
    w2.write_arithmetic("lt").unwrap();
    assert!(lines_of(&w2).contains(&"D;JLT".to_string()));
}

#[test]
fn function_pushes_one_zero_per_local() {
    let mut w = CodeWriter::new("Main.vm");
    w.write_function("Other.go", 2);
    let ls = lines_of(&w);
    assert_eq!(ls[0], "// function Other.go 2");
    assert_eq!(ls[1], "(Other.go)");
    assert_eq!(ls.iter().filter(|l| *l == "// push constant 0").count(), 2);
}

#[test]
fn call_saves_the_frame_in_fixed_order() {
    let mut w = CodeWriter::new("Main.vm");
    w.write_call("Other.go", 2);
    let ls = lines_of(&w);
    assert_eq!(ls[0], "// call function Other.go");
    assert_eq!(ls[1], "@RETURN_LABEL1");
    assert_eq!(*ls.last().unwrap(), "(RETURN_LABEL1)");
    let order: Vec<usize> = ["@LCL", "@ARG", "@THIS", "@THAT"]
        .iter()
        .map(|h| ls.iter().position(|l| l == h).unwrap())
        .collect();
    assert!(order[0] < order[1] && order[1] < order[2] && order[2] < order[3]);
}

#[test]
fn unknown_segment_is_rejected_with_nothing_emitted() {
    let mut w = CodeWriter::new("Main.vm");
    assert_eq!(
        w.write_push_pop("push", "bogus", 0),
        Err(ErrorKind::UnknownSegment)
    );
    assert!(w.get_lines().is_empty());
}

#[test]
fn unsupported_operation_is_rejected() {
    let mut w = CodeWriter::new("Main.vm");
    assert_eq!(w.write_arithmetic("mul"), Err(ErrorKind::UnsupportedOperation));
    assert!(w.get_lines().is_empty());
}

#[test]
fn missing_operand_is_rejected() {
    let mut p = Parser::new("Main.vm");
    let t = Token::CPush("push constant".to_string());
    assert_eq!(p.parse(&t), Err(ErrorKind::MissingOperand));
    let t2 = Token::CPush("push constant seven".to_string());
    assert_eq!(p.parse(&t2), Err(ErrorKind::MissingOperand));
}

#[test]
fn arithmetic_with_trailing_text_is_rejected() {
    let mut p = Parser::new("Main.vm");
    let t = classify_line("sub extra").unwrap();
    assert!(matches!(t, Token::CArithmetic(_)));
    assert_eq!(p.parse(&t), Err(ErrorKind::UnsupportedOperation));
}

#[test]
fn unrecognizable_token_is_rejected() {
    let mut p = Parser::new("Main.vm");
    assert_eq!(p.parse(&Token::Error), Err(ErrorKind::UnknownMnemonic));
}

#[test]
fn translate_starts_with_the_bootstrap() {
    let out = translate("", "Main.vm").unwrap();
    assert_eq!(out[0], "// Bootstrap Code");
    assert_eq!(out[1], "@256");
    assert_eq!(out[2], "D=A");
    assert_eq!(out[3], "@SP");
    assert_eq!(out[4], "M=D");
    assert_eq!(out[5], "// call function Sys.init");
    assert!(out.contains(&"@RETURN_LABEL1".to_string()));
}

#[test]
fn translate_reports_the_failing_line() {
    let e = translate("// ok\npush constant 1\npush bogus 2", "Main.vm").unwrap_err();
    assert_eq!(e.kind, ErrorKind::UnknownSegment);
    assert_eq!(e.line, 3);
    assert_eq!(e.text, "push bogus 2");
}

#[test]
fn translate_twice_gives_identical_output() {
    let src = "push constant 1\npush constant 2\nadd\neq";
    let a = translate(src, "Main.vm").unwrap();
    let b = translate(src, "Main.vm").unwrap();
    assert_eq!(a, b);
}
