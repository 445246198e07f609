use hack_tools::lexer::{preprocess_code, Instruction, Lexer, Token};

fn token_text(t: &Token) -> String {
    match t.get_token() {
        Instruction::AInstruction(s) => s.clone(),
        Instruction::LInstruction(s) => s.clone(),
        Instruction::CInstruction(s) => s.clone(),
    }
}

#[test]
fn create_tokens() {
    let code = String::from(
        "// Hello this is a sample comment in the file

                @100 // Load 100
                D=D-A

                D;JGT
                ",
    );
    let lexer = Lexer::new(code);

    let texts: Vec<String> = lexer.get_tokens().iter().map(token_text).collect();
    assert_eq!(
        texts,
        vec!["@100".to_string(), "D=D-A".to_string(), "D;JGT".to_string()]
    )
}

#[test]
fn token_kinds_by_first_character() {
    let lexer = Lexer::new(String::from("@1\n(LOOP)\nD=A"));
    let tokens = lexer.get_tokens();
    assert_eq!(tokens.len(), 3);
    assert!(matches!(tokens[0].get_token(), Instruction::AInstruction(_)));
    assert!(matches!(tokens[1].get_token(), Instruction::LInstruction(_)));
    assert!(matches!(tokens[2].get_token(), Instruction::CInstruction(_)));
}

#[test]
fn tokens_carry_source_lines() {
    let lexer = Lexer::new(String::from("// top\n\n@1\n\nD=A"));
    let tokens = lexer.get_tokens();
    assert_eq!(tokens.len(), 2);
    assert_eq!(tokens[0].line, 3);
    assert_eq!(tokens[1].line, 5);
}

#[test]
fn preprocess_trims_and_strips_comments() {
    assert_eq!(preprocess_code("  @1 // load"), Some("@1".to_string()));
    assert_eq!(preprocess_code("// only a comment"), None);
    assert_eq!(preprocess_code("   "), None);
    assert_eq!(preprocess_code(""), None);
    assert_eq!(preprocess_code("D=M"), Some("D=M".to_string()));
    assert_eq!(preprocess_code("\tM=1//tight"), Some("M=1".to_string()));
}
