use hack_tools::assemble;
use hack_tools::error::ErrorKind;

fn words(code: &str) -> Vec<String> {
    assemble(String::from(code)).expect("source must assemble")
}

#[test]
fn compute_encoding_d_minus_a() {
    assert_eq!(words("D=D-A"), vec!["1110010011010000".to_string()]);
}

#[test]
fn jump_encoding() {
    assert_eq!(words("0;JMP"), vec!["1110101010000111".to_string()]);
    assert_eq!(words("D;JGE"), vec!["1110001100000011".to_string()]);
    assert_eq!(words("MD=D+1"), vec!["1110011111011000".to_string()]);
}

#[test]
fn memory_comp_sets_a_bit() {
    assert_eq!(words("D=M"), vec!["1111110000010000".to_string()]);
}

#[test]
fn numeric_address_encodes_directly() {
    assert_eq!(words("@100"), vec!["0000000001100100".to_string()]);
    assert_eq!(words("@0"), vec!["0000000000000000".to_string()]);
    assert_eq!(words("@32767"), vec!["0111111111111111".to_string()]);
}

#[test]
fn predefined_symbols_resolve_regardless_of_program() {
    assert_eq!(words("@SP"), vec!["0000000000000000".to_string()]);
    assert_eq!(words("@SCREEN"), vec!["0100000000000000".to_string()]);
    assert_eq!(words("@KBD"), vec!["0110000000000000".to_string()]);
    assert_eq!(words("@R13"), vec!["0000000000001101".to_string()]);
    // other content before the lookup changes nothing
    let w = words("@x\nM=1\n@SP\n@SCREEN");
    assert_eq!(w[2], "0000000000000000");
    assert_eq!(w[3], "0100000000000000");
}

#[test]
fn label_binds_to_program_counter_without_consuming_a_slot() {
    let w = words("(LOOP)\n@LOOP\n0;JMP");
    assert_eq!(
        w,
        vec!["0000000000000000".to_string(), "1110101010000111".to_string()]
    );
    // a label later in the program counts only the real instructions before it
    let w2 = words("@1\nD=A\n(HERE)\n@HERE");
    assert_eq!(w2[2], "0000000000000010");
}

#[test]
fn variables_allocate_from_16_in_first_appearance_order() {
    let w = words("@foo\nM=1\n@bar\nM=1\n@foo\nM=1");
    assert_eq!(w[0], "0000000000010000"); // foo = 16
    assert_eq!(w[2], "0000000000010001"); // bar = 17
    assert_eq!(w[4], "0000000000010000"); // foo reused
}

#[test]
fn address_out_of_range_is_fatal() {
    let e = assemble(String::from("@32768")).unwrap_err();
    assert_eq!(e.kind, ErrorKind::AddressOutOfRange);
    let e2 = assemble(String::from("@70000")).unwrap_err();
    assert_eq!(e2.kind, ErrorKind::AddressOutOfRange);
    // a digit-led operand that is not a decimal numeral
    let e3 = assemble(String::from("@1a")).unwrap_err();
    assert_eq!(e3.kind, ErrorKind::AddressOutOfRange);
}

#[test]
fn malformed_compute_instruction_reports_line_and_text() {
    let e = assemble(String::from("// header\n\nD=Q")).unwrap_err();
    assert_eq!(e.kind, ErrorKind::MalformedComputeInstruction);
    assert_eq!(e.line, 3);
    assert_eq!(e.text, "D=Q");
}

#[test]
fn combined_dest_comp_jump_is_rejected() {
    let e = assemble(String::from("D=D+1;JMP")).unwrap_err();
    assert_eq!(e.kind, ErrorKind::MalformedComputeInstruction);
}

#[test]
fn comments_and_blanks_emit_nothing() {
    let w = words("// a\n\n   \n@1 // trailing\n");
    assert_eq!(w, vec!["0000000000000001".to_string()]);
}

#[test]
fn labels_never_overwrite_predefined_symbols() {
    let w = words("(SP)\n@SP\n(SCREEN)\n@SCREEN");
    assert_eq!(w[0], "0000000000000000");
    assert_eq!(w[1], "0100000000000000");
}

#[test]
fn duplicate_label_keeps_its_first_binding() {
    let w = words("(L)\nD=A\n(L)\n@L");
    assert_eq!(w[1], "0000000000000000");
}

#[test]
fn identical_input_gives_identical_output() {
    let src = "(LOOP)\n@var\nM=1\n@LOOP\n0;JMP\n@SCREEN\nD=M";
    let a = assemble(String::from(src)).unwrap();
    let b = assemble(String::from(src)).unwrap();
    assert_eq!(a, b);
}
