use simpletron::assembler::{
    is_like_lit, is_like_mem_addr, parse_lit, parse_mem_addr, Asmbler, AsmblerError,
};

fn assemble(src: &str) -> simpletron::assembler::AssembledContents {
    Asmbler::assemble(src.to_string(), Vec::new())
}

fn lines_of(r: &simpletron::assembler::AssembledContents) -> Vec<String> {
    r.contents.split('\n').map(|s| s.to_string()).collect()
}

#[test]
fn read_write_hlt_image() {
    let r = assemble("read [5]\nwrite [5]\nhlt");
    assert!(!r.has_errors());
    let lines = lines_of(&r);
    assert_eq!(lines, vec!["+100005", "+110005", "+450000", "+450000"]);
}

#[test]
fn trailing_hlt_always_appended() {
    let r = assemble("");
    assert!(!r.has_errors());
    assert_eq!(r.contents, "+450000");
}

#[test]
fn comments_and_blank_lines_ignored() {
    let r = assemble("; a comment\n\n   \nhlt\n;another");
    assert!(!r.has_errors());
    assert_eq!(r.contents, "+450000\n+450000");
}

#[test]
fn mov_addressing_modes() {
    let r = assemble(
        "mov acc [idx]\nmov acc [3]\nmov acc -7\nmov idx [4]\nmov [idx] acc\nmov [6] acc",
    );
    assert!(!r.has_errors());
    let lines = lines_of(&r);
    assert_eq!(
        lines,
        vec!["+230000", "+200003", "-210007", "+220004", "+260000", "+250006", "+450000"]
    );
}

#[test]
fn arithmetic_opcodes() {
    let r = assemble("add acc [1]\nadd acc [idx]\nsub acc [1]\nsub acc [idx]\nmul acc [1]\nmul acc [idx]\ndiv acc [1]\ndiv acc [idx]\ninc\ndec\nswap\nwritec");
    assert!(!r.has_errors());
    let lines = lines_of(&r);
    assert_eq!(
        lines,
        vec![
            "+300001", "+310000", "+320001", "+330000", "+360001", "+370000", "+340001",
            "+350000", "+380000", "+390000", "+430000", "+120000", "+450000"
        ]
    );
}

#[test]
fn forward_and_backward_label_words_identical() {
    let r = assemble("jmp l\nl:\nmov acc 1\njmp l");
    assert!(!r.has_errors());
    let lines = lines_of(&r);
    assert_eq!(lines[0], "+400001");
    assert_eq!(lines[2], "+400001");
    assert_eq!(lines[0], lines[2]);
}

#[test]
fn conditional_branches_encode() {
    let r = assemble("l:\njlz l\njez l");
    assert!(!r.has_errors());
    let lines = lines_of(&r);
    assert_eq!(lines, vec!["+410000", "+420000", "+450000"]);
}

#[test]
fn duplicate_label_keeps_first_address() {
    let r = assemble("x:\nmov acc 1\nx:\njmp x\nhlt");
    assert!(r.has_errors());
    assert_eq!(r.errors.len(), 1);
    assert_eq!(r.errors[0].0, AsmblerError::LabelAlreadyDefined);
    assert_eq!(r.errors[0].1, "x:");
    let lines = lines_of(&r);
    // the branch resolves to the first definition, address 0
    assert_eq!(lines[1], "+400000");
}

#[test]
fn unresolved_label_single_invalid_operand_naming_label() {
    let r = assemble("jmp nowhere\nhlt");
    assert_eq!(r.errors.len(), 1);
    assert_eq!(r.errors[0].0, AsmblerError::InvalidOperand);
    assert_eq!(r.errors[0].1, "Unresolved label: nowhere");
    assert_eq!(r.errors[0].2, 0);
    // the placeholder stays blank in the output
    let lines = lines_of(&r);
    assert_eq!(lines[0], "");
}

#[test]
fn dw_extends_and_overwrites() {
    let r = assemble("dw [5] 7\nhlt");
    assert!(!r.has_errors());
    let lines = lines_of(&r);
    assert_eq!(
        lines,
        vec!["+450000", "+450000", "+000000", "+000000", "+000000", "+000007"]
    );
}

#[test]
fn dw_applied_after_code_regardless_of_order() {
    // the dw is declared before the instruction it overwrites
    let first = assemble("dw [0] 9\nhlt");
    let second = assemble("hlt\ndw [0] 9");
    assert!(!first.has_errors());
    assert!(!second.has_errors());
    assert_eq!(first.contents, "+000009\n+450000");
    assert_eq!(first.contents, second.contents);
}

#[test]
fn dw_never_shrinks_image() {
    let r = assemble("mov acc 1\nmov acc 2\ndw [0] 5");
    assert!(!r.has_errors());
    let lines = lines_of(&r);
    assert_eq!(lines.len(), 3);
    assert_eq!(lines, vec!["+000005", "+210002", "+450000"]);
}

#[test]
fn dw_same_address_last_wins() {
    let r = assemble("dw [2] 1\ndw [2] 8");
    assert!(!r.has_errors());
    let lines = lines_of(&r);
    assert_eq!(lines, vec!["+450000", "+000000", "+000008"]);
}

#[test]
fn assert_directive_encodes() {
    let r = assemble("assert\nassert 42\nassert -17");
    assert!(!r.has_errors());
    let lines = lines_of(&r);
    assert_eq!(lines, vec!["+000000", "+000042", "-000017", "+450000"]);
}

#[test]
fn macro_definition_and_expansion() {
    let r = assemble("STARTMACRO three\nmov acc 3\nhlt\nENDMACRO\nMACRO three");
    assert!(!r.has_errors());
    let lines = lines_of(&r);
    assert_eq!(lines, vec!["+210003", "+450000", "+450000"]);
}

#[test]
fn nested_macro_expansion() {
    let r = assemble(
        "STARTMACRO inner\ninc\nENDMACRO\nSTARTMACRO outer\nMACRO inner\ndec\nENDMACRO\nMACRO outer",
    );
    assert!(!r.has_errors());
    let lines = lines_of(&r);
    assert_eq!(lines, vec!["+380000", "+390000", "+450000"]);
}

#[test]
fn undefined_macro_reported_and_dropped() {
    let r = assemble("MACRO ghost\nhlt");
    assert_eq!(r.errors.len(), 1);
    assert_eq!(r.errors[0].0, AsmblerError::MACRONotDefined);
    let lines = lines_of(&r);
    assert_eq!(lines, vec!["+450000", "+450000"]);
}

#[test]
fn duplicate_macro_reported_first_body_kept() {
    let r = assemble(
        "STARTMACRO m\ninc\nENDMACRO\nSTARTMACRO m\ndec\nENDMACRO\nMACRO m",
    );
    assert_eq!(r.errors.len(), 1);
    assert_eq!(r.errors[0].0, AsmblerError::MACROAlreadyDefined);
    let lines = lines_of(&r);
    assert_eq!(lines, vec!["+380000", "+450000"]);
}

#[test]
fn unterminated_macro_is_syntax_error() {
    let r = assemble("STARTMACRO open\ninc\ndec");
    assert_eq!(r.errors.len(), 1);
    assert_eq!(r.errors[0].0, AsmblerError::SyntaxError);
    assert_eq!(r.errors[0].1, "STARTMACRO open");
    assert_eq!(r.contents, "+450000");
}

#[test]
fn runaway_recursive_macro_fails_deterministically() {
    let r = assemble("STARTMACRO m\nMACRO m\nENDMACRO\nMACRO m\nhlt");
    assert!(r.has_errors());
    assert_eq!(r.errors.len(), 1);
    assert_eq!(r.errors[0].0, AsmblerError::MACROExpansionTooDeep);
    let lines = lines_of(&r);
    assert_eq!(lines, vec!["+450000", "+450000"]);
}

#[test]
fn unknown_mnemonic_invalid_instruction() {
    let r = assemble("frobnicate");
    assert_eq!(r.errors.len(), 1);
    assert_eq!(r.errors[0].0, AsmblerError::InvalidInstruction);
    assert_eq!(r.errors[0].1, "frobnicate");
    assert_eq!(r.errors[0].2, 0);
}

#[test]
fn wrong_token_count_syntax_error() {
    let r = assemble("read");
    assert_eq!(r.errors.len(), 1);
    assert_eq!(r.errors[0].0, AsmblerError::SyntaxError);
}

#[test]
fn bad_operand_invalid_operand() {
    let r = assemble("read 5");
    assert_eq!(r.errors.len(), 1);
    assert_eq!(r.errors[0].0, AsmblerError::InvalidOperand);
}

#[test]
fn direct_address_out_of_bounds() {
    let r = assemble("read [10000]");
    assert_eq!(r.errors.len(), 1);
    assert_eq!(r.errors[0].0, AsmblerError::MemoryRequestOutOfBounds);
}

#[test]
fn oversized_literal_rejected_at_assembly_time() {
    let r = assemble("mov acc 10000");
    assert_eq!(r.errors.len(), 1);
    assert_eq!(r.errors[0].0, AsmblerError::InvalidOperand);
}

#[test]
fn errors_do_not_stop_assembly() {
    let r = assemble("frobnicate\nmov acc 1\nbad\nmov acc 2");
    assert_eq!(r.errors.len(), 2);
    let lines = lines_of(&r);
    assert_eq!(lines, vec!["+210001", "+210002", "+450000"]);
}

#[test]
fn flags_pass_through_and_results_empty() {
    let r = Asmbler::assemble("hlt".to_string(), vec!["verbose".to_string()]);
    assert_eq!(r.flags, vec!["verbose".to_string()]);
    assert_eq!(r.results, "");
    assert!(!r.has_errors());
}

#[test]
fn parse_helpers() {
    assert!(is_like_mem_addr("[5]"));
    assert!(is_like_mem_addr("[+5]"));
    assert!(!is_like_mem_addr("5"));
    assert!(!is_like_mem_addr("[x]"));
    assert!(!is_like_mem_addr("[]"));
    assert!(is_like_lit("-42"));
    assert!(is_like_lit("+7"));
    assert!(!is_like_lit("4 2"));
    assert!(!is_like_lit(""));
    assert_eq!(parse_lit("-42"), Ok(-42));
    assert_eq!(parse_lit("abc"), Err(AsmblerError::InvalidOperand));
    assert_eq!(parse_lit("99999999999"), Err(AsmblerError::InvalidOperand));
    assert_eq!(parse_mem_addr("[123]"), Ok(123));
    assert_eq!(parse_mem_addr("x"), Err(AsmblerError::SyntaxError));
}

#[test]
fn label_line_extra_tokens_ignored() {
    // the first token decides: a label line defines the label and the rest
    // of the line does not emit anything
    let r = assemble("loop: mov acc 1\njmp loop");
    assert!(!r.has_errors());
    let lines = lines_of(&r);
    assert_eq!(lines, vec!["+400000", "+450000"]);
}

#[test]
fn blank_placeholder_survives_dw_extension() {
    let r = assemble("jmp missing\ndw [3] 1");
    assert_eq!(r.errors.len(), 1);
    assert_eq!(r.errors[0].0, AsmblerError::InvalidOperand);
    let lines = lines_of(&r);
    assert_eq!(lines, vec!["", "+450000", "+000000", "+000001"]);
}

#[test]
fn signed_operand_forms() {
    let r = assemble("mov acc +5\nread [+7]");
    assert!(!r.has_errors());
    let lines = lines_of(&r);
    assert_eq!(lines, vec!["+210005", "+100007", "+450000"]);
}
