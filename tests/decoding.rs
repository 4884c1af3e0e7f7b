use pseudo_asm::instructions::{
    ins_abs, ins_change, ins_cmp, ins_copy, ins_div, ins_getnum, ins_mod, ins_mul, ins_print,
    ins_rand, ins_set, AsmErrorKind, Data, Instruction,
};
use pseudo_asm::symbols::{get_or_set_id, SymbolTable};
use pseudo_asm::syntax::{is_number, join_spaces, looks_like_number, same_text, split_spaces};

fn params(text: &[&str]) -> Vec<String> {
    text.iter().map(|t| t.to_string()).collect()
}

#[test]
fn ids_follow_first_occurrence() {
    let mut t = SymbolTable::new();
    assert_eq!(get_or_set_id("a".to_string(), &mut t), 0);
    assert_eq!(get_or_set_id("b".to_string(), &mut t), 1);
    assert_eq!(get_or_set_id("a".to_string(), &mut t), 0);
    assert_eq!(get_or_set_id("c".to_string(), &mut t), 2);
    assert_eq!(get_or_set_id("b".to_string(), &mut t), 1);
    assert_eq!(t.len(), 3);
}

#[test]
fn variables_and_labels_have_separate_ids() {
    let mut vars = SymbolTable::new();
    let mut labels = SymbolTable::new();
    get_or_set_id("z".to_string(), &mut vars);
    let r = ins_cmp(&params(&["x", "y", "L"]), &mut vars, &mut labels, false).unwrap();
    assert_eq!(r, Instruction::Cmp(1, Data::Address(2), 0, false));
    assert_eq!(labels.len(), 1);
}

#[test]
fn operands_are_numbers_or_cells() {
    let mut vars = SymbolTable::new();
    assert_eq!(ins_change(&params(&["x", "5"]), &mut vars), Ok(Instruction::Change(0, Data::Num(5))));
    assert_eq!(ins_change(&params(&["x", "y"]), &mut vars), Ok(Instruction::Change(0, Data::Address(1))));
    assert_eq!(ins_mul(&params(&["y", "-2"]), &mut vars), Ok(Instruction::Mul(1, Data::Num(-2))));
    assert_eq!(ins_div(&params(&["w", "x"]), &mut vars), Ok(Instruction::Div(2, Data::Address(0))));
    assert_eq!(ins_mod(&params(&["x", "+4"]), &mut vars), Ok(Instruction::Mod(0, Data::Num(4))));
    assert_eq!(ins_mod(&params(&["x"]), &mut vars), Err(AsmErrorKind::MissingArgument));
}

#[test]
fn single_cell_decoders() {
    let mut vars = SymbolTable::new();
    assert_eq!(ins_getnum(&params(&["n"]), &mut vars), Ok(Instruction::GetNum(0)));
    assert_eq!(ins_rand(&params(&["r"]), &mut vars), Ok(Instruction::Rand(1)));
    assert_eq!(ins_abs(&params(&["n"]), &mut vars), Ok(Instruction::Abs(0)));
    assert_eq!(ins_abs(&params(&[]), &mut vars), Err(AsmErrorKind::MissingArgument));
}

#[test]
fn set_and_copy_decoders() {
    let mut vars = SymbolTable::new();
    assert_eq!(ins_set(&params(&["x", "-7"]), &mut vars), Ok(Instruction::SetValue(0, -7)));
    assert_eq!(ins_set(&params(&["x", "7q"]), &mut vars), Err(AsmErrorKind::InvalidInteger));
    assert_eq!(ins_copy(&params(&["x", "y"]), &mut vars), Ok(Instruction::Copy(0, 1)));
}

#[test]
fn print_decoder_literals_and_cells() {
    let mut vars = SymbolTable::new();
    assert_eq!(
        ins_print(&params(&["\"two", "words\""]), &mut vars, ""),
        Ok(Instruction::Print(None, "two words".to_string()))
    );
    assert_eq!(
        ins_print(&params(&["\"hi\""]), &mut vars, "\n"),
        Ok(Instruction::Print(None, "hi\n".to_string()))
    );
    assert_eq!(
        ins_print(&params(&["\"\""]), &mut vars, ""),
        Ok(Instruction::Print(None, String::new()))
    );
    assert_eq!(
        ins_print(&params(&["count"]), &mut vars, "\n"),
        Ok(Instruction::Print(Some(0), "\n".to_string()))
    );
    assert_eq!(ins_print(&params(&["\"a", "b"]), &mut vars, ""), Err(AsmErrorKind::MismatchedQuote));
    assert_eq!(ins_print(&params(&[]), &mut vars, ""), Err(AsmErrorKind::MissingArgument));
}

#[test]
fn number_literals() {
    assert!(is_number("0"));
    assert!(is_number("-7"));
    assert!(is_number("+12"));
    assert!(is_number("2147483647"));
    assert!(is_number("-2147483648"));
    assert!(!is_number("2147483648"));
    assert!(!is_number(""));
    assert!(!is_number("-"));
    assert!(!is_number("1a"));
    assert!(!is_number(" 1"));
}

#[test]
fn split_keeps_empty_pieces() {
    assert_eq!(split_spaces("set x 1"), vec!["set", "x", "1"]);
    assert_eq!(split_spaces("a  b"), vec!["a", "", "b"]);
    assert_eq!(split_spaces(""), vec![""]);
    assert_eq!(join_spaces(&params(&["a", "", "b"])), "a  b");
    assert_eq!(join_spaces(&params(&[])), "");
}

#[test]
fn text_comparison() {
    assert!(same_text("print", "print"));
    assert!(!same_text("print", "printl"));
    assert!(!same_text("abc", "abd"));
}

#[test]
fn out_of_range_operand_is_an_error() {
    let mut vars = SymbolTable::new();
    assert_eq!(
        ins_change(&params(&["x", "99999999999"]), &mut vars),
        Err(AsmErrorKind::InvalidInteger)
    );
    assert_eq!(ins_mul(&params(&["x", "-2147483649"]), &mut vars), Err(AsmErrorKind::InvalidInteger));
    assert_eq!(ins_div(&params(&["x", "+4294967296"]), &mut vars), Err(AsmErrorKind::InvalidInteger));
    assert_eq!(ins_mod(&params(&["x", "2147483648"]), &mut vars), Err(AsmErrorKind::InvalidInteger));
    let mut labels = SymbolTable::new();
    assert_eq!(
        ins_cmp(&params(&["x", "99999999999", "L"]), &mut vars, &mut labels, false),
        Err(AsmErrorKind::InvalidInteger)
    );
    assert_eq!(ins_change(&params(&["x", "-2147483648"]), &mut vars), Ok(Instruction::Change(0, Data::Num(i32::MIN))));
}

#[test]
fn literal_shape_ignores_size() {
    assert!(looks_like_number("99999999999"));
    assert!(looks_like_number("-0"));
    assert!(looks_like_number("+12"));
    assert!(!looks_like_number("+"));
    assert!(!looks_like_number(""));
    assert!(!looks_like_number("x1"));
    assert!(!looks_like_number("1x"));
}
