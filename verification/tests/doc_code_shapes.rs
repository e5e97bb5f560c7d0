use elm_ast::print::doc::block_shapes::{
    block_has_comment_paragraph, block_has_single_line_if, block_has_unseparated_assertions,
    code_block_needs_reformat, is_assertion_only_paragraph, looks_like_type_annotation,
    looks_like_value_decl_start, paragraph_is_all_imports, paragraph_starts_with_line_comment,
    split_into_paragraphs,
};
use elm_ast::print::doc::line_shapes::{
    has_compact_tuple, has_tight_binary_op, import_has_unsorted_exposing, is_redundant_paren_expr,
    is_single_line_value_decl, keys_out_of_order_exec, line_has_sci_float_without_dot,
    line_has_single_line_if_then_else, line_has_unpadded_hex,
};

fn chars(s: &str) -> Vec<char> {
    s.chars().collect()
}

fn lines(ls: &[&str]) -> Vec<Vec<char>> {
    ls.iter().map(|l| chars(l)).collect()
}

fn strings(ps: Vec<Vec<Vec<char>>>) -> Vec<Vec<String>> {
    ps.into_iter().map(|p| p.into_iter().map(|l| l.into_iter().collect()).collect()).collect()
}

#[test]
fn value_declaration_starts() {
    assert!(looks_like_value_decl_start(&chars("foo x = 1")));
    assert!(!looks_like_value_decl_start(&chars("foo == 1")));
    assert!(!looks_like_value_decl_start(&chars("Foo x = 1")));
    assert!(!looks_like_value_decl_start(&chars("foo")));
}

#[test]
fn type_annotations() {
    assert!(looks_like_type_annotation(&chars("foo : Int")));
    assert!(!looks_like_type_annotation(&chars("a:b")));
    assert!(!looks_like_type_annotation(&chars("\"a : b\"")));
}

#[test]
fn comment_paragraph_after_declaration() {
    let b = lines(&["    foo : Int", "    foo = 1", "", "    -- note"]);
    assert!(block_has_comment_paragraph(&b));
    let b = lines(&["    import A", "", "    -- note"]);
    assert!(!block_has_comment_paragraph(&b));
    let b = lines(&["    foo : Int"]);
    assert!(!block_has_comment_paragraph(&b));
}

#[test]
fn paragraphs_join_subtraction_continuations() {
    let ps = split_into_paragraphs(&lines(&["a", "", "-1", "", "b"]));
    assert_eq!(strings(ps), vec![vec!["a".to_string(), "-1".to_string()], vec!["b".to_string()]]);
    let ps = split_into_paragraphs(&lines(&["-1", "", "x"]));
    assert_eq!(strings(ps), vec![vec!["-1".to_string()], vec!["x".to_string()]]);
}

#[test]
fn import_and_comment_paragraphs() {
    assert!(paragraph_is_all_imports(&lines(&["import A", "", "import B"])));
    assert!(!paragraph_is_all_imports(&lines(&["import A", "x"])));
    assert!(!paragraph_is_all_imports(&lines(&[""])));
    assert!(paragraph_starts_with_line_comment(&lines(&["", "-- c", "x"])));
    assert!(!paragraph_starts_with_line_comment(&lines(&["x"])));
}

#[test]
fn assertion_only_paragraphs() {
    assert!(is_assertion_only_paragraph(&lines(&["f 1 == 2", "-- c", "g 2 == 3"])));
    assert!(!is_assertion_only_paragraph(&lines(&["  f 1 == 2", "g 2 == 3"])));
    assert!(!is_assertion_only_paragraph(&lines(&["f 1 == 2"])));
}

#[test]
fn inline_if_expressions() {
    assert!(block_has_single_line_if(&lines(&["    x = if a then b else c"])));
    assert!(!block_has_single_line_if(&lines(&["if a then b else c"])));
    assert!(!line_has_single_line_if_then_else(&chars("x -- if a then b else c")));
    assert!(!line_has_single_line_if_then_else(&chars("\" then \" ++ \" else \"")));
}

#[test]
fn unseparated_assertions() {
    assert!(block_has_unseparated_assertions(&lines(&["    f 1 == 2", "    g 2 == 3"])));
    assert!(!block_has_unseparated_assertions(&lines(&["    f 1 == 2", "", "    g 2 == 3"])));
}

#[test]
fn redundant_parentheses() {
    assert!(is_redundant_paren_expr(&chars("(a + b)")));
    assert!(!is_redundant_paren_expr(&chars("(a, b)")));
    assert!(!is_redundant_paren_expr(&chars("(a) + (b)")));
    assert!(!is_redundant_paren_expr(&chars("(f x)")));
}

#[test]
fn unpadded_hex_literals() {
    assert!(line_has_unpadded_hex(&chars("x = 0xFFF")));
    assert!(!line_has_unpadded_hex(&chars("x = 0xFF")));
    assert!(!line_has_unpadded_hex(&chars("a0x1")));
}

#[test]
fn compact_tuples() {
    assert!(has_compact_tuple(&chars("(1,2)")));
    assert!(!has_compact_tuple(&chars("( 1, 2 )")));
    assert!(!has_compact_tuple(&chars("(1, 2 )")));
}

#[test]
fn scientific_floats_without_dot() {
    assert!(line_has_sci_float_without_dot(&chars("x = 1e-42")));
    assert!(!line_has_sci_float_without_dot(&chars("x = 1.0e5")));
    assert!(!line_has_sci_float_without_dot(&chars("x1e5")));
}

#[test]
fn tight_operators_are_found() {
    assert!(has_tight_binary_op(&chars("2^3")));
    assert!(!has_tight_binary_op(&chars("a // b")));
    assert!(has_tight_binary_op(&chars("a//b")));
    assert!(!has_tight_binary_op(&chars("\"a/b\"")));
}

#[test]
fn unsorted_import_lists() {
    assert!(import_has_unsorted_exposing(&chars("import A exposing (b, a)")));
    assert!(!import_has_unsorted_exposing(&chars("import A exposing (a, B)")));
    assert!(!import_has_unsorted_exposing(&chars("import A exposing (..)")));
    assert!(import_has_unsorted_exposing(&chars("import A exposing (Maybe(..), andThen)")));
    assert!(keys_out_of_order_exec(&lines(&["b", "a"])));
    assert!(!keys_out_of_order_exec(&lines(&["a", "a", "b"])));
}

#[test]
fn one_line_value_declarations() {
    assert!(is_single_line_value_decl(&chars("x = 1")));
    assert!(!is_single_line_value_decl(&chars("x == 1")));
    assert!(!is_single_line_value_decl(&chars("type x = 1")));
    assert!(is_single_line_value_decl(&chars("f x y = x + y")));
}

#[test]
fn blocks_needing_reformat() {
    assert!(code_block_needs_reformat(&lines(&["    x = 1"])));
    assert!(!code_block_needs_reformat(&lines(&["    f 1 == 2", "", "    g 2 == 3"])));
    assert!(code_block_needs_reformat(&lines(&["      x"])));
    assert!(code_block_needs_reformat(&lines(&["    f [1,2] == 3"])));
}
