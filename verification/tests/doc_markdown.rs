use elm_ast::print::doc::cleanup::normalize_empty_link_refs;
use elm_ast::print::doc::assertion_blocks::{block_has_non_assertion_content, transform_assertion_paragraphs};
use elm_ast::print::doc::assertions::{looks_like_assertion, looks_like_simple_expr_line};
use elm_ast::print::doc::char_literals::{normalize_char_literals_in_code_line, normalize_doc_char_literals};
use elm_ast::print::doc::code_examples::{
    block_is_all_comments, doc_comment_has_mixed_block, insert_loose_paragraph_breaks, normalize_code_block_indent,
};
use elm_ast::print::doc::emphasis::normalize_emphasis;
use elm_ast::print::doc::fences::{fence_is_in_list_context, normalize_fenced_code_blocks};
use elm_ast::print::doc::lists::{escape_bullet_leading_underscore, normalize_markdown_lists, starts_list_after_prose};
use elm_ast::print::doc::spacing::{
    collapse_spaces_outside_strings, space_tight_binary_ops, space_tight_tuples_lists, split_at_chain_operators,
};

fn chars(s: &str) -> Vec<char> {
    s.chars().collect()
}

fn text(v: Vec<char>) -> String {
    v.into_iter().collect()
}

fn lines(ls: &[&str]) -> Vec<Vec<char>> {
    ls.iter().map(|l| chars(l)).collect()
}

#[test]
fn emphasis_with_stars_becomes_underscores() {
    assert_eq!(normalize_emphasis("Use *this* and a * star"), "Use _this_ and a \\* star");
}

#[test]
fn star_bullets_become_dashes() {
    assert_eq!(normalize_emphasis("* item\n* other"), "- item\n- other");
}

#[test]
fn bold_and_code_spans_are_kept() {
    assert_eq!(normalize_emphasis("**bold** text"), "**bold** text");
    assert_eq!(normalize_emphasis("a `x*y` b"), "a `x*y` b");
}

#[test]
fn unmatched_backtick_is_escaped() {
    assert_eq!(normalize_emphasis("a ` b"), "a \\` b");
}

#[test]
fn emphasis_leaves_code_blocks_and_docs_lines() {
    assert_eq!(normalize_emphasis("Text\n\n    x * y"), "Text\n\n    x * y");
    assert_eq!(normalize_emphasis("@docs (*), map"), "@docs (*), map");
}

#[test]
fn escaped_star_is_not_escaped_twice() {
    assert_eq!(normalize_emphasis("a \\* b"), "a \\* b");
}

#[test]
fn emphasis_without_stars_or_backticks_is_unchanged() {
    let t = "Plain _text_ with [a link](x) and\n\n    code = 1";
    assert_eq!(normalize_emphasis(t), t);
}

#[test]
fn char_literal_quote_escape_is_dropped_in_code() {
    assert_eq!(normalize_char_literals_in_code_line("    x = '\\\"'"), "    x = '\"'");
    assert_eq!(normalize_doc_char_literals("Text '\\\"'\n    x = '\\\"'"), "Text '\\\"'\n    x = '\"'");
}

#[test]
fn unicode_escapes_of_printable_characters_are_written_out() {
    assert_eq!(normalize_char_literals_in_code_line("    s = \"\\u{0041}\""), "    s = \"A\"");
    assert_eq!(normalize_char_literals_in_code_line("    c = '\\u{00E9}'"), "    c = '\u{e9}'");
    assert_eq!(normalize_char_literals_in_code_line("    c = '\\u{0000}'"), "    c = '\\u{0000}'");
    assert_eq!(normalize_char_literals_in_code_line("    s = \"\\u{0022}\""), "    s = \"\\u{0022}\"");
}

#[test]
fn unterminated_string_is_copied() {
    assert_eq!(normalize_char_literals_in_code_line("    s = \"\\u{41}"), "    s = \"\\u{41}");
}

#[test]
fn list_after_paragraph_gets_blank_line_and_indent() {
    assert_eq!(normalize_markdown_lists("Intro\n- a\n- b"), "Intro\n\n  - a\n  - b");
}

#[test]
fn ordered_list_gets_two_spaces_and_aligned_continuation() {
    assert_eq!(normalize_markdown_lists("1. one\n   more"), "1.  one\n    more");
}

#[test]
fn bullet_underscores_are_escaped_unless_balanced() {
    assert_eq!(normalize_markdown_lists("- _blank target"), "  - \\_blank target");
    assert_eq!(normalize_markdown_lists("- _a_ b"), "  - _a_ b");
    assert_eq!(text(escape_bullet_leading_underscore(&chars("- foo_bar"), 2)), "- foo_bar");
    assert_eq!(text(escape_bullet_leading_underscore(&chars("-"), 2)), "-");
}

#[test]
fn list_after_heading_needs_no_blank_line() {
    let ls = lines(&["# Title", "- a"]);
    assert!(!starts_list_after_prose(&ls, 1, None));
    let ls = lines(&["Prose", "- a"]);
    assert!(starts_list_after_prose(&ls, 1, None));
    assert!(!starts_list_after_prose(&ls, 1, Some(4)));
}

#[test]
fn fenced_block_becomes_indented() {
    assert_eq!(
        normalize_fenced_code_blocks("Text\n\n```\nfoo\n\nbar\n```\nEnd"),
        "Text\n\n    foo\n\n    bar\nEnd"
    );
    assert_eq!(normalize_fenced_code_blocks("```elm\nx = 1\n```"), "    x = 1");
}

#[test]
fn fences_of_other_languages_and_in_lists_are_kept() {
    assert_eq!(normalize_fenced_code_blocks("```js\nx\n```"), "```js\nx\n```");
    assert_eq!(normalize_fenced_code_blocks("- item\n  ```\n  x\n  ```"), "- item\n  ```\n  x\n  ```");
    assert!(fence_is_in_list_context(&lines(&["- item", "  more", "```"]), 2));
    assert!(!fence_is_in_list_context(&lines(&["Prose", "```"]), 1));
}

#[test]
fn unclosed_fence_is_kept() {
    assert_eq!(normalize_fenced_code_blocks("```\nx"), "```\nx");
}

#[test]
fn assertions_become_separate_paragraphs() {
    assert_eq!(
        normalize_code_block_indent("Example:\n\n    f 1 == 2\n    g  2 == 3"),
        "Example:\n\n    f 1 == 2\n\n    g 2 == 3"
    );
}

#[test]
fn continued_assertion_chain_is_cut_at_its_operators() {
    assert_eq!(normalize_code_block_indent("x\n\n    a\n    ...\n    b"), "x\n\n    a\n        ... b");
}

#[test]
fn comment_only_block_is_followed_by_three_newlines() {
    assert_eq!(normalize_code_block_indent("a\n\n    -- note\nb"), "a\n\n    -- note\n\n\n\nb");
    assert!(block_is_all_comments(&lines(&["    -- a", "", "    -- b"])));
    assert!(!block_is_all_comments(&lines(&["", ""])));
}

#[test]
fn example_output_blocks_are_kept() {
    assert_eq!(normalize_code_block_indent("x\n\n    f  1\n    --> 2"), "x\n\n    f  1\n    --> 2");
    assert!(doc_comment_has_mixed_block(&lines(&["x", "", "    f 1", "    --> 2"])));
    assert!(!doc_comment_has_mixed_block(&lines(&["x", "", "    f 1 == 2"])));
}

#[test]
fn imports_then_comments_get_a_loose_break() {
    assert_eq!(text(insert_loose_paragraph_breaks(&chars("import A\n\n-- c"))), "import A\n\n\n-- c");
    assert_eq!(text(insert_loose_paragraph_breaks(&chars("-- c\n\nimport A"))), "-- c\n\nimport A");
}

#[test]
fn non_assertion_content_is_detected() {
    assert!(block_has_non_assertion_content(&lines(&["    import Dict"])));
    assert!(!block_has_non_assertion_content(&lines(&["    f 1 == 2", "    -- ok", "    g 2 == 3"])));
    assert!(block_has_non_assertion_content(&lines(&["    f 1 == 2", "", "    -- later", ""])));
}

#[test]
fn transform_keeps_mixed_blocks() {
    let block = lines(&["    type A = A", "    f 1 == 2"]);
    assert_eq!(text(transform_assertion_paragraphs(&block)), "    type A = A\n    f 1 == 2");
}

#[test]
fn assertion_shapes() {
    assert!(looks_like_assertion(&chars("f x == 3")));
    assert!(!looks_like_assertion(&chars("-- c")));
    assert!(!looks_like_assertion(&chars("x ==")));
    assert!(looks_like_assertion(&chars("foo -- comment")));
    assert!(!looks_like_assertion(&chars("if x then")));
    assert!(!looks_like_assertion(&chars("a + -- b")));
    assert!(looks_like_simple_expr_line(&chars("-1")));
    assert!(!looks_like_simple_expr_line(&chars("-x")));
    assert!(!looks_like_simple_expr_line(&chars("f (x")));
}

#[test]
fn tight_operators_get_spaces() {
    assert_eq!(text(space_tight_binary_ops(&chars("1/2"))), "1 / 2");
    assert_eq!(text(space_tight_binary_ops(&chars("x//y"))), "x // y");
    assert_eq!(text(space_tight_binary_ops(&chars("2^n"))), "2 ^ n");
    assert_eq!(text(space_tight_binary_ops(&chars("\"a/b\""))), "\"a/b\"");
    assert_eq!(text(space_tight_binary_ops(&chars("x -- a/b"))), "x -- a/b");
}

#[test]
fn compact_tuples_and_lists_are_spaced() {
    assert_eq!(text(space_tight_tuples_lists(&chars("[1,2]"))), "[ 1, 2 ]");
    assert_eq!(text(space_tight_tuples_lists(&chars("(0,\"a\")"))), "( 0, \"a\" )");
    assert_eq!(text(space_tight_tuples_lists(&chars("( x )"))), "(x)");
    assert_eq!(text(space_tight_tuples_lists(&chars("f (x)"))), "f (x)");
}

#[test]
fn runs_of_spaces_collapse() {
    assert_eq!(text(collapse_spaces_outside_strings(&chars("f  (x  )"))), "f (x)");
    assert_eq!(text(collapse_spaces_outside_strings(&chars("[ 1,  2 ]"))), "[ 1, 2 ]");
    assert_eq!(text(collapse_spaces_outside_strings(&chars("\"a  b\"  c"))), "\"a  b\" c");
}

#[test]
fn chains_split_at_operators() {
    let segs: Vec<String> = split_at_chain_operators(&chars("a == b == c")).into_iter().map(text).collect();
    assert_eq!(segs, vec!["a", "== b", "== c"]);
    let segs: Vec<String> = split_at_chain_operators(&chars("\"x == y\"")).into_iter().map(text).collect();
    assert_eq!(segs, vec!["\"x == y\""]);
}

#[test]
fn empty_link_references_lose_their_brackets() {
    assert_eq!(normalize_empty_link_refs("[a][] and [b][c]"), "[a] and [b][c]");
    assert_eq!(normalize_empty_link_refs("[x](y) []"), "[x](y) []");
}

#[test]
fn expressions_without_slash_or_caret_keep_their_spacing() {
    assert_eq!(text(space_tight_binary_ops(&chars("a+b -- c"))), "a+b -- c");
}
