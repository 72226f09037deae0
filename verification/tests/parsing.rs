//! The parser builds one lossless tree per input, with local recovery.

use fjord::parser::expr::parse_expr;
use fjord::parser::Parser;
use fjord::syntax_kind::SyntaxKind;
use fjord::tree::{debug_tree_of, SyntaxElement};

fn parse_whole(input: &str) -> String {
    Parser::new(input).parse().debug_tree()
}

fn parse_expr_fragment(input: &str) -> String {
    let mut p = Parser::new(input);
    p.start_node(SyntaxKind::Root);
    parse_expr(&mut p);
    let root = p.finish_and_get_syntax();
    debug_tree_of(&root)
}

#[test]
fn parse_nothing() {
    assert_eq!(parse_whole(""), "Root@0..0");
}

#[test]
fn parse_multiple_items() {
    assert_eq!(
        parse_whole("\nlet a = \"dir\"\nlet b = $a\nls $b"),
        r#"
Root@0..31
  Eol@0..1 "\n"
  BindingDef@1..14
    Let@1..4 "let"
    Whitespace@4..5 " "
    Atom@5..6 "a"
    Whitespace@6..7 " "
    Equals@7..8 "="
    Whitespace@8..9 " "
    StringLiteral@9..14 "\"dir\""
  Eol@14..15 "\n"
  BindingDef@15..25
    Let@15..18 "let"
    Whitespace@18..19 " "
    Atom@19..20 "b"
    Whitespace@20..21 " "
    Equals@21..22 "="
    Whitespace@22..23 " "
    BindingUsage@23..25
      Dollar@23..24 "$"
      Atom@24..25 "a"
  Eol@25..26 "\n"
  FunctionCall@26..31
    Atom@26..28 "ls"
    Whitespace@28..29 " "
    FunctionCallParams@29..31
      BindingUsage@29..31
        Dollar@29..30 "$"
        Atom@30..31 "b""#
            .trim()
    );
}

#[test]
fn parse_number_literal() {
    assert_eq!(
        parse_expr_fragment("10"),
        r#"
Root@0..2
  Digits@0..2 "10""#
            .trim()
    );
}

#[test]
fn parse_string_literal() {
    assert_eq!(
        parse_expr_fragment("\"Hello, world!\""),
        r#"
Root@0..15
  StringLiteral@0..15 "\"Hello, world!\"""#
            .trim()
    );
}

#[test]
fn parse_function_call() {
    assert_eq!(
        parse_expr_fragment("func a 1"),
        r#"
Root@0..8
  FunctionCall@0..8
    Atom@0..4 "func"
    Whitespace@4..5 " "
    FunctionCallParams@5..8
      Atom@5..6 "a"
      Whitespace@6..7 " "
      Digits@7..8 "1""#
            .trim()
    );
}

#[test]
fn stop_parsing_function_call_at_end_of_line() {
    assert_eq!(
        parse_expr_fragment("ls $dir\n"),
        r#"
Root@0..7
  FunctionCall@0..7
    Atom@0..2 "ls"
    Whitespace@2..3 " "
    FunctionCallParams@3..7
      BindingUsage@3..7
        Dollar@3..4 "$"
        Atom@4..7 "dir""#
            .trim()
    );
}

#[test]
fn parse_binding_usage() {
    assert_eq!(
        parse_expr_fragment("$var"),
        r#"
Root@0..4
  BindingUsage@0..4
    Dollar@0..1 "$"
    Atom@1..4 "var""#
            .trim()
    );
}

#[test]
fn recover_from_junk_binding_usage() {
    assert_eq!(
        parse_expr_fragment("$let"),
        r#"
Root@0..4
  BindingUsage@0..4
    Dollar@0..1 "$"
    Error@1..4 "let""#
            .trim()
    );
}

#[test]
fn parse_lambda() {
    assert_eq!(
        parse_expr_fragment("|a b| a $b 5"),
        r#"
Root@0..12
  Lambda@0..12
    LambdaParams@0..5
      Pipe@0..1 "|"
      Atom@1..2 "a"
      Whitespace@2..3 " "
      Atom@3..4 "b"
      Pipe@4..5 "|"
    Whitespace@5..6 " "
    FunctionCall@6..12
      Atom@6..7 "a"
      Whitespace@7..8 " "
      FunctionCallParams@8..12
        BindingUsage@8..10
          Dollar@8..9 "$"
          Atom@9..10 "b"
        Whitespace@10..11 " "
        Digits@11..12 "5""#
            .trim()
    );
}

#[test]
fn parse_simple_bin_op() {
    assert_eq!(
        parse_expr_fragment("1 + 5"),
        r#"
Root@0..5
  BinOp@0..5
    Digits@0..1 "1"
    Whitespace@1..2 " "
    Plus@2..3 "+"
    Whitespace@3..4 " "
    Digits@4..5 "5""#
            .trim()
    );
}

#[test]
fn parse_bin_op_showing_precedence() {
    assert_eq!(
        parse_expr_fragment("2 + 3 * 4"),
        r#"
Root@0..9
  BinOp@0..9
    Digits@0..1 "2"
    Whitespace@1..2 " "
    Plus@2..3 "+"
    Whitespace@3..4 " "
    BinOp@4..9
      Digits@4..5 "3"
      Whitespace@5..6 " "
      Star@6..7 "*"
      Whitespace@7..8 " "
      Digits@8..9 "4""#
            .trim()
    );
}

#[test]
fn parse_bin_op_showing_associativity() {
    assert_eq!(
        parse_expr_fragment("10 - 5 - 3 - 2"),
        r#"
Root@0..14
  BinOp@0..14
    BinOp@0..11
      BinOp@0..7
        Digits@0..2 "10"
        Whitespace@2..3 " "
        Minus@3..4 "-"
        Whitespace@4..5 " "
        Digits@5..6 "5"
        Whitespace@6..7 " "
      Minus@7..8 "-"
      Whitespace@8..9 " "
      Digits@9..10 "3"
      Whitespace@10..11 " "
    Minus@11..12 "-"
    Whitespace@12..13 " "
    Digits@13..14 "2""#
            .trim()
    );
}

#[test]
fn recover_from_junk_binding_name() {
    let out = Parser::new("let 5 = 10").parse();
    assert_eq!(out.errors.len(), 1);
    let tree = debug_tree_of(&out.root);
    assert!(tree.contains("BindingDef@0..10"));
    assert!(tree.contains("Error@4..5 \"5\""));
    assert!(tree.contains("Equals@6..7 \"=\""));
    assert!(tree.contains("Digits@8..10 \"10\""));
}

#[test]
fn recovery_never_drops_text() {
    let out = Parser::new("let x _ 10\nls $a").parse();
    assert!(!out.errors.is_empty());
    let tree = debug_tree_of(&out.root);
    assert!(tree.starts_with("Root@0..16"));
    assert!(tree.contains("Error@6..7 \"_\""));
    assert!(tree.contains("Atom@11..13 \"ls\""));
}

#[test]
fn parse_block_and_if() {
    let out = Parser::new("if true then { 1 } else { 0 }").parse();
    assert_eq!(out.errors.len(), 0);
    let tree = out.debug_tree();
    assert!(tree.starts_with("Root@0..29"));
    assert!(tree.contains("If@0..29"));
    assert!(tree.contains("IfKw@0..2 \"if\""));
    assert!(tree.contains("TrueKw@3..7 \"true\""));
    assert!(tree.contains("Block@13..18"));
    assert!(tree.contains("Digits@15..16 \"1\""));
}

#[test]
fn root_covers_all_children() {
    let out = Parser::new("let a = 1 + 2\n$a").parse();
    assert_eq!(out.errors.len(), 0);
    match &out.root {
        SyntaxElement::Node(n) => {
            assert_eq!(n.range.start, 0);
            assert_eq!(n.range.end, 16);
            let first = n.children.first().unwrap().range();
            let last = n.children.last().unwrap().range();
            assert_eq!(first.start, n.range.start);
            assert_eq!(last.end, n.range.end);
            for pair in n.children.windows(2) {
                assert_eq!(pair[0].range().end, pair[1].range().start);
            }
        }
        _ => panic!("the root is a node"),
    }
}

#[test]
fn recover_from_junk_right_hand_side() {
    let out = Parser::new("let a = =").parse();
    assert_eq!(out.errors.len(), 1);
    let tree = debug_tree_of(&out.root);
    assert!(tree.contains("BindingDef@0..9"));
    assert!(tree.contains("Atom@4..5 \"a\""));
    assert!(tree.contains("Equals@6..7 \"=\""));
    assert!(tree.contains("Error@8..9 \"=\""));
}

#[test]
fn tree_is_lossless_even_under_recovery() {
    let source = "let 5 = 10\n% jun\"k";
    let out = Parser::new(source).parse();
    assert!(!out.errors.is_empty());
    assert_eq!(out.root.text(), source);
}

#[test]
fn tree_is_lossless_on_clean_input() {
    let source = "\nlet a = \"dir\"\nls $a\n2 + 3 * 4";
    let out = Parser::new(source).parse();
    assert_eq!(out.errors.len(), 0);
    assert_eq!(out.root.text(), source);
}
