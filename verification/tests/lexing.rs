//! The lexer cuts text into lexemes: one maximal lexeme per starting
//! position, every character covered.

use fjord::lexer::lex;
use fjord::syntax_kind::SyntaxKind;

fn check(input: &str, expected_kind: SyntaxKind) {
    let lexemes = lex(input);
    assert!(!lexemes.is_empty());
    assert_eq!(lexemes[0].kind, expected_kind);
    assert_eq!(lexemes[0].text, input);
    assert_eq!(lexemes.len(), 1);
}

#[test]
fn lexer_lex_nothing() {
    assert_eq!(lex("").len(), 0);
}

#[test]
fn lexer_lex_all_lowercase_identifier() {
    check("abcdefg", SyntaxKind::Atom);
}

#[test]
fn lexer_lex_all_caps_identifier() {
    check("ABCDEFG", SyntaxKind::Atom);
}

#[test]
fn lexer_lex_identifer_with_digits_at_the_end() {
    check("abc123", SyntaxKind::Atom);
}

#[test]
fn lexer_lex_identifier_with_digits_in_the_middle() {
    check("abc123def", SyntaxKind::Atom);
}

#[test]
fn lexer_lex_one_char_identifier() {
    check("a", SyntaxKind::Atom);
}

#[test]
fn lexer_lex_digits() {
    check("1234567890", SyntaxKind::Digits);
}

#[test]
fn lexer_lex_equals_sign() {
    check("=", SyntaxKind::Equals);
}

#[test]
fn lexer_lex_double_colon() {
    check("::", SyntaxKind::DoubleColon);
}

#[test]
fn lexer_lex_spaces() {
    check("  ", SyntaxKind::Whitespace);
}

#[test]
fn lexer_lex_line_feeds() {
    check("\n\n\n", SyntaxKind::Eol);
}

#[test]
fn syntax_kind_lex_nothing() {
    assert_eq!(lex("").len(), 0);
}

#[test]
fn syntax_kind_lex_all_lowercase_identifier() {
    check("abcdefg", SyntaxKind::Atom);
}

#[test]
fn syntax_kind_lex_all_caps_identifier() {
    check("ABCDEFG", SyntaxKind::Atom);
}

#[test]
fn syntax_kind_lex_identifer_with_digits_at_the_end() {
    check("abc123", SyntaxKind::Atom);
}

#[test]
fn syntax_kind_lex_identifier_with_digits_in_the_middle() {
    check("abc123def", SyntaxKind::Atom);
}

#[test]
fn syntax_kind_lex_one_char_identifier() {
    check("a", SyntaxKind::Atom);
}

#[test]
fn syntax_kind_lex_digits() {
    check("1234567890", SyntaxKind::Digits);
}

#[test]
fn syntax_kind_lex_equals_sign() {
    check("=", SyntaxKind::Equals);
}

#[test]
fn syntax_kind_lex_double_colon() {
    check("::", SyntaxKind::DoubleColon);
}

#[test]
fn syntax_kind_lex_spaces() {
    check("  ", SyntaxKind::Whitespace);
}

#[test]
fn syntax_kind_lex_line_feeds() {
    check("\n\n\n", SyntaxKind::Eol);
}

#[test]
fn lex_keywords_and_operators() {
    check("let", SyntaxKind::Let);
    check("if", SyntaxKind::IfKw);
    check("then", SyntaxKind::ThenKw);
    check("else", SyntaxKind::ElseKw);
    check("true", SyntaxKind::TrueKw);
    check("false", SyntaxKind::FalseKw);
    check("|", SyntaxKind::Pipe);
    check("$", SyntaxKind::Dollar);
    check("+", SyntaxKind::Plus);
    check("-", SyntaxKind::Minus);
    check("*", SyntaxKind::Star);
    check("/", SyntaxKind::Slash);
    check("{", SyntaxKind::LBrace);
    check("}", SyntaxKind::RBrace);
    check("\"quoted text\"", SyntaxKind::StringLiteral);
    check("foo-bar", SyntaxKind::Atom);
}

#[test]
fn lex_covers_every_character() {
    let input = "let a = 3 + % \"open";
    let lexemes = lex(input);
    let joined: String = lexemes.iter().map(|l| l.text.as_str()).collect::<Vec<_>>().join("");
    assert_eq!(joined, input);
    // the unrecognized character comes through as an error lexeme
    assert!(lexemes.iter().any(|l| l.kind == SyntaxKind::Error && l.text == "%"));
    // the unterminated string literal is an error lexeme to the end
    assert!(lexemes.iter().any(|l| l.kind == SyntaxKind::Error && l.text == "\"open"));
}
