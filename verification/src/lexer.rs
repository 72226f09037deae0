//! The lexer: turns source text into an ordered sequence of lexemes.
//!
//! The lexer is total and lossless: every character of the input is
//! covered by exactly one lexeme, characters no terminal covers become
//! `Error` lexemes, and concatenating all lexeme texts in order
//! reproduces the input exactly.

use vstd::prelude::*;

use crate::syntax_kind::SyntaxKind;
use crate::text_range::TextRange;
use crate::tree::SyntaxToken;

verus! {

/// The mathematical shape of one lexeme: its kind, its characters, and
/// the offset it starts at.
pub struct LexemeV {
    /// what the lexeme is
    pub kind: SyntaxKind,
    /// the lexeme's characters
    pub text: Seq<char>,
    /// the offset of the lexeme's first character
    pub start: int,
}

/// An upper-case or lower-case ASCII letter.
pub open spec fn is_letter(c: char) -> bool {
    (65 <= c as u32 && c as u32 <= 90) || (97 <= c as u32 && c as u32 <= 122)
}

/// An ASCII decimal digit.
pub open spec fn is_digit(c: char) -> bool {
    48 <= c as u32 && c as u32 <= 57
}

/// A character that may continue a bare word: a letter, a digit or a
/// hyphen.
pub open spec fn is_atom_char(c: char) -> bool {
    is_letter(c) || is_digit(c) || c == '-'
}

/// The character classes whose lexemes are maximal runs.
#[derive(Debug, Clone, Copy, PartialEq, Eq, Structural)]
pub enum CharClass {
    /// characters of a bare word
    Atom,
    /// decimal digits
    Digit,
    /// spaces
    Space,
    /// line feeds
    Eol,
}

/// Membership of a character in a run class.
pub open spec fn in_class(cl: CharClass, c: char) -> bool {
    match cl {
        CharClass::Atom => is_atom_char(c),
        CharClass::Digit => is_digit(c),
        CharClass::Space => c == ' ',
        CharClass::Eol => c == '\n',
    }
}

/// The first index at or after `j` whose character is not in `cl`, or
/// the end of the text.
pub open spec fn run_end(cl: CharClass, s: Seq<char>, j: int) -> int
    decreases s.len() - j,
{
    if j < 0 || j >= s.len() || !in_class(cl, s[j]) {
        j
    } else {
        run_end(cl, s, j + 1)
    }
}

/// The index of the first `"` at or after `j`, or `-1` if there is none.
pub open spec fn quote_scan(s: Seq<char>, j: int) -> int
    decreases s.len() - j,
{
    if j < 0 || j >= s.len() {
        -1
    } else if s[j] == '"' {
        j
    } else {
        quote_scan(s, j + 1)
    }
}

/// The kind a run of word characters has: a keyword where the text is
/// one, a bare atom otherwise.
pub open spec fn word_kind(t: Seq<char>) -> SyntaxKind {
    if t == "let"@ {
        SyntaxKind::Let
    } else if t == "if"@ {
        SyntaxKind::IfKw
    } else if t == "then"@ {
        SyntaxKind::ThenKw
    } else if t == "else"@ {
        SyntaxKind::ElseKw
    } else if t == "true"@ {
        SyntaxKind::TrueKw
    } else if t == "false"@ {
        SyntaxKind::FalseKw
    } else {
        SyntaxKind::Atom
    }
}

/// How many characters the lexeme starting at `i` covers. At least 1
/// whenever `0 <= i < s.len()`.
pub open spec fn token_len(s: Seq<char>, i: int) -> int {
    let c = s[i];
    if is_letter(c) {
        run_end(CharClass::Atom, s, i) - i
    } else if is_digit(c) {
        run_end(CharClass::Digit, s, i) - i
    } else if c == ' ' {
        run_end(CharClass::Space, s, i) - i
    } else if c == '\n' {
        run_end(CharClass::Eol, s, i) - i
    } else if c == '"' {
        let j = quote_scan(s, i + 1);
        if j >= 0 {
            j - i + 1
        } else {
            s.len() - i
        }
    } else if c == ':' {
        if i + 1 < s.len() && s[i + 1] == ':' {
            2
        } else {
            1
        }
    } else {
        1
    }
}

/// The kind of the lexeme starting at `i`.
pub open spec fn token_kind(s: Seq<char>, i: int) -> SyntaxKind {
    let c = s[i];
    if is_letter(c) {
        word_kind(s.subrange(i, run_end(CharClass::Atom, s, i)))
    } else if is_digit(c) {
        SyntaxKind::Digits
    } else if c == ' ' {
        SyntaxKind::Whitespace
    } else if c == '\n' {
        SyntaxKind::Eol
    } else if c == '"' {
        if quote_scan(s, i + 1) >= 0 {
            SyntaxKind::StringLiteral
        } else {
            SyntaxKind::Error
        }
    } else if c == ':' {
        if i + 1 < s.len() && s[i + 1] == ':' {
            SyntaxKind::DoubleColon
        } else {
            SyntaxKind::Error
        }
    } else if c == '=' {
        SyntaxKind::Equals
    } else if c == '|' {
        SyntaxKind::Pipe
    } else if c == '$' {
        SyntaxKind::Dollar
    } else if c == '+' {
        SyntaxKind::Plus
    } else if c == '-' {
        SyntaxKind::Minus
    } else if c == '*' {
        SyntaxKind::Star
    } else if c == '/' {
        SyntaxKind::Slash
    } else if c == '{' {
        SyntaxKind::LBrace
    } else if c == '}' {
        SyntaxKind::RBrace
    } else {
        SyntaxKind::Error
    }
}

/// The lexemes of `s` from offset `i` on: at every position, one lexeme
/// of `token_len` characters with `token_kind`, until the text ends.
pub open spec fn lex_spec(s: Seq<char>, i: int) -> Seq<LexemeV>
    decreases s.len() - i,
{
    if i < 0 || i >= s.len() {
        Seq::empty()
    } else {
        let l = token_len(s, i);
        if 1 <= l && i + l <= s.len() {
            seq![
                LexemeV { kind: token_kind(s, i), text: s.subrange(i, i + l), start: i },
            ] + lex_spec(s, i + l)
        } else {
            Seq::empty()
        }
    }
}

/// The concatenated text of the lexemes `ls[i..j]`.
pub open spec fn lex_texts(ls: Seq<SyntaxToken>, i: int, j: int) -> Seq<char>
    decreases j - i,
{
    if i < 0 || i >= j || j > ls.len() {
        Seq::empty()
    } else {
        ls[i].text@ + lex_texts(ls, i + 1, j)
    }
}

/// Appending one more lexeme to a prefix appends its text.
pub proof fn lemma_lex_texts_snoc(ls: Seq<SyntaxToken>, i: int, j: int)
    requires
        0 <= i <= j < ls.len(),
    ensures
        lex_texts(ls, i, j + 1) == lex_texts(ls, i, j) + ls[j].text@,
    decreases j - i,
{
    if i == j {
        assert(lex_texts(ls, i, j) =~= Seq::<char>::empty());
        assert(lex_texts(ls, j + 1, j + 1) =~= Seq::<char>::empty());
        assert(lex_texts(ls, i, j + 1) =~= lex_texts(ls, i, j) + ls[j].text@);
    } else {
        lemma_lex_texts_snoc(ls, i + 1, j);
        assert(lex_texts(ls, i, j + 1) =~= lex_texts(ls, i, j) + ls[j].text@);
    }
}

/// A prefix's text does not depend on lexemes after it.
pub proof fn lemma_lex_texts_push(ls: Seq<SyntaxToken>, t: SyntaxToken, i: int, j: int)
    requires
        0 <= i,
        j <= ls.len(),
    ensures
        lex_texts(ls.push(t), i, j) == lex_texts(ls, i, j),
    decreases j - i,
{
    if 0 <= i && i < j && j <= ls.len() {
        lemma_lex_texts_push(ls, t, i + 1, j);
    }
}

/// Every lexeme sits exactly where the texts before it end, and its
/// range length is its text length.
pub open spec fn lexemes_laid(ls: Seq<SyntaxToken>) -> bool {
    forall|j: int|
        0 <= j < ls.len() ==> {
            &&& (#[trigger] ls[j]).range.start == lex_texts(ls, 0, j).len()
            &&& ls[j].range.end == ls[j].range.start + ls[j].text@.len()
        }
}

/// An executable lexeme agrees with its mathematical shape.
pub open spec fn lexeme_matches(t: SyntaxToken, v: LexemeV) -> bool {
    &&& t.kind == v.kind
    &&& t.text@ == v.text
    &&& t.range.start == v.start
    &&& t.range.end == v.start + v.text.len()
}

/// A whole lexeme sequence agrees with its mathematical shape.
pub open spec fn lexemes_match(ts: Seq<SyntaxToken>, vs: Seq<LexemeV>) -> bool {
    &&& ts.len() == vs.len()
    &&& forall|j: int| 0 <= j < ts.len() ==> lexeme_matches(#[trigger] ts[j], vs[j])
}

/// The concatenation of the texts of `vs`, in order.
pub open spec fn lexemes_text(vs: Seq<LexemeV>) -> Seq<char>
    decreases vs.len(),
{
    if vs.len() == 0 {
        Seq::empty()
    } else {
        vs[0].text + lexemes_text(vs.drop_first())
    }
}

/// The lexer is lossless: the lexeme texts concatenate back to the text
/// they were cut from.
pub proof fn lemma_lex_lossless(s: Seq<char>, i: int)
    requires
        0 <= i <= s.len(),
    ensures
        lexemes_text(lex_spec(s, i)) == s.subrange(i, s.len() as int),
    decreases s.len() - i,
{
    if i >= s.len() {
        assert(lexemes_text(lex_spec(s, i)) =~= s.subrange(i, s.len() as int));
    } else {
        let l = token_len(s, i);
        lemma_token_len_bounds(s, i);
        let vs = lex_spec(s, i);
        assert(vs.drop_first() =~= lex_spec(s, i + l));
        lemma_lex_lossless(s, i + l);
        assert(lexemes_text(lex_spec(s, i)) =~= s.subrange(i, s.len() as int));
    }
}

/// A lexeme covers at least one and at most all remaining characters.
pub proof fn lemma_token_len_bounds(s: Seq<char>, i: int)
    requires
        0 <= i < s.len(),
    ensures
        1 <= token_len(s, i) <= s.len() - i,
{
    lemma_run_end_bounds(CharClass::Atom, s, i);
    lemma_run_end_bounds(CharClass::Digit, s, i);
    lemma_run_end_bounds(CharClass::Space, s, i);
    lemma_run_end_bounds(CharClass::Eol, s, i);
    if s[i] == '"' {
        lemma_quote_scan_bounds(s, i + 1);
    }
}

/// A run neither moves backwards nor runs past the end; it advances over
/// its own class.
pub proof fn lemma_run_end_bounds(cl: CharClass, s: Seq<char>, j: int)
    requires
        0 <= j <= s.len(),
    ensures
        j <= run_end(cl, s, j) <= s.len(),
        j < s.len() && in_class(cl, s[j]) ==> run_end(cl, s, j) > j,
    decreases s.len() - j,
{
    if j < s.len() && in_class(cl, s[j]) {
        lemma_run_end_bounds(cl, s, j + 1);
    }
}

/// Where the quote scan finds a quote, it lies within the text at or
/// after the scan's start.
pub proof fn lemma_quote_scan_bounds(s: Seq<char>, j: int)
    requires
        0 <= j <= s.len(),
    ensures
        quote_scan(s, j) == -1 || (j <= quote_scan(s, j) < s.len()),
    decreases s.len() - j,
{
    if j < s.len() && s[j] != '"' {
        lemma_quote_scan_bounds(s, j + 1);
    }
}

/// True when the character may continue a bare word.
fn atom_char(c: char) -> (b: bool)
    ensures
        b == is_atom_char(c),
{
    let u = c as u32;
    (65 <= u && u <= 90) || (97 <= u && u <= 122) || (48 <= u && u <= 57) || c == '-'
}

/// True when the character is in the class.
fn class_char(cl: CharClass, c: char) -> (b: bool)
    ensures
        b == in_class(cl, c),
{
    match cl {
        CharClass::Atom => atom_char(c),
        CharClass::Digit => {
            let u = c as u32;
            48 <= u && u <= 57
        },
        CharClass::Space => c == ' ',
        CharClass::Eol => c == '\n',
    }
}

/// Scans forward from `j0` over characters of the class.
fn scan_run(cl: CharClass, s: &str, j0: usize, n: usize) -> (j: usize)
    requires
        n == s@.len(),
        j0 <= n,
    ensures
        j == run_end(cl, s@, j0 as int),
        j0 <= j <= n,
{
    let mut j = j0;
    while j < n && class_char(cl, s.get_char(j))
        invariant
            n == s@.len(),
            j0 <= j <= n,
            run_end(cl, s@, j0 as int) == run_end(cl, s@, j as int),
        decreases n - j,
    {
        j = j + 1;
    }
    j
}

/// Scans forward from `j0` for a closing quote; `n` means none.
fn scan_quote(s: &str, j0: usize, n: usize) -> (j: usize)
    requires
        n == s@.len(),
        j0 <= n,
    ensures
        j <= n,
        j < n ==> j == quote_scan(s@, j0 as int),
        j == n ==> quote_scan(s@, j0 as int) == -1,
{
    let mut j = j0;
    while j < n && s.get_char(j) != '"'
        invariant
            n == s@.len(),
            j0 <= j <= n,
            quote_scan(s@, j0 as int) == quote_scan(s@, j as int),
        decreases n - j,
    {
        j = j + 1;
    }
    j
}

/// True when the two string slices hold the same characters.
pub fn str_eq(a: &str, b: &str) -> (r: bool)
    ensures
        r == (a@ == b@),
{
    let na = a.unicode_len();
    let nb = b.unicode_len();
    if na != nb {
        return false;
    }
    let mut i: usize = 0;
    while i < na
        invariant
            na == a@.len(),
            nb == b@.len(),
            na == nb,
            i <= na,
            forall|k: int| 0 <= k < i ==> a@[k] == b@[k],
        decreases na - i,
    {
        if a.get_char(i) != b.get_char(i) {
            return false;
        }
        i = i + 1;
    }
    proof {
        assert(a@ =~= b@);
    }
    true
}

/// The kind a completed word has: a keyword or a bare atom.
fn word_kind_of(t: &str) -> (k: SyntaxKind)
    ensures
        k == word_kind(t@),
{
    if str_eq(t, "let") {
        SyntaxKind::Let
    } else if str_eq(t, "if") {
        SyntaxKind::IfKw
    } else if str_eq(t, "then") {
        SyntaxKind::ThenKw
    } else if str_eq(t, "else") {
        SyntaxKind::ElseKw
    } else if str_eq(t, "true") {
        SyntaxKind::TrueKw
    } else if str_eq(t, "false") {
        SyntaxKind::FalseKw
    } else {
        SyntaxKind::Atom
    }
}

/// Determines the kind and the end offset of the lexeme starting at `i`.
fn scan_token(s: &str, i: usize, n: usize) -> (r: (SyntaxKind, usize))
    requires
        n == s@.len(),
        i < n,
    ensures
        r.0 == token_kind(s@, i as int),
        r.1 as int == i + token_len(s@, i as int),
        i < r.1 <= n,
{
    proof {
        lemma_token_len_bounds(s@, i as int);
    }
    let c = s.get_char(i);
    let u = c as u32;
    if (65 <= u && u <= 90) || (97 <= u && u <= 122) {
        let j = scan_run(CharClass::Atom, s, i, n);
        proof {
            lemma_run_end_bounds(CharClass::Atom, s@, i as int);
        }
        let t = s.substring_char(i, j);
        (word_kind_of(t), j)
    } else if 48 <= u && u <= 57 {
        (SyntaxKind::Digits, scan_run(CharClass::Digit, s, i, n))
    } else if c == ' ' {
        (SyntaxKind::Whitespace, scan_run(CharClass::Space, s, i, n))
    } else if c == '\n' {
        (SyntaxKind::Eol, scan_run(CharClass::Eol, s, i, n))
    } else if c == '"' {
        let j = scan_quote(s, i + 1, n);
        if j < n {
            proof {
                lemma_quote_scan_bounds(s@, i as int + 1);
            }
            (SyntaxKind::StringLiteral, j + 1)
        } else {
            (SyntaxKind::Error, n)
        }
    } else if c == ':' {
        if i + 1 < n && s.get_char(i + 1) == ':' {
            (SyntaxKind::DoubleColon, i + 2)
        } else {
            (SyntaxKind::Error, i + 1)
        }
    } else if c == '=' {
        (SyntaxKind::Equals, i + 1)
    } else if c == '|' {
        (SyntaxKind::Pipe, i + 1)
    } else if c == '$' {
        (SyntaxKind::Dollar, i + 1)
    } else if c == '+' {
        (SyntaxKind::Plus, i + 1)
    } else if c == '-' {
        (SyntaxKind::Minus, i + 1)
    } else if c == '*' {
        (SyntaxKind::Star, i + 1)
    } else if c == '/' {
        (SyntaxKind::Slash, i + 1)
    } else if c == '{' {
        (SyntaxKind::LBrace, i + 1)
    } else if c == '}' {
        (SyntaxKind::RBrace, i + 1)
    } else {
        (SyntaxKind::Error, i + 1)
    }
}

/// Turns the whole input into its lexeme sequence.
pub fn lex(input: &str) -> (r: Vec<SyntaxToken>)
    ensures
        lexemes_match(r@, lex_spec(input@, 0)),
        lexemes_laid(r@),
        lex_texts(r@, 0, r@.len() as int) == input@,
{
    let n = input.unicode_len();
    let mut r: Vec<SyntaxToken> = Vec::new();
    let mut i: usize = 0;
    let ghost vs = lex_spec(input@, 0);
    while i < n
        invariant
            n == input@.len(),
            i <= n,
            vs == lex_spec(input@, 0),
            vs.len() == r@.len() + lex_spec(input@, i as int).len(),
            lex_spec(input@, i as int) =~= vs.skip(r@.len() as int),
            forall|j: int| 0 <= j < r@.len() ==> lexeme_matches(#[trigger] r@[j], vs[j]),
            lexemes_laid(r@),
            lex_texts(r@, 0, r@.len() as int) == input@.subrange(0, i as int),
        decreases n - i,
    {
        let (kind, end) = scan_token(input, i, n);
        proof {
            lemma_token_len_bounds(input@, i as int);
            assert(lex_spec(input@, i as int)[0] == LexemeV {
                kind: token_kind(input@, i as int),
                text: input@.subrange(i as int, end as int),
                start: i as int,
            });
        }
        let text = input.substring_char(i, end);
        let tok = SyntaxToken {
            kind,
            text: text.to_owned(),
            range: TextRange::new(i, end),
        };
        proof {
            let prev = lex_spec(input@, i as int);
            assert(prev.drop_first() =~= lex_spec(input@, end as int));
            assert(prev =~= vs.skip(r@.len() as int));
            assert(lex_spec(input@, end as int) =~= vs.skip(r@.len() as int + 1));
            let m = r@.len() as int;
            assert forall|j: int| 0 <= j <= m implies lex_texts(r@.push(tok), 0, j) == lex_texts(
                r@,
                0,
                j,
            ) by {
                lemma_lex_texts_push(r@, tok, 0, j);
            }
            lemma_lex_texts_snoc(r@.push(tok), 0, m);
            assert(r@.push(tok)[m] == tok);
            assert(lex_texts(r@.push(tok), 0, m + 1) =~= input@.subrange(0, end as int));
        }
        r.push(tok);
        i = end;
    }
    proof {
        assert(lex_spec(input@, i as int) =~= Seq::<LexemeV>::empty());
        assert(r@.len() == vs.len());
    }
    r
}

} // verus!
