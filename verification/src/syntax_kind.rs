//! The closed set of kinds a syntax-tree node or token can have.

use vstd::prelude::*;

verus! {

/// Kind tag carried by every token and node of the syntax tree.
///
/// The variants up to and including `Error` are terminals produced by the
/// lexer; the rest are composite node kinds produced by the parser.
#[derive(Debug, Clone, Copy, PartialEq, Eq, Structural)]
pub enum SyntaxKind {
    /// a bare word, used as a name or as an unquoted string
    Atom,
    /// a run of decimal digits
    Digits,
    /// a quoted string literal, quotes included
    StringLiteral,
    /// `=`
    Equals,
    /// `::`
    DoubleColon,
    /// `|`
    Pipe,
    /// `$`
    Dollar,
    /// `+`
    Plus,
    /// `-`
    Minus,
    /// `*`
    Star,
    /// `/`
    Slash,
    /// `{`
    LBrace,
    /// `}`
    RBrace,
    /// the keyword `let`
    Let,
    /// the keyword `if`
    IfKw,
    /// the keyword `then`
    ThenKw,
    /// the keyword `else`
    ElseKw,
    /// the keyword `true`
    TrueKw,
    /// the keyword `false`
    FalseKw,
    /// a run of spaces
    Whitespace,
    /// a run of line feeds
    Eol,
    /// a character no other terminal covers, or a token consumed during
    /// error recovery
    Error,
    /// the node covering the whole input
    Root,
    /// a `let NAME = EXPR` binding definition node
    BindingDef,
    /// a function- or command-call node
    FunctionCall,
    /// the node holding a call's argument expressions
    FunctionCallParams,
    /// a `|params| body` lambda literal node
    Lambda,
    /// the node holding a lambda's parameter names
    LambdaParams,
    /// a `$name` binding usage node
    BindingUsage,
    /// a binary operation node
    BinOp,
    /// an `if COND then EXPR else EXPR` node
    If,
    /// a `{ items }` block node
    Block,
}

impl SyntaxKind {
    /// Whitespace and line breaks carry no meaning of their own.
    pub open spec fn is_trivia(self) -> bool {
        self == SyntaxKind::Whitespace || self == SyntaxKind::Eol
    }

    /// The kinds the lexer can assign to a lexeme.
    pub open spec fn is_terminal(self) -> bool {
        match self {
            SyntaxKind::Root
            | SyntaxKind::BindingDef
            | SyntaxKind::FunctionCall
            | SyntaxKind::FunctionCallParams
            | SyntaxKind::Lambda
            | SyntaxKind::LambdaParams
            | SyntaxKind::BindingUsage
            | SyntaxKind::BinOp
            | SyntaxKind::If
            | SyntaxKind::Block => false,
            _ => true,
        }
    }

    /// The name of the kind, as the tree printer shows it.
    pub open spec fn spec_name(self) -> Seq<char> {
        match self {
            SyntaxKind::Atom => "Atom"@,
            SyntaxKind::Digits => "Digits"@,
            SyntaxKind::StringLiteral => "StringLiteral"@,
            SyntaxKind::Equals => "Equals"@,
            SyntaxKind::DoubleColon => "DoubleColon"@,
            SyntaxKind::Pipe => "Pipe"@,
            SyntaxKind::Dollar => "Dollar"@,
            SyntaxKind::Plus => "Plus"@,
            SyntaxKind::Minus => "Minus"@,
            SyntaxKind::Star => "Star"@,
            SyntaxKind::Slash => "Slash"@,
            SyntaxKind::LBrace => "LBrace"@,
            SyntaxKind::RBrace => "RBrace"@,
            SyntaxKind::Let => "Let"@,
            SyntaxKind::IfKw => "IfKw"@,
            SyntaxKind::ThenKw => "ThenKw"@,
            SyntaxKind::ElseKw => "ElseKw"@,
            SyntaxKind::TrueKw => "TrueKw"@,
            SyntaxKind::FalseKw => "FalseKw"@,
            SyntaxKind::Whitespace => "Whitespace"@,
            SyntaxKind::Eol => "Eol"@,
            SyntaxKind::Error => "Error"@,
            SyntaxKind::Root => "Root"@,
            SyntaxKind::BindingDef => "BindingDef"@,
            SyntaxKind::FunctionCall => "FunctionCall"@,
            SyntaxKind::FunctionCallParams => "FunctionCallParams"@,
            SyntaxKind::Lambda => "Lambda"@,
            SyntaxKind::LambdaParams => "LambdaParams"@,
            SyntaxKind::BindingUsage => "BindingUsage"@,
            SyntaxKind::BinOp => "BinOp"@,
            SyntaxKind::If => "If"@,
            SyntaxKind::Block => "Block"@,
        }
    }

    /// The name of the kind, as the tree printer shows it.
    pub fn name(self) -> (r: &'static str)
        ensures
            r@ == self.spec_name(),
    {
        match self {
            SyntaxKind::Atom => "Atom",
            SyntaxKind::Digits => "Digits",
            SyntaxKind::StringLiteral => "StringLiteral",
            SyntaxKind::Equals => "Equals",
            SyntaxKind::DoubleColon => "DoubleColon",
            SyntaxKind::Pipe => "Pipe",
            SyntaxKind::Dollar => "Dollar",
            SyntaxKind::Plus => "Plus",
            SyntaxKind::Minus => "Minus",
            SyntaxKind::Star => "Star",
            SyntaxKind::Slash => "Slash",
            SyntaxKind::LBrace => "LBrace",
            SyntaxKind::RBrace => "RBrace",
            SyntaxKind::Let => "Let",
            SyntaxKind::IfKw => "IfKw",
            SyntaxKind::ThenKw => "ThenKw",
            SyntaxKind::ElseKw => "ElseKw",
            SyntaxKind::TrueKw => "TrueKw",
            SyntaxKind::FalseKw => "FalseKw",
            SyntaxKind::Whitespace => "Whitespace",
            SyntaxKind::Eol => "Eol",
            SyntaxKind::Error => "Error",
            SyntaxKind::Root => "Root",
            SyntaxKind::BindingDef => "BindingDef",
            SyntaxKind::FunctionCall => "FunctionCall",
            SyntaxKind::FunctionCallParams => "FunctionCallParams",
            SyntaxKind::Lambda => "Lambda",
            SyntaxKind::LambdaParams => "LambdaParams",
            SyntaxKind::BindingUsage => "BindingUsage",
            SyntaxKind::BinOp => "BinOp",
            SyntaxKind::If => "If",
            SyntaxKind::Block => "Block",
        }
    }
}

} // verus!
