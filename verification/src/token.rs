//! Token and diagnostic value types, with their mathematical views.

use vstd::prelude::*;

verus! {

/// Lexical category of a token.
#[derive(Clone, Copy, Debug, PartialEq, Eq, Structural)]
pub enum TokenKind {
    LeftParen,
    RightParen,
    LeftBrace,
    RightBrace,
    Comma,
    Dot,
    Minus,
    Plus,
    Semicolon,
    Slash,
    Star,
    Bang,
    BangEqual,
    Equal,
    EqualEqual,
    Greater,
    GreaterEqual,
    Less,
    LessEqual,
    Identifier,
    Str,
    Number,
    And,
    Class,
    Else,
    False,
    Fun,
    For,
    If,
    Nil,
    Or,
    Print,
    Return,
    Super,
    This,
    True,
    Var,
    While,
    Eof,
}

/// Parsed literal payload. Only string and number tokens carry one:
/// a string token carries the dequoted text, a number token carries
/// the numeral text it was scanned from (callers parse it to a machine
/// float if they need the numeric value).
#[derive(Clone, Debug, PartialEq)]
pub enum Literal {
    Absent,
    Num(String),
    Str(String),
}

/// An immutable token: category, exact source substring, optional
/// literal payload, and the 1-based line where the token began.
#[derive(Clone, Debug, PartialEq)]
pub struct Token {
    pub kind: TokenKind,
    pub lexeme: String,
    pub literal: Literal,
    pub line: usize,
}

/// The two lexical error kinds. Both are non-fatal: scanning records
/// them and continues.
#[derive(Clone, Copy, Debug, PartialEq, Eq, Structural)]
pub enum DiagnosticKind {
    UnterminatedString,
    UnexpectedCharacter,
}

/// A non-fatal record of a lexical error, anchored to a 1-based line.
#[derive(Clone, Copy, Debug, PartialEq, Eq, Structural)]
pub struct Diagnostic {
    pub kind: DiagnosticKind,
    pub line: usize,
}

/// The fixed message text for each diagnostic kind.
pub open spec fn spec_message(kind: DiagnosticKind) -> Seq<char> {
    match kind {
        DiagnosticKind::UnterminatedString => "Unterminated string."@,
        DiagnosticKind::UnexpectedCharacter => "Unexpected character."@,
    }
}

impl Diagnostic {
    /// The human-readable message for this diagnostic.
    pub fn message(&self) -> (text: String)
        ensures
            text@ == spec_message(self.kind),
    {
        match self.kind {
            DiagnosticKind::UnterminatedString => String::from_str("Unterminated string."),
            DiagnosticKind::UnexpectedCharacter => String::from_str("Unexpected character."),
        }
    }
}

/// Mathematical view of a literal payload.
#[verifier::ext_equal]
pub enum SpecLiteral {
    Absent,
    Num(Seq<char>),
    Str(Seq<char>),
}

/// Mathematical view of a token.
#[verifier::ext_equal]
pub struct SpecToken {
    pub kind: TokenKind,
    pub lexeme: Seq<char>,
    pub literal: SpecLiteral,
    pub line: nat,
}

/// Mathematical view of a diagnostic.
#[verifier::ext_equal]
pub struct SpecDiagnostic {
    pub kind: DiagnosticKind,
    pub line: nat,
}

impl View for Literal {
    type V = SpecLiteral;

    open spec fn view(&self) -> SpecLiteral {
        match self {
            Literal::Absent => SpecLiteral::Absent,
            Literal::Num(text) => SpecLiteral::Num(text@),
            Literal::Str(text) => SpecLiteral::Str(text@),
        }
    }
}

impl View for Token {
    type V = SpecToken;

    open spec fn view(&self) -> SpecToken {
        SpecToken {
            kind: self.kind,
            lexeme: self.lexeme@,
            literal: self.literal@,
            line: self.line as nat,
        }
    }
}

impl View for Diagnostic {
    type V = SpecDiagnostic;

    open spec fn view(&self) -> SpecDiagnostic {
        SpecDiagnostic { kind: self.kind, line: self.line as nat }
    }
}

} // verus!
