//! The token vocabulary: what the scanner classifies source text into.
//!
//! Each executable token type has a mathematical view (`TokenView`,
//! `LiteralView`) over `Seq<char>` and `int`, which the scanner's contracts
//! speak of.

use vstd::prelude::*;

verus! {

/// The closed set of reserved keywords.
#[derive(Debug, Clone, PartialEq, Eq)]
pub enum Keyword {
    LET,
    CONST,
    STATIC,
    FN,
    IF,
    ELSE,
    FOR,
    LOOP,
    BREAK,
    CONTINUE,
}

/// A literal value. Floating-point literals carry their source text
/// (digits, optional sign, optional decimal point); converting that text to a
/// machine float is the consumer's concern.
#[derive(Debug, Clone, PartialEq, Eq)]
pub enum Literal {
    STRING(String),
    SIGNEDINT(isize),
    USIGNEDINT(usize),
    FLOAT(String),
    BOOL(bool),
}

/// Single- and double-character operators.
#[derive(Debug, Clone, PartialEq, Eq)]
pub enum Operator {
    EQUAL,
    NOTEQUAL,
    NOT,

    AND,
    BITAND,

    OR,
    BITOR,

    ASSIGNMENT,

    INCREMENT,
    INCASSIGN,
    ADD,

    DECREMENT,
    DECASSIGN,
    SUBTRACT,

    MULTASSIGN,
    MULTIPLY,

    DIVASSIGN,
    DIVIDE,

    DOT,
}

/// Punctuation separators.
#[derive(Debug, Clone, PartialEq, Eq)]
pub enum Separator {
    LCURLY,
    RCURLY,
    LPARAN,
    RPARAN,
    SEMICOLON,
    COMMA,
}

/// A classified unit of source text. The `COMMENT` variant is part of the
/// vocabulary but the scanner never produces it; it is reserved for a future
/// comment-scanning rule.
#[derive(Debug, Clone, PartialEq, Eq)]
pub enum Token {
    KEYWORD(Keyword),
    IDENTIFIER(String),
    SEPARATOR(Separator),
    OPERATOR(Operator),
    LITERAL(Literal),
    COMMENT(String),
}

/// A distinct per-call failure: the digit span of a numeric literal does not
/// parse into the target numeric type (or its value does not fit it).
#[derive(Debug, Clone, PartialEq, Eq)]
pub enum LexError {
    MALFORMEDUNSIGNED,
    MALFORMEDSIGNED,
    MALFORMEDFLOAT,
}

/// Mathematical view of a `Literal`: text payloads as character sequences,
/// machine integers as unbounded integers.
pub enum LiteralView {
    STRING(Seq<char>),
    SIGNEDINT(int),
    USIGNEDINT(int),
    FLOAT(Seq<char>),
    BOOL(bool),
}

/// Mathematical view of a `Token`.
pub enum TokenView {
    KEYWORD(Keyword),
    IDENTIFIER(Seq<char>),
    SEPARATOR(Separator),
    OPERATOR(Operator),
    LITERAL(LiteralView),
    COMMENT(Seq<char>),
}

impl View for Literal {
    type V = LiteralView;

    open spec fn view(&self) -> LiteralView {
        match self {
            Literal::STRING(s) => LiteralView::STRING(s@),
            Literal::SIGNEDINT(v) => LiteralView::SIGNEDINT(*v as int),
            Literal::USIGNEDINT(v) => LiteralView::USIGNEDINT(*v as int),
            Literal::FLOAT(s) => LiteralView::FLOAT(s@),
            Literal::BOOL(b) => LiteralView::BOOL(*b),
        }
    }
}

impl View for Token {
    type V = TokenView;

    open spec fn view(&self) -> TokenView {
        match self {
            Token::KEYWORD(k) => TokenView::KEYWORD(*k),
            Token::IDENTIFIER(s) => TokenView::IDENTIFIER(s@),
            Token::SEPARATOR(s) => TokenView::SEPARATOR(*s),
            Token::OPERATOR(o) => TokenView::OPERATOR(*o),
            Token::LITERAL(l) => TokenView::LITERAL(l@),
            Token::COMMENT(s) => TokenView::COMMENT(s@),
        }
    }
}

} // verus!
