//! Data model of the scanner: token kinds, engine states, positions,
//! tokens and lexical errors.

use vstd::prelude::*;

verus! {

/// The closed set of token kinds the scanner can produce.
///
/// Comments are emitted as first-class tokens rather than discarded;
/// `EOF` is the end-of-input sentinel that terminates a scanning pass.
#[derive(Clone, Copy, PartialEq, Eq, Structural, Debug)]
pub enum TokenType {
    // literals and identifiers
    INT,
    FLOAT,
    ID,
    // comments, kept as tokens
    INLINE_COMMENT,
    BLOCK_COMMENT,
    // reserved words
    IF,
    ELSE,
    DO,
    WHILE,
    SWITCH,
    CASE,
    INTEGER,
    DOUBLE,
    // reserved object names
    STDIN,
    STDOUT,
    MAIN,
    // arithmetic operators
    SUM,
    MIN,
    TIMES,
    DIV,
    MODULUS,
    POWER,
    INC,
    DEC,
    // relational operators
    LT,
    LE,
    GT,
    GE,
    NE,
    EQ,
    NEG,
    // logical connectives
    AND,
    OR,
    // punctuation
    COMMA,
    DOT,
    LPAR,
    RPAR,
    LBRA,
    RBRA,
    SCOL,
    // assignment
    ASSIGN,
    // end-of-input sentinel
    EOF,
    // placeholder kind, produced by no scan
    NONE,
}

/// The named states of the scanning engine's automaton.
///
/// `START` skips whitespace and dispatches on the first significant
/// character; the intermediate states accumulate one multi-character
/// construct each; `DONE` finalizes the pending token or error.
#[derive(Clone, Copy, PartialEq, Eq, Structural, Debug)]
pub enum State {
    START,
    SLASH,
    LINE_COM,
    BLOCK_COM_1,
    BLOCK_COM_2,
    FLOAT,
    FLOAT_DOT,
    SUB,
    ADD,
    NUM,
    ID,
    LT,
    GT,
    NEG,
    EQ,
    DONE,
}

/// A 1-indexed source position: `lin` is the line, `col` the column of
/// the next character to be examined.
#[derive(Clone, Copy, PartialEq, Eq, Structural, Debug)]
pub struct Cursor {
    pub col: usize,
    pub lin: usize,
}

/// A token: its kind, the exact characters it was read from, and the
/// half-open span those characters occupy in the source.
#[derive(Clone, PartialEq, Eq, Debug)]
pub struct Token {
    pub token_type: TokenType,
    pub lexemme: String,
    pub start: Cursor,
    pub end: Cursor,
}

/// A lexical error: the span it covers, a message, and the characters
/// consumed before the construct was rejected.
#[derive(Clone, PartialEq, Eq, Debug)]
pub struct Error {
    pub start: Cursor,
    pub end: Cursor,
    pub message: String,
    pub lexemme: String,
}

} // verus!
