//! Small helpers around the scanner: cursor construction, a placeholder
//! error, and the reserved-word lookup.

use vstd::prelude::*;

use crate::data::{Cursor, Error, TokenType};
use crate::model::keyword_kind;
use vstd::string::StrSliceExecFns;

verus! {

/// A throwaway cursor at line 1, column 1.
pub fn fake_cursor() -> (c: Cursor)
    ensures
        c == (Cursor { col: 1, lin: 1 }),
{
    Cursor { col: 1, lin: 1 }
}

/// The cursor a scanning pass starts from: line 1, column 1.
pub fn init_cursor() -> (c: Cursor)
    ensures
        c == (Cursor { col: 1, lin: 1 }),
{
    Cursor { col: 1, lin: 1 }
}

/// A placeholder error with a fixed span and message.
pub fn fake_error() -> (e: Error)
    ensures
        e.start == (Cursor { col: 1, lin: 1 }),
        e.end == (Cursor { col: 1, lin: 1 }),
        e.message@ == "Fake Error"@,
        e.lexemme@ == "fake"@,
{
    Error {
        start: fake_cursor(),
        end: fake_cursor(),
        message: "Fake Error".to_owned(),
        lexemme: "fake".to_owned(),
    }
}

/// Character-for-character equality of two string slices.
fn str_eq(a: &str, b: &str) -> (r: bool)
    ensures
        r == (a@ == b@),
{
    let la = a.unicode_len();
    let lb = b.unicode_len();
    if la != lb {
        return false;
    }
    let mut i: usize = 0;
    while i < la
        invariant
            i <= la,
            la == a@.len(),
            la == b@.len(),
            forall|k: int| 0 <= k < i ==> a@[k] == b@[k],
        decreases la - i,
    {
        if a.get_char(i) != b.get_char(i) {
            return false;
        }
        i += 1;
    }
    proof {
        assert(a@ =~= b@);
    }
    true
}

/// The token kind of an identifier-shaped lexeme: a reserved word
/// matches only on full equality; everything else is an `ID`.
pub fn reserved_lookup(id: &str) -> (t: TokenType)
    ensures
        t == keyword_kind(id@),
{
    if str_eq(id, "if") {
        TokenType::IF
    } else if str_eq(id, "else") {
        TokenType::ELSE
    } else if str_eq(id, "do") {
        TokenType::DO
    } else if str_eq(id, "while") {
        TokenType::WHILE
    } else if str_eq(id, "switch") {
        TokenType::SWITCH
    } else if str_eq(id, "case") {
        TokenType::CASE
    } else if str_eq(id, "int") {
        TokenType::INTEGER
    } else if str_eq(id, "integer") {
        TokenType::INTEGER
    } else if str_eq(id, "double") {
        TokenType::DOUBLE
    } else if str_eq(id, "main") {
        TokenType::MAIN
    } else if str_eq(id, "and") {
        TokenType::AND
    } else if str_eq(id, "or") {
        TokenType::OR
    } else if str_eq(id, "stdin") {
        TokenType::STDIN
    } else if str_eq(id, "stdout") {
        TokenType::STDOUT
    } else {
        TokenType::ID
    }
}

} // verus!
