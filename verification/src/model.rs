//! Mathematical model of the scanner.
//!
//! Everything the executable scanner promises is stated over the
//! functions of this module: cursor arithmetic ([`advance`]), character
//! classes, the end positions of each multi-character construct
//! ([`ws_end`], [`digits_end`], [`id_end`], [`line_end`], [`block_end`]),
//! the classification of the next construct ([`scan_at`]), and the full
//! scan of a buffer ([`scan_text`]).

use vstd::prelude::*;

use crate::data::{Cursor, Error, Token, TokenType};

verus! {

// ---------------------------------------------------------------------
// Cursor model
// ---------------------------------------------------------------------

/// Spec-level source position with unbounded integers.
pub ghost struct CursorModel {
    pub lin: int,
    pub col: int,
}

impl View for Cursor {
    type V = CursorModel;

    open spec fn view(&self) -> CursorModel {
        CursorModel { lin: self.lin as int, col: self.col as int }
    }
}

/// A well-formed position is 1-indexed in both coordinates.
pub open spec fn cursor_wf(c: CursorModel) -> bool {
    c.lin >= 1 && c.col >= 1
}

/// How examining one character moves the cursor: a newline starts the
/// next line at column 1, anything else moves one column right.
pub open spec fn step(c: CursorModel, ch: char) -> CursorModel {
    if ch == '\n' {
        CursorModel { lin: c.lin + 1, col: 1 }
    } else {
        CursorModel { lin: c.lin, col: c.col + 1 }
    }
}

/// The cursor after examining every character of `s` in order.
pub open spec fn advance(c: CursorModel, s: Seq<char>) -> CursorModel
    decreases s.len(),
{
    if s.len() == 0 {
        c
    } else {
        advance(step(c, s[0]), s.drop_first())
    }
}

// ---------------------------------------------------------------------
// Character classes
// ---------------------------------------------------------------------

/// Whitespace skipped between tokens: space, tab, carriage return, newline.
pub open spec fn is_ws(c: char) -> bool {
    c == ' ' || c == '\t' || c == '\r' || c == '\n'
}

/// An ASCII decimal digit.
pub open spec fn is_digit(c: char) -> bool {
    48 <= c as u32 <= 57
}

/// An ASCII letter.
pub open spec fn is_alpha(c: char) -> bool {
    (65 <= c as u32 <= 90) || (97 <= c as u32 <= 122)
}

/// A character that may begin an identifier.
pub open spec fn is_id_start(c: char) -> bool {
    is_alpha(c) || c == '_'
}

/// A character that may continue an identifier.
pub open spec fn is_id_char(c: char) -> bool {
    is_id_start(c) || is_digit(c)
}

// ---------------------------------------------------------------------
// End positions of the multi-character constructs
// ---------------------------------------------------------------------

/// First position at or after `i` that does not hold whitespace.
pub open spec fn ws_end(s: Seq<char>, i: int) -> int
    decreases s.len() - i,
{
    if i < 0 || i >= s.len() || !is_ws(s[i]) {
        i
    } else {
        ws_end(s, i + 1)
    }
}

/// First position at or after `i` that does not hold a digit.
pub open spec fn digits_end(s: Seq<char>, i: int) -> int
    decreases s.len() - i,
{
    if i < 0 || i >= s.len() || !is_digit(s[i]) {
        i
    } else {
        digits_end(s, i + 1)
    }
}

/// First position at or after `i` that does not hold an identifier character.
pub open spec fn id_end(s: Seq<char>, i: int) -> int
    decreases s.len() - i,
{
    if i < 0 || i >= s.len() || !is_id_char(s[i]) {
        i
    } else {
        id_end(s, i + 1)
    }
}

/// First position at or after `i` that holds a newline, or the end of input.
pub open spec fn line_end(s: Seq<char>, i: int) -> int
    decreases s.len() - i,
{
    if i < 0 || i >= s.len() || s[i] == '\n' {
        i
    } else {
        line_end(s, i + 1)
    }
}

/// Position just past the first `*/` at or after `i`, if any.
pub open spec fn block_end(s: Seq<char>, i: int) -> Option<int>
    decreases s.len() - i,
{
    if i < 0 || i + 1 >= s.len() {
        None
    } else if s[i] == '*' && s[i + 1] == '/' {
        Some(i + 2)
    } else {
        block_end(s, i + 1)
    }
}

// ---------------------------------------------------------------------
// Tables
// ---------------------------------------------------------------------

/// The token kind of an identifier-shaped lexeme: a reserved kind on
/// full equality with a reserved word, `ID` otherwise.
pub open spec fn keyword_kind(w: Seq<char>) -> TokenType {
    if w == "if"@ {
        TokenType::IF
    } else if w == "else"@ {
        TokenType::ELSE
    } else if w == "do"@ {
        TokenType::DO
    } else if w == "while"@ {
        TokenType::WHILE
    } else if w == "switch"@ {
        TokenType::SWITCH
    } else if w == "case"@ {
        TokenType::CASE
    } else if w == "int"@ {
        TokenType::INTEGER
    } else if w == "integer"@ {
        TokenType::INTEGER
    } else if w == "double"@ {
        TokenType::DOUBLE
    } else if w == "main"@ {
        TokenType::MAIN
    } else if w == "and"@ {
        TokenType::AND
    } else if w == "or"@ {
        TokenType::OR
    } else if w == "stdin"@ {
        TokenType::STDIN
    } else if w == "stdout"@ {
        TokenType::STDOUT
    } else {
        TokenType::ID
    }
}

/// The token kind of a single-character symbol, or `NONE` for a
/// character that is no symbol.
pub open spec fn symbol_kind(c: char) -> TokenType {
    if c == '*' {
        TokenType::TIMES
    } else if c == '%' {
        TokenType::MODULUS
    } else if c == '^' {
        TokenType::POWER
    } else if c == ',' {
        TokenType::COMMA
    } else if c == '.' {
        TokenType::DOT
    } else if c == '(' {
        TokenType::LPAR
    } else if c == ')' {
        TokenType::RPAR
    } else if c == '{' {
        TokenType::LBRA
    } else if c == '}' {
        TokenType::RBRA
    } else if c == ';' {
        TokenType::SCOL
    } else {
        TokenType::NONE
    }
}

// ---------------------------------------------------------------------
// Classification of the next construct
// ---------------------------------------------------------------------

/// The ways a scan of one construct can fail.
#[derive(Clone, Copy, PartialEq, Eq, Structural, Debug)]
pub enum Fault {
    /// A character that begins no token.
    IllegalChar,
    /// A numeric literal whose `.` is not followed by a digit.
    FloatNoDigits,
    /// A block comment still open at end of input.
    UnterminatedComment,
}

/// The message reported for each fault.
pub open spec fn fault_message(f: Fault) -> Seq<char> {
    match f {
        Fault::IllegalChar => "illegal character"@,
        Fault::FloatNoDigits => "float literal requires digits after '.'"@,
        Fault::UnterminatedComment => "unterminated comment"@,
    }
}

/// What scanning one construct decides: a token kind or a fault, and
/// the position just past the characters it covers.
pub ghost struct ScanOutcome {
    pub class: Result<TokenType, Fault>,
    pub end: int,
}

/// A numeric literal whose digits start at `k`: digits, then optionally
/// a `.` that must be followed by at least one digit.
pub open spec fn scan_number(s: Seq<char>, k: int) -> ScanOutcome {
    let d = digits_end(s, k);
    if d < s.len() && s[d] == '.' {
        if d + 1 < s.len() && is_digit(s[d + 1]) {
            ScanOutcome { class: Ok(TokenType::FLOAT), end: digits_end(s, d + 1) }
        } else {
            ScanOutcome { class: Err(Fault::FloatNoDigits), end: d + 1 }
        }
    } else {
        ScanOutcome { class: Ok(TokenType::INT), end: d }
    }
}

/// The construct that begins at position `j`, under maximal munch.
/// At end of input it is the `EOF` sentinel.
pub open spec fn scan_at(s: Seq<char>, j: int) -> ScanOutcome {
    if j >= s.len() {
        ScanOutcome { class: Ok(TokenType::EOF), end: j }
    } else {
        let c = s[j];
        if is_digit(c) {
            scan_number(s, j)
        } else if c == '+' || c == '-' {
            if j + 1 < s.len() && is_digit(s[j + 1]) {
                scan_number(s, j + 1)
            } else if j + 1 < s.len() && s[j + 1] == c {
                ScanOutcome {
                    class: Ok(if c == '+' { TokenType::INC } else { TokenType::DEC }),
                    end: j + 2,
                }
            } else {
                ScanOutcome {
                    class: Ok(if c == '+' { TokenType::SUM } else { TokenType::MIN }),
                    end: j + 1,
                }
            }
        } else if is_id_start(c) {
            ScanOutcome {
                class: Ok(keyword_kind(s.subrange(j, id_end(s, j)))),
                end: id_end(s, j),
            }
        } else if c == '/' {
            if j + 1 < s.len() && s[j + 1] == '/' {
                ScanOutcome { class: Ok(TokenType::INLINE_COMMENT), end: line_end(s, j + 2) }
            } else if j + 1 < s.len() && s[j + 1] == '*' {
                match block_end(s, j + 2) {
                    Some(e) => ScanOutcome { class: Ok(TokenType::BLOCK_COMMENT), end: e },
                    None => ScanOutcome {
                        class: Err(Fault::UnterminatedComment),
                        end: s.len() as int,
                    },
                }
            } else {
                ScanOutcome { class: Ok(TokenType::DIV), end: j + 1 }
            }
        } else if c == '<' {
            if j + 1 < s.len() && s[j + 1] == '=' {
                ScanOutcome { class: Ok(TokenType::LE), end: j + 2 }
            } else {
                ScanOutcome { class: Ok(TokenType::LT), end: j + 1 }
            }
        } else if c == '>' {
            if j + 1 < s.len() && s[j + 1] == '=' {
                ScanOutcome { class: Ok(TokenType::GE), end: j + 2 }
            } else {
                ScanOutcome { class: Ok(TokenType::GT), end: j + 1 }
            }
        } else if c == '!' {
            if j + 1 < s.len() && s[j + 1] == '=' {
                ScanOutcome { class: Ok(TokenType::NE), end: j + 2 }
            } else {
                ScanOutcome { class: Ok(TokenType::NEG), end: j + 1 }
            }
        } else if c == '=' {
            if j + 1 < s.len() && s[j + 1] == '=' {
                ScanOutcome { class: Ok(TokenType::EQ), end: j + 2 }
            } else {
                ScanOutcome { class: Ok(TokenType::ASSIGN), end: j + 1 }
            }
        } else if symbol_kind(c) != TokenType::NONE {
            ScanOutcome { class: Ok(symbol_kind(c)), end: j + 1 }
        } else {
            ScanOutcome { class: Err(Fault::IllegalChar), end: j + 1 }
        }
    }
}

// ---------------------------------------------------------------------
// Models of tokens and errors
// ---------------------------------------------------------------------

/// Spec-level mirror of a [`Token`].
pub ghost struct TokenModel {
    pub token_type: TokenType,
    pub lexemme: Seq<char>,
    pub start: CursorModel,
    pub end: CursorModel,
}

impl View for Token {
    type V = TokenModel;

    open spec fn view(&self) -> TokenModel {
        TokenModel {
            token_type: self.token_type,
            lexemme: self.lexemme@,
            start: self.start@,
            end: self.end@,
        }
    }
}

/// Spec-level mirror of an [`Error`].
pub ghost struct ErrorModel {
    pub start: CursorModel,
    pub end: CursorModel,
    pub message: Seq<char>,
    pub lexemme: Seq<char>,
}

impl View for Error {
    type V = ErrorModel;

    open spec fn view(&self) -> ErrorModel {
        ErrorModel {
            start: self.start@,
            end: self.end@,
            message: self.message@,
            lexemme: self.lexemme@,
        }
    }
}

/// The models of a vector of tokens, in order.
pub open spec fn token_models(ts: Seq<Token>) -> Seq<TokenModel> {
    ts.map_values(|t: Token| t@)
}

/// The models of a vector of errors, in order.
pub open spec fn error_models(es: Seq<Error>) -> Seq<ErrorModel> {
    es.map_values(|e: Error| e@)
}

// ---------------------------------------------------------------------
// The full scan of a buffer
// ---------------------------------------------------------------------

/// The token sequence and error sequence that scanning `s` from cursor
/// `cur` produces: one construct at a time, resuming right after each,
/// until only whitespace remains. The `EOF` sentinel is excluded.
pub open spec fn scan_text(s: Seq<char>, cur: CursorModel) -> (Seq<TokenModel>, Seq<ErrorModel>)
    decreases s.len(),
    via scan_text_decreases
{
    let j = ws_end(s, 0);
    if j >= s.len() {
        (Seq::empty(), Seq::empty())
    } else {
        let o = scan_at(s, j);
        let start = advance(cur, s.take(j));
        let endc = advance(start, s.subrange(j, o.end));
        let rest = scan_text(s.subrange(o.end, s.len() as int), endc);
        match o.class {
            Ok(k) => (
                seq![TokenModel { token_type: k, lexemme: s.subrange(j, o.end), start, end: endc }]
                    + rest.0,
                rest.1,
            ),
            Err(f) => (
                rest.0,
                seq![ErrorModel {
                    start,
                    end: endc,
                    message: fault_message(f),
                    lexemme: s.subrange(j, o.end),
                }] + rest.1,
            ),
        }
    }
}

#[via_fn]
proof fn scan_text_decreases(s: Seq<char>, cur: CursorModel) {
    let j = ws_end(s, 0);
    if j < s.len() {
        lemma_ws_end_bounds(s, 0);
        lemma_scan_at_bounds(s, j);
    }
}

// ---------------------------------------------------------------------
// Bounds of the end positions
// ---------------------------------------------------------------------

/// `ws_end` never runs backwards nor past the end of input.
pub proof fn lemma_ws_end_bounds(s: Seq<char>, i: int)
    requires
        0 <= i <= s.len(),
    ensures
        i <= ws_end(s, i) <= s.len(),
    decreases s.len() - i,
{
    if i < s.len() && is_ws(s[i]) {
        lemma_ws_end_bounds(s, i + 1);
    }
}

/// `digits_end` never runs backwards nor past the end of input.
pub proof fn lemma_digits_end_bounds(s: Seq<char>, i: int)
    requires
        0 <= i <= s.len(),
    ensures
        i <= digits_end(s, i) <= s.len(),
    decreases s.len() - i,
{
    if i < s.len() && is_digit(s[i]) {
        lemma_digits_end_bounds(s, i + 1);
    }
}

/// `id_end` never runs backwards nor past the end of input.
pub proof fn lemma_id_end_bounds(s: Seq<char>, i: int)
    requires
        0 <= i <= s.len(),
    ensures
        i <= id_end(s, i) <= s.len(),
    decreases s.len() - i,
{
    if i < s.len() && is_id_char(s[i]) {
        lemma_id_end_bounds(s, i + 1);
    }
}

/// `line_end` never runs backwards nor past the end of input.
pub proof fn lemma_line_end_bounds(s: Seq<char>, i: int)
    requires
        0 <= i <= s.len(),
    ensures
        i <= line_end(s, i) <= s.len(),
    decreases s.len() - i,
{
    if i < s.len() && s[i] != '\n' {
        lemma_line_end_bounds(s, i + 1);
    }
}

/// A found block-comment terminator lies past its search start and
/// within the input.
pub proof fn lemma_block_end_bounds(s: Seq<char>, i: int)
    requires
        0 <= i,
    ensures
        block_end(s, i) matches Some(e) ==> i + 2 <= e <= s.len(),
    decreases s.len() - i,
{
    if i + 1 < s.len() && !(s[i] == '*' && s[i + 1] == '/') {
        lemma_block_end_bounds(s, i + 1);
    }
}

/// Every construct that begins before the end of input covers at least
/// one character and stops within the input.
pub proof fn lemma_scan_at_bounds(s: Seq<char>, j: int)
    requires
        0 <= j < s.len(),
    ensures
        j < scan_at(s, j).end <= s.len(),
{
    let c = s[j];
    if is_digit(c) {
        lemma_digits_end_bounds(s, j + 1);
        lemma_scan_number_bounds(s, j);
    } else if (c == '+' || c == '-') && j + 1 < s.len() && is_digit(s[j + 1]) {
        lemma_scan_number_bounds(s, j + 1);
    } else if is_id_start(c) {
        lemma_id_end_bounds(s, j + 1);
    } else if c == '/' && j + 1 < s.len() && s[j + 1] == '/' {
        lemma_line_end_bounds(s, j + 2);
    } else if c == '/' && j + 1 < s.len() && s[j + 1] == '*' {
        lemma_block_end_bounds(s, j + 2);
    }
}

/// Only the end of input scans to the `EOF` sentinel.
pub proof fn lemma_scan_at_not_eof(s: Seq<char>, j: int)
    requires
        0 <= j < s.len(),
    ensures
        scan_at(s, j).class != Ok::<TokenType, Fault>(TokenType::EOF),
{
}

/// A numeric literal whose digits start at a digit at `k` covers at
/// least that digit and stops within the input.
pub proof fn lemma_scan_number_bounds(s: Seq<char>, k: int)
    requires
        0 <= k < s.len(),
        is_digit(s[k]),
    ensures
        k < scan_number(s, k).end <= s.len(),
{
    lemma_digits_end_bounds(s, k + 1);
    let d = digits_end(s, k);
    if d < s.len() && s[d] == '.' && d + 1 < s.len() && is_digit(s[d + 1]) {
        lemma_digits_end_bounds(s, d + 2);
    }
}

/// On all-whitespace input the whitespace run reaches the end.
pub proof fn lemma_ws_end_all(s: Seq<char>, i: int)
    requires
        0 <= i <= s.len(),
        forall|k: int| 0 <= k < s.len() ==> is_ws(s[k]),
    ensures
        ws_end(s, i) == s.len(),
    decreases s.len() - i,
{
    if i < s.len() {
        lemma_ws_end_all(s, i + 1);
    }
}

/// No character before `line_end` is a newline, and the character at it
/// (when within the input) is one.
pub proof fn lemma_line_end_chars(s: Seq<char>, i: int)
    requires
        0 <= i <= s.len(),
    ensures
        forall|k: int| i <= k < line_end(s, i) ==> s[k] != '\n',
        line_end(s, i) < s.len() ==> s[line_end(s, i)] == '\n',
    decreases s.len() - i,
{
    if i < s.len() && s[i] != '\n' {
        lemma_line_end_chars(s, i + 1);
    }
}

// ---------------------------------------------------------------------
// Cursor arithmetic lemmas
// ---------------------------------------------------------------------

/// Over characters without a newline the line stays put and the column
/// grows by one per character.
pub proof fn lemma_advance_no_newline(c: CursorModel, s: Seq<char>)
    requires
        forall|i: int| 0 <= i < s.len() ==> s[i] != '\n',
    ensures
        advance(c, s).lin == c.lin,
        advance(c, s).col == c.col + s.len(),
    decreases s.len(),
{
    if s.len() > 0 {
        lemma_advance_no_newline(step(c, s[0]), s.drop_first());
        assert(advance(c, s) == advance(step(c, s[0]), s.drop_first()));
    }
}

/// Advancing over a concatenation is advancing over each part in turn.
pub proof fn lemma_advance_concat(c: CursorModel, a: Seq<char>, b: Seq<char>)
    ensures
        advance(c, a + b) == advance(advance(c, a), b),
    decreases a.len(),
{
    if a.len() == 0 {
        assert(a + b =~= b);
    } else {
        assert((a + b).drop_first() =~= a.drop_first() + b);
        lemma_advance_concat(step(c, a[0]), a.drop_first(), b);
    }
}

/// Advancing over one more character steps the cursor once.
pub proof fn lemma_advance_snoc(c: CursorModel, a: Seq<char>, x: char)
    ensures
        advance(c, a.push(x)) == step(advance(c, a), x),
{
    lemma_advance_concat(c, a, seq![x]);
    assert(a.push(x) =~= a + seq![x]);
    let c2 = advance(c, a);
    assert(seq![x].drop_first() =~= Seq::<char>::empty());
    assert(advance(step(c2, x), Seq::<char>::empty()) == step(c2, x));
    assert(advance(c2, seq![x]) == step(c2, x));
}

/// The cursor never moves more than one line or one column per
/// character, and stays well-formed.
pub proof fn lemma_advance_bounds(c: CursorModel, s: Seq<char>)
    requires
        cursor_wf(c),
    ensures
        advance(c, s).col <= c.col + s.len(),
        advance(c, s).lin <= c.lin + s.len(),
        cursor_wf(advance(c, s)),
    decreases s.len(),
{
    if s.len() > 0 {
        lemma_advance_bounds(step(c, s[0]), s.drop_first());
        assert(advance(c, s) == advance(step(c, s[0]), s.drop_first()));
        assert(s.drop_first().len() == s.len() - 1);
    }
}

} // verus!
