//! A lexical scanner for a small instructional language.
//!
//! The scanner turns a UTF-8 text buffer into an ordered sequence of
//! tokens and an ordered sequence of lexical errors, each carrying a
//! precise line/column span. Scanning is driven by [`get_token`], which
//! produces exactly one token or error per call and hands back the
//! remaining input; [`tokenize`] repeats it over the whole buffer,
//! recovering after each error.
//!
//! Everything promised here is stated over the spec functions of
//! [`model`]: [`model::scan_at`] classifies the next construct,
//! [`model::scan_text`] gives the full token and error sequences, and
//! [`model::advance`] gives the exact cursor arithmetic.

pub mod data;
pub mod laws;
pub mod model;
pub mod utils;

use vstd::prelude::*;

use crate::data::{Cursor, Error, Token, TokenType};
use crate::model::{
    advance, block_end, cursor_wf, digits_end, error_models, fault_message, id_end, is_digit,
    is_id_char, is_ws, lemma_scan_at_bounds, lemma_scan_at_not_eof, lemma_ws_end_bounds, line_end,
    scan_at, scan_text, symbol_kind, token_models, ws_end, CursorModel, ErrorModel, Fault,
    TokenModel,
};
use vstd::string::StrSliceExecFns;

verus! {

/// Whether `c` is whitespace the scanner skips between tokens.
fn ws_char(c: char) -> (b: bool)
    ensures
        b == is_ws(c),
{
    c == ' ' || c == '\t' || c == '\r' || c == '\n'
}

/// Whether `c` is an ASCII decimal digit.
fn digit_char(c: char) -> (b: bool)
    ensures
        b == is_digit(c),
{
    let u = c as u32;
    48 <= u && u <= 57
}

/// Whether `c` may continue an identifier.
fn id_char(c: char) -> (b: bool)
    ensures
        b == is_id_char(c),
{
    let u = c as u32;
    (65 <= u && u <= 90) || (97 <= u && u <= 122) || c == '_' || (48 <= u && u <= 57)
}

/// First position at or after `from` that holds no whitespace.
fn scan_ws(text: &str, from: usize, len: usize) -> (j: usize)
    requires
        len == text@.len(),
        from <= len,
    ensures
        j == ws_end(text@, from as int),
        from <= j <= len,
{
    let mut i: usize = from;
    while i < len
        invariant
            from <= i <= len,
            len == text@.len(),
            ws_end(text@, from as int) == ws_end(text@, i as int),
        decreases len - i,
    {
        if !ws_char(text.get_char(i)) {
            return i;
        }
        i += 1;
    }
    i
}

/// First position at or after `from` that holds no digit.
fn scan_digits(text: &str, from: usize, len: usize) -> (j: usize)
    requires
        len == text@.len(),
        from <= len,
    ensures
        j == digits_end(text@, from as int),
        from <= j <= len,
{
    let mut i: usize = from;
    while i < len
        invariant
            from <= i <= len,
            len == text@.len(),
            digits_end(text@, from as int) == digits_end(text@, i as int),
        decreases len - i,
    {
        if !digit_char(text.get_char(i)) {
            return i;
        }
        i += 1;
    }
    i
}

/// First position at or after `from` that holds no identifier character.
fn scan_id(text: &str, from: usize, len: usize) -> (j: usize)
    requires
        len == text@.len(),
        from <= len,
    ensures
        j == id_end(text@, from as int),
        from <= j <= len,
{
    let mut i: usize = from;
    while i < len
        invariant
            from <= i <= len,
            len == text@.len(),
            id_end(text@, from as int) == id_end(text@, i as int),
        decreases len - i,
    {
        if !id_char(text.get_char(i)) {
            return i;
        }
        i += 1;
    }
    i
}

/// First position at or after `from` that holds a newline, or the end
/// of input.
fn scan_line(text: &str, from: usize, len: usize) -> (j: usize)
    requires
        len == text@.len(),
        from <= len,
    ensures
        j == line_end(text@, from as int),
        from <= j <= len,
{
    let mut i: usize = from;
    while i < len
        invariant
            from <= i <= len,
            len == text@.len(),
            line_end(text@, from as int) == line_end(text@, i as int),
        decreases len - i,
    {
        if text.get_char(i) == '\n' {
            return i;
        }
        i += 1;
    }
    i
}

/// Position just past the first `*/` at or after `from`, if any.
fn scan_block(text: &str, from: usize, len: usize) -> (r: Option<usize>)
    requires
        len == text@.len(),
        from <= len,
    ensures
        match r {
            Some(e) => block_end(text@, from as int) == Some(e as int) && from <= e <= len,
            None => block_end(text@, from as int) is None,
        },
{
    let mut i: usize = from;
    while i < len && i + 1 < len
        invariant
            from <= i <= len,
            len == text@.len(),
            block_end(text@, from as int) == block_end(text@, i as int),
        decreases len - i,
    {
        if text.get_char(i) == '*' && text.get_char(i + 1) == '/' {
            return Some(i + 2);
        }
        i += 1;
    }
    None
}

/// Moves the cursor over `text[from..to]`, one examined character at a
/// time: a newline starts the next line at column 1, anything else
/// moves one column right.
fn advance_cursor(cursor: &mut Cursor, text: &str, from: usize, to: usize)
    requires
        from <= to <= text@.len(),
        cursor_wf(old(cursor)@),
        old(cursor).col + (to - from) <= usize::MAX,
        old(cursor).lin + (to - from) <= usize::MAX,
    ensures
        final(cursor)@ == advance(old(cursor)@, text@.subrange(from as int, to as int)),
        cursor_wf(final(cursor)@),
{
    let ghost s = text@;
    let mut i: usize = from;
    while i < to
        invariant
            from <= i <= to <= s.len(),
            s == text@,
            cursor@ == advance(old(cursor)@, s.subrange(from as int, i as int)),
            cursor_wf(cursor@),
            cursor.col + (to - i) <= usize::MAX,
            cursor.lin + (to - i) <= usize::MAX,
        decreases to - i,
    {
        let c = text.get_char(i);
        if c == '\n' {
            cursor.lin += 1;
            cursor.col = 1;
        } else {
            cursor.col += 1;
        }
        i += 1;
        proof {
            let prev = s.subrange(from as int, i - 1);
            crate::model::lemma_advance_snoc(old(cursor)@, prev, s[i - 1]);
            assert(s.subrange(from as int, i as int) =~= prev.push(s[i - 1]));
        }
    }
    proof {
        assert(s.subrange(from as int, to as int) == s.subrange(from as int, i as int));
    }
}

/// The message carried by each kind of lexical error.
fn fault_text(f: Fault) -> (m: String)
    ensures
        m@ == fault_message(f),
{
    match f {
        Fault::IllegalChar => "illegal character".to_owned(),
        Fault::FloatNoDigits => "float literal requires digits after '.'".to_owned(),
        Fault::UnterminatedComment => "unterminated comment".to_owned(),
    }
}

/// The token kind of a single-character symbol, `NONE` for a character
/// that is no symbol.
fn symbol_lookup(c: char) -> (t: TokenType)
    ensures
        t == symbol_kind(c),
{
    if c == '*' {
        TokenType::TIMES
    } else if c == '%' {
        TokenType::MODULUS
    } else if c == '^' {
        TokenType::POWER
    } else if c == ',' {
        TokenType::COMMA
    } else if c == '.' {
        TokenType::DOT
    } else if c == '(' {
        TokenType::LPAR
    } else if c == ')' {
        TokenType::RPAR
    } else if c == '{' {
        TokenType::LBRA
    } else if c == '}' {
        TokenType::RBRA
    } else if c == ';' {
        TokenType::SCOL
    } else {
        TokenType::NONE
    }
}

/// Scans a numeric literal whose digits start at `k`: digits, then
/// optionally a `.` that must be followed by at least one digit.
fn scan_number_part(text: &str, k: usize, len: usize) -> (r: (Result<TokenType, Fault>, usize))
    requires
        len == text@.len(),
        k <= len,
    ensures
        ({
            let o = crate::model::scan_number(text@, k as int);
            &&& o.class == r.0
            &&& o.end == r.1 as int
            &&& k <= r.1 <= len
        }),
{
    let d = scan_digits(text, k, len);
    if d < len && text.get_char(d) == '.' {
        if d + 1 < len && digit_char(text.get_char(d + 1)) {
            let e = scan_digits(text, d + 1, len);
            (Ok(TokenType::FLOAT), e)
        } else {
            (Err(Fault::FloatNoDigits), d + 1)
        }
    } else {
        (Ok(TokenType::INT), d)
    }
}

/// Produces exactly one token or lexical error from the front of
/// `text`, and the input that remains past it.
///
/// Whitespace before the construct is skipped and consumed; the cursor
/// is advanced over every consumed character; the token or error
/// carries the exact characters of the construct as its lexeme and the
/// span those characters occupy. On empty (or all-whitespace) input the
/// result is the `EOF` sentinel token with an empty lexeme.
pub fn get_token<'a>(text: &'a str, cursor: &mut Cursor) -> (r: (Result<Token, Error>, &'a str))
    requires
        cursor_wf(old(cursor)@),
        old(cursor).col + text@.len() <= usize::MAX,
        old(cursor).lin + text@.len() <= usize::MAX,
    ensures
        ({
            let s = text@;
            let j = ws_end(s, 0);
            let o = scan_at(s, j);
            let start_m = advance(old(cursor)@, s.take(j));
            let end_m = advance(start_m, s.subrange(j, o.end));
            &&& r.1@ == s.subrange(o.end, s.len() as int)
            &&& final(cursor)@ == end_m
            &&& cursor_wf(final(cursor)@)
            &&& match r.0 {
                Ok(t) => {
                    &&& o.class == Ok::<TokenType, Fault>(t.token_type)
                    &&& t.lexemme@ == s.subrange(j, o.end)
                    &&& t.start@ == start_m
                    &&& t.end@ == end_m
                },
                Err(er) => {
                    &&& o.class matches Err(f) && er.message@ == fault_message(f)
                    &&& er.lexemme@ == s.subrange(j, o.end)
                    &&& er.start@ == start_m
                    &&& er.end@ == end_m
                },
            }
        }),
{
    let ghost s = text@;
    let ghost c0 = old(cursor)@;
    let len = text.unicode_len();
    let j = scan_ws(text, 0, len);
    advance_cursor(cursor, text, 0, j);
    proof {
        assert(s.subrange(0, j as int) =~= s.take(j as int));
    }
    let start = *cursor;
    if j == len {
        let rem = text.substring_char(len, len);
        let empty_lex = String::new();
        proof {
            assert(s.subrange(j as int, j as int) =~= Seq::<char>::empty());
            assert(advance(start@, Seq::<char>::empty()) == start@);
            assert(empty_lex@ =~= s.subrange(j as int, j as int));
        }
        return (
            Ok(Token { token_type: TokenType::EOF, lexemme: empty_lex, start, end: start }),
            rem,
        );
    }
    let c = text.get_char(j);
    let mut kind: Result<TokenType, Fault> = Ok(TokenType::NONE);
    let mut e: usize = j;
    if digit_char(c) {
        let num = scan_number_part(text, j, len);
        kind = num.0;
        e = num.1;
    } else if c == '+' || c == '-' {
        if j + 1 < len && digit_char(text.get_char(j + 1)) {
            let num = scan_number_part(text, j + 1, len);
            kind = num.0;
            e = num.1;
        } else if j + 1 < len && text.get_char(j + 1) == c {
            kind = Ok(if c == '+' { TokenType::INC } else { TokenType::DEC });
            e = j + 2;
        } else {
            kind = Ok(if c == '+' { TokenType::SUM } else { TokenType::MIN });
            e = j + 1;
        }
    } else if id_char(c) {
        e = scan_id(text, j, len);
        kind = Ok(crate::utils::reserved_lookup(text.substring_char(j, e)));
    } else if c == '/' {
        if j + 1 < len && text.get_char(j + 1) == '/' {
            kind = Ok(TokenType::INLINE_COMMENT);
            e = scan_line(text, j + 2, len);
        } else if j + 1 < len && text.get_char(j + 1) == '*' {
            match scan_block(text, j + 2, len) {
                Some(close) => {
                    kind = Ok(TokenType::BLOCK_COMMENT);
                    e = close;
                },
                None => {
                    kind = Err(Fault::UnterminatedComment);
                    e = len;
                },
            }
        } else {
            kind = Ok(TokenType::DIV);
            e = j + 1;
        }
    } else if c == '<' {
        kind = Ok(
            if j + 1 < len && text.get_char(j + 1) == '=' {
                e = j + 2;
                TokenType::LE
            } else {
                e = j + 1;
                TokenType::LT
            },
        );
    } else if c == '>' {
        kind = Ok(
            if j + 1 < len && text.get_char(j + 1) == '=' {
                e = j + 2;
                TokenType::GE
            } else {
                e = j + 1;
                TokenType::GT
            },
        );
    } else if c == '!' {
        kind = Ok(
            if j + 1 < len && text.get_char(j + 1) == '=' {
                e = j + 2;
                TokenType::NE
            } else {
                e = j + 1;
                TokenType::NEG
            },
        );
    } else if c == '=' {
        kind = Ok(
            if j + 1 < len && text.get_char(j + 1) == '=' {
                e = j + 2;
                TokenType::EQ
            } else {
                e = j + 1;
                TokenType::ASSIGN
            },
        );
    } else {
        let sk = symbol_lookup(c);
        if sk != TokenType::NONE {
            kind = Ok(sk);
        } else {
            kind = Err(Fault::IllegalChar);
        }
        e = j + 1;
    }
    proof {
        let o = scan_at(s, j as int);
        assert(o.class == kind && o.end == e as int);
        crate::model::lemma_advance_bounds(c0, s.subrange(0, j as int));
    }
    advance_cursor(cursor, text, j, e);
    let lex = text.substring_char(j, e).to_owned();
    let rem = text.substring_char(e, len);
    match kind {
        Ok(k) => (Ok(Token { token_type: k, lexemme: lex, start, end: *cursor }), rem),
        Err(f) => (
            Err(Error { start, end: *cursor, message: fault_text(f), lexemme: lex }),
            rem,
        ),
    }
}

/// Scans the whole of `contents`: every token in source order, every
/// lexical error in source order, each with its exact lexeme and span.
///
/// Scanning starts at line 1, column 1, never aborts, and resumes
/// immediately after each erroring construct; the `EOF` sentinel that
/// ends the pass is excluded from the output.
pub fn tokenize(contents: &str) -> (r: (Vec<Token>, Vec<Error>))
    requires
        contents@.len() + 1 <= usize::MAX,
    ensures
        ({
            let full = scan_text(contents@, CursorModel { lin: 1, col: 1 });
            &&& token_models(r.0@) == full.0
            &&& error_models(r.1@) == full.1
        }),
{
    let mut cursor = crate::utils::init_cursor();
    let mut tokens: Vec<Token> = Vec::new();
    let mut errors: Vec<Error> = Vec::new();
    let mut rem: &str = contents;
    proof {
        assert(token_models(tokens@) =~= Seq::<TokenModel>::empty());
        assert(error_models(errors@) =~= Seq::<ErrorModel>::empty());
        let full = scan_text(contents@, CursorModel { lin: 1, col: 1 });
        assert(token_models(tokens@) + full.0 =~= full.0);
        assert(error_models(errors@) + full.1 =~= full.1);
    }
    loop
        invariant
            cursor_wf(cursor@),
            cursor.col + rem@.len() <= usize::MAX,
            cursor.lin + rem@.len() <= usize::MAX,
            ({
                let full = scan_text(contents@, CursorModel { lin: 1, col: 1 });
                let sub = scan_text(rem@, cursor@);
                &&& token_models(tokens@) + sub.0 == full.0
                &&& error_models(errors@) + sub.1 == full.1
            }),
        decreases rem@.len(),
    {
        let ghost s = rem@;
        let ghost cm = cursor@;
        let ghost j = ws_end(s, 0);
        let (res, rest) = get_token(rem, &mut cursor);
        proof {
            lemma_ws_end_bounds(s, 0);
            if j < s.len() {
                lemma_scan_at_bounds(s, j);
                lemma_scan_at_not_eof(s, j);
                let o = scan_at(s, j);
                crate::model::lemma_advance_bounds(cm, s.take(j));
                crate::model::lemma_advance_bounds(
                    advance(cm, s.take(j)),
                    s.subrange(j, o.end),
                );
            }
        }
        match res {
            Ok(t) => {
                if t.token_type == TokenType::EOF {
                    proof {
                        let sub = scan_text(s, cm);
                        assert(token_models(tokens@) + sub.0 =~= token_models(tokens@));
                        assert(error_models(errors@) + sub.1 =~= error_models(errors@));
                    }
                    return (tokens, errors);
                }
                proof {
                    let o = scan_at(s, j);
                    let sub = scan_text(s, cm);
                    let sub2 = scan_text(s.subrange(o.end, s.len() as int), cursor@);
                    assert(token_models(tokens@.push(t)) =~= token_models(tokens@).push(t@));
                    assert(token_models(tokens@).push(t@) + sub2.0 =~= token_models(tokens@)
                        + (seq![t@] + sub2.0));
                    assert(seq![t@] + sub2.0 =~= sub.0);
                }
                tokens.push(t);
            },
            Err(er) => {
                proof {
                    let o = scan_at(s, j);
                    let sub = scan_text(s, cm);
                    let sub2 = scan_text(s.subrange(o.end, s.len() as int), cursor@);
                    assert(error_models(errors@.push(er)) =~= error_models(errors@).push(er@));
                    assert(error_models(errors@).push(er@) + sub2.1 =~= error_models(errors@)
                        + (seq![er@] + sub2.1));
                    assert(seq![er@] + sub2.1 =~= sub.1);
                }
                errors.push(er);
            },
        }
        rem = rest;
    }
}

} // verus!
