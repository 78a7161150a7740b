//! General properties of the scanner, each proved once and for all
//! inputs: whitespace-only input scans to nothing, every token's span
//! delimits exactly its lexeme, a line comment's newline moves the
//! cursor to the next line's first column, and an illegal character
//! costs exactly one error and nothing else.

use vstd::prelude::*;

use crate::data::TokenType;
use crate::model::{
    advance, fault_message, is_digit, is_id_start, is_ws, lemma_advance_concat,
    lemma_advance_no_newline, lemma_advance_snoc, lemma_line_end_bounds, lemma_line_end_chars,
    lemma_scan_at_bounds, lemma_ws_end_all, lemma_ws_end_bounds, line_end, scan_at, scan_text,
    symbol_kind, ws_end, CursorModel, ErrorModel, Fault, TokenModel,
};

verus! {

/// Input that holds nothing but whitespace scans to zero tokens and
/// zero errors.
pub proof fn lemma_whitespace_only(s: Seq<char>, cur: CursorModel)
    requires
        forall|i: int| 0 <= i < s.len() ==> is_ws(s[i]),
    ensures
        scan_text(s, cur).0 == Seq::<TokenModel>::empty(),
        scan_text(s, cur).1 == Seq::<ErrorModel>::empty(),
{
    lemma_ws_end_all(s, 0);
}

/// The span of a token delimits exactly its lexeme: its start is the
/// cursor at some position `i` of the scanned text, its end the cursor
/// at some position `e`, and the characters between the two are the
/// token's lexeme.
pub open spec fn span_delimits(s: Seq<char>, cur: CursorModel, t: TokenModel) -> bool {
    exists|i: int, e: int|
        {
            &&& 0 <= i <= e <= s.len()
            &&& t.lexemme == s.subrange(i, e)
            &&& t.start == advance(cur, s.take(i))
            &&& t.end == advance(cur, s.take(e))
        }
}

/// Every token produced by a scan carries a span that delimits exactly
/// its lexeme within the scanned text.
pub proof fn lemma_token_spans(s: Seq<char>, cur: CursorModel)
    ensures
        forall|n: int|
            0 <= n < scan_text(s, cur).0.len() ==> span_delimits(
                s,
                cur,
                #[trigger] scan_text(s, cur).0[n],
            ),
    decreases s.len(),
{
    let j = ws_end(s, 0);
    lemma_ws_end_bounds(s, 0);
    if j < s.len() {
        lemma_scan_at_bounds(s, j);
        let o = scan_at(s, j);
        let e = o.end;
        let start = advance(cur, s.take(j));
        let endc = advance(start, s.subrange(j, e));
        let s2 = s.subrange(e, s.len() as int);
        lemma_token_spans(s2, endc);
        assert(s.take(j) + s.subrange(j, e) =~= s.take(e));
        lemma_advance_concat(cur, s.take(j), s.subrange(j, e));
        assert(endc == advance(cur, s.take(e)));
        let toks = scan_text(s, cur).0;
        assert forall|n: int| 0 <= n < toks.len() implies span_delimits(
            s,
            cur,
            #[trigger] toks[n],
        ) by {
            let shift: int = if o.class is Ok {
                1
            } else {
                0
            };
            if o.class is Ok && n == 0 {
                assert(toks[0].lexemme == s.subrange(j, e));
                assert(toks[0].start == advance(cur, s.take(j)));
                assert(toks[0].end == advance(cur, s.take(e)));
                assert(span_delimits(s, cur, toks[0]));
            } else {
                let t2 = scan_text(s2, endc).0[n - shift];
                assert(toks[n] == t2);
                assert(span_delimits(s2, endc, t2));
                let (i2, e2): (int, int) = choose|i2: int, e2: int|
                    {
                        &&& 0 <= i2 <= e2 <= s2.len()
                        &&& t2.lexemme == s2.subrange(i2, e2)
                        &&& t2.start == advance(endc, s2.take(i2))
                        &&& t2.end == advance(endc, s2.take(e2))
                    };
                assert(s2.subrange(i2, e2) =~= s.subrange(e + i2, e + e2));
                assert(s.take(e) + s2.take(i2) =~= s.take(e + i2));
                assert(s.take(e) + s2.take(e2) =~= s.take(e + e2));
                lemma_advance_concat(cur, s.take(e), s2.take(i2));
                lemma_advance_concat(cur, s.take(e), s2.take(e2));
                assert(t2.start == advance(cur, s.take(e + i2)));
                assert(t2.end == advance(cur, s.take(e + e2)));
                assert(span_delimits(s, cur, t2));
            }
        }
    }
}

/// A line comment holds no newline, and the newline that ends it moves
/// the cursor to the line after the comment's start, at column 1: the
/// position of the next token when one begins right there.
pub proof fn lemma_line_comment_newline(s: Seq<char>, cur: CursorModel, j: int)
    requires
        0 <= j < s.len(),
        scan_at(s, j).class == Ok::<TokenType, Fault>(TokenType::INLINE_COMMENT),
        scan_at(s, j).end < s.len(),
    ensures
        ({
            let e = scan_at(s, j).end;
            let start = advance(cur, s.take(j));
            &&& forall|k: int| j <= k < e ==> s[k] != '\n'
            &&& s[e] == '\n'
            &&& advance(start, s.subrange(j, e + 1)).lin == start.lin + 1
            &&& advance(start, s.subrange(j, e + 1)).col == 1
        }),
{
    let e = scan_at(s, j).end;
    let start = advance(cur, s.take(j));
    assert(s[j] == '/' && j + 1 < s.len() && s[j + 1] == '/');
    assert(e == line_end(s, j + 2));
    lemma_line_end_bounds(s, j + 2);
    lemma_line_end_chars(s, j + 2);
    let lex = s.subrange(j, e);
    assert forall|i: int| 0 <= i < lex.len() implies lex[i] != '\n' by {
        assert(lex[i] == s[j + i]);
    }
    lemma_advance_no_newline(start, lex);
    lemma_advance_snoc(start, lex, '\n');
    assert(s.subrange(j, e + 1) =~= lex.push('\n'));
}

/// The characters a scan accounts for, in source order: the skipped
/// leading whitespace, then the first construct's lexeme — the very
/// characters emitted as the first token's or error's lexeme — then
/// whatever the rest of the scan accounts for. On all-whitespace input
/// it is the input itself.
pub open spec fn scan_coverage(s: Seq<char>) -> Seq<char>
    decreases s.len(),
    via scan_coverage_decreases
{
    let j = ws_end(s, 0);
    if j >= s.len() {
        s
    } else {
        let o = scan_at(s, j);
        s.take(j) + s.subrange(j, o.end) + scan_coverage(s.subrange(o.end, s.len() as int))
    }
}

#[via_fn]
proof fn scan_coverage_decreases(s: Seq<char>) {
    let j = ws_end(s, 0);
    if j < s.len() {
        lemma_ws_end_bounds(s, 0);
        lemma_scan_at_bounds(s, j);
    }
}

/// Scanning loses nothing: concatenating the skipped whitespace regions
/// and the emitted lexemes, tokens and errors alike, reconstructs the
/// input exactly.
pub proof fn lemma_reconstruction(s: Seq<char>)
    ensures
        scan_coverage(s) == s,
    decreases s.len(),
{
    let j = ws_end(s, 0);
    lemma_ws_end_bounds(s, 0);
    if j < s.len() {
        lemma_scan_at_bounds(s, j);
        let o = scan_at(s, j);
        lemma_reconstruction(s.subrange(o.end, s.len() as int));
        assert(s.take(j) + s.subrange(j, o.end) + s.subrange(o.end, s.len() as int) =~= s);
    }
}

/// A character that can begin no token at all: not whitespace, and not
/// the first character of any literal, identifier, comment, operator or
/// symbol.
pub open spec fn is_illegal(c: char) -> bool {
    &&& !is_ws(c)
    &&& !is_digit(c)
    &&& !is_id_start(c)
    &&& c != '+'
    &&& c != '-'
    &&& c != '/'
    &&& c != '<'
    &&& c != '>'
    &&& c != '!'
    &&& c != '='
    &&& symbol_kind(c) == TokenType::NONE
}

/// An illegal character costs exactly one error and nothing else:
/// every token of the remaining input is kept, the one error covers
/// exactly that character, and scanning resumes right after it.
pub proof fn lemma_illegal_char_recovery(s: Seq<char>, cur: CursorModel)
    requires
        ws_end(s, 0) < s.len(),
        is_illegal(s[ws_end(s, 0)]),
    ensures
        ({
            let j = ws_end(s, 0);
            let rest = scan_text(
                s.subrange(j + 1, s.len() as int),
                advance(cur, s.take(j + 1)),
            );
            &&& scan_text(s, cur).0 == rest.0
            &&& scan_text(s, cur).1.len() == 1 + rest.1.len()
            &&& scan_text(s, cur).1 == seq![scan_text(s, cur).1[0]] + rest.1
            &&& scan_text(s, cur).1[0].message == fault_message(Fault::IllegalChar)
            &&& scan_text(s, cur).1[0].lexemme == s.subrange(j, j + 1)
        }),
{
    let j = ws_end(s, 0);
    lemma_ws_end_bounds(s, 0);
    let o = scan_at(s, j);
    assert(o.class == Err::<TokenType, Fault>(Fault::IllegalChar) && o.end == j + 1);
    let start = advance(cur, s.take(j));
    assert(s.take(j) + s.subrange(j, j + 1) =~= s.take(j + 1));
    lemma_advance_concat(cur, s.take(j), s.subrange(j, j + 1));
}

} // verus!
