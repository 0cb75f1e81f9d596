//! The meaning of the tokenizer: what each line turns into, written as
//! functions on the line's bytes.
use vstd::prelude::*;
use crate::chars::{digit_byte, hex_digit_byte, ident_byte, ident_start_byte, space_byte};
use crate::keywords::{ascii, block_keywords, value_keywords};
use crate::token::{Token, TokenKind, STATE_BLOCK_COMMENT, STATE_HEREDOC, STATE_NORMAL};

verus! {

/// The classes of bytes that the scanner runs over.
pub enum ByteClass {
    Blank,
    Ident,
    Digit,
    HexDigit,
}

pub open spec fn in_class(c: ByteClass, b: u8) -> bool {
    match c {
        ByteClass::Blank => space_byte(b),
        ByteClass::Ident => ident_byte(b),
        ByteClass::Digit => digit_byte(b),
        ByteClass::HexDigit => hex_digit_byte(b),
    }
}

/// The end of the run of bytes of class `c` that starts at `i`.
pub open spec fn span(s: Seq<u8>, i: int, c: ByteClass) -> int
    decreases s.len() - i,
{
    if 0 <= i < s.len() && in_class(c, s[i]) {
        span(s, i + 1, c)
    } else {
        i
    }
}

/// The first position at or after `i` that holds no blank.
pub open spec fn skip_blanks(s: Seq<u8>, i: int) -> int {
    span(s, i, ByteClass::Blank)
}

/// The end of a string literal whose body starts at `i`: just past the
/// closing quote, or the end of the line if the string is not closed.
/// A backslash escapes the byte after it.
pub open spec fn string_close(s: Seq<u8>, i: int) -> int
    decreases s.len() + 1 - i,
{
    if i < 0 || i >= s.len() {
        s.len() as int
    } else if s[i] == '\\' as u8 {
        string_close(s, i + 2)
    } else if s[i] == '"' as u8 {
        i + 1
    } else {
        string_close(s, i + 1)
    }
}

/// The end of the number literal at `i`: hexadecimal (`0x..`), or decimal
/// digits with an optional fraction and an optional exponent.
pub open spec fn number_end(s: Seq<u8>, i: int) -> int {
    let n = s.len();
    if i + 1 < n && s[i] == '0' as u8 && (s[i + 1] == 'x' as u8 || s[i + 1] == 'X' as u8) {
        span(s, i + 2, ByteClass::HexDigit)
    } else {
        let a = span(s, i, ByteClass::Digit);
        let b = if a < n && s[a] == '.' as u8 && a + 1 < n && digit_byte(s[a + 1]) {
            span(s, a + 1, ByteClass::Digit)
        } else {
            a
        };
        if b < n && (s[b] == 'e' as u8 || s[b] == 'E' as u8) {
            let c = if b + 1 < n && (s[b + 1] == '+' as u8 || s[b + 1] == '-' as u8) {
                b + 2
            } else {
                b + 1
            };
            span(s, c, ByteClass::Digit)
        } else {
            b
        }
    }
}

/// The first `*/` at or after `i`, by the position of its `*`.
pub open spec fn comment_close(s: Seq<u8>, i: int) -> Option<int>
    decreases s.len() - i,
{
    if 0 <= i && i + 1 < s.len() {
        if s[i] == '*' as u8 && s[i + 1] == '/' as u8 {
            Some(i)
        } else {
            comment_close(s, i + 1)
        }
    } else {
        None
    }
}

/// `e` moved back over the blanks that end `s[lo..e]`.
pub open spec fn trim_end(s: Seq<u8>, lo: int, e: int) -> int
    decreases e - lo,
{
    if lo < e && space_byte(s[e - 1]) {
        trim_end(s, lo, e - 1)
    } else {
        e
    }
}

/// The byte hash of a heredoc tag: `h = h * 31 + b` over the bytes, modulo 256.
pub open spec fn hash_fold(t: Seq<u8>) -> u8
    decreases t.len(),
{
    if t.len() == 0 {
        0
    } else {
        ((hash_fold(t.drop_last()) * 31 + t.last()) % 256) as u8
    }
}

/// The state that an open heredoc with tag `t` is kept in: the tag's hash,
/// moved up by `STATE_HEREDOC` when it would fall on a non-heredoc state.
pub open spec fn tag_hash(t: Seq<u8>) -> u8 {
    let h = hash_fold(t);
    if h < STATE_HEREDOC {
        (h + STATE_HEREDOC) as u8
    } else {
        h
    }
}

/// How a word is highlighted.
pub open spec fn word_kind(w: Seq<u8>) -> TokenKind {
    if w == ascii("true"@) || w == ascii("false"@) {
        TokenKind::Boolean
    } else if w == ascii("null"@) {
        TokenKind::Null
    } else if block_keywords().contains(w) || value_keywords().contains(w) {
        TokenKind::Keyword
    } else {
        TokenKind::Default
    }
}

/// Where a block keyword that starts at `i` ends, if the word at `i` is one.
pub open spec fn block_keyword_end(s: Seq<u8>, i: int) -> Option<int> {
    let e = span(s, i, ByteClass::Ident);
    if 0 <= i <= s.len() && block_keywords().contains(s.subrange(i, e)) {
        Some(e)
    } else {
        None
    }
}

/// The length of the operator or delimiter at `j` (0 where there is none).
pub open spec fn operator_len(s: Seq<u8>, j: int) -> int {
    let c = s[j];
    let next_is = |d: char| j + 1 < s.len() && s[j + 1] == d as u8;
    if c == '{' as u8 || c == '}' as u8 || c == '[' as u8 || c == ']' as u8 || c == '(' as u8
        || c == ')' as u8 || c == ',' as u8 || c == ':' as u8 || c == '?' as u8 || c == '.' as u8
        || c == '*' as u8 {
        1
    } else if c == '=' as u8 {
        if next_is('>') { 2 } else { 1 }
    } else if c == '!' as u8 || c == '<' as u8 || c == '>' as u8 {
        if next_is('=') { 2 } else { 1 }
    } else if (c == '&' as u8 && next_is('&')) || (c == '|' as u8 && next_is('|')) || (c == '%' as u8
        && next_is('{')) {
        2
    } else {
        0
    }
}

/// The token of `s[start..end]`.
pub open spec fn tok(start: int, end: int, kind: TokenKind) -> Token {
    Token { offset: start as usize, len: (end - start) as usize, kind }
}

/// A token put in front of the rest of a scan.
pub open spec fn cons(t: Token, rest: (Seq<Token>, u8)) -> (Seq<Token>, u8) {
    (seq![t] + rest.0, rest.1)
}

/// The tokens of `s` from position `i` on, outside comments and heredocs,
/// and the state at the end of the line.
pub open spec fn scan_expr(s: Seq<u8>, i: int) -> (Seq<Token>, u8)
    decreases s.len() - i, 1int,
{
    let n = s.len() as int;
    let j = skip_blanks(s, i);
    if j < 0 || j >= n {
        (seq![], STATE_NORMAL)
    } else {
        proof {
            lemma_span(s, i, ByteClass::Blank);
        }
        let c = s[j];
        let next_is = |d: char| j + 1 < n && s[j + 1] == d as u8;
        if c == '#' as u8 || (c == '/' as u8 && next_is('/')) {
            (seq![tok(j, n, TokenKind::Comment)], STATE_NORMAL)
        } else if c == '/' as u8 && next_is('*') {
            scan_block_comment(s, j, j + 2)
        } else if c == '"' as u8 {
            proof {
                lemma_string_close(s, j + 1);
            }
            let e = string_close(s, j + 1);
            cons(tok(j, e, TokenKind::String), scan_expr(s, e))
        } else if c == '<' as u8 && next_is('<') {
            scan_heredoc_open(s, j)
        } else if operator_len(s, j) > 0 {
            let e = j + operator_len(s, j);
            cons(tok(j, e, TokenKind::Punctuation), scan_expr(s, e))
        } else if ident_start_byte(c) {
            proof {
                lemma_span(s, j, ByteClass::Ident);
            }
            let e = span(s, j, ByteClass::Ident);
            cons(tok(j, e, word_kind(s.subrange(j, e))), scan_expr(s, e))
        } else if digit_byte(c) {
            proof {
                lemma_number_end(s, j);
            }
            let e = number_end(s, j);
            cons(tok(j, e, TokenKind::Number), scan_expr(s, e))
        } else {
            scan_expr(s, j + 1)
        }
    }
}

/// The scan of a block comment that runs from `start`, whose closing `*/`
/// is looked for from `from` on (just past the `/*` when the comment opens
/// on this line): the comment up to and with its `*/`, then the rest of the
/// line; or, when the comment does not close on this line, all of it,
/// leaving the comment open.
pub open spec fn scan_block_comment(s: Seq<u8>, start: int, from: int) -> (Seq<Token>, u8)
    decreases s.len() - start, 0int,
    when 0 <= start <= from
{
    let n = s.len() as int;
    match comment_close(s, from) {
        Some(k) => {
            proof {
                lemma_comment_close(s, from);
            }
            let t = tok(start, k + 2, TokenKind::Comment);
            if k + 2 < n {
                cons(t, scan_expr(s, k + 2))
            } else {
                (seq![t], STATE_NORMAL)
            }
        },
        None => (seq![tok(start, n, TokenKind::Comment)], STATE_BLOCK_COMMENT),
    }
}

/// The scan from a `<<` at `start`: a heredoc opener `<<TAG` or `<<-TAG`
/// ends the line and opens the heredoc; a bare `<<` is an operator, and
/// the line goes on after it.
pub open spec fn scan_heredoc_open(s: Seq<u8>, start: int) -> (Seq<Token>, u8)
    decreases s.len() - start, 0int,
    when 0 <= start
{
    let p = start + 2;
    let q = if p < s.len() && s[p] == '-' as u8 {
        p + 1
    } else {
        p
    };
    let e = span(s, q, ByteClass::Ident);
    if e > q {
        (seq![tok(start, e, TokenKind::Punctuation)], tag_hash(s.subrange(q, e)))
    } else {
        let rest = if start + 2 <= s.len() {
            scan_expr(s, start + 2)
        } else {
            (seq![], STATE_NORMAL)
        };
        cons(tok(start, start + 2, TokenKind::Punctuation), rest)
    }
}

/// Whether every byte of `t` is an identifier byte, as in a heredoc tag.
pub open spec fn all_ident_bytes(t: Seq<u8>) -> bool {
    forall|k: int| 0 <= k < t.len() ==> ident_byte(#[trigger] t[k])
}

/// The text of a line with its leading and trailing blanks cut off.
pub open spec fn trimmed(s: Seq<u8>) -> Seq<u8> {
    let a = skip_blanks(s, 0);
    s.subrange(a, trim_end(s, a, s.len() as int))
}

/// Whether the line closes the heredoc kept in `state`: its trimmed text
/// is a tag of identifier bytes whose hash is `state`. The state keeps only
/// the tag's hash, so any such word with the same hash closes it too.
pub open spec fn closes_heredoc(s: Seq<u8>, state: u8) -> bool {
    let t = trimmed(s);
    t.len() > 0 && all_ident_bytes(t) && tag_hash(t) == state
}

/// A line inside a heredoc: the closing line is punctuation and ends the
/// heredoc; any other line is string text and keeps it open.
pub open spec fn scan_heredoc_line(s: Seq<u8>, state: u8) -> (Seq<Token>, u8) {
    let n = s.len() as int;
    if closes_heredoc(s, state) {
        (seq![tok(0, n, TokenKind::Punctuation)], STATE_NORMAL)
    } else {
        (seq![tok(0, n, TokenKind::String)], state)
    }
}

/// The tokens of a line that starts in `state`, and the state it ends in.
pub open spec fn scan_line(s: Seq<u8>, state: u8) -> (Seq<Token>, u8) {
    if s.len() == 0 {
        (seq![], state)
    } else if state == STATE_BLOCK_COMMENT {
        scan_block_comment(s, 0, 0)
    } else if state >= STATE_HEREDOC {
        scan_heredoc_line(s, state)
    } else {
        scan_expr(s, 0)
    }
}

// ---------------------------------------------------------------------------
// Facts about the scanning functions.

pub proof fn lemma_span(s: Seq<u8>, i: int, c: ByteClass)
    ensures
        0 <= i <= s.len() ==> i <= span(s, i, c) <= s.len(),
        !(0 <= i <= s.len()) ==> span(s, i, c) == i,
        forall|k: int| i <= k < span(s, i, c) ==> in_class(c, #[trigger] s[k]),
        0 <= span(s, i, c) < s.len() ==> !in_class(c, s[span(s, i, c)]),
        0 <= i < s.len() && in_class(c, s[i]) ==> span(s, i, c) > i,
    decreases s.len() - i,
{
    if 0 <= i < s.len() && in_class(c, s[i]) {
        lemma_span(s, i + 1, c);
    }
}

/// A run that is all of class `c` and is not followed by a byte of class
/// `c` is the span from its start.
pub proof fn lemma_span_exact(s: Seq<u8>, i: int, e: int, c: ByteClass)
    requires
        0 <= i <= e <= s.len(),
        forall|k: int| i <= k < e ==> in_class(c, #[trigger] s[k]),
        e < s.len() ==> !in_class(c, s[e]),
    ensures
        span(s, i, c) == e,
    decreases e - i,
{
    if i < e {
        lemma_span_exact(s, i + 1, e, c);
    }
}

pub proof fn lemma_string_close(s: Seq<u8>, i: int)
    requires
        0 <= i,
    ensures
        string_close(s, i) <= s.len(),
        i <= s.len() ==> i <= string_close(s, i),
    decreases s.len() + 1 - i,
{
    if i < s.len() {
        if s[i] == '\\' as u8 {
            lemma_string_close(s, i + 2);
        } else if s[i] != '"' as u8 {
            lemma_string_close(s, i + 1);
        }
    }
}

pub proof fn lemma_number_end(s: Seq<u8>, i: int)
    requires
        0 <= i < s.len(),
        digit_byte(s[i]),
    ensures
        i < number_end(s, i) <= s.len(),
{
    let n = s.len() as int;
    if i + 1 < n && s[i] == '0' as u8 && (s[i + 1] == 'x' as u8 || s[i + 1] == 'X' as u8) {
        lemma_span(s, i + 2, ByteClass::HexDigit);
    } else {
        lemma_span(s, i, ByteClass::Digit);
        let a = span(s, i, ByteClass::Digit);
        if a < n && s[a] == '.' as u8 && a + 1 < n && digit_byte(s[a + 1]) {
            lemma_span(s, a + 1, ByteClass::Digit);
        }
        let b = if a < n && s[a] == '.' as u8 && a + 1 < n && digit_byte(s[a + 1]) {
            span(s, a + 1, ByteClass::Digit)
        } else {
            a
        };
        if b < n && (s[b] == 'e' as u8 || s[b] == 'E' as u8) {
            let c = if b + 1 < n && (s[b + 1] == '+' as u8 || s[b + 1] == '-' as u8) {
                b + 2
            } else {
                b + 1
            };
            lemma_span(s, c, ByteClass::Digit);
        }
    }
}

pub proof fn lemma_comment_close(s: Seq<u8>, i: int)
    requires
        0 <= i,
    ensures
        comment_close(s, i) matches Some(k) ==> {
            &&& i <= k
            &&& k + 1 < s.len()
            &&& s[k] == '*' as u8
            &&& s[k + 1] == '/' as u8
            &&& forall|m: int|
                i <= m < k ==> !(#[trigger] s[m] == '*' as u8 && s[m + 1] == '/' as u8)
        },
        comment_close(s, i) is None ==> forall|m: int|
            i <= m && m + 1 < s.len() ==> !(#[trigger] s[m] == '*' as u8 && s[m + 1] == '/' as u8),
    decreases s.len() - i,
{
    if i + 1 < s.len() && !(s[i] == '*' as u8 && s[i + 1] == '/' as u8) {
        lemma_comment_close(s, i + 1);
    }
}

/// Trailing blanks that start just after a non-blank at `m` are cut back to `m`.
pub proof fn lemma_trim_end_exact(s: Seq<u8>, lo: int, m: int, e: int)
    requires
        0 <= lo < m <= e <= s.len(),
        !space_byte(s[m - 1]),
        forall|k: int| m <= k < e ==> space_byte(#[trigger] s[k]),
    ensures
        trim_end(s, lo, e) == m,
    decreases e - m,
{
    if m < e {
        lemma_trim_end_exact(s, lo, m, e - 1);
    }
}

} // verus!
