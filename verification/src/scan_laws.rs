//! What the expression scan gives at each position of a line, stated over
//! the bytes there: comments, words, numbers, strings and operators.
use vstd::prelude::*;
use crate::chars::{digit_byte, hex_digit_byte, ident_byte, ident_start_byte, space_byte};
use crate::keywords::{ascii, block_keywords, value_keywords};
use crate::model::{
    hash_fold, tag_hash, scan_block_comment, scan_heredoc_open, lemma_span, cons, lemma_span_exact, number_end, scan_expr, scan_line, string_close, tok, word_kind,
    ByteClass,
};
use crate::token::{TokenKind, STATE_HEREDOC, STATE_NORMAL};

verus! {

/// `j` is the first non-blank position at or after `i`.
pub open spec fn first_non_blank(s: Seq<u8>, i: int, j: int) -> bool {
    &&& 0 <= i <= j < s.len()
    &&& forall|k: int| i <= k < j ==> space_byte(#[trigger] s[k])
    &&& !space_byte(s[j])
}

/// `s[a..b]` is a run of digits that the next byte does not continue.
pub open spec fn digit_run(s: Seq<u8>, a: int, b: int) -> bool {
    &&& 0 <= a <= b <= s.len()
    &&& forall|k: int| a <= k < b ==> digit_byte(#[trigger] s[k])
    &&& b < s.len() ==> !digit_byte(s[b])
}

/// `s[a..b]` is a run of hexadecimal digits that the next byte does not continue.
pub open spec fn hex_run(s: Seq<u8>, a: int, b: int) -> bool {
    &&& 0 <= a <= b <= s.len()
    &&& forall|k: int| a <= k < b ==> hex_digit_byte(#[trigger] s[k])
    &&& b < s.len() ==> !hex_digit_byte(s[b])
}

/// `s[a..b]` is a run of identifier bytes that the next byte does not continue.
pub open spec fn ident_run(s: Seq<u8>, a: int, b: int) -> bool {
    &&& 0 <= a <= b <= s.len()
    &&& forall|k: int| a <= k < b ==> ident_byte(#[trigger] s[k])
    &&& b < s.len() ==> !ident_byte(s[b])
}

/// The number of backslashes just before `q`, counted back no further than `lo`.
pub open spec fn backslashes_before(s: Seq<u8>, lo: int, q: int) -> nat
    decreases q - lo,
{
    if lo < q && s[q - 1] == '\\' as u8 {
        1 + backslashes_before(s, lo, q - 1)
    } else {
        0
    }
}

/// In a string whose body starts at `lo`, the quote at `q` is not escaped:
/// an even number of backslashes stands right before it.
pub open spec fn closing_quote(s: Seq<u8>, lo: int, q: int) -> bool {
    &&& lo <= q < s.len()
    &&& s[q] == '"' as u8
    &&& backslashes_before(s, lo, q) % 2 == 0
}

proof fn lemma_first_non_blank(s: Seq<u8>, i: int, j: int)
    requires
        first_non_blank(s, i, j),
    ensures
        crate::model::skip_blanks(s, i) == j,
{
    lemma_span_exact(s, i, j, ByteClass::Blank);
}

/// A nonempty line in the normal state is the expression scan from its start.
pub proof fn law_normal_line_is_expression_scan(s: Seq<u8>)
    requires
        s.len() > 0,
    ensures
        scan_line(s, STATE_NORMAL) == scan_expr(s, 0),
{
}

/// Wherever the scan reaches a `#` or a `//`, the rest of the line is one
/// comment token and the line ends in the normal state.
pub proof fn law_line_comment_anywhere(s: Seq<u8>, i: int, j: int)
    requires
        first_non_blank(s, i, j),
        s[j] == '#' as u8 || (j + 1 < s.len() && s[j] == '/' as u8 && s[j + 1] == '/' as u8),
    ensures
        scan_expr(s, i) == (seq![tok(j, s.len() as int, TokenKind::Comment)], STATE_NORMAL),
{
    lemma_first_non_blank(s, i, j);
}

/// A word is highlighted as a boolean when it is `true` or `false`, as
/// `null` when it is `null`, as a keyword exactly when it equals one of the
/// listed keywords, and as a plain identifier otherwise.
pub proof fn law_word_kind(w: Seq<u8>)
    ensures
        word_kind(w) == TokenKind::Boolean <==> (w == ascii("true"@) || w == ascii("false"@)),
        word_kind(w) == TokenKind::Null <==> w == ascii("null"@),
        word_kind(w) == TokenKind::Keyword <==> (block_keywords().contains(w)
            || value_keywords().contains(w)),
        word_kind(w) == TokenKind::Default <==> !(w == ascii("true"@) || w == ascii("false"@)
            || w == ascii("null"@) || block_keywords().contains(w) || value_keywords().contains(w)),
{
    crate::keywords::lemma_block_keywords_shape();
    crate::keywords::lemma_value_keywords_not_literals();
    reveal_strlit("true");
    reveal_strlit("false");
    reveal_strlit("null");
    assert(ascii("null"@)[0] != ascii("true"@)[0]);
    assert(ascii("null"@).len() != ascii("false"@).len());
}

/// Where the scan reaches a word, the whole word, up to the first byte that
/// is not an identifier byte, is one token of the word's kind, and the scan
/// goes on after it.
pub proof fn law_word_token(s: Seq<u8>, i: int, j: int, e: int)
    requires
        first_non_blank(s, i, j),
        ident_start_byte(s[j]),
        ident_run(s, j, e),
    ensures
        scan_expr(s, i) == cons(tok(j, e, word_kind(s.subrange(j, e))), scan_expr(s, e)),
{
    lemma_first_non_blank(s, i, j);
    lemma_span_exact(s, j, e, ByteClass::Ident);
}

/// Where the scan reaches a digit, the number literal there is one token,
/// and the scan goes on after it.
pub proof fn law_number_token(s: Seq<u8>, i: int, j: int)
    requires
        first_non_blank(s, i, j),
        digit_byte(s[j]),
    ensures
        scan_expr(s, i) == cons(tok(j, number_end(s, j), TokenKind::Number), scan_expr(s, number_end(s, j))),
{
    lemma_first_non_blank(s, i, j);
}

/// A hexadecimal literal `0x..` or `0X..` runs over all the hex digits after
/// the prefix.
pub proof fn law_hex_number(s: Seq<u8>, i: int, h: int)
    requires
        0 <= i,
        i + 1 < s.len(),
        s[i] == '0' as u8,
        s[i + 1] == 'x' as u8 || s[i + 1] == 'X' as u8,
        hex_run(s, i + 2, h),
    ensures
        number_end(s, i) == h,
{
    lemma_span_exact(s, i + 2, h, ByteClass::HexDigit);
}

/// A decimal literal runs over its whole run of digits, then over a `.`
/// and the digits after it when a digit follows the `.`, then over an
/// exponent (`e` or `E`, an optional sign, and the digits after it) when
/// there is one. Its first digit makes no difference, `0` included.
pub proof fn law_decimal_number(s: Seq<u8>, i: int, a: int, b: int, c: int, d: int)
    requires
        0 <= i < s.len(),
        digit_byte(s[i]),
        !(s[i] == '0' as u8 && i + 1 < s.len() && (s[i + 1] == 'x' as u8 || s[i + 1] == 'X' as u8)),
        digit_run(s, i, a),
        if a + 1 < s.len() && s[a] == '.' as u8 && digit_byte(s[a + 1]) {
            digit_run(s, a + 1, b)
        } else {
            b == a
        },
        b < s.len() && (s[b] == 'e' as u8 || s[b] == 'E' as u8) ==> {
            &&& c == (if b + 1 < s.len() && (s[b + 1] == '+' as u8 || s[b + 1] == '-' as u8) {
                b + 2
            } else {
                b + 1
            })
            &&& digit_run(s, c, d)
        },
    ensures
        number_end(s, i) == (if b < s.len() && (s[b] == 'e' as u8 || s[b] == 'E' as u8) {
            d
        } else {
            b
        }),
{
    lemma_span_exact(s, i, a, ByteClass::Digit);
    if a + 1 < s.len() && s[a] == '.' as u8 && digit_byte(s[a + 1]) {
        lemma_span_exact(s, a + 1, b, ByteClass::Digit);
    }
    if b < s.len() && (s[b] == 'e' as u8 || s[b] == 'E' as u8) {
        lemma_span_exact(s, c, d, ByteClass::Digit);
    }
}

/// Where the scan reaches a `"`, the string literal there is one token,
/// and the scan goes on after it.
pub proof fn law_string_token(s: Seq<u8>, i: int, j: int)
    requires
        first_non_blank(s, i, j),
        s[j] == '"' as u8,
    ensures
        scan_expr(s, i) == cons(
            tok(j, string_close(s, j + 1), TokenKind::String),
            scan_expr(s, string_close(s, j + 1)),
        ),
{
    lemma_first_non_blank(s, i, j);
}

proof fn lemma_string_close_fresh(s: Seq<u8>, lo: int, i: int, q: int)
    requires
        0 <= lo <= i <= q,
        backslashes_before(s, lo, i) % 2 == 0,
        closing_quote(s, lo, q),
        forall|m: int| i <= m < q ==> !closing_quote(s, lo, m),
    ensures
        string_close(s, i) == q + 1,
    decreases q - i,
{
    if s[i] == '\\' as u8 {
        assert(backslashes_before(s, lo, i + 1) == 1 + backslashes_before(s, lo, i));
        if i + 1 == q {
            assert(false);
        }
        if s[i + 1] == '\\' as u8 {
            assert(backslashes_before(s, lo, i + 2) == 1 + backslashes_before(s, lo, i + 1));
        } else {
            assert(backslashes_before(s, lo, i + 2) == 0);
        }
        lemma_string_close_fresh(s, lo, i + 2, q);
    } else if s[i] == '"' as u8 {
        if i < q {
            assert(closing_quote(s, lo, i));
        }
    } else {
        assert(backslashes_before(s, lo, i + 1) == 0);
        lemma_string_close_fresh(s, lo, i + 1, q);
    }
}

proof fn lemma_string_unclosed_fresh(s: Seq<u8>, lo: int, i: int)
    requires
        0 <= lo <= i,
        i <= s.len() ==> backslashes_before(s, lo, i) % 2 == 0,
        forall|m: int| i <= m < s.len() ==> !closing_quote(s, lo, m),
    ensures
        string_close(s, i) == s.len(),
    decreases s.len() + 1 - i,
{
    if i < s.len() {
        if s[i] == '\\' as u8 {
            if i + 2 <= s.len() {
                assert(backslashes_before(s, lo, i + 1) == 1 + backslashes_before(s, lo, i));
                if s[i + 1] == '\\' as u8 {
                    assert(backslashes_before(s, lo, i + 2) == 1 + backslashes_before(s, lo, i + 1));
                } else {
                    assert(backslashes_before(s, lo, i + 2) == 0);
                }
            }
            lemma_string_unclosed_fresh(s, lo, i + 2);
        } else if s[i] == '"' as u8 {
            assert(closing_quote(s, lo, i));
        } else {
            assert(backslashes_before(s, lo, i + 1) == 0);
            lemma_string_unclosed_fresh(s, lo, i + 1);
        }
    }
}

/// A string whose body starts at `lo` ends just past its first quote that
/// is not escaped, a backslash escaping the byte after it, another
/// backslash included.
pub proof fn law_string_closes(s: Seq<u8>, lo: int, q: int)
    requires
        0 <= lo,
        closing_quote(s, lo, q),
        forall|m: int| lo <= m < q ==> !closing_quote(s, lo, m),
    ensures
        string_close(s, lo) == q + 1,
{
    lemma_string_close_fresh(s, lo, lo, q);
}

/// A string whose body starts at `lo` and that holds no quote that is not
/// escaped runs to the end of the line.
pub proof fn law_string_unclosed(s: Seq<u8>, lo: int)
    requires
        0 <= lo <= s.len(),
        forall|m: int| lo <= m < s.len() ==> !closing_quote(s, lo, m),
    ensures
        string_close(s, lo) == s.len(),
{
    lemma_string_unclosed_fresh(s, lo, lo);
}

/// The two-byte operators: `=>`, `!=`, `<=`, `>=`, `&&`, `||` and `%{`.
pub open spec fn two_byte_operator(a: u8, b: u8) -> bool {
    ||| a == '=' as u8 && b == '>' as u8
    ||| a == '!' as u8 && b == '=' as u8
    ||| a == '<' as u8 && b == '=' as u8
    ||| a == '>' as u8 && b == '=' as u8
    ||| a == '&' as u8 && b == '&' as u8
    ||| a == '|' as u8 && b == '|' as u8
    ||| a == '%' as u8 && b == '{' as u8
}

/// The one-byte delimiters and operators: `{ } [ ] ( ) , : ? . *` and a
/// `= ! < >` that does not begin a two-byte operator (or a `<<`).
pub open spec fn one_byte_operator(s: Seq<u8>, j: int) -> bool {
    let c = s[j];
    let next_is = |d: char| j + 1 < s.len() && s[j + 1] == d as u8;
    ||| c == '{' as u8 || c == '}' as u8 || c == '[' as u8 || c == ']' as u8
    ||| c == '(' as u8 || c == ')' as u8 || c == ',' as u8 || c == ':' as u8
    ||| c == '?' as u8 || c == '.' as u8 || c == '*' as u8
    ||| c == '=' as u8 && !next_is('>')
    ||| c == '!' as u8 && !next_is('=')
    ||| c == '>' as u8 && !next_is('=')
    ||| c == '<' as u8 && !next_is('=') && !next_is('<')
}

/// Where the scan reaches a two-byte operator, it is one punctuation token
/// over both bytes, and the scan goes on after it.
pub proof fn law_two_byte_operator(s: Seq<u8>, i: int, j: int)
    requires
        first_non_blank(s, i, j),
        j + 1 < s.len(),
        two_byte_operator(s[j], s[j + 1]),
    ensures
        scan_expr(s, i) == cons(tok(j, j + 2, TokenKind::Punctuation), scan_expr(s, j + 2)),
{
    lemma_first_non_blank(s, i, j);
}

/// Where the scan reaches a one-byte delimiter or operator, it is one
/// punctuation token, and the scan goes on after it.
pub proof fn law_one_byte_operator(s: Seq<u8>, i: int, j: int)
    requires
        first_non_blank(s, i, j),
        one_byte_operator(s, j),
    ensures
        scan_expr(s, i) == cons(tok(j, j + 1, TokenKind::Punctuation), scan_expr(s, j + 1)),
{
    lemma_first_non_blank(s, i, j);
}

/// Where only blanks are left, the scan gives no tokens and ends in the
/// normal state.
pub proof fn law_blank_rest(s: Seq<u8>, i: int)
    requires
        0 <= i <= s.len(),
        forall|k: int| i <= k < s.len() ==> space_byte(#[trigger] s[k]),
    ensures
        scan_expr(s, i) == (Seq::<crate::token::Token>::empty(), STATE_NORMAL),
{
    lemma_span_exact(s, i, s.len() as int, ByteClass::Blank);
}

/// Where the scan reaches a `/*`, a block comment opens there, its `*/`
/// looked for after the `/*`.
pub proof fn law_block_comment_token(s: Seq<u8>, i: int, j: int)
    requires
        first_non_blank(s, i, j),
        j + 1 < s.len(),
        s[j] == '/' as u8,
        s[j + 1] == '*' as u8,
    ensures
        scan_expr(s, i) == scan_block_comment(s, j, j + 2),
{
    lemma_first_non_blank(s, i, j);
}

/// Where the scan reaches a `<<` with no identifier byte after it (after an
/// optional `-`), the `<<` is one punctuation token and the scan goes on
/// after it; with a tag there, a heredoc opens (see `law_heredoc_round_trip`).
pub proof fn law_double_angle(s: Seq<u8>, i: int, j: int)
    requires
        first_non_blank(s, i, j),
        j + 1 < s.len(),
        s[j] == '<' as u8,
        s[j + 1] == '<' as u8,
    ensures
        scan_expr(s, i) == scan_heredoc_open(s, j),
        ({
            let q = if j + 2 < s.len() && s[j + 2] == '-' as u8 { j + 3 } else { j + 2 };
            !(q < s.len() && ident_byte(s[q])) ==> scan_expr(s, i) == cons(
                tok(j, j + 2, TokenKind::Punctuation),
                scan_expr(s, j + 2),
            )
        }),
{
    lemma_first_non_blank(s, i, j);
    assert(scan_expr(s, i) == scan_heredoc_open(s, j));
    let q = if j + 2 < s.len() && s[j + 2] == '-' as u8 { j + 3 } else { j + 2 };
    if !(q < s.len() && ident_byte(s[q])) {
        lemma_span(s, q, ByteClass::Ident);
        assert(crate::model::span(s, q, ByteClass::Ident) == q);
        assert(scan_heredoc_open(s, j) == cons(
            tok(j, j + 2, TokenKind::Punctuation),
            scan_expr(s, j + 2),
        ));
    }
}

/// Where the scan reaches a byte that begins nothing it knows (a lone `&`,
/// `|`, `%`, `/`, or any other byte outside words, numbers, strings,
/// comments and operators), that byte is skipped.
pub proof fn law_other_byte_skipped(s: Seq<u8>, i: int, j: int)
    requires
        first_non_blank(s, i, j),
        s[j] != '#' as u8,
        s[j] != '"' as u8,
        !(s[j] == '/' as u8 && j + 1 < s.len() && (s[j + 1] == '/' as u8 || s[j + 1] == '*' as u8)),
        !(s[j] == '<' as u8 && j + 1 < s.len() && s[j + 1] == '<' as u8),
        !(j + 1 < s.len() && two_byte_operator(s[j], s[j + 1])),
        !one_byte_operator(s, j),
        !ident_start_byte(s[j]),
        !digit_byte(s[j]),
    ensures
        scan_expr(s, i) == scan_expr(s, j + 1),
{
    lemma_first_non_blank(s, i, j);
}

/// The tag hash starts at 0 and takes in each byte `b` as `h * 31 + b`,
/// modulo 256; a hash that falls on the normal or the block-comment state
/// is moved up by `STATE_HEREDOC`.
pub proof fn law_tag_hash(t: Seq<u8>, b: u8)
    ensures
        hash_fold(Seq::<u8>::empty()) == 0,
        hash_fold(t.push(b)) as int == (hash_fold(t) as int * 31 + b as int) % 256,
        tag_hash(t) as int == if hash_fold(t) < STATE_HEREDOC {
            hash_fold(t) as int + STATE_HEREDOC as int
        } else {
            hash_fold(t) as int
        },
{
    assert(t.push(b).drop_last() =~= t);
}

} // verus!
