//! HCL/Terraform syntax highlighting tokenizer.
//!
//! Supports HashiCorp Configuration Language files (`.tf`, `.tfvars`, `.hcl`).
//!
//! Recognized constructs:
//! - Block types: `resource`, `variable`, `output`, `data`, `module`, `provider`,
//!   `terraform`, `locals`, `moved`, `import`, `check`, `removed`
//! - Attributes: `key = value`
//! - Strings: `"..."` with `${...}` interpolation
//! - Comments: `#`, `//` (line), `/* ... */` (block)
//! - Numbers, booleans (`true`/`false`), and `null`
//! - Heredocs: `<<EOF ... EOF`, `<<-EOF ... EOF`
//! - Braces, brackets, parentheses
//!
//! State encoding (u8):
//!   0 = normal
//!   1 = inside block comment (`/* ... */`)
//!   2..=255 = inside heredoc (state encodes a tag hash)
use vstd::prelude::*;
use crate::chars::{ident_byte, ident_start_byte, is_alnum, is_alpha, is_digit, is_hex_digit, is_space, space_byte};
use crate::keywords::{ascii, block_keywords, hcl_keywords, hcl_value_keywords, literal_words, value_keywords};
use crate::model::{
    all_ident_bytes, block_keyword_end, comment_close, cons, hash_fold, lemma_number_end, lemma_span,
    lemma_span_exact, lemma_string_close, number_end, scan_block_comment, scan_expr, scan_heredoc_line,
    scan_heredoc_open, scan_line, span, skip_blanks, string_close, tag_hash, tok, trim_end,
    trimmed, word_kind, ByteClass,
};
use crate::laws::{law_tokens_in_order, well_placed};
use crate::token::{Token, TokenKind, STATE_BLOCK_COMMENT, STATE_HEREDOC, STATE_NORMAL};

verus! {

/// Moves `i` past the blanks (spaces and tabs) that start at it.
pub fn skip_space(line: &[u8], i: &mut usize)
    ensures
        *final(i) as int == skip_blanks(line@, *old(i) as int),
{
    proof {
        lemma_span(line@, *i as int, ByteClass::Blank);
    }
    while *i < line.len() && is_space(line[*i])
        invariant
            skip_blanks(line@, *i as int) == skip_blanks(line@, *old(i) as int),
        decreases line@.len() - *i,
    {
        *i += 1;
    }
}

pub fn is_ident_start(b: u8) -> (r: bool)
    ensures
        r == ident_start_byte(b),
{
    is_alpha(b) || b == '_' as u8
}

pub fn is_ident_char(b: u8) -> (r: bool)
    ensures
        r == ident_byte(b),
{
    is_alnum(b) || b == '_' as u8 || b == '-' as u8
}

/// Whether two byte strings are equal.
fn same_bytes(a: &[u8], b: &[u8]) -> (r: bool)
    ensures
        r == (a@ == b@),
{
    if a.len() != b.len() {
        return false;
    }
    let mut k: usize = 0;
    while k < a.len()
        invariant
            a@.len() == b@.len(),
            k <= a@.len(),
            forall|m: int| 0 <= m < k ==> a@[m] == b@[m],
        decreases a@.len() - k,
    {
        if a[k] != b[k] {
            return false;
        }
        k += 1;
    }
    assert(a@ =~= b@);
    true
}

/// One step of the tag hash, in wrapping `u8` arithmetic.
proof fn lemma_hash_step(h: u8, b: u8)
    ensures
        h.wrapping_mul(31).wrapping_add(b) == ((h * 31 + b) % 256) as u8,
{
    let m = h.wrapping_mul(31);
    assert(m == (h * 31) % 256);
    assert(((h * 31) % 256 + b) % 256 == (h * 31 + b) % 256) by (nonlinear_arith);
}

/// Computes a simple hash for the heredoc tag to store in state.
pub fn heredoc_tag_hash(tag: &[u8]) -> (h: u8)
    ensures
        h == tag_hash(tag@),
        h >= STATE_HEREDOC,
{
    let mut h: u8 = 0;
    let mut k: usize = 0;
    while k < tag.len()
        invariant
            k <= tag@.len(),
            h == hash_fold(tag@.subrange(0, k as int)),
        decreases tag@.len() - k,
    {
        let b = tag[k];
        proof {
            lemma_hash_step(h, b);
            assert(tag@.subrange(0, k + 1).drop_last() =~= tag@.subrange(0, k as int));
        }
        h = h.wrapping_mul(31).wrapping_add(b);
        k += 1;
    }
    assert(tag@.subrange(0, k as int) =~= tag@);
    // Ensure it maps into the heredoc state range (>= STATE_HEREDOC).
    if h < STATE_HEREDOC {
        h = h.wrapping_add(STATE_HEREDOC);
    }
    h
}

/// Classifies an identifier word.
pub fn classify_word(word: &[u8]) -> (kind: TokenKind)
    ensures
        kind == word_kind(word@),
{
    let (w_true, w_false, w_null) = literal_words();
    if same_bytes(word, w_true) || same_bytes(word, w_false) {
        return TokenKind::Boolean;
    }
    if same_bytes(word, w_null) {
        return TokenKind::Null;
    }
    assert(word@ != ascii("true"@) && word@ != ascii("false"@) && word@ != ascii("null"@));
    let kws = hcl_keywords();
    let mut k: usize = 0;
    while k < kws.len()
        invariant
            kws@.len() == block_keywords().len(),
            forall|m: int| 0 <= m < kws@.len() ==> (#[trigger] kws@[m])@ == block_keywords()[m],
            k <= kws@.len(),
            forall|m: int| 0 <= m < k ==> block_keywords()[m] != word@,
            word@ != ascii("true"@) && word@ != ascii("false"@) && word@ != ascii("null"@),
        decreases kws@.len() - k,
    {
        if same_bytes(word, kws[k]) {
            assert(block_keywords()[k as int] == word@);
            assert(block_keywords().contains(word@));
            return TokenKind::Keyword;
        }
        k += 1;
    }
    let vkws = hcl_value_keywords();
    let mut k: usize = 0;
    while k < vkws.len()
        invariant
            vkws@.len() == value_keywords().len(),
            forall|m: int| 0 <= m < vkws@.len() ==> (#[trigger] vkws@[m])@ == value_keywords()[m],
            k <= vkws@.len(),
            forall|m: int| 0 <= m < k ==> value_keywords()[m] != word@,
            !block_keywords().contains(word@),
            word@ != ascii("true"@) && word@ != ascii("false"@) && word@ != ascii("null"@),
        decreases vkws@.len() - k,
    {
        if same_bytes(word, vkws[k]) {
            assert(value_keywords()[k as int] == word@);
            assert(value_keywords().contains(word@));
            return TokenKind::Keyword;
        }
        k += 1;
    }
    TokenKind::Default
}

/// Scans a number literal (integer, float, hex). Returns new position.
pub fn scan_number(line: &[u8], start: usize) -> (end: usize)
    ensures
        end as int == number_end(line@, start as int),
{
    let len = line.len();
    let mut i = start;
    let ghost s = line@;

    // Hex: 0x...
    if i < len && i + 1 < len && line[i] == '0' as u8 && (line[i + 1] == 'x' as u8 || line[i + 1] == 'X' as u8) {
        i += 2;
        while i < len && is_hex_digit(line[i])
            invariant
                start + 2 <= i <= len,
                len == s.len(),
                s == line@,
                span(s, i as int, ByteClass::HexDigit) == span(s, start + 2, ByteClass::HexDigit),
            decreases len - i,
        {
            i += 1;
        }
        return i;
    }

    // Decimal digits.
    while i < len && is_digit(line[i])
        invariant
            start <= i,
            len == s.len(),
            s == line@,
            span(s, i as int, ByteClass::Digit) == span(s, start as int, ByteClass::Digit),
        decreases len - i,
    {
        i += 1;
    }
    let ghost a = i as int;

    // Fractional part.
    if i < len && line[i] == '.' as u8 && i + 1 < len && is_digit(line[i + 1]) {
        i += 1;
        while i < len && is_digit(line[i])
            invariant
                a + 1 <= i,
                len == s.len(),
                s == line@,
                span(s, i as int, ByteClass::Digit) == span(s, a + 1, ByteClass::Digit),
            decreases len - i,
        {
            i += 1;
        }
    }
    let ghost b = i as int;

    // Exponent.
    if i < len && (line[i] == 'e' as u8 || line[i] == 'E' as u8) {
        i += 1;
        if i < len && (line[i] == '+' as u8 || line[i] == '-' as u8) {
            i += 1;
        }
        let ghost c = i as int;
        while i < len && is_digit(line[i])
            invariant
                c <= i,
                len == s.len(),
                s == line@,
                span(s, i as int, ByteClass::Digit) == span(s, c, ByteClass::Digit),
            decreases len - i,
        {
            i += 1;
        }
    }
    i
}

/// Tokenizes a double-quoted string starting at `start`. Returns the new position.
pub fn tokenize_string(line: &[u8], start: usize, tokens: &mut Vec<Token>) -> (end: usize)
    requires
        start <= line@.len(),
        start < usize::MAX,
    ensures
        end as int == string_close(line@, start + 1),
        final(tokens)@ == old(tokens)@.push(tok(start as int, end as int, TokenKind::String)),
{
    let len = line.len();
    let mut i = start + 1;  // skip opening quote
    let ghost s = line@;

    while i < len
        invariant
            start + 1 <= i,
            i <= len || i == start + 1,
            len == s.len(),
            s == line@,
            string_close(s, i as int) == string_close(s, start + 1),
            tokens@ == old(tokens)@,
        decreases len - i,
    {
        if line[i] == '\\' as u8 {
            // skip escape sequence
            if i + 1 < len {
                i += 2;
            } else {
                assert(string_close(s, i + 2) == len);
                i = len;
            }
        } else if line[i] == '"' as u8 {
            i += 1;  // closing quote
            tokens.push(Token { offset: start, len: i - start, kind: TokenKind::String });
            return i;
        } else {
            i += 1;
        }
    }

    // Unclosed string (rest of line).
    tokens.push(Token { offset: start, len: len - start, kind: TokenKind::String });
    len
}

/// Tries to match a top-level HCL block keyword at position `i`.
/// Returns `Some(new_pos)` after the keyword if matched, `None` otherwise.
pub fn try_tokenize_block_keyword(line: &[u8], i: usize, tokens: &mut Vec<Token>) -> (r: Option<usize>)
    ensures
        r matches Some(e) ==> block_keyword_end(line@, i as int) == Some(e as int)
            && final(tokens)@ == old(tokens)@.push(tok(i as int, e as int, TokenKind::Keyword)),
        r is None ==> block_keyword_end(line@, i as int) is None && final(tokens)@ == old(tokens)@,
{
    let len = line.len();
    let ghost s = line@;
    let kws = hcl_keywords();
    proof {
        lemma_span(s, i as int, ByteClass::Ident);
    }
    let ghost e0 = span(s, i as int, ByteClass::Ident);
    let mut k: usize = 0;
    while k < kws.len()
        invariant
            kws@.len() == block_keywords().len(),
            forall|m: int| 0 <= m < kws@.len() ==> (#[trigger] kws@[m])@ == block_keywords()[m],
            k <= kws@.len(),
            i <= e0,
            i <= len ==> e0 <= len,
            i > len ==> e0 == i,
            e0 == span(s, i as int, ByteClass::Ident),
            len == s.len(),
            s == line@,
            tokens@ == old(tokens)@,
            i <= len ==> forall|m: int| 0 <= m < k ==> block_keywords()[m] != s.subrange(i as int, e0),
        decreases kws@.len() - k,
    {
        let kw = kws[k];
        if i <= len && kw.len() <= len - i {
            let end = i + kw.len();
            let candidate = &line[i..end];
            if same_bytes(candidate, kw) && (end >= len || !is_ident_char(line[end])) {
                proof {
                    let w = block_keywords()[k as int];
                    crate::keywords::lemma_block_keywords_shape();
                    assert(crate::keywords::word_shaped(w));
                    assert forall|m: int| i <= m < end implies ident_byte(#[trigger] s[m]) by {
                        assert(s[m] == w[m - i]);
                    }
                    lemma_span_exact(s, i as int, end as int, ByteClass::Ident);
                }
                tokens.push(Token { offset: i, len: kw.len(), kind: TokenKind::Keyword });
                return Some(end);
            }
            proof {
                let w = block_keywords()[k as int];
                lemma_span(s, i as int, ByteClass::Ident);
                if w == s.subrange(i as int, e0) {
                    assert(e0 == end);
                    assert(candidate@ == w);
                    assert(kw@ == w);
                    assert(end < len ==> !ident_byte(s[end as int]));
                }
            }
        } else {
            proof {
                let w = block_keywords()[k as int];
                crate::keywords::lemma_block_keywords_shape();
                assert(crate::keywords::word_shaped(w));
                lemma_span(s, i as int, ByteClass::Ident);
                assert(kw@ == w);
                assert(i <= len ==> w.len() != s.subrange(i as int, e0).len());
            }
        }
        k += 1;
    }
    None
}


/// Tokenizes one line of HCL that starts in `state`: appends the line's
/// tokens to `tokens` and returns the state the next line starts in.
pub fn tokenize_line(line: &[u8], state: u8, tokens: &mut Vec<Token>) -> (r: u8)
    ensures
        final(tokens)@ == old(tokens)@ + scan_line(line@, state).0,
        r == scan_line(line@, state).1,
        well_placed(scan_line(line@, state).0, 0, line@.len() as int),
{
    let ghost s = line@;
    let len = line.len();
    proof {
        law_tokens_in_order(s, state);
    }
    if len == 0 {
        assert(tokens@ =~= old(tokens)@ + scan_line(s, state).0);
        return state;
    }

    // Block comment continuation.
    if state == STATE_BLOCK_COMMENT {
        return tokenize_block_comment(line, 0, 0, tokens);
    }

    // Heredoc continuation.
    if state >= STATE_HEREDOC {
        return tokenize_heredoc_body(line, tokens, state);
    }

    let mut i: usize = 0;

    skip_space(line, &mut i);
    proof {
        lemma_span(s, 0, ByteClass::Blank);
        lemma_span(s, i as int, ByteClass::Blank);
        // Scanning from the first non-blank is scanning the whole line.
        assert(scan_expr(s, 0) == scan_expr(s, i as int));
    }
    if i >= len {
        assert(tokens@ =~= old(tokens)@ + scan_line(s, state).0);
        return STATE_NORMAL;
    }

    // Line comment: # or //
    if line[i] == '#' as u8 || (i + 1 < len && line[i] == '/' as u8 && line[i + 1] == '/' as u8) {
        tokens.push(Token { offset: i, len: len - i, kind: TokenKind::Comment });
        assert(tokens@ =~= old(tokens)@ + scan_line(s, state).0);
        return STATE_NORMAL;
    }

    // Block comment start.
    if i + 1 < len && line[i] == '/' as u8 && line[i + 1] == '*' as u8 {
        return tokenize_block_comment(line, i, i + 2, tokens);
    }

    // Try to match a top-level block keyword (e.g., `resource "aws_instance" "web" {`).
    if let Some(new_i) = try_tokenize_block_keyword(line, i, tokens) {
        proof {
            lemma_block_keyword_scan(s, i as int);
            lemma_span(s, i as int, ByteClass::Ident);
        }
        let r = tokenize_expression(line, new_i, tokens);
        assert(final(tokens)@ =~= old(tokens)@ + scan_line(s, state).0);
        return r;
    }

    // General expression parsing (attributes, values, etc.).
    tokenize_expression(line, i, tokens)
}

/// Where a block keyword stands at the first non-blank of a line, the
/// general scan reads it as a keyword token too.
proof fn lemma_block_keyword_scan(s: Seq<u8>, i: int)
    requires
        0 <= i < s.len(),
        !space_byte(s[i]),
        block_keyword_end(s, i) is Some,
    ensures
        scan_expr(s, i) == cons(
            tok(i, block_keyword_end(s, i)->0, TokenKind::Keyword),
            scan_expr(s, block_keyword_end(s, i)->0),
        ),
{
    let e = block_keyword_end(s, i)->0;
    let w = s.subrange(i, e);
    crate::keywords::lemma_block_keywords_shape();
    lemma_span(s, i, ByteClass::Blank);
    lemma_span(s, i, ByteClass::Ident);
    let k = choose|k: int| 0 <= k < block_keywords().len() && block_keywords()[k] == w;
    assert(crate::keywords::word_shaped(block_keywords()[k]));
    assert(w[0] == s[i]);
    assert(word_kind(w) == TokenKind::Keyword);
}

/// Tokenizes a block comment that runs from `start`, looking for its
/// closing `*/` from `search_from` on: past the opening `/*` where the
/// comment opens on this line, from the line's start where it goes on from
/// an earlier line. Returns the state at end of line.
pub fn tokenize_block_comment(line: &[u8], start: usize, search_from: usize, tokens: &mut Vec<Token>) -> (r: u8)
    requires
        start <= search_from <= line@.len(),
    ensures
        final(tokens)@ == old(tokens)@ + scan_block_comment(line@, start as int, search_from as int).0,
        r == scan_block_comment(line@, start as int, search_from as int).1,
    decreases line@.len() - start, 0int,
{
    let len = line.len();
    let ghost s = line@;
    let mut i = search_from;

    while i < len && i + 1 < len
        invariant
            start <= search_from <= i <= len,
            len == s.len(),
            s == line@,
            comment_close(s, i as int) == comment_close(s, search_from as int),
            tokens@ == old(tokens)@,
        decreases len - i,
    {
        if line[i] == '*' as u8 && line[i + 1] == '/' as u8 {
            tokens.push(Token { offset: start, len: i + 2 - start, kind: TokenKind::Comment });
            let rest_start = i + 2;
            if rest_start < len {
                let r = tokenize_expression(line, rest_start, tokens);
                assert(final(tokens)@ =~= old(tokens)@ + scan_block_comment(s, start as int, search_from as int).0);
                return r;
            }
            assert(tokens@ =~= old(tokens)@ + scan_block_comment(s, start as int, search_from as int).0);
            return STATE_NORMAL;
        }
        i += 1;
    }

    // No closing `*/` found, entire line is comment.
    tokens.push(Token { offset: start, len: len - start, kind: TokenKind::Comment });
    assert(tokens@ =~= old(tokens)@ + scan_block_comment(s, start as int, search_from as int).0);
    STATE_BLOCK_COMMENT
}

/// Tokenizes a heredoc body line.
pub fn tokenize_heredoc_body(line: &[u8], tokens: &mut Vec<Token>, state: u8) -> (r: u8)
    ensures
        final(tokens)@ == old(tokens)@ + scan_heredoc_line(line@, state).0,
        r == scan_heredoc_line(line@, state).1,
{
    let len = line.len();
    let ghost s = line@;

    // Check if this line is the closing delimiter.
    let mut trimmed_start: usize = 0;
    skip_space(line, &mut trimmed_start);
    proof {
        lemma_span(s, 0, ByteClass::Blank);
    }
    // Trim trailing whitespace for comparison.
    let mut trimmed_end = len;
    while trimmed_end > trimmed_start && is_space(line[trimmed_end - 1])
        invariant
            trimmed_start <= trimmed_end <= len,
            len == s.len(),
            s == line@,
            trim_end(s, trimmed_start as int, trimmed_end as int) == trim_end(
                s,
                trimmed_start as int,
                len as int,
            ),
        decreases trimmed_end,
    {
        trimmed_end -= 1;
    }
    let tag_candidate = &line[trimmed_start..trimmed_end];
    assert(tag_candidate@ == trimmed(s));

    let mut all_tag = true;
    let mut k: usize = 0;
    while k < tag_candidate.len()
        invariant
            k <= tag_candidate@.len(),
            all_tag == (forall|m: int| 0 <= m < k ==> ident_byte(#[trigger] tag_candidate@[m])),
        decreases tag_candidate@.len() - k,
    {
        let b = tag_candidate[k];
        if !is_ident_char(b) {
            all_tag = false;
        }
        k += 1;
    }
    assert(all_tag == all_ident_bytes(tag_candidate@));

    if tag_candidate.len() > 0 && all_tag && heredoc_tag_hash(tag_candidate) == state {
        tokens.push(Token { offset: 0, len, kind: TokenKind::Punctuation });
        assert(tokens@ =~= old(tokens)@ + scan_heredoc_line(s, state).0);
        return STATE_NORMAL;
    }
    // Still inside heredoc, whole line is a string.
    tokens.push(Token { offset: 0, len, kind: TokenKind::String });
    assert(tokens@ =~= old(tokens)@ + scan_heredoc_line(s, state).0);
    state
}

/// Tokenizes a heredoc start (`<<EOF` or `<<-EOF`). Returns state.
pub fn tokenize_heredoc_start(line: &[u8], start: usize, tokens: &mut Vec<Token>) -> (r: u8)
    requires
        start <= usize::MAX - 2,
    ensures
        final(tokens)@ == old(tokens)@ + scan_heredoc_open(line@, start as int).0,
        r == scan_heredoc_open(line@, start as int).1,
    decreases line@.len() - start, 0int,
{
    let len = line.len();
    let ghost s = line@;
    let mut i = start + 2;  // skip `<<`

    // Optional `-` for indented heredoc.
    if i < len && line[i] == '-' as u8 {
        i += 1;
    }

    // The tag name.
    let tag_start = i;
    proof {
        lemma_span(s, tag_start as int, ByteClass::Ident);
    }
    while i < len && is_ident_char(line[i])
        invariant
            tag_start <= i,
            i <= len || i == tag_start,
            len == s.len(),
            s == line@,
            span(s, i as int, ByteClass::Ident) == span(s, tag_start as int, ByteClass::Ident),
        decreases len - i,
    {
        i += 1;
    }

    if i > tag_start {
        let tag = &line[tag_start..i];
        let hash = heredoc_tag_hash(tag);
        tokens.push(Token { offset: start, len: i - start, kind: TokenKind::Punctuation });
        assert(tokens@ =~= old(tokens)@ + scan_heredoc_open(s, start as int).0);
        return hash;
    }

    // Not a valid heredoc, treat `<<` as punctuation.
    tokens.push(Token { offset: start, len: 2, kind: TokenKind::Punctuation });
    if start + 2 > len {
        // Nothing of the line is left after the `<<`.
        assert(tokens@ =~= old(tokens)@ + scan_heredoc_open(s, start as int).0);
        return STATE_NORMAL;
    }
    let r = tokenize_expression(line, start + 2, tokens);
    assert(final(tokens)@ =~= old(tokens)@ + scan_heredoc_open(s, start as int).0);
    r
}

/// Tokenizes an HCL expression (right-hand side of attributes, block bodies, etc.).
#[verifier::rlimit(40)]
#[verifier::spinoff_prover]
pub fn tokenize_expression(line: &[u8], start: usize, tokens: &mut Vec<Token>) -> (r: u8)
    ensures
        final(tokens)@ == old(tokens)@ + scan_expr(line@, start as int).0,
        r == scan_expr(line@, start as int).1,
    decreases line@.len() - start, 1int,
{
    let len = line.len();
    let ghost s = line@;
    let mut i = start;

    while i < len
        invariant_except_break
            start <= i,
            i <= len || i == start,
            len == s.len(),
            s == line@,
            tokens@ + scan_expr(s, i as int).0 == old(tokens)@ + scan_expr(s, start as int).0,
            scan_expr(s, i as int).1 == scan_expr(s, start as int).1,
        ensures
            tokens@ == old(tokens)@ + scan_expr(s, start as int).0,
            STATE_NORMAL == scan_expr(s, start as int).1,
        decreases len - i,
    {
        let ghost before = tokens@;
        let ghost i0 = i as int;
        proof {
            lemma_span(s, i0, ByteClass::Blank);
        }
        skip_space(line, &mut i);
        if i >= len {
            assert(tokens@ =~= old(tokens)@ + scan_expr(s, start as int).0);
            break;
        }
        let j = i;
        let c = line[j];
        let two = j + 1 < len;
        if c == '#' as u8 || (c == '/' as u8 && two && line[j + 1] == '/' as u8) {
            // Line comment.
            tokens.push(Token { offset: j, len: len - j, kind: TokenKind::Comment });
            assert(tokens@ =~= old(tokens)@ + scan_expr(s, start as int).0);
            return STATE_NORMAL;
        } else if c == '/' as u8 && two && line[j + 1] == '*' as u8 {
            // Block comment start.
            let r = tokenize_block_comment(line, j, j + 2, tokens);
            assert(final(tokens)@ =~= old(tokens)@ + scan_expr(s, start as int).0);
            return r;
        } else if c == '"' as u8 {
            // String.
            proof {
                lemma_string_close(s, j + 1);
            }
            i = tokenize_string(line, j, tokens);
        } else if c == '<' as u8 && two && line[j + 1] == '<' as u8 {
            // Heredoc.
            let r = tokenize_heredoc_start(line, j, tokens);
            assert(final(tokens)@ =~= old(tokens)@ + scan_expr(s, start as int).0);
            return r;
        } else if c == '{' as u8 || c == '}' as u8 || c == '[' as u8 || c == ']' as u8
            || c == '(' as u8 || c == ')' as u8 || c == ',' as u8 || c == ':' as u8 {
            // Braces, brackets, parens.
            tokens.push(Token { offset: j, len: 1, kind: TokenKind::Punctuation });
            i = j + 1;
        } else if c == '=' as u8 {
            // Operators and assignment.
            let op_len: usize = if two && line[j + 1] == '>' as u8 { 2 } else { 1 };
            tokens.push(Token { offset: j, len: op_len, kind: TokenKind::Punctuation });
            i = j + op_len;
        } else if c == '!' as u8 && two && line[j + 1] == '=' as u8 {
            tokens.push(Token { offset: j, len: 2, kind: TokenKind::Punctuation });
            i = j + 2;
        } else if c == '<' as u8 || c == '>' as u8 {
            let op_len: usize = if two && line[j + 1] == '=' as u8 { 2 } else { 1 };
            tokens.push(Token { offset: j, len: op_len, kind: TokenKind::Punctuation });
            i = j + op_len;
        } else if c == '?' as u8 || c == '!' as u8 || c == '.' as u8 || c == '*' as u8 {
            tokens.push(Token { offset: j, len: 1, kind: TokenKind::Punctuation });
            i = j + 1;
        } else if (c == '&' as u8 && two && line[j + 1] == '&' as u8) || (c == '|' as u8 && two
            && line[j + 1] == '|' as u8) || (c == '%' as u8 && two && line[j + 1] == '{' as u8) {
            tokens.push(Token { offset: j, len: 2, kind: TokenKind::Punctuation });
            i = j + 2;
        } else if is_ident_start(c) {
            // Identifier or keyword/value.
            proof {
                lemma_span(s, j as int, ByteClass::Ident);
            }
            while i < len && is_ident_char(line[i])
                invariant
                    j <= i <= len,
                    len == s.len(),
                    s == line@,
                    span(s, i as int, ByteClass::Ident) == span(s, j as int, ByteClass::Ident),
                decreases len - i,
            {
                i += 1;
            }
            let word = &line[j..i];
            let kind = classify_word(word);
            tokens.push(Token { offset: j, len: i - j, kind });
        } else if is_digit(c) {
            // Number.
            proof {
                lemma_number_end(s, j as int);
            }
            i = scan_number(line, j);
            tokens.push(Token { offset: j, len: i - j, kind: TokenKind::Number });
        } else {
            // Anything else, skip.
            i = j + 1;
        }
        assert(tokens@ + scan_expr(s, i as int).0 =~= before + scan_expr(s, i0).0);
    }

    STATE_NORMAL
}

} // verus!
