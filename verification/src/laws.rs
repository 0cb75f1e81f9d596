//! What holds of every line the tokenizer scans.
use vstd::prelude::*;
use crate::model::{
    all_ident_bytes, closes_heredoc, lemma_span_exact, lemma_trim_end_exact, tag_hash, trimmed,
    cons, lemma_comment_close, lemma_number_end, lemma_span, lemma_string_close, operator_len,
    scan_block_comment, scan_expr, scan_heredoc_line, scan_heredoc_open, scan_line, span,
    skip_blanks, string_close, number_end, comment_close, tok, ByteClass,
};
use crate::chars::{digit_byte, ident_byte, ident_start_byte, space_byte};
use crate::token::{Token, TokenKind, STATE_BLOCK_COMMENT, STATE_HEREDOC, STATE_NORMAL};

verus! {

/// The tokens are nonempty, lie in `[lo, hi)`, and come in order without
/// overlapping.
pub open spec fn well_placed(ts: Seq<Token>, lo: int, hi: int) -> bool {
    &&& forall|k: int|
        0 <= k < ts.len() ==> {
            &&& lo <= (#[trigger] ts[k]).offset
            &&& ts[k].len > 0
            &&& ts[k].offset + ts[k].len <= hi
        }
    &&& forall|k: int, l: int|
        0 <= k < l < ts.len() ==> (#[trigger] ts[k]).offset + ts[k].len <= (#[trigger] ts[l]).offset
}

proof fn lemma_cons_placed(t: Token, ts: Seq<Token>, lo: int, mid: int, hi: int)
    requires
        lo <= t.offset,
        t.len > 0,
        t.offset + t.len <= mid,
        mid <= hi,
        well_placed(ts, mid, hi),
    ensures
        well_placed(seq![t] + ts, lo, hi),
{
    let r = seq![t] + ts;
    assert forall|k: int| 0 <= k < r.len() implies {
        &&& lo <= (#[trigger] r[k]).offset
        &&& r[k].len > 0
        &&& r[k].offset + r[k].len <= hi
    } by {
        if k > 0 {
            assert(r[k] == ts[k - 1]);
        }
    }
    assert forall|k: int, l: int| 0 <= k < l < r.len() implies (#[trigger] r[k]).offset + r[k].len
        <= (#[trigger] r[l]).offset by {
        assert(r[l] == ts[l - 1]);
        if k > 0 {
            assert(r[k] == ts[k - 1]);
        }
    }
}

proof fn lemma_expr_placed(s: Seq<u8>, i: int)
    requires
        0 <= i <= s.len(),
        s.len() <= usize::MAX,
    ensures
        well_placed(scan_expr(s, i).0, i, s.len() as int),
    decreases s.len() - i, 1int,
{
    let n = s.len() as int;
    let j = skip_blanks(s, i);
    lemma_span(s, i, ByteClass::Blank);
    if j < n {
        let c = s[j];
        let next_is = |d: char| j + 1 < n && s[j + 1] == d as u8;
        if c == '#' as u8 || (c == '/' as u8 && next_is('/')) {
            lemma_cons_placed(tok(j, n, TokenKind::Comment), seq![], i, n, n);
            assert(seq![tok(j, n, TokenKind::Comment)] + Seq::<Token>::empty() =~= seq![
                tok(j, n, TokenKind::Comment),
            ]);
        } else if c == '/' as u8 && next_is('*') {
            lemma_block_placed(s, j, j + 2);
        } else if c == '"' as u8 {
            lemma_string_close(s, j + 1);
            let e = string_close(s, j + 1);
            lemma_expr_placed(s, e);
            lemma_cons_placed(tok(j, e, TokenKind::String), scan_expr(s, e).0, i, e, n);
        } else if c == '<' as u8 && next_is('<') {
            lemma_heredoc_open_placed(s, j);
        } else if operator_len(s, j) > 0 {
            let e = j + operator_len(s, j);
            lemma_expr_placed(s, e);
            lemma_cons_placed(tok(j, e, TokenKind::Punctuation), scan_expr(s, e).0, i, e, n);
        } else if ident_start_byte(c) {
            lemma_span(s, j, ByteClass::Ident);
            let e = span(s, j, ByteClass::Ident);
            lemma_expr_placed(s, e);
            let t = tok(j, e, crate::model::word_kind(s.subrange(j, e)));
            lemma_cons_placed(t, scan_expr(s, e).0, i, e, n);
        } else if digit_byte(c) {
            lemma_number_end(s, j);
            let e = number_end(s, j);
            lemma_expr_placed(s, e);
            lemma_cons_placed(tok(j, e, TokenKind::Number), scan_expr(s, e).0, i, e, n);
        } else {
            lemma_expr_placed(s, j + 1);
        }
    }
}

proof fn lemma_block_placed(s: Seq<u8>, start: int, from: int)
    requires
        0 <= start < s.len(),
        start <= from,
        s.len() <= usize::MAX,
    ensures
        well_placed(scan_block_comment(s, start, from).0, start, s.len() as int),
    decreases s.len() - start, 0int,
{
    let n = s.len() as int;
    lemma_comment_close(s, from);
    match comment_close(s, from) {
        Some(k) => {
            let t = tok(start, k + 2, TokenKind::Comment);
            if k + 2 < n {
                lemma_expr_placed(s, k + 2);
                lemma_cons_placed(t, scan_expr(s, k + 2).0, start, k + 2, n);
            } else {
                lemma_cons_placed(t, seq![], start, n, n);
                assert(seq![t] + Seq::<Token>::empty() =~= seq![t]);
            }
        },
        None => {
            let t = tok(start, n, TokenKind::Comment);
            lemma_cons_placed(t, seq![], start, n, n);
            assert(seq![t] + Seq::<Token>::empty() =~= seq![t]);
        },
    }
}

proof fn lemma_heredoc_open_placed(s: Seq<u8>, start: int)
    requires
        0 <= start,
        start + 2 <= s.len(),
        s.len() <= usize::MAX,
    ensures
        well_placed(scan_heredoc_open(s, start).0, start, s.len() as int),
    decreases s.len() - start, 0int,
{
    let n = s.len() as int;
    let p = start + 2;
    let q = if p < n && s[p] == '-' as u8 {
        p + 1
    } else {
        p
    };
    lemma_span(s, q, ByteClass::Ident);
    let e = span(s, q, ByteClass::Ident);
    if e > q {
        let t = tok(start, e, TokenKind::Punctuation);
        lemma_cons_placed(t, seq![], start, e, n);
        assert(seq![t] + Seq::<Token>::empty() =~= seq![t]);
    } else {
        lemma_expr_placed(s, start + 2);
        let t = tok(start, start + 2, TokenKind::Punctuation);
        lemma_cons_placed(t, scan_expr(s, start + 2).0, start, start + 2, n);
    }
}

/// Every line comes out as nonempty tokens that lie within the line, in
/// order from left to right and without overlapping, whatever state it
/// starts in.
pub proof fn law_tokens_in_order(s: Seq<u8>, state: u8)
    requires
        s.len() <= usize::MAX,
    ensures
        well_placed(scan_line(s, state).0, 0, s.len() as int),
{
    let n = s.len() as int;
    if n == 0 {
    } else if state == STATE_BLOCK_COMMENT {
        lemma_block_placed(s, 0, 0);
    } else if state >= STATE_HEREDOC {
        let t = scan_heredoc_line(s, state).0[0];
        lemma_cons_placed(t, seq![], 0, n, n);
        assert(seq![t] + Seq::<Token>::empty() =~= scan_heredoc_line(s, state).0);
    } else {
        lemma_expr_placed(s, 0);
    }
}

/// `s[q..e]` is a word of identifier bytes whose tag hash is `h`.
pub open spec fn tag_at(s: Seq<u8>, q: int, e: int, h: u8) -> bool {
    &&& 0 <= q < e <= s.len()
    &&& forall|k: int| q <= k < e ==> ident_byte(#[trigger] s[k])
    &&& tag_hash(s.subrange(q, e)) == h
}

/// The line holds a heredoc tag whose hash is `h`.
pub open spec fn tag_in_line(s: Seq<u8>, h: u8) -> bool {
    exists|q: int, e: int| #[trigger] tag_at(s, q, e, h)
}

proof fn lemma_expr_heredoc_state(s: Seq<u8>, i: int)
    requires
        0 <= i <= s.len(),
    ensures
        scan_expr(s, i).1 >= STATE_HEREDOC ==> tag_in_line(s, scan_expr(s, i).1),
    decreases s.len() - i, 1int,
{
    let n = s.len() as int;
    let j = skip_blanks(s, i);
    lemma_span(s, i, ByteClass::Blank);
    if j < n {
        let c = s[j];
        let next_is = |d: char| j + 1 < n && s[j + 1] == d as u8;
        if c == '#' as u8 || (c == '/' as u8 && next_is('/')) {
        } else if c == '/' as u8 && next_is('*') {
            lemma_block_heredoc_state(s, j, j + 2);
        } else if c == '"' as u8 {
            lemma_string_close(s, j + 1);
            lemma_expr_heredoc_state(s, string_close(s, j + 1));
        } else if c == '<' as u8 && next_is('<') {
            lemma_heredoc_open_state(s, j);
        } else if operator_len(s, j) > 0 {
            lemma_expr_heredoc_state(s, j + operator_len(s, j));
        } else if ident_start_byte(c) {
            lemma_span(s, j, ByteClass::Ident);
            lemma_expr_heredoc_state(s, span(s, j, ByteClass::Ident));
        } else if digit_byte(c) {
            lemma_number_end(s, j);
            lemma_expr_heredoc_state(s, number_end(s, j));
        } else {
            lemma_expr_heredoc_state(s, j + 1);
        }
    }
}

proof fn lemma_block_heredoc_state(s: Seq<u8>, start: int, from: int)
    requires
        0 <= start <= from,
    ensures
        scan_block_comment(s, start, from).1 >= STATE_HEREDOC ==> tag_in_line(
            s,
            scan_block_comment(s, start, from).1,
        ),
    decreases s.len() - start, 0int,
{
    lemma_comment_close(s, from);
    if let Some(k) = comment_close(s, from) {
        if k + 2 < s.len() {
            lemma_expr_heredoc_state(s, k + 2);
        }
    }
}

proof fn lemma_heredoc_open_state(s: Seq<u8>, start: int)
    requires
        0 <= start,
        start + 2 <= s.len(),
    ensures
        scan_heredoc_open(s, start).1 >= STATE_HEREDOC ==> tag_in_line(
            s,
            scan_heredoc_open(s, start).1,
        ),
    decreases s.len() - start, 0int,
{
    let n = s.len() as int;
    let p = start + 2;
    let q = if p < n && s[p] == '-' as u8 {
        p + 1
    } else {
        p
    };
    lemma_span(s, q, ByteClass::Ident);
    let e = span(s, q, ByteClass::Ident);
    if e > q {
        assert(tag_at(s, q, e, scan_heredoc_open(s, start).1));
    } else {
        lemma_expr_heredoc_state(s, start + 2);
    }
}

/// A line that starts outside any heredoc ends in a heredoc state only when
/// that state is the hash of a tag written in the line.
pub proof fn law_heredoc_state_comes_from_tag(s: Seq<u8>, state: u8)
    requires
        state < STATE_HEREDOC,
    ensures
        scan_line(s, state).1 >= STATE_HEREDOC ==> tag_in_line(s, scan_line(s, state).1),
{
    if s.len() == 0 {
    } else if state == STATE_BLOCK_COMMENT {
        lemma_block_heredoc_state(s, 0, 0);
    } else {
        lemma_expr_heredoc_state(s, 0);
    }
}

/// A line of no bytes yields no tokens and leaves the state as it was.
pub proof fn law_empty_line_keeps_state(state: u8)
    ensures
        scan_line(Seq::<u8>::empty(), state) == (Seq::<Token>::empty(), state),
{
}

/// In the normal state, a line whose first non-blank opens a line comment
/// (`#` or `//`) is one comment token from there to the end, and ends in
/// the normal state.
pub proof fn law_line_comment(s: Seq<u8>)
    requires
        skip_blanks(s, 0) < s.len(),
        ({
            let i = skip_blanks(s, 0);
            s[i] == '#' as u8 || (i + 1 < s.len() && s[i] == '/' as u8 && s[i + 1] == '/' as u8)
        }),
    ensures
        scan_line(s, STATE_NORMAL) == (
            seq![tok(skip_blanks(s, 0), s.len() as int, TokenKind::Comment)],
            STATE_NORMAL,
        ),
{
    lemma_span(s, 0, ByteClass::Blank);
}

/// A block comment that runs from `start`, with no `*/` at or after the
/// position `from` where its end is looked for, is one comment token to
/// the end of the line and stays open. So, inside a block comment, a line
/// that holds no `*/` is one comment token over the whole line.
pub proof fn law_block_comment_stays_open(s: Seq<u8>, start: int, from: int)
    requires
        0 <= start <= from,
        forall|m: int| from <= m && m + 1 < s.len() ==> !(#[trigger] s[m] == '*' as u8 && s[m + 1] == '/' as u8),
    ensures
        scan_block_comment(s, start, from) == (
            seq![tok(start, s.len() as int, TokenKind::Comment)],
            STATE_BLOCK_COMMENT,
        ),
        start == 0 && from == 0 && s.len() > 0 ==> scan_line(s, STATE_BLOCK_COMMENT) == (
            seq![tok(0, s.len() as int, TokenKind::Comment)],
            STATE_BLOCK_COMMENT,
        ),
{
    lemma_comment_close(s, from);
}

/// A block comment that runs from `start` ends at the first `*/` at or
/// after the position `from` where its end is looked for: it is one comment
/// token up to and with that `*/`, and the rest of the line is scanned as
/// in the normal state. So, inside a block comment, the first `*/` of a
/// line ends the comment.
pub proof fn law_block_comment_closes(s: Seq<u8>, start: int, from: int, k: int)
    requires
        0 <= start <= from <= k,
        k + 1 < s.len(),
        s[k] == '*' as u8,
        s[k + 1] == '/' as u8,
        forall|m: int| from <= m < k ==> !(#[trigger] s[m] == '*' as u8 && s[m + 1] == '/' as u8),
    ensures
        scan_block_comment(s, start, from) == cons(
            tok(start, k + 2, TokenKind::Comment),
            scan_expr(s, k + 2),
        ),
        start == 0 && from == 0 ==> scan_line(s, STATE_BLOCK_COMMENT) == cons(
            tok(0, k + 2, TokenKind::Comment),
            scan_expr(s, k + 2),
        ),
{
    lemma_comment_close(s, from);
    lemma_span(s, k + 2, ByteClass::Blank);
    let t = tok(start, k + 2, TokenKind::Comment);
    if k + 2 >= s.len() {
        assert(seq![t] + Seq::<Token>::empty() =~= seq![t]);
    }
}

/// In the normal state, a line whose first non-blank opens a block comment
/// is scanned as that comment, whose `*/` is looked for only after the
/// opening `/*`.
pub proof fn law_block_comment_opens(s: Seq<u8>)
    requires
        skip_blanks(s, 0) + 1 < s.len(),
        s[skip_blanks(s, 0)] == '/' as u8,
        s[skip_blanks(s, 0) + 1] == '*' as u8,
    ensures
        scan_line(s, STATE_NORMAL) == scan_block_comment(
            s,
            skip_blanks(s, 0),
            skip_blanks(s, 0) + 2,
        ),
{
    lemma_span(s, 0, ByteClass::Blank);
}

/// Inside a heredoc, the line whose trimmed text is the heredoc's tag is
/// one punctuation token and ends the heredoc; any other line is one string
/// token and keeps the heredoc open in the same state.
pub proof fn law_heredoc_line(s: Seq<u8>, state: u8)
    requires
        s.len() > 0,
        state >= STATE_HEREDOC,
    ensures
        closes_heredoc(s, state) ==> scan_line(s, state) == (
            seq![tok(0, s.len() as int, TokenKind::Punctuation)],
            STATE_NORMAL,
        ),
        !closes_heredoc(s, state) ==> scan_line(s, state) == (
            seq![tok(0, s.len() as int, TokenKind::String)],
            state,
        ),
{
}

/// Every heredoc state lies in the heredoc range, apart from the normal
/// and the block-comment states.
pub proof fn law_heredoc_states(t: Seq<u8>)
    ensures
        tag_hash(t) >= STATE_HEREDOC,
{
}

/// The heredoc opener `<<TAG`, or `<<-TAG` when `indented`.
pub open spec fn heredoc_opener(t: Seq<u8>, indented: bool) -> Seq<u8> {
    seq!['<' as u8, '<' as u8] + (if indented {
        seq!['-' as u8]
    } else {
        Seq::<u8>::empty()
    }) + t
}

/// An opener `<<TAG` or `<<-TAG` written at `p` of a line, its tag ending
/// the word there, opens a heredoc in the state of the tag's hash, as one
/// punctuation token over the opener (the whole line when the line is just
/// the opener); and a line that holds just `TAG`, blanks around it allowed,
/// closes that heredoc again (the scan of a heredoc line, `scan_heredoc_line`,
/// gives the same). A tag that starts with `-` after a bare `<<`
/// is read as `<<-` and the rest of the tag, and is left out.
pub proof fn law_heredoc_round_trip(
    l: Seq<u8>,
    p: int,
    t: Seq<u8>,
    indented: bool,
    lead: Seq<u8>,
    trail: Seq<u8>,
)
    requires
        t.len() > 0,
        all_ident_bytes(t),
        !indented ==> t[0] != '-' as u8,
        0 <= p,
        p + heredoc_opener(t, indented).len() <= l.len(),
        l.subrange(p, p + heredoc_opener(t, indented).len()) == heredoc_opener(t, indented),
        p + heredoc_opener(t, indented).len() < l.len() ==> !ident_byte(
            l[p + heredoc_opener(t, indented).len()],
        ),
        forall|k: int| 0 <= k < lead.len() ==> space_byte(#[trigger] lead[k]),
        forall|k: int| 0 <= k < trail.len() ==> space_byte(#[trigger] trail[k]),
    ensures
        scan_heredoc_open(l, p) == (
            seq![tok(p, p + heredoc_opener(t, indented).len(), TokenKind::Punctuation)],
            tag_hash(t),
        ),
        p == 0 && l.len() == heredoc_opener(t, indented).len() ==> scan_line(l, STATE_NORMAL) == (
            seq![tok(0, l.len() as int, TokenKind::Punctuation)],
            tag_hash(t),
        ),
        ({
            let closer = lead + t + trail;
            scan_line(closer, tag_hash(t)) == (
                seq![tok(0, closer.len() as int, TokenKind::Punctuation)],
                STATE_NORMAL,
            )
        }),
        scan_heredoc_line(lead + t + trail, tag_hash(t)) == (
            seq![tok(0, (lead + t + trail).len() as int, TokenKind::Punctuation)],
            STATE_NORMAL,
        ),
{
    let o = heredoc_opener(t, indented);
    let end = p + o.len();
    let d: int = if indented { 1 } else { 0 };
    let q = p + 2 + d;
    assert(l[p] == o[0]);
    assert(l[p + 1] == o[1]);
    assert(l[p + 2] == o[2]);
    assert forall|k: int| q <= k < end implies crate::model::in_class(
        ByteClass::Ident,
        #[trigger] l[k],
    ) by {
        assert(l[k] == o[k - p]);
        assert(o[k - p] == t[k - q]);
    }
    if !indented {
        assert(o[2] == t[0]);
    }
    lemma_span_exact(l, q, end, ByteClass::Ident);
    assert(l.subrange(q, end) =~= t) by {
        assert forall|k: int| 0 <= k < t.len() implies l.subrange(q, end)[k] == t[k] by {
            assert(l[q + k] == o[q + k - p]);
        }
    }
    if p == 0 && l.len() == o.len() {
        lemma_span(l, 0, ByteClass::Blank);
        assert(skip_blanks(l, 0) == 0);
        assert(scan_expr(l, 0) == scan_heredoc_open(l, 0));
    }

    let closer = lead + t + trail;
    let a = lead.len() as int;
    let m = a + t.len();
    let cn = closer.len() as int;
    assert forall|k: int| 0 <= k < a implies crate::model::in_class(
        ByteClass::Blank,
        #[trigger] closer[k],
    ) by {
        assert(closer[k] == lead[k]);
    }
    assert(closer[a] == t[0]);
    assert(ident_byte(t[0]));
    lemma_span_exact(closer, 0, a, ByteClass::Blank);
    assert(closer[m - 1] == t[t.len() - 1]);
    assert(ident_byte(t[t.len() - 1]));
    assert forall|k: int| m <= k < cn implies space_byte(#[trigger] closer[k]) by {
        assert(closer[k] == trail[k - m]);
    }
    lemma_trim_end_exact(closer, a, m, cn);
    assert(trimmed(closer) =~= t);
}

/// The tokens end with a comment token that reaches the end of a line of
/// `n` bytes: a block comment left open.
pub open spec fn ends_in_open_comment(ts: Seq<Token>, n: int) -> bool {
    &&& ts.len() > 0
    &&& ts.last().kind == TokenKind::Comment
    &&& ts.last().offset + ts.last().len == n
}

/// The tokens end with a punctuation token: the opener of a heredoc.
pub open spec fn ends_in_heredoc_opener(ts: Seq<Token>) -> bool {
    &&& ts.len() > 0
    &&& ts.last().kind == TokenKind::Punctuation
}

/// What a scan ends with, given the state it leaves open.
pub open spec fn ends_as_left_open(r: (Seq<Token>, u8), n: int) -> bool {
    &&& r.1 == STATE_BLOCK_COMMENT ==> ends_in_open_comment(r.0, n)
    &&& r.1 >= STATE_HEREDOC ==> ends_in_heredoc_opener(r.0)
}

proof fn lemma_cons_ends(t: Token, rest: (Seq<Token>, u8), n: int)
    requires
        ends_as_left_open(rest, n),
    ensures
        ends_as_left_open(cons(t, rest), n),
{
    if rest.0.len() > 0 {
        assert((seq![t] + rest.0).last() == rest.0.last());
    }
}

proof fn lemma_expr_ends(s: Seq<u8>, i: int)
    requires
        0 <= i <= s.len(),
        s.len() <= usize::MAX,
    ensures
        ends_as_left_open(scan_expr(s, i), s.len() as int),
    decreases s.len() - i, 1int,
{
    let n = s.len() as int;
    let j = skip_blanks(s, i);
    lemma_span(s, i, ByteClass::Blank);
    if j < n {
        let c = s[j];
        let next_is = |d: char| j + 1 < n && s[j + 1] == d as u8;
        if c == '#' as u8 || (c == '/' as u8 && next_is('/')) {
        } else if c == '/' as u8 && next_is('*') {
            lemma_block_ends(s, j, j + 2);
        } else if c == '"' as u8 {
            lemma_string_close(s, j + 1);
            let e = string_close(s, j + 1);
            lemma_expr_ends(s, e);
            lemma_cons_ends(tok(j, e, TokenKind::String), scan_expr(s, e), n);
        } else if c == '<' as u8 && next_is('<') {
            lemma_heredoc_open_ends(s, j);
        } else if operator_len(s, j) > 0 {
            let e = j + operator_len(s, j);
            lemma_expr_ends(s, e);
            lemma_cons_ends(tok(j, e, TokenKind::Punctuation), scan_expr(s, e), n);
        } else if ident_start_byte(c) {
            lemma_span(s, j, ByteClass::Ident);
            let e = span(s, j, ByteClass::Ident);
            lemma_expr_ends(s, e);
            let t = tok(j, e, crate::model::word_kind(s.subrange(j, e)));
            lemma_cons_ends(t, scan_expr(s, e), n);
        } else if digit_byte(c) {
            lemma_number_end(s, j);
            let e = number_end(s, j);
            lemma_expr_ends(s, e);
            lemma_cons_ends(tok(j, e, TokenKind::Number), scan_expr(s, e), n);
        } else {
            lemma_expr_ends(s, j + 1);
        }
    }
}

proof fn lemma_block_ends(s: Seq<u8>, start: int, from: int)
    requires
        0 <= start <= from,
        start <= s.len(),
        s.len() <= usize::MAX,
    ensures
        ends_as_left_open(scan_block_comment(s, start, from), s.len() as int),
    decreases s.len() - start, 0int,
{
    let n = s.len() as int;
    lemma_comment_close(s, from);
    match comment_close(s, from) {
        Some(k) => {
            if k + 2 < n {
                lemma_expr_ends(s, k + 2);
                lemma_cons_ends(tok(start, k + 2, TokenKind::Comment), scan_expr(s, k + 2), n);
            }
        },
        None => {},
    }
}

proof fn lemma_heredoc_open_ends(s: Seq<u8>, start: int)
    requires
        0 <= start,
        start + 2 <= s.len(),
        s.len() <= usize::MAX,
    ensures
        ends_as_left_open(scan_heredoc_open(s, start), s.len() as int),
    decreases s.len() - start, 0int,
{
    let n = s.len() as int;
    let p = start + 2;
    let q = if p < n && s[p] == '-' as u8 {
        p + 1
    } else {
        p
    };
    lemma_span(s, q, ByteClass::Ident);
    let e = span(s, q, ByteClass::Ident);
    if e <= q {
        lemma_expr_ends(s, start + 2);
        lemma_cons_ends(tok(start, start + 2, TokenKind::Punctuation), scan_expr(s, start + 2), n);
    }
}

/// A nonempty line that ends inside a block comment ends with a comment
/// token that reaches the end of the line; a line that starts outside any
/// heredoc and ends inside one ends with the heredoc's opener, a
/// punctuation token; a line that keeps a heredoc open is one string token.
pub proof fn law_line_ends_as_left_open(s: Seq<u8>, state: u8)
    requires
        s.len() > 0,
        s.len() <= usize::MAX,
    ensures
        scan_line(s, state).1 == STATE_BLOCK_COMMENT ==> ends_in_open_comment(
            scan_line(s, state).0,
            s.len() as int,
        ),
        state < STATE_HEREDOC && scan_line(s, state).1 >= STATE_HEREDOC ==> ends_in_heredoc_opener(
            scan_line(s, state).0,
        ),
        state >= STATE_HEREDOC && scan_line(s, state).1 >= STATE_HEREDOC ==> scan_line(s, state).0
            == seq![tok(0, s.len() as int, TokenKind::String)],
{
    if state == STATE_BLOCK_COMMENT {
        lemma_block_ends(s, 0, 0);
    } else if state < STATE_HEREDOC {
        lemma_expr_ends(s, 0);
    }
}

} // verus!
