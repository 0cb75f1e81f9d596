use hcl_highlight::hcl::{
    classify_word, heredoc_tag_hash, is_ident_char, is_ident_start, scan_number, skip_space, tokenize_block_comment,
    tokenize_expression, tokenize_heredoc_body, tokenize_heredoc_start, tokenize_string, try_tokenize_block_keyword,
};
use hcl_highlight::{tokenize_line, Token, TokenKind, STATE_BLOCK_COMMENT, STATE_HEREDOC, STATE_NORMAL};

fn scan(input: &str, state: u8) -> (Vec<Token>, u8) {
    let mut tokens = Vec::new();
    let next = tokenize_line(input.as_bytes(), state, &mut tokens);
    (tokens, next)
}

fn t(offset: usize, len: usize, kind: TokenKind) -> Token {
    Token { offset, len, kind }
}

#[test]
fn attribute_tokens_exact() {
    let (tokens, state) = scan("  ami = \"ami-12345\"", STATE_NORMAL);
    assert_eq!(state, STATE_NORMAL);
    assert_eq!(
        tokens,
        vec![t(2, 3, TokenKind::Default), t(6, 1, TokenKind::Punctuation), t(8, 11, TokenKind::String)]
    );
}

#[test]
fn resource_block_tokens_exact() {
    let (tokens, state) = scan("resource \"aws_instance\" \"web\" {", STATE_NORMAL);
    assert_eq!(state, STATE_NORMAL);
    assert_eq!(
        tokens,
        vec![
            t(0, 8, TokenKind::Keyword),
            t(9, 14, TokenKind::String),
            t(24, 5, TokenKind::String),
            t(30, 1, TokenKind::Punctuation),
        ]
    );
}

#[test]
fn block_keyword_needs_word_boundary() {
    let (tokens, _) = scan("resources = 1", STATE_NORMAL);
    assert_eq!(tokens[0], t(0, 9, TokenKind::Default));
    let (tokens, _) = scan("data-x", STATE_NORMAL);
    assert_eq!(tokens, vec![t(0, 6, TokenKind::Default)]);
}

#[test]
fn identifiers_take_dashes_and_digits() {
    let (tokens, _) = scan("my-var_2 = 1", STATE_NORMAL);
    assert_eq!(
        tokens,
        vec![t(0, 8, TokenKind::Default), t(9, 1, TokenKind::Punctuation), t(11, 1, TokenKind::Number)]
    );
}

#[test]
fn number_then_word() {
    let (tokens, _) = scan("3abc", STATE_NORMAL);
    assert_eq!(tokens, vec![t(0, 1, TokenKind::Number), t(1, 3, TokenKind::Default)]);
}

#[test]
fn empty_line_keeps_any_state() {
    assert_eq!(scan("", STATE_NORMAL), (vec![], STATE_NORMAL));
    assert_eq!(scan("", STATE_BLOCK_COMMENT), (vec![], STATE_BLOCK_COMMENT));
    assert_eq!(scan("", 200), (vec![], 200));
}

#[test]
fn blank_line_is_normal() {
    assert_eq!(scan(" \t  ", STATE_NORMAL), (vec![], STATE_NORMAL));
}

#[test]
fn line_comment_from_first_non_blank() {
    assert_eq!(scan("   // note", STATE_NORMAL), (vec![t(3, 7, TokenKind::Comment)], STATE_NORMAL));
    assert_eq!(scan("# x", STATE_NORMAL), (vec![t(0, 3, TokenKind::Comment)], STATE_NORMAL));
}

#[test]
fn block_comment_stays_open() {
    let line = "still * going /";
    assert_eq!(
        scan(line, STATE_BLOCK_COMMENT),
        (vec![t(0, line.len(), TokenKind::Comment)], STATE_BLOCK_COMMENT)
    );
}

#[test]
fn block_comment_closes_and_rest_is_scanned() {
    let (tokens, state) = scan("done */ x = 1", STATE_BLOCK_COMMENT);
    assert_eq!(state, STATE_NORMAL);
    assert_eq!(
        tokens,
        vec![
            t(0, 7, TokenKind::Comment),
            t(8, 1, TokenKind::Default),
            t(10, 1, TokenKind::Punctuation),
            t(12, 1, TokenKind::Number),
        ]
    );
}

#[test]
fn block_comment_opened_and_closed_inline() {
    let (tokens, state) = scan("a /* b */ c", STATE_NORMAL);
    assert_eq!(state, STATE_NORMAL);
    assert_eq!(
        tokens,
        vec![t(0, 1, TokenKind::Default), t(2, 7, TokenKind::Comment), t(10, 1, TokenKind::Default)]
    );
}

#[test]
fn opening_slash_star_slash_stays_open() {
    // The `*/` that ends a comment comes after its opening `/*`.
    assert_eq!(scan("/*/ x", STATE_NORMAL), (vec![t(0, 5, TokenKind::Comment)], STATE_BLOCK_COMMENT));
    let (tokens, state) = scan("a /*/ b */ c", STATE_NORMAL);
    assert_eq!(state, STATE_NORMAL);
    assert_eq!(
        tokens,
        vec![t(0, 1, TokenKind::Default), t(2, 8, TokenKind::Comment), t(11, 1, TokenKind::Default)]
    );
}

#[test]
fn continued_comment_closes_at_first_star_slash() {
    // Inside a comment carried over from an earlier line, `/*/` holds a `*/`.
    assert_eq!(scan("/*/", STATE_BLOCK_COMMENT), (vec![t(0, 3, TokenKind::Comment)], STATE_NORMAL));
}

#[test]
fn block_comment_left_open_after_code() {
    let (tokens, state) = scan("x /* open", STATE_NORMAL);
    assert_eq!(state, STATE_BLOCK_COMMENT);
    assert_eq!(tokens, vec![t(0, 1, TokenKind::Default), t(2, 7, TokenKind::Comment)]);
}

#[test]
fn heredoc_hash_values() {
    assert_eq!(heredoc_tag_hash(b"EOF"), 220);
    assert_eq!(heredoc_tag_hash(b"EOT"), 234);
    assert_eq!(heredoc_tag_hash(b"POLICY"), 50);
    // Hashes that fall on 0 and 1 are moved into the heredoc range.
    assert_eq!(heredoc_tag_hash(b"aA"), 2);
    assert_eq!(heredoc_tag_hash(b"aB"), 3);
    assert_eq!(heredoc_tag_hash(b""), 2);
}

#[test]
fn heredoc_round_trip() {
    let (tokens, state) = scan("<<-EOT", STATE_NORMAL);
    assert_eq!(tokens, vec![t(0, 6, TokenKind::Punctuation)]);
    assert_eq!(state, 234);
    assert!(state >= STATE_HEREDOC);

    assert_eq!(scan("EOTX", state), (vec![t(0, 4, TokenKind::String)], state));
    assert_eq!(scan("\t EOT  ", state), (vec![t(0, 7, TokenKind::Punctuation)], STATE_NORMAL));
}

#[test]
fn heredoc_opener_after_attribute() {
    let (tokens, state) = scan("  content = <<EOF", STATE_NORMAL);
    assert_eq!(state, 220);
    assert_eq!(
        tokens,
        vec![t(2, 7, TokenKind::Keyword), t(10, 1, TokenKind::Punctuation), t(12, 5, TokenKind::Punctuation)]
    );
}

#[test]
fn heredoc_tag_with_dash_closes() {
    let (tokens, state) = scan("x = <<A-B", STATE_NORMAL);
    assert_eq!(state, 182);
    assert_eq!(tokens.last(), Some(&t(4, 5, TokenKind::Punctuation)));
    assert_eq!(scan("A-B", state), (vec![t(0, 3, TokenKind::Punctuation)], STATE_NORMAL));
}

#[test]
fn line_left_open_ends_with_comment_or_opener() {
    let line = "x = 1 /* open";
    let (tokens, state) = scan(line, STATE_NORMAL);
    assert_eq!(state, STATE_BLOCK_COMMENT);
    let last = tokens.last().unwrap();
    assert_eq!(last.kind, TokenKind::Comment);
    assert_eq!(last.offset + last.len, line.len());

    let (tokens, state) = scan("body = <<EOF", STATE_NORMAL);
    assert!(state >= STATE_HEREDOC);
    assert_eq!(tokens.last().unwrap().kind, TokenKind::Punctuation);

    assert_eq!(scan("inside", state), (vec![t(0, 6, TokenKind::String)], state));
}

#[test]
fn double_angle_without_tag_is_operator() {
    let (tokens, state) = scan("x = a << b", STATE_NORMAL);
    assert_eq!(state, STATE_NORMAL);
    assert_eq!(
        tokens,
        vec![
            t(0, 1, TokenKind::Default),
            t(2, 1, TokenKind::Punctuation),
            t(4, 1, TokenKind::Default),
            t(6, 2, TokenKind::Punctuation),
            t(9, 1, TokenKind::Default),
        ]
    );
}

#[test]
fn operators() {
    let (tokens, _) = scan("a != b && c || d", STATE_NORMAL);
    assert_eq!(tokens[1], t(2, 2, TokenKind::Punctuation));
    assert_eq!(tokens[3], t(7, 2, TokenKind::Punctuation));
    assert_eq!(tokens[5], t(12, 2, TokenKind::Punctuation));

    let (tokens, _) = scan("a ==> b", STATE_NORMAL);
    assert_eq!(
        tokens,
        vec![
            t(0, 1, TokenKind::Default),
            t(2, 1, TokenKind::Punctuation),
            t(3, 2, TokenKind::Punctuation),
            t(6, 1, TokenKind::Default),
        ]
    );

    let (tokens, _) = scan("%{ if x }", STATE_NORMAL);
    assert_eq!(
        tokens,
        vec![
            t(0, 2, TokenKind::Punctuation),
            t(3, 2, TokenKind::Keyword),
            t(6, 1, TokenKind::Default),
            t(8, 1, TokenKind::Punctuation),
        ]
    );

    let (tokens, _) = scan("a <= b < c", STATE_NORMAL);
    assert_eq!(tokens[1], t(2, 2, TokenKind::Punctuation));
    assert_eq!(tokens[3], t(7, 1, TokenKind::Punctuation));

    let (tokens, _) = scan("!x", STATE_NORMAL);
    assert_eq!(tokens, vec![t(0, 1, TokenKind::Punctuation), t(1, 1, TokenKind::Default)]);
}

#[test]
fn lone_ampersand_and_unknown_bytes_are_skipped() {
    let (tokens, _) = scan("a & b @ c", STATE_NORMAL);
    assert_eq!(
        tokens,
        vec![t(0, 1, TokenKind::Default), t(4, 1, TokenKind::Default), t(8, 1, TokenKind::Default)]
    );
}

#[test]
fn strings_with_escapes_and_unclosed() {
    let (tokens, _) = scan("\"a\\\"b\" c", STATE_NORMAL);
    assert_eq!(tokens, vec![t(0, 6, TokenKind::String), t(7, 1, TokenKind::Default)]);

    let (tokens, state) = scan("\"abc", STATE_NORMAL);
    assert_eq!(state, STATE_NORMAL);
    assert_eq!(tokens, vec![t(0, 4, TokenKind::String)]);

    let (tokens, _) = scan("\"ab\\", STATE_NORMAL);
    assert_eq!(tokens, vec![t(0, 4, TokenKind::String)]);
}

#[test]
fn number_literals() {
    assert_eq!(scan_number(b"0x1Fg", 0), 4);
    assert_eq!(scan_number(b"0X", 0), 2);
    assert_eq!(scan_number(b"3.14e-2x", 0), 7);
    assert_eq!(scan_number(b"12.x", 0), 2);
    assert_eq!(scan_number(b"1e", 0), 2);
    assert_eq!(scan_number(b"1.5E+", 0), 5);
    assert_eq!(scan_number(b"a = 7", 4), 5);

    let (tokens, _) = scan("  ratio = 3.14", STATE_NORMAL);
    assert_eq!(tokens[2], t(10, 4, TokenKind::Number));
}

#[test]
fn word_classes() {
    assert_eq!(classify_word(b"true"), TokenKind::Boolean);
    assert_eq!(classify_word(b"false"), TokenKind::Boolean);
    assert_eq!(classify_word(b"null"), TokenKind::Null);
    assert_eq!(classify_word(b"resource"), TokenKind::Keyword);
    assert_eq!(classify_word(b"each"), TokenKind::Keyword);
    assert_eq!(classify_word(b"foo"), TokenKind::Default);
    assert_eq!(classify_word(b"True"), TokenKind::Default);
}

#[test]
fn byte_classes() {
    assert!(is_ident_start(b'a'));
    assert!(is_ident_start(b'_'));
    assert!(!is_ident_start(b'1'));
    assert!(!is_ident_start(b'-'));
    assert!(is_ident_char(b'-'));
    assert!(is_ident_char(b'9'));
    assert!(!is_ident_char(b'.'));
}

#[test]
fn skip_space_moves_past_blanks() {
    let mut i = 1;
    skip_space(b"a \t b", &mut i);
    assert_eq!(i, 4);
    let mut j = 0;
    skip_space(b"x", &mut j);
    assert_eq!(j, 0);
}

#[test]
fn earlier_tokens_are_kept() {
    let mut tokens = vec![t(0, 1, TokenKind::Default)];
    let state = tokenize_line(b"}", STATE_NORMAL, &mut tokens);
    assert_eq!(state, STATE_NORMAL);
    assert_eq!(tokens, vec![t(0, 1, TokenKind::Default), t(0, 1, TokenKind::Punctuation)]);
}

#[test]
fn tokens_in_order_within_line() {
    let line = "  names = [for s in var.list : upper(s)] # done";
    let (tokens, _) = scan(line, STATE_NORMAL);
    let mut end = 0;
    for tok in &tokens {
        assert!(tok.len > 0);
        assert!(tok.offset >= end);
        end = tok.offset + tok.len;
        assert!(end <= line.len());
    }
    assert_eq!(tokens.last().unwrap().kind, TokenKind::Comment);
}

#[test]
fn heredoc_state_is_hash_of_tag_in_line() {
    let (_, state) = scan("policy = jsonencode(<<JSON", STATE_NORMAL);
    assert_eq!(state, heredoc_tag_hash(b"JSON"));
    let (_, state) = scan("/* c */ x = <<-END_X", STATE_NORMAL);
    assert_eq!(state, heredoc_tag_hash(b"END_X"));
    assert_eq!(scan("  END_X", state), (vec![t(0, 7, TokenKind::Punctuation)], STATE_NORMAL));
}

#[test]
fn heredoc_start_and_body_round_trip() {
    let line = b"x = <<-A_1 ignored";
    let mut tokens = Vec::new();
    let state = tokenize_heredoc_start(line, 4, &mut tokens);
    assert_eq!(state, heredoc_tag_hash(b"A_1"));
    assert_eq!(tokens, vec![t(4, 6, TokenKind::Punctuation)]);

    let mut body = Vec::new();
    assert_eq!(tokenize_heredoc_body(b"  text", &mut body, state), state);
    assert_eq!(body, vec![t(0, 6, TokenKind::String)]);
    let mut close = Vec::new();
    assert_eq!(tokenize_heredoc_body(b" \tA_1 ", &mut close, state), STATE_NORMAL);
    assert_eq!(close, vec![t(0, 6, TokenKind::Punctuation)]);
}

#[test]
fn heredoc_start_without_tag_at_line_end() {
    let mut tokens = Vec::new();
    assert_eq!(tokenize_heredoc_start(b"a <<", 2, &mut tokens), STATE_NORMAL);
    assert_eq!(tokens, vec![t(2, 2, TokenKind::Punctuation)]);
    let mut tokens = Vec::new();
    assert_eq!(tokenize_heredoc_start(b"<< x", 0, &mut tokens), STATE_NORMAL);
    assert_eq!(tokens, vec![t(0, 2, TokenKind::Punctuation), t(3, 1, TokenKind::Default)]);
}

#[test]
fn positions_at_or_past_the_end() {
    let mut tokens = Vec::new();
    assert_eq!(tokenize_expression(b"ab", 5, &mut tokens), STATE_NORMAL);
    assert!(tokens.is_empty());
    assert_eq!(tokenize_expression(b"ab", 2, &mut tokens), STATE_NORMAL);
    assert!(tokens.is_empty());

    assert_eq!(try_tokenize_block_keyword(b"data", 9, &mut tokens), None);
    assert!(tokens.is_empty());

    assert_eq!(tokenize_string(b"ab", 2, &mut tokens), 2);
    assert_eq!(tokens, vec![t(2, 0, TokenKind::String)]);
}

#[test]
fn block_keyword_at_position() {
    let mut tokens = Vec::new();
    assert_eq!(try_tokenize_block_keyword(b"  locals {", 2, &mut tokens), Some(8));
    assert_eq!(tokens, vec![t(2, 6, TokenKind::Keyword)]);
    let mut tokens = Vec::new();
    assert_eq!(try_tokenize_block_keyword(b"localsx", 0, &mut tokens), None);
    assert!(tokens.is_empty());
}

#[test]
fn block_comment_search_start() {
    let mut tokens = Vec::new();
    assert_eq!(tokenize_block_comment(b"/*/ x */ y", 0, 2, &mut tokens), STATE_NORMAL);
    assert_eq!(tokens, vec![t(0, 8, TokenKind::Comment), t(9, 1, TokenKind::Default)]);
    let mut tokens = Vec::new();
    assert_eq!(tokenize_block_comment(b"/*/ x */ y", 0, 0, &mut tokens), STATE_NORMAL);
    assert_eq!(tokens[0], t(0, 3, TokenKind::Comment));
}
