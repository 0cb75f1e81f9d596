use hcl_highlight::{tokenize_line, Token, TokenKind, STATE_BLOCK_COMMENT, STATE_HEREDOC, STATE_NORMAL};

fn tokenize(input: &str) -> (Vec<Token>, u8) {
    let mut tokens = Vec::new();
    let state = tokenize_line(input.as_bytes(), STATE_NORMAL, &mut tokens);
    (tokens, state)
}

fn tokenize_with_state(input: &str, state: u8) -> (Vec<Token>, u8) {
    let mut tokens = Vec::new();
    let new_state = tokenize_line(input.as_bytes(), state, &mut tokens);
    (tokens, new_state)
}

#[test]
fn test_line_comment_hash() {
    let (tokens, state) = tokenize("# This is a comment");
    assert_eq!(state, STATE_NORMAL);
    assert_eq!(tokens.len(), 1);
    assert_eq!(tokens[0].kind, TokenKind::Comment);
}

#[test]
fn test_line_comment_double_slash() {
    let (tokens, state) = tokenize("// Another comment");
    assert_eq!(state, STATE_NORMAL);
    assert_eq!(tokens.len(), 1);
    assert_eq!(tokens[0].kind, TokenKind::Comment);
}

#[test]
fn test_block_comment_single_line() {
    let (tokens, state) = tokenize("/* block comment */");
    assert_eq!(state, STATE_NORMAL);
    assert_eq!(tokens.len(), 1);
    assert_eq!(tokens[0].kind, TokenKind::Comment);
}

#[test]
fn test_block_comment_multi_line() {
    let (tokens, state) = tokenize("/* start of comment");
    assert_eq!(state, STATE_BLOCK_COMMENT);
    assert_eq!(tokens.len(), 1);
    assert_eq!(tokens[0].kind, TokenKind::Comment);

    let (tokens2, state2) = tokenize_with_state("still commenting */", STATE_BLOCK_COMMENT);
    assert_eq!(state2, STATE_NORMAL);
    assert_eq!(tokens2.len(), 1);
    assert_eq!(tokens2[0].kind, TokenKind::Comment);
}

#[test]
fn test_resource_block() {
    let (tokens, _) = tokenize("resource \"aws_instance\" \"web\" {");
    assert!(tokens.len() >= 4);
    assert_eq!(tokens[0].kind, TokenKind::Keyword); // resource
    assert_eq!(tokens[1].kind, TokenKind::String); // "aws_instance"
    assert_eq!(tokens[2].kind, TokenKind::String); // "web"
    assert_eq!(tokens[3].kind, TokenKind::Punctuation); // {
}

#[test]
fn test_variable_block() {
    let (tokens, _) = tokenize("variable \"instance_type\" {");
    assert!(tokens.len() >= 3);
    assert_eq!(tokens[0].kind, TokenKind::Keyword);
    assert_eq!(tokens[1].kind, TokenKind::String);
    assert_eq!(tokens[2].kind, TokenKind::Punctuation);
}

#[test]
fn test_attribute_string() {
    let (tokens, _) = tokenize("  ami = \"ami-12345\"");
    assert!(tokens.len() >= 3);
    assert_eq!(tokens[0].kind, TokenKind::Default); // ami (identifier)
    assert_eq!(tokens[1].kind, TokenKind::Punctuation); // =
    assert_eq!(tokens[2].kind, TokenKind::String); // "ami-12345"
}

#[test]
fn test_attribute_number() {
    let (tokens, _) = tokenize("  count = 3");
    assert!(tokens.len() >= 3);
    assert_eq!(tokens[0].kind, TokenKind::Keyword); // count
    assert_eq!(tokens[1].kind, TokenKind::Punctuation); // =
    assert_eq!(tokens[2].kind, TokenKind::Number); // 3
}

#[test]
fn test_attribute_boolean() {
    let (tokens, _) = tokenize("  enabled = true");
    assert!(tokens.len() >= 3);
    assert_eq!(tokens[0].kind, TokenKind::Default); // enabled
    assert_eq!(tokens[1].kind, TokenKind::Punctuation); // =
    assert_eq!(tokens[2].kind, TokenKind::Boolean); // true
}

#[test]
fn test_attribute_null() {
    let (tokens, _) = tokenize("  value = null");
    assert!(tokens.len() >= 3);
    assert_eq!(tokens[0].kind, TokenKind::Default); // value
    assert_eq!(tokens[1].kind, TokenKind::Punctuation); // =
    assert_eq!(tokens[2].kind, TokenKind::Null); // null
}

#[test]
fn test_for_expression() {
    let (tokens, _) = tokenize("  names = [for s in var.list : upper(s)]");
    assert!(tokens.iter().any(|t| t.kind == TokenKind::Keyword)); // for, in, var
    assert!(tokens.iter().any(|t| t.kind == TokenKind::Punctuation)); // [, ], :
}

#[test]
fn test_heredoc() {
    let (tokens, state) = tokenize("  content = <<EOF");
    assert!(state >= STATE_HEREDOC);
    assert!(tokens.iter().any(|t| t.kind == TokenKind::Punctuation)); // <<EOF

    let (tokens2, state2) = tokenize_with_state("  hello world", state);
    assert_eq!(state2, state); // still in heredoc
    assert_eq!(tokens2[0].kind, TokenKind::String);

    let (tokens3, state3) = tokenize_with_state("EOF", state);
    assert_eq!(state3, STATE_NORMAL); // heredoc closed
    assert_eq!(tokens3[0].kind, TokenKind::Punctuation);
}

#[test]
fn test_indented_heredoc() {
    let (tokens, state) = tokenize("  content = <<-POLICY");
    assert!(state >= STATE_HEREDOC);
    assert!(tokens.iter().any(|t| t.kind == TokenKind::Punctuation));

    let (_, state2) = tokenize_with_state("    some content", state);
    assert_eq!(state2, state);

    let (_, state3) = tokenize_with_state("    POLICY", state);
    assert_eq!(state3, STATE_NORMAL);
}

#[test]
fn test_braces_and_brackets() {
    let (tokens, _) = tokenize("  tags = {");
    assert!(tokens.iter().any(|t| t.kind == TokenKind::Punctuation));

    let (tokens2, _) = tokenize("  ingress = []");
    assert!(tokens2.iter().filter(|t| t.kind == TokenKind::Punctuation).count() >= 3);
}

#[test]
fn test_fat_arrow() {
    let (tokens, _) = tokenize("  name => value");
    assert!(tokens.iter().any(|t| t.kind == TokenKind::Punctuation && t.len == 2));
}

#[test]
fn test_comparison_operators() {
    let (tokens, _) = tokenize("  condition = var.count >= 1");
    assert!(tokens.iter().any(|t| t.kind == TokenKind::Number));
}

#[test]
fn test_inline_comment() {
    let (tokens, _) = tokenize("  ami = \"ami-123\" # The AMI ID");
    assert!(tokens.iter().any(|t| t.kind == TokenKind::String));
    assert!(tokens.iter().any(|t| t.kind == TokenKind::Comment));
}

#[test]
fn test_empty_line() {
    let (tokens, state) = tokenize("");
    assert_eq!(state, STATE_NORMAL);
    assert!(tokens.is_empty());
}

#[test]
fn test_closing_brace() {
    let (tokens, _) = tokenize("}");
    assert_eq!(tokens.len(), 1);
    assert_eq!(tokens[0].kind, TokenKind::Punctuation);
}

#[test]
fn test_hex_number() {
    let (tokens, _) = tokenize("  port = 0xFF");
    assert!(tokens.iter().any(|t| t.kind == TokenKind::Number));
}

#[test]
fn test_float_number() {
    let (tokens, _) = tokenize("  ratio = 3.14");
    assert!(tokens.iter().any(|t| t.kind == TokenKind::Number));
}

#[test]
fn test_data_block() {
    let (tokens, _) = tokenize("data \"aws_ami\" \"latest\" {");
    assert_eq!(tokens[0].kind, TokenKind::Keyword);
}

#[test]
fn test_module_block() {
    let (tokens, _) = tokenize("module \"vpc\" {");
    assert_eq!(tokens[0].kind, TokenKind::Keyword);
}

#[test]
fn test_locals_block() {
    let (tokens, _) = tokenize("locals {");
    assert_eq!(tokens[0].kind, TokenKind::Keyword);
}

#[test]
fn test_terraform_block() {
    let (tokens, _) = tokenize("terraform {");
    assert_eq!(tokens[0].kind, TokenKind::Keyword);
}
