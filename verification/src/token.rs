use vstd::prelude::*;

verus! {

/// The state a line starts and ends in: nothing is left open.
pub const STATE_NORMAL: u8 = 0;

/// The state inside a `/* ... */` comment that runs past the end of a line.
pub const STATE_BLOCK_COMMENT: u8 = 1;

/// The least state that stands for an open heredoc; every state from here up
/// to 255 is a heredoc, named by the hash of its closing tag.
pub const STATE_HEREDOC: u8 = 2;

/// What a highlighted span of a line is.
#[derive(Clone, Copy, Debug, PartialEq, Eq, Structural)]
pub enum TokenKind {
    Default,
    Comment,
    Keyword,
    String,
    Number,
    Boolean,
    Null,
    Punctuation,
}

/// A span of a line: `len` bytes from byte `offset`, of kind `kind`.
#[derive(Clone, Copy, Debug, PartialEq, Eq, Structural)]
pub struct Token {
    pub offset: usize,
    pub len: usize,
    pub kind: TokenKind,
}

} // verus!
