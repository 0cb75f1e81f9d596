pub mod chars;
pub mod hcl;
pub mod keywords;
pub mod laws;
pub mod model;
pub mod scan_laws;
pub mod token;

pub use hcl::tokenize_line;
pub use token::{Token, TokenKind, STATE_BLOCK_COMMENT, STATE_HEREDOC, STATE_NORMAL};
