//! Front end of a small expression language: a one-character-lookahead input
//! cursor, a lexer that turns characters into tokens on demand, and a
//! recursive-descent parser with precedence climbing that builds an abstract
//! syntax tree.
//!
//! Each stage carries a functional specification. The lexer is proved to
//! return exactly the token that [`lexer::next_token`] computes over the
//! remaining characters, and the parser is proved to return exactly the
//! outcome of the specification-level grammar functions over the token
//! stream, which [`parser::lemma_parse_deterministic`] shows is unique.

pub mod buffer;
pub mod input;
pub mod lexer;
pub mod nodes;
pub mod parser;
pub mod token;

pub use buffer::Buffer;
pub use input::Input;
pub use input::StringInput;
pub use lexer::Lexer;
pub use nodes::ASTNode;
pub use nodes::Expression;
pub use nodes::Function;
pub use nodes::Program;
pub use nodes::Prototype;
pub use parser::ParseError;
pub use parser::Parser;
pub use token::LexerError;
pub use token::Token;
