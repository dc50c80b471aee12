//! Character sources and the tokenizer that reads from them.

pub mod io_lexer;
pub mod laws;
pub mod lexer;
pub mod source;
pub mod string_lexer;
pub mod syntax;
pub mod text;
pub mod token;

pub use self::io_lexer::ByteSource;
pub use self::io_lexer::IOLexer;
pub use self::io_lexer::ReadError;
pub use self::lexer::Lexer;
pub use self::string_lexer::StringLexer;
pub use self::token::LexError;
pub use self::token::Token;
