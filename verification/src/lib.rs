//! The front end of a small source-transformation pipeline: splitting a
//! document into script, style and template segments.

pub mod compiler;
pub mod contents;
pub mod gate;
pub mod lexer;
pub mod scan_laws;
pub mod text;
pub mod token;

pub use compiler::Compiler;
pub use contents::{get_file_contents, load_file, LoadError};
pub use gate::Gate;
pub use lexer::tokenize;
pub use token::{LexError, Token};
