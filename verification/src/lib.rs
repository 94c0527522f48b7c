//! Parsing and filtering of runtime stack-backtrace text.
//!
//! A raw backtrace block is parsed into an ordered sequence of call
//! frames, each carrying a canonical function path and an optional
//! source location; the result can then be pruned of noise frames and
//! queried for locations under a given path prefix.

pub mod chars;
pub mod filter;
pub mod parser;
pub mod render;
pub mod strutil;
pub mod symbol;
pub mod types;

pub use parser::parse;
pub use parser::parse_location;
pub use render::color;
pub use types::Backtrace;
pub use types::Config;
pub use types::Entry;
pub use types::Location;
pub use types::ParseError;
pub use types::ParseErrorKind;
