//! Source positions, diagnostics, identifiers and the multi-file worklist.

pub mod error;
pub mod identifier;
pub mod parser;
pub mod position;

pub use self::error::{RlError, RlErrorView};
pub use self::identifier::{Identifier, IdentifierView};
pub use self::parser::{Parser, ParserView};
pub use self::position::{Position, PositionView};
