//! A parser combinator library over sequences of characters.
pub mod error;

pub use error::{ErrorView, ParseError, SimpleError};
pub mod parser;

pub use parser::{Parser, ParseResult, SpecResult};
pub mod text_util;
pub mod slice;
pub mod tokens;

pub use tokens::{AsChar, FindToken};
pub mod pred;
pub mod char;
pub mod combinator;
pub mod tuple;
pub mod token;
pub mod primitive;
pub mod combine;
pub mod iter;
pub mod input;
pub mod state;
pub mod pos;
pub mod bytereader;
pub mod decode;
pub mod utf8_stream;
pub mod laws;
pub mod cursor;
pub mod traits;
pub mod adapters;
pub mod text;
pub mod combinators;
