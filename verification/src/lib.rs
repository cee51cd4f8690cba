//! A verified parser-combinator library for recursive-descent parsing over
//! UTF-8 text.
//!
//! Grammars are built from primitive matchers (`tag`, `one_of`, `none_of`,
//! `is_a`, `eof`) combined by sequencing, ordered choice, repetition,
//! optionality and value transformation. Failures come in two kinds: a
//! recoverable mismatch, which lets an alternative be tried, and a committed
//! (fatal) failure, which aborts the whole parse. Positions are byte offsets
//! into the original input and are rendered as line/column diagnostics.

pub mod input;
pub mod parser;
pub mod range;
pub mod result;

pub use input::Input;
pub use parser::combinators::list;
pub use parser::matchers::{eof, is_a, none_of, one_of, tag};
pub use parser::wrap::{WrapMatcher, WrapParser};
pub use parser::{Match, MatchResult, Matcher, Parse, ParseResult, Parser};
pub use range::RangeArgument;
pub use result::{EzpcError, Position, RawEzpcError};
