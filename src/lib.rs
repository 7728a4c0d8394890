//! Parsing of single lines of the Prometheus text exposition format.
//!
//! Every parser works on characters: a position is an index into the line's
//! `Seq<char>` view, and each parser's contract ties its executable result to
//! a spec-level grammar function over that view.

pub mod error;
pub mod labels;
pub mod laws;
pub mod lex;
pub mod line;
pub mod quoted;
pub mod value;

pub use error::{ErrorKind, ParseError, Token};
pub use lex::{parse_name, trim_space};
pub use line::{Header, Line, Metric, MetricKind};
pub use value::SampleValue;
