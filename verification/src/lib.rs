//! An English-prose data format and its companion query language. A value
//! is written as a sentence such as `the object where the name is bob and
//! the id is 1`; a place inside a value is named by a phrase such as
//! `the name of the user`. The crate holds the tokenizer, the sentence
//! reader and writer for the default data model, the query parser, and
//! path access over values, each with a contract that states what it
//! returns.

pub mod bytes;
pub mod num;
pub mod datetime;
pub mod de;
pub mod error;
pub mod lex;
pub mod query;
pub mod ser;
pub mod value;
pub mod access;
pub mod nloq;
pub mod parser;

pub use error::Error;
pub use num::Number;
pub use query::{Access, AccessMut, AccessNext, AccessNextMut, Query, QuerySet, QuerySetItem, SetResult};
pub use parser::{parse_next, parse_number, parse_string, parse_token, Parsed, ParseError};
pub use ser::{format_str, humanize, to_vec, Compound, Serializer};
pub use de::{decode_value, dehumanize_camel, dehumanize_match, dehumanize_snake, unescape, Deserializer};
pub use value::{Amount, Array, Date, DateTime, Key, NoCustom, NoUnit, ObjectMap, Time, UnitDisplay, Value};
