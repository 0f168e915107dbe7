use vstd::prelude::*;

use crate::lex::Keyword;
use crate::parser::ParseError;

verus! {

/// Everything that can go wrong while reading or writing a document. All
/// errors bubble up; none is recovered internally. Parse offsets are
/// absolute positions in the whole input.
#[derive(Debug, Clone, Copy, PartialEq, Eq, Structural)]
pub enum Error {
    /// A map key that would not print as a back-tick string.
    UnexpectedKeyType,
    /// A byte-slice entry point was handed bytes that are not UTF-8.
    InvalidUtf8,
    /// The tokenizer failed; the payload carries the rebased offset.
    Parse(ParseError),
    ExpectedBool,
    ExpectedNull,
    ExpectedInteger,
    ExpectedFloat,
    ExpectedUnsigned,
    ExpectedChar,
    ExpectedString,
    /// A fixed keyword was required and something else stood there.
    ExpectedKeyWord(Keyword),
    /// After `the [empty]` something other than `list`, `object` or a
    /// string stood.
    ExpectedObjectDescriptor,
    ExpectedObjectEntry,
    ExpectedListItem,
    ExpectedPrimitiveMapKey,
    ExpectedStringMapKey,
    /// The first entry of a compound belongs to another scope.
    ShouldBeDeclaredEmpty,
    ExpectedUnitVariant,
    UnexpectedUnitVariant,
    /// A quantity named a unit the amount table does not know; it stands
    /// in for the free-form driver error the taxonomy leaves to the host.
    UnknownUnit,
}

/// Rebase a tokenizer offset against the position the fragment started at.
pub open spec fn spec_rebase(e: ParseError, base: nat) -> ParseError {
    match e {
        ParseError::UnexpectedEof => ParseError::UnexpectedEof,
        ParseError::InvalidString(i) => ParseError::InvalidString((i + base) as usize),
        ParseError::InvalidNumber(i) => ParseError::InvalidNumber((i + base) as usize),
        ParseError::ExpectedWhitespace(i) => ParseError::ExpectedWhitespace((i + base) as usize),
    }
}

} // verus!
