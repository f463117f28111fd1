//! The failures that the library reports.

use vstd::prelude::*;

verus! {

/// Which sort of name an error speaks of.
#[derive(Debug, Clone, Copy, PartialEq, Eq, Structural)]
pub enum NameKind {
    Tag,
    Value,
}

/// Why a name was refused.
#[derive(Debug, Clone, PartialEq, Eq)]
pub enum NameFault {
    /// The name is the empty string.
    Empty,
    /// The name is `.` or `..`.
    Dots,
    /// The name is `and`, `or` or `not`, all in lower or all in upper case.
    LogicalOperator,
    /// The name is one of `eq`, `ne`, `lt`, `le`, `gt`, `ge`, all in lower
    /// or all in upper case.
    ComparisonOperator,
    /// The name holds text outside the accepted character classes; the
    /// first such piece of text is given.
    Forbidden(String),
}

/// Which sort of setting value was refused.
#[derive(Debug, Clone, Copy, PartialEq, Eq, Structural)]
pub enum SettingFault {
    /// A boolean setting was given something else than yes, no, true or false.
    InvalidBoolean,
    /// A string setting was given the empty string.
    Unspecified,
}

#[derive(Debug, Clone, PartialEq, Eq)]
pub enum Error {
    /// The query could not be parsed as a whole.
    QueryParsingError(String),
    NoSuchTag(String),
    NoSuchValue(String),
    NoSuchSetting(String),
    /// No implication leads from the first pair to the second.
    NoSuchImplication,
    NameTaken(NameKind, String),
    InvalidName(NameKind, NameFault),
    InvalidSetting(String, SettingFault),
    /// Adding the implication would close a cycle.
    ImplicationCycle,
    /// A tag or value cannot be merged into itself.
    MergeIntoItself(NameKind, String),
    FileNotFound(String),
    /// A write touched another number of rows than it had to.
    UnaffectedRows(usize, usize),
    /// An identifier could not be given to a new row.
    IdentifiersExhausted,
    /// The name of a fingerprint algorithm is not known.
    UnsupportedAlgorithm(String),
    /// The root of the store cannot be told from the place of its file.
    NoRootPath,
    /// A file tag names a tag that the store does not have.
    UnknownTagId(u32),
    /// A file tag names a value that the store does not have.
    UnknownValueId(u32),
}

} // verus!
