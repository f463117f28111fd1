//! The things that the store holds, and the rules on their names.

use vstd::prelude::*;
use crate::errors::{Error, NameFault, NameKind};
use crate::text::same_text;

pub mod settings;

verus! {

#[derive(Debug, Clone, Copy, PartialEq, Eq, Hash, Structural)]
pub struct TagId(pub u32);

/// The identifier of a value. It is never 0: in the store, 0 stands for
/// "no value".
#[derive(Debug, Clone, Copy, PartialEq, Eq, Hash, Structural)]
pub struct ValueId(u32);

impl ValueId {
    #[verifier::type_invariant]
    spec fn nonzero(self) -> bool {
        self.0 != 0
    }

    /// The number that identifies the value.
    pub closed spec fn id(self) -> u32 {
        self.0
    }

    pub fn from_unchecked(id: u32) -> (r: Self)
        requires
            id != 0,
        ensures
            r.id() == id,
    {
        Self(id)
    }

    pub fn as_u32(&self) -> (r: &u32)
        ensures
            *r == self.id(),
            *r != 0,
    {
        proof {
            use_type_invariant(self);
        }
        &self.0
    }
}

/// A value identifier that may be absent. Towards the store, absence is
/// the number 0.
#[derive(Debug, Clone, Copy, PartialEq, Eq, Hash, Structural)]
pub struct OptionalValueId(Option<ValueId>);

impl OptionalValueId {
    /// The number that stands for this in the store: 0 when absent.
    pub closed spec fn raw(self) -> u32 {
        match self.0 {
            None => 0,
            Some(v) => v.id(),
        }
    }

    pub fn as_u32(&self) -> (r: u32)
        ensures
            r == self.raw(),
    {
        match self.0 {
            None => 0,
            Some(v) => *v.as_u32(),
        }
    }

    pub fn from_id(id: u32) -> (r: Self)
        ensures
            r.raw() == id,
    {
        if id == 0 {
            Self(None)
        } else {
            Self(Some(ValueId::from_unchecked(id)))
        }
    }

    pub fn from_opt_value(opt_value: &Option<Value>) -> (r: Self)
        ensures
            r.raw() == match *opt_value {
                None => 0,
                Some(v) => v.id.id(),
            },
    {
        match opt_value {
            None => Self(None),
            Some(v) => Self(Some(v.id)),
        }
    }

    /// The identifier, where there is one.
    pub fn get(&self) -> (r: Option<ValueId>)
        ensures
            r is None <==> self.raw() == 0,
            r is Some ==> r->0.id() == self.raw(),
    {
        match self.0 {
            None => None,
            Some(v) => {
                proof {
                    use_type_invariant(v);
                }
                Some(v)
            },
        }
    }
}

#[derive(Debug, Clone, Copy, PartialEq, Eq, Hash, Structural)]
pub struct FileId(pub u32);

#[derive(Debug, Clone, PartialEq, Eq, Hash)]
pub struct Tag {
    pub id: TagId,
    pub name: String,
}

#[derive(Debug, Clone, PartialEq, Eq, Hash)]
pub struct Value {
    pub id: ValueId,
    pub name: String,
}

#[derive(Debug, Clone, Copy, PartialEq, Eq, Hash, Structural)]
pub struct TagIdValueIdPair {
    pub tag_id: TagId,
    pub value_id: OptionalValueId,
}

#[derive(Debug, Clone, Copy, PartialEq, Eq, Structural)]
pub struct FileTag {
    pub file_id: FileId,
    pub tag_id: TagId,
    pub value_id: OptionalValueId,
    pub explicit: bool,
    pub implicit: bool,
}

impl FileTag {
    pub fn to_tag_id_value_id_pair(&self) -> (r: TagIdValueIdPair)
        ensures
            r.tag_id == self.tag_id,
            r.value_id == self.value_id,
    {
        TagIdValueIdPair { tag_id: self.tag_id, value_id: self.value_id }
    }
}


/// The instant at which a file was last changed: seconds and nanoseconds
/// since the epoch, and the offset from UTC, in seconds, under which the
/// instant is shown.
#[derive(Debug, Clone, Copy, PartialEq, Eq, Structural)]
pub struct ModTime {
    pub secs: i64,
    pub nanos: u32,
    pub offset: i32,
}

impl ModTime {
    /// Two times name the same instant when seconds and nanoseconds agree,
    /// whatever their offsets.
    pub open spec fn same_instant_spec(self, other: ModTime) -> bool {
        self.secs == other.secs && self.nanos == other.nanos
    }

    pub fn same_instant(&self, other: &ModTime) -> (r: bool)
        ensures
            r == self.same_instant_spec(*other),
    {
        self.secs == other.secs && self.nanos == other.nanos
    }
}

#[derive(Debug, Clone, PartialEq, Eq)]
pub struct File {
    pub id: FileId,
    pub dir: String,
    pub name: String,
    pub fingerprint: String,
    pub mod_time: ModTime,
    pub size: u64,
    pub is_dir: bool,
}

/// The path that a directory and a name stand for: the name alone where
/// the directory is `.`, else the two joined.
pub open spec fn dir_and_name_path(dir: Seq<char>, name: Seq<char>) -> Seq<char> {
    if dir == "."@ {
        name
    } else {
        crate::path::joined(dir, name)
    }
}

impl File {
    pub fn to_path_buf(&self) -> (r: String)
        ensures
            r@ == dir_and_name_path(self.dir@, self.name@),
    {
        if same_text(self.dir.as_str(), ".") {
            self.name.clone()
        } else {
            crate::path::join(self.dir.as_str(), self.name.as_str())
        }
    }
}

#[derive(Debug, Clone, PartialEq, Eq)]
pub struct TagFileCount {
    pub id: TagId,
    pub name: String,
    pub file_count: u32,
}

#[derive(Debug, Clone, Copy, PartialEq, Eq, Structural)]
pub enum FileSort {
    Id,
    Name,
    Time,
    Size,
}

#[derive(Debug, Clone, PartialEq, Eq, Hash)]
pub struct Implication {
    pub implying_tag: Tag,
    pub implying_value: Option<Value>,
    pub implied_tag: Tag,
    pub implied_value: Option<Value>,
}

#[derive(Debug, Clone, Copy, PartialEq, Eq, Structural)]
pub enum FileFingerprintAlgorithm {
    NoFingerprint,
    DynamicSha1,
    DynamicSha256,
    DynamicMd5,
    DynamicBlake2b,
    RegularSha1,
    RegularSha256,
    RegularMd5,
    RegularBlake2b,
}

impl FileFingerprintAlgorithm {
    /// The algorithm that a name stands for, if any.
    pub open spec fn named(s: Seq<char>) -> Option<Self> {
        if s == "none"@ {
            Some(Self::NoFingerprint)
        } else if s == "dynamic:MD5"@ {
            Some(Self::DynamicMd5)
        } else if s == "dynamic:SHA1"@ {
            Some(Self::DynamicSha1)
        } else if s == "dynamic:SHA256"@ {
            Some(Self::DynamicSha256)
        } else if s == "dynamic:BLAKE2b"@ {
            Some(Self::DynamicBlake2b)
        } else if s == "MD5"@ {
            Some(Self::RegularMd5)
        } else if s == "SHA1"@ {
            Some(Self::RegularSha1)
        } else if s == "SHA256"@ {
            Some(Self::RegularSha256)
        } else if s == "BLAKE2b"@ {
            Some(Self::RegularBlake2b)
        } else {
            None
        }
    }

    pub fn from_name(s: &str) -> (r: Result<Self, Error>)
        ensures
            match r {
                Ok(a) => Self::named(s@) == Some(a),
                Err(e) => Self::named(s@) is None && (e matches Error::UnsupportedAlgorithm(n)
                    && n@ == s@),
            },
    {
        if same_text(s, "none") {
            Ok(Self::NoFingerprint)
        } else if same_text(s, "dynamic:MD5") {
            Ok(Self::DynamicMd5)
        } else if same_text(s, "dynamic:SHA1") {
            Ok(Self::DynamicSha1)
        } else if same_text(s, "dynamic:SHA256") {
            Ok(Self::DynamicSha256)
        } else if same_text(s, "dynamic:BLAKE2b") {
            Ok(Self::DynamicBlake2b)
        } else if same_text(s, "MD5") {
            Ok(Self::RegularMd5)
        } else if same_text(s, "SHA1") {
            Ok(Self::RegularSha1)
        } else if same_text(s, "SHA256") {
            Ok(Self::RegularSha256)
        } else if same_text(s, "BLAKE2b") {
            Ok(Self::RegularBlake2b)
        } else {
            Err(Error::UnsupportedAlgorithm(s.to_owned()))
        }
    }
}

#[derive(Debug, Clone, Copy, PartialEq, Eq, Structural)]
pub enum DirectoryFingerprintAlgorithm {
    NoFingerprint,
    DynamicSumSizes,
    RegularSumSizes,
}

impl DirectoryFingerprintAlgorithm {
    /// The algorithm that a name stands for, if any.
    pub open spec fn named(s: Seq<char>) -> Option<Self> {
        if s == "none"@ {
            Some(Self::NoFingerprint)
        } else if s == "sumSizes"@ {
            Some(Self::RegularSumSizes)
        } else if s == "dynamic:sumSizes"@ {
            Some(Self::DynamicSumSizes)
        } else {
            None
        }
    }

    pub fn from_name(s: &str) -> (r: Result<Self, Error>)
        ensures
            match r {
                Ok(a) => Self::named(s@) == Some(a),
                Err(e) => Self::named(s@) is None && (e matches Error::UnsupportedAlgorithm(n)
                    && n@ == s@),
            },
    {
        if same_text(s, "none") {
            Ok(Self::NoFingerprint)
        } else if same_text(s, "sumSizes") {
            Ok(Self::RegularSumSizes)
        } else if same_text(s, "dynamic:sumSizes") {
            Ok(Self::DynamicSumSizes)
        } else {
            Err(Error::UnsupportedAlgorithm(s.to_owned()))
        }
    }
}

#[derive(Debug, Clone, Copy, PartialEq, Eq, Structural)]
pub enum SymlinkFingerprintAlgorithm {
    NoFingerprint,
    Follow,
    TargetName,
    TargetNameNoExt,
}

impl SymlinkFingerprintAlgorithm {
    /// The algorithm that a name stands for, if any.
    pub open spec fn named(s: Seq<char>) -> Option<Self> {
        if s == "none"@ {
            Some(Self::NoFingerprint)
        } else if s == "follow"@ {
            Some(Self::Follow)
        } else if s == "targetName"@ {
            Some(Self::TargetName)
        } else if s == "targetNameNoExt"@ {
            Some(Self::TargetNameNoExt)
        } else {
            None
        }
    }

    pub fn from_name(s: &str) -> (r: Result<Self, Error>)
        ensures
            match r {
                Ok(a) => Self::named(s@) == Some(a),
                Err(e) => Self::named(s@) is None && (e matches Error::UnsupportedAlgorithm(n)
                    && n@ == s@),
            },
    {
        if same_text(s, "none") {
            Ok(Self::NoFingerprint)
        } else if same_text(s, "follow") {
            Ok(Self::Follow)
        } else if same_text(s, "targetName") {
            Ok(Self::TargetName)
        } else if same_text(s, "targetNameNoExt") {
            Ok(Self::TargetNameNoExt)
        } else {
            Err(Error::UnsupportedAlgorithm(s.to_owned()))
        }
    }
}

/// The leftmost piece of `text` that the regular expression `pattern`
/// matches; nothing where it matches nowhere or is no regular expression.
pub uninterp spec fn leftmost_match(pattern: Seq<char>, text: Seq<char>) -> Option<Seq<char>>;

/// Calls `regex::Regex::new` on the pattern and `Regex::find` on the text.
/// The contract gives the matched text the name `leftmost_match`. A pattern
/// that does not compile counts as one that matches nowhere.
#[verifier::external_body]
fn regex_find(pattern: &str, text: &str) -> (r: Option<String>)
    ensures
        r is Some <==> leftmost_match(pattern@, text@) is Some,
        r is Some ==> r->0@ == leftmost_match(pattern@, text@)->0,
{
    match regex::Regex::new(pattern) {
        Ok(re) => match re.find(text) {
            Some(m) => Some(m.as_str().to_owned()),
            None => None,
        },
        Err(_) => None,
    }
}

/// What the rules on names say of a name.
pub enum Verdict {
    Valid,
    Empty,
    Dots,
    LogicalOperator,
    ComparisonOperator,
    Forbidden(Seq<char>),
}

impl View for NameFault {
    type V = Verdict;

    open spec fn view(&self) -> Verdict {
        match *self {
            NameFault::Empty => Verdict::Empty,
            NameFault::Dots => Verdict::Dots,
            NameFault::LogicalOperator => Verdict::LogicalOperator,
            NameFault::ComparisonOperator => Verdict::ComparisonOperator,
            NameFault::Forbidden(s) => Verdict::Forbidden(s@),
        }
    }
}

/// `and`, `or`, `not`, all in lower or all in upper case.
pub open spec fn is_logical_keyword(s: Seq<char>) -> bool {
    s == "and"@ || s == "AND"@ || s == "or"@ || s == "OR"@ || s == "not"@ || s == "NOT"@
}

/// `eq`, `ne`, `lt`, `gt`, `le`, `ge`, all in lower or all in upper case.
pub open spec fn is_comparison_keyword(s: Seq<char>) -> bool {
    s == "eq"@ || s == "EQ"@ || s == "ne"@ || s == "NE"@ || s == "lt"@ || s == "LT"@ || s == "gt"@
        || s == "GT"@ || s == "le"@ || s == "LE"@ || s == "ge"@ || s == "GE"@
}

/// The pattern of a character that no name may hold: one that is neither
/// a letter, a number, punctuation, a symbol nor white space.
pub open spec fn invalid_chars_pattern() -> Seq<char> {
    "[^\\pL\\pN\\pP\\pS\\s]"@
}

/// The verdict on a name. Tag names and value names follow the same rules.
pub open spec fn name_verdict(name: Seq<char>) -> Verdict {
    if name == ""@ {
        Verdict::Empty
    } else if name == "."@ || name == ".."@ {
        Verdict::Dots
    } else if is_logical_keyword(name) {
        Verdict::LogicalOperator
    } else if is_comparison_keyword(name) {
        Verdict::ComparisonOperator
    } else {
        match leftmost_match(invalid_chars_pattern(), name) {
            Some(m) => Verdict::Forbidden(m),
            None => Verdict::Valid,
        }
    }
}

/// What validation of a name of the given kind returns.
pub open spec fn validated(what: NameKind, name: Seq<char>, r: Result<(), Error>) -> bool {
    match r {
        Ok(_) => name_verdict(name) is Valid,
        Err(e) => e matches Error::InvalidName(k, f) && k == what && f@ == name_verdict(name)
            && !(f@ is Valid),
    }
}

pub fn validate_tag_name(name: &str) -> (r: Result<(), Error>)
    ensures
        validated(NameKind::Tag, name@, r),
{
    validate_name_helper(NameKind::Tag, name)
}

pub fn validate_value_name(name: &str) -> (r: Result<(), Error>)
    ensures
        validated(NameKind::Value, name@, r),
{
    validate_name_helper(NameKind::Value, name)
}

fn is_logical(name: &str) -> (r: bool)
    ensures
        r == is_logical_keyword(name@),
{
    same_text(name, "and") || same_text(name, "AND") || same_text(name, "or") || same_text(
        name,
        "OR",
    ) || same_text(name, "not") || same_text(name, "NOT")
}

fn is_comparison(name: &str) -> (r: bool)
    ensures
        r == is_comparison_keyword(name@),
{
    same_text(name, "eq") || same_text(name, "EQ") || same_text(name, "ne") || same_text(
        name,
        "NE",
    ) || same_text(name, "lt") || same_text(name, "LT") || same_text(name, "gt") || same_text(
        name,
        "GT",
    ) || same_text(name, "le") || same_text(name, "LE") || same_text(name, "ge") || same_text(
        name,
        "GE",
    )
}

/// Validates a name of the given kind. The two kinds follow the same
/// rules and differ in the error only.
pub fn validate_name_helper(what: NameKind, name: &str) -> (r: Result<(), Error>)
    ensures
        validated(what, name@, r),
{
    if same_text(name, "") {
        return Err(Error::InvalidName(what, NameFault::Empty));
    }
    if same_text(name, ".") || same_text(name, "..") {
        return Err(Error::InvalidName(what, NameFault::Dots));
    }
    if is_logical(name) {
        return Err(Error::InvalidName(what, NameFault::LogicalOperator));
    }
    if is_comparison(name) {
        return Err(Error::InvalidName(what, NameFault::ComparisonOperator));
    }
    match regex_find("[^\\pL\\pN\\pP\\pS\\s]", name) {
        Some(m) => Err(Error::InvalidName(what, NameFault::Forbidden(m))),
        None => Ok(()),
    }
}

/// Validation depends on the name alone: equal names get equal verdicts,
/// whichever kind they are validated as, and every name gets one.
pub proof fn lemma_validation_is_pure(
    a: Seq<char>,
    b: Seq<char>,
    ra: Result<(), Error>,
    rb: Result<(), Error>,
)
    requires
        a == b,
        validated(NameKind::Tag, a, ra),
        validated(NameKind::Value, b, rb),
    ensures
        ra is Ok <==> rb is Ok,
        ra is Err ==> (ra->Err_0)->InvalidName_1@ == (rb->Err_0)->InvalidName_1@,
{
}

} // verus!
