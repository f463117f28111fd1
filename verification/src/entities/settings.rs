//! The options of a store: a fixed list of names, each with a type and a
//! value to start from.

use vstd::prelude::*;
use crate::errors::{Error, SettingFault};
use crate::text::same_text;

verus! {

/// The value of one option.
#[derive(Debug, Clone, PartialEq, Eq)]
pub enum SettingValue {
    Boolean(bool),
    Text(String),
}

/// The value of an option as mathematics.
pub enum SettingView {
    Boolean(bool),
    Text(Seq<char>),
}

impl View for SettingValue {
    type V = SettingView;

    open spec fn view(&self) -> SettingView {
        match self {
            SettingValue::Boolean(b) => SettingView::Boolean(*b),
            SettingValue::Text(s) => SettingView::Text(s@),
        }
    }
}

/// How a value is written: `yes` or `no` for a boolean, a text as it is.
pub open spec fn written(v: SettingView) -> Seq<char> {
    match v {
        SettingView::Boolean(b) => if b {
            "yes"@
        } else {
            "no"@
        },
        SettingView::Text(s) => s,
    }
}

impl SettingValue {
    pub fn as_bool(&self) -> (r: bool)
        requires
            self is Boolean,
        ensures
            self@ == SettingView::Boolean(r),
    {
        match self {
            SettingValue::Boolean(b) => *b,
            SettingValue::Text(_) => false,
        }
    }

    pub fn as_str(&self) -> (r: String)
        ensures
            r@ == written(self@),
    {
        match self {
            SettingValue::Boolean(b) => if *b {
                "yes".to_owned()
            } else {
                "no".to_owned()
            },
            SettingValue::Text(s) => s.clone(),
        }
    }
}

/// An option with its name.
#[derive(Debug, Clone, PartialEq, Eq)]
pub struct NamedSetting {
    pub name: String,
    pub value: SettingValue,
}

/// What a text says as a boolean: yes, no, true or false, all in lower
/// case, all in upper case, or with a capital first letter.
pub open spec fn boolean_of(s: Seq<char>) -> Option<bool> {
    if s == "yes"@ || s == "Yes"@ || s == "YES"@ || s == "true"@ || s == "True"@ || s == "TRUE"@ {
        Some(true)
    } else if s == "no"@ || s == "No"@ || s == "NO"@ || s == "false"@ || s == "False"@ || s
        == "FALSE"@ {
        Some(false)
    } else {
        None
    }
}

/// Reads a boolean.
pub fn parse_boolean(value: &str) -> (r: Option<bool>)
    ensures
        r == boolean_of(value@),
{
    if same_text(value, "yes") || same_text(value, "Yes") || same_text(value, "YES") || same_text(
        value,
        "true",
    ) || same_text(value, "True") || same_text(value, "TRUE") {
        Some(true)
    } else if same_text(value, "no") || same_text(value, "No") || same_text(value, "NO")
        || same_text(value, "false") || same_text(value, "False") || same_text(value, "FALSE") {
        Some(false)
    } else {
        None
    }
}

/// The options, in the order in which they are listed.
#[derive(Debug, Clone, Copy, PartialEq, Eq, Structural)]
pub enum SettingKey {
    AutoCreateTags,
    AutoCreateValues,
    DirectoryFingerprintAlgorithm,
    FileFingerprintAlgorithm,
    ReportDuplicates,
    SymlinkFingerprintAlgorithm,
}

/// The option that a name stands for.
pub open spec fn option_named(name: Seq<char>) -> Option<SettingKey> {
    if name == "autoCreateTags"@ {
        Some(SettingKey::AutoCreateTags)
    } else if name == "autoCreateValues"@ {
        Some(SettingKey::AutoCreateValues)
    } else if name == "directoryFingerprintAlgorithm"@ {
        Some(SettingKey::DirectoryFingerprintAlgorithm)
    } else if name == "fileFingerprintAlgorithm"@ {
        Some(SettingKey::FileFingerprintAlgorithm)
    } else if name == "reportDuplicates"@ {
        Some(SettingKey::ReportDuplicates)
    } else if name == "symlinkFingerprintAlgorithm"@ {
        Some(SettingKey::SymlinkFingerprintAlgorithm)
    } else {
        None
    }
}

fn find_option(name: &str) -> (r: Option<SettingKey>)
    ensures
        r == option_named(name@),
{
    if same_text(name, "autoCreateTags") {
        Some(SettingKey::AutoCreateTags)
    } else if same_text(name, "autoCreateValues") {
        Some(SettingKey::AutoCreateValues)
    } else if same_text(name, "directoryFingerprintAlgorithm") {
        Some(SettingKey::DirectoryFingerprintAlgorithm)
    } else if same_text(name, "fileFingerprintAlgorithm") {
        Some(SettingKey::FileFingerprintAlgorithm)
    } else if same_text(name, "reportDuplicates") {
        Some(SettingKey::ReportDuplicates)
    } else if same_text(name, "symlinkFingerprintAlgorithm") {
        Some(SettingKey::SymlinkFingerprintAlgorithm)
    } else {
        None
    }
}

/// The option at a place of the list.
pub open spec fn option_at(i: int) -> SettingKey {
    if i == 0 {
        SettingKey::AutoCreateTags
    } else if i == 1 {
        SettingKey::AutoCreateValues
    } else if i == 2 {
        SettingKey::DirectoryFingerprintAlgorithm
    } else if i == 3 {
        SettingKey::FileFingerprintAlgorithm
    } else if i == 4 {
        SettingKey::ReportDuplicates
    } else {
        SettingKey::SymlinkFingerprintAlgorithm
    }
}

/// The name of an option.
pub open spec fn name_of(o: SettingKey) -> Seq<char> {
    match o {
        SettingKey::AutoCreateTags => "autoCreateTags"@,
        SettingKey::AutoCreateValues => "autoCreateValues"@,
        SettingKey::DirectoryFingerprintAlgorithm => "directoryFingerprintAlgorithm"@,
        SettingKey::FileFingerprintAlgorithm => "fileFingerprintAlgorithm"@,
        SettingKey::ReportDuplicates => "reportDuplicates"@,
        SettingKey::SymlinkFingerprintAlgorithm => "symlinkFingerprintAlgorithm"@,
    }
}

/// Whether an option takes a text as its value, and which fault it finds
/// where it does not.
pub open spec fn accepts(o: SettingKey, value: Seq<char>) -> Result<(), SettingFault> {
    match o {
        SettingKey::AutoCreateTags | SettingKey::AutoCreateValues | SettingKey::ReportDuplicates => {
            if boolean_of(value) is Some {
                Ok(())
            } else {
                Err(SettingFault::InvalidBoolean)
            }
        },
        _ => if value.len() == 0 {
            Err(SettingFault::Unspecified)
        } else {
            Ok(())
        },
    }
}

pub struct Settings {
    pub auto_create_tags: bool,
    pub auto_create_values: bool,
    pub directory_fingerprint_algorithm: String,
    pub file_fingerprint_algorithm: String,
    pub report_duplicates: bool,
    pub symlink_fingerprint_algorithm: String,
}

/// The values of the options as mathematics.
pub struct Options {
    pub auto_create_tags: bool,
    pub auto_create_values: bool,
    pub directory_fingerprint_algorithm: Seq<char>,
    pub file_fingerprint_algorithm: Seq<char>,
    pub report_duplicates: bool,
    pub symlink_fingerprint_algorithm: Seq<char>,
}

impl View for Settings {
    type V = Options;

    open spec fn view(&self) -> Options {
        Options {
            auto_create_tags: self.auto_create_tags,
            auto_create_values: self.auto_create_values,
            directory_fingerprint_algorithm: self.directory_fingerprint_algorithm@,
            file_fingerprint_algorithm: self.file_fingerprint_algorithm@,
            report_duplicates: self.report_duplicates,
            symlink_fingerprint_algorithm: self.symlink_fingerprint_algorithm@,
        }
    }
}

/// The values that the options start from.
pub open spec fn default_options() -> Options {
    Options {
        auto_create_tags: true,
        auto_create_values: true,
        directory_fingerprint_algorithm: "none"@,
        file_fingerprint_algorithm: "dynamic:SHA256"@,
        report_duplicates: true,
        symlink_fingerprint_algorithm: "follow"@,
    }
}

/// The options after the option of a name was given a text: a boolean
/// option takes what the text says as a boolean, a text option any text
/// but the empty one. A name that is no option's and a text that the
/// option does not accept change nothing.
pub open spec fn given(o: Options, name: Seq<char>, value: Seq<char>) -> Options {
    match option_named(name) {
        None => o,
        Some(k) => if accepts(k, value) is Err {
            o
        } else {
            match k {
                SettingKey::AutoCreateTags => Options {
                    auto_create_tags: boolean_of(value)->0,
                    ..o
                },
                SettingKey::AutoCreateValues => Options {
                    auto_create_values: boolean_of(value)->0,
                    ..o
                },
                SettingKey::ReportDuplicates => Options {
                    report_duplicates: boolean_of(value)->0,
                    ..o
                },
                SettingKey::DirectoryFingerprintAlgorithm => Options {
                    directory_fingerprint_algorithm: value,
                    ..o
                },
                SettingKey::FileFingerprintAlgorithm => Options {
                    file_fingerprint_algorithm: value,
                    ..o
                },
                SettingKey::SymlinkFingerprintAlgorithm => Options {
                    symlink_fingerprint_algorithm: value,
                    ..o
                },
            }
        },
    }
}

impl Settings {
    /// The value of an option.
    pub open spec fn value_of(&self, o: SettingKey) -> SettingView {
        match o {
            SettingKey::AutoCreateTags => SettingView::Boolean(self.auto_create_tags),
            SettingKey::AutoCreateValues => SettingView::Boolean(self.auto_create_values),
            SettingKey::DirectoryFingerprintAlgorithm => SettingView::Text(
                self.directory_fingerprint_algorithm@,
            ),
            SettingKey::FileFingerprintAlgorithm => SettingView::Text(self.file_fingerprint_algorithm@),
            SettingKey::ReportDuplicates => SettingView::Boolean(self.report_duplicates),
            SettingKey::SymlinkFingerprintAlgorithm => SettingView::Text(
                self.symlink_fingerprint_algorithm@,
            ),
        }
    }

    /// The value that an option has after it was given a text: a boolean
    /// option takes what the text says as a boolean, a text option any
    /// text but the empty one.
    pub open spec fn accepted(&self, o: SettingKey, value: Seq<char>) -> Result<
        SettingView,
        SettingFault,
    > {
        match self.value_of(o) {
            SettingView::Boolean(_) => match boolean_of(value) {
                Some(b) => Ok(SettingView::Boolean(b)),
                None => Err(SettingFault::InvalidBoolean),
            },
            SettingView::Text(_) => if value.len() == 0 {
                Err(SettingFault::Unspecified)
            } else {
                Ok(SettingView::Text(value))
            },
        }
    }

    /// Whether the options have the values that each starts from.
    pub open spec fn is_default(&self) -> bool {
        &&& self.auto_create_tags
        &&& self.auto_create_values
        &&& self.directory_fingerprint_algorithm@ == "none"@
        &&& self.file_fingerprint_algorithm@ == "dynamic:SHA256"@
        &&& self.report_duplicates
        &&& self.symlink_fingerprint_algorithm@ == "follow"@
    }

    /// The options with the values that each starts from.
    pub fn new() -> (r: Self)
        ensures
            r.is_default(),
            r@ == default_options(),
    {
        Settings {
            auto_create_tags: true,
            auto_create_values: true,
            directory_fingerprint_algorithm: "none".to_owned(),
            file_fingerprint_algorithm: "dynamic:SHA256".to_owned(),
            report_duplicates: true,
            symlink_fingerprint_algorithm: "follow".to_owned(),
        }
    }

    fn read(&self, o: SettingKey) -> (r: SettingValue)
        ensures
            r@ == self.value_of(o),
    {
        match o {
            SettingKey::AutoCreateTags => SettingValue::Boolean(self.auto_create_tags),
            SettingKey::AutoCreateValues => SettingValue::Boolean(self.auto_create_values),
            SettingKey::DirectoryFingerprintAlgorithm => SettingValue::Text(
                self.directory_fingerprint_algorithm.clone(),
            ),
            SettingKey::FileFingerprintAlgorithm => SettingValue::Text(
                self.file_fingerprint_algorithm.clone(),
            ),
            SettingKey::ReportDuplicates => SettingValue::Boolean(self.report_duplicates),
            SettingKey::SymlinkFingerprintAlgorithm => SettingValue::Text(
                self.symlink_fingerprint_algorithm.clone(),
            ),
        }
    }

    fn entry(&self, o: SettingKey, name: &str) -> (r: NamedSetting)
        requires
            name@ == name_of(o),
        ensures
            r.name@ == name_of(o),
            r.value@ == self.value_of(o),
    {
        NamedSetting { name: name.to_owned(), value: self.read(o) }
    }

    /// All options with their values, in their fixed order.
    pub fn list(&self) -> (r: Vec<NamedSetting>)
        ensures
            r@.len() == 6,
            r@[0].name@ == name_of(SettingKey::AutoCreateTags),
            r@[0].value@ == self.value_of(SettingKey::AutoCreateTags),
            r@[1].name@ == name_of(SettingKey::AutoCreateValues),
            r@[1].value@ == self.value_of(SettingKey::AutoCreateValues),
            r@[2].name@ == name_of(SettingKey::DirectoryFingerprintAlgorithm),
            r@[2].value@ == self.value_of(SettingKey::DirectoryFingerprintAlgorithm),
            r@[3].name@ == name_of(SettingKey::FileFingerprintAlgorithm),
            r@[3].value@ == self.value_of(SettingKey::FileFingerprintAlgorithm),
            r@[4].name@ == name_of(SettingKey::ReportDuplicates),
            r@[4].value@ == self.value_of(SettingKey::ReportDuplicates),
            r@[5].name@ == name_of(SettingKey::SymlinkFingerprintAlgorithm),
            r@[5].value@ == self.value_of(SettingKey::SymlinkFingerprintAlgorithm),
    {
        let mut out: Vec<NamedSetting> = Vec::new();
        out.push(self.entry(SettingKey::AutoCreateTags, "autoCreateTags"));
        out.push(self.entry(SettingKey::AutoCreateValues, "autoCreateValues"));
        out.push(
            self.entry(SettingKey::DirectoryFingerprintAlgorithm, "directoryFingerprintAlgorithm"),
        );
        out.push(self.entry(SettingKey::FileFingerprintAlgorithm, "fileFingerprintAlgorithm"));
        out.push(self.entry(SettingKey::ReportDuplicates, "reportDuplicates"));
        out.push(self.entry(SettingKey::SymlinkFingerprintAlgorithm, "symlinkFingerprintAlgorithm"));
        out
    }

    /// The value of the option of that name; none for a name that is no
    /// option's.
    pub fn get(&self, name: &str) -> (r: Option<SettingValue>)
        ensures
            match r {
                Some(v) => option_named(name@) is Some && v@ == self.value_of(
                    option_named(name@)->0,
                ),
                None => option_named(name@) is None,
            },
    {
        match find_option(name) {
            Some(o) => Some(self.read(o)),
            None => None,
        }
    }

    /// Gives the option of that name a new value.
    pub fn set(&mut self, name: &str, value: &str) -> (r: Result<(), Error>)
        ensures
            final(self)@ == given(old(self)@, name@, value@),
            match option_named(name@) {
                None => *final(self) == *old(self) && (r matches Err(Error::NoSuchSetting(n))
                    && n@ == name@),
                Some(o) => match old(self).accepted(o, value@) {
                    Ok(v) => r is Ok && final(self).value_of(o) == v && forall|p: SettingKey|
                        p != o ==> final(self).value_of(p) == old(self).value_of(p),
                    Err(f) => *final(self) == *old(self) && (r matches Err(
                        Error::InvalidSetting(n, g),
                    ) && n@ == name@ && g == f),
                },
            },
    {
        let o = match find_option(name) {
            Some(o) => o,
            None => return Err(Error::NoSuchSetting(name.to_owned())),
        };
        match o {
            SettingKey::AutoCreateTags | SettingKey::AutoCreateValues | SettingKey::ReportDuplicates => {
                let b = match parse_boolean(value) {
                    Some(b) => b,
                    None => return Err(
                        Error::InvalidSetting(name.to_owned(), SettingFault::InvalidBoolean),
                    ),
                };
                match o {
                    SettingKey::AutoCreateTags => self.auto_create_tags = b,
                    SettingKey::AutoCreateValues => self.auto_create_values = b,
                    _ => self.report_duplicates = b,
                }
            },
            _ => {
                if value.unicode_len() == 0 {
                    return Err(Error::InvalidSetting(name.to_owned(), SettingFault::Unspecified));
                }
                match o {
                    SettingKey::DirectoryFingerprintAlgorithm => {
                        self.directory_fingerprint_algorithm = value.to_owned()
                    },
                    SettingKey::FileFingerprintAlgorithm => {
                        self.file_fingerprint_algorithm = value.to_owned()
                    },
                    _ => self.symlink_fingerprint_algorithm = value.to_owned(),
                }
            },
        }
        Ok(())
    }

    pub fn auto_create_tags(&self) -> (r: bool)
        ensures
            r == self.auto_create_tags,
    {
        self.auto_create_tags
    }

    pub fn auto_create_values(&self) -> (r: bool)
        ensures
            r == self.auto_create_values,
    {
        self.auto_create_values
    }

    pub fn directory_fingerprint_algorithm(&self) -> (r: String)
        ensures
            r@ == self.directory_fingerprint_algorithm@,
    {
        self.directory_fingerprint_algorithm.clone()
    }

    pub fn file_fingerprint_algorithm(&self) -> (r: String)
        ensures
            r@ == self.file_fingerprint_algorithm@,
    {
        self.file_fingerprint_algorithm.clone()
    }

    pub fn symlink_fingerprint_algorithm(&self) -> (r: String)
        ensures
            r@ == self.symlink_fingerprint_algorithm@,
    {
        self.symlink_fingerprint_algorithm.clone()
    }

    pub fn report_duplicates(&self) -> (r: bool)
        ensures
            r == self.report_duplicates,
    {
        self.report_duplicates
    }
}

} // verus!
