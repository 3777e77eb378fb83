//! The line shapes of an exported registry file, as regular expressions.
//!
//! Layout of a `.reg` export:
//!
//!   RegistryEditorVersion
//!   <blank line>
//!   [RegistryPath1]
//!   "DataItemName1"=DataType1:DataValue1
//!   "DataItemName2"=DataType2:DataValue2
//!   <blank line>
//!   [RegistryPath2]
//!   ...
use vstd::prelude::*;
use crate::util::whitespace;

verus! {

/// The first line: the editor version.
pub const REGISTRY_EDITOR_VERSION: &'static str =
    r"^(?<version>Windows Registry Editor Version \d+\.\d+|REGEDIT4)\s*$";

/// A `[path]` line that opens a key.
pub const REGISTRY_PATH: &'static str = r"^\[(?<path>[^\]]+)\]\s*$";

/// A `"name"=type:data` line, or `@=...` for the key's unnamed value.
pub const REGISTRY_VALUE: &'static str = r#"(?x)
        ^
        (?:
              " (?<name> (?: [^"\\] | \\. )* ) "   # "DataItemName"
            | (?<default> @ )                      # @ stands for the key's unnamed value
        )
        =
        (?:                                        # DataType, absent for a plain string
            (?<kind>
                  dword
                | qword
                | hex (?: \( (?<code> [0-9a-fA-F]+ ) \) )?
            )
            :
        )?
        (?<data> .* )                              # DataValue, still quoted/comma-separated
        $
    "#;

/// One value of a key.
pub struct Value {
    /// `None` is the `@` unnamed value.
    pub name: Option<String>,
    pub kind: String,
    pub data: String,
}

/// A value as plain values.
pub struct ValueModel {
    pub name: Option<Seq<char>>,
    pub kind: Seq<char>,
    pub data: Seq<char>,
}

impl View for Value {
    type V = ValueModel;

    open spec fn view(&self) -> ValueModel {
        ValueModel {
            name: match self.name {
                Some(n) => Some(n@),
                None => None,
            },
            kind: self.kind@,
            data: self.data@,
        }
    }
}

#[verifier::external_type_specification]
#[verifier::external_body]
pub struct ExRegex(regex::Regex);

/// A compiled regular expression, with the pattern it was compiled from.
pub struct Pattern {
    source: String,
    regex: regex::Regex,
}

impl Pattern {
    /// The pattern this was compiled from.
    pub closed spec fn source(&self) -> Seq<char> {
        self.source@
    }
}

/// `regex::Regex::new(pattern)` of one of this module's three patterns, all of which compile,
/// so its `unwrap` cannot fail. Claimed: the compiled expression remembers its pattern.
#[verifier::external_body]
pub(crate) fn compile(pattern: &str) -> (p: Pattern)
    requires
        pattern@ == REGISTRY_EDITOR_VERSION@ || pattern@ == REGISTRY_PATH@ || pattern@
            == REGISTRY_VALUE@,
    ensures
        p.source() == pattern@,
{
    Pattern { source: pattern.to_string(), regex: regex::Regex::new(pattern).unwrap() }
}

/// The three patterns a reader needs, compiled once.
pub struct Patterns {
    pub version: Pattern,
    pub path: Pattern,
    pub value: Pattern,
}

impl Patterns {
    /// Whether each pattern is the one its field names.
    pub open spec fn wf(&self) -> bool {
        &&& self.version.source() == REGISTRY_EDITOR_VERSION@
        &&& self.path.source() == REGISTRY_PATH@
        &&& self.value.source() == REGISTRY_VALUE@
    }

    pub fn new() -> (p: Patterns)
        ensures
            p.wf(),
    {
        Patterns {
            version: compile(REGISTRY_EDITOR_VERSION),
            path: compile(REGISTRY_PATH),
            value: compile(REGISTRY_VALUE),
        }
    }
}

/// Whether the `]` at `k` closes the `[path]` that `line` opens with, leaving only white space
/// after it.
pub open spec fn closes_path(line: Seq<char>, k: int) -> bool {
    &&& 2 <= k < line.len()
    &&& line[0] == '['
    &&& line[k] == ']'
    &&& forall|i: int| 1 <= i < k ==> line[i] != ']'
    &&& forall|i: int| k < i < line.len() ==> whitespace(line[i])
}

/// The path of a `[path]` line: a `[`, then one or more characters other than `]`, then `]`,
/// then nothing but white space; `None` for any other line.
pub open spec fn bracketed_path(line: Seq<char>) -> Option<Seq<char>> {
    if exists|k: int| closes_path(line, k) {
        let k = choose|k: int| closes_path(line, k);
        Some(line.subrange(1, k))
    } else {
        None
    }
}

/// The value that a value line describes, or `None` where the line is not one.
pub uninterp spec fn value_line(line: Seq<char>) -> Option<ValueModel>;

/// The version that the editor-version line names, or `None` where the line is not one.
pub uninterp spec fn editor_version(line: Seq<char>) -> Option<Seq<char>>;

/// The `path` group of `REGISTRY_PATH` matched against `line` with `Regex::captures`.
/// Claimed: the pattern matches exactly the lines `bracketed_path` describes (`\s` being
/// Unicode white space and `$` the end of the line), capturing the text between the brackets.
#[verifier::external_body]
pub(crate) fn capture_path(p: &Pattern, line: &str) -> (path: Option<String>)
    requires
        p.source() == REGISTRY_PATH@,
    ensures
        path matches Some(t) ==> bracketed_path(line@) == Some(t@),
        path is None ==> bracketed_path(line@) is None,
{
    p.regex.captures(line).map(|caps| caps["path"].to_string())
}

/// The `name`, `kind` and `data` groups of `REGISTRY_VALUE` matched against `line` with
/// `Regex::captures` (a missing `kind` read as empty). Claimed: they depend on the line alone.
#[verifier::external_body]
pub(crate) fn capture_value(p: &Pattern, line: &str) -> (value: Option<Value>)
    requires
        p.source() == REGISTRY_VALUE@,
    ensures
        value matches Some(v) ==> value_line(line@) == Some(v@),
        value is None ==> value_line(line@) is None,
{
    p.regex.captures(line).map(|caps| Value {
        name: caps.name("name").map(|name| name.as_str().to_string()),
        kind: caps.name("kind").map_or_else(String::new, |kind| kind.as_str().to_string()),
        data: caps["data"].to_string(),
    })
}

/// The `version` group of `REGISTRY_EDITOR_VERSION` matched against `line` with
/// `Regex::captures`. Claimed: it depends on the line alone.
#[verifier::external_body]
pub(crate) fn capture_version(p: &Pattern, line: &str) -> (version: Option<String>)
    requires
        p.source() == REGISTRY_EDITOR_VERSION@,
    ensures
        version matches Some(v) ==> editor_version(line@) == Some(v@),
        version is None ==> editor_version(line@) is None,
{
    p.regex.captures(line).map(|caps| caps["version"].to_string())
}

} // verus!
