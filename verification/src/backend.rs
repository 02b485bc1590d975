//! The outside code that the engine leans on: the JSON and YAML parsers, the
//! JSON patch differ, the JSON pointer resolver, the regex matcher, and two
//! functions of the standard library.
//!
//! The contracts of the functions marked `external_body` in this file are
//! taken on trust: each hands its arguments to outside code, and its contract
//! says what comes back, mostly by giving the result a name. The rest of the
//! library is proved against these contracts.

use crate::document::{content_of, well_formed, Doc, Document};
use crate::text::strings_of;
use vstd::prelude::*;

verus! {

/// `serde_json::Value`, the tree that the outside crates work on. It passes
/// between the functions of this file only; the rest of the library never
/// looks into one.
#[verifier::external_type_specification]
#[verifier::external_body]
pub struct ExJsonValue(serde_json::Value);

/// One step of a JSON patch.
#[derive(Debug)]
pub enum PatchOp {
    /// A value appears at `path`.
    Add { path: String, value: Document },
    /// The value at `path` goes away.
    Remove { path: String },
    /// The value at `path` gives way to `value`.
    Replace { path: String, value: Document },
    /// A move, a copy or a test, which say nothing of a change at `path`.
    Other { path: String },
}

/// The mathematical content of a [`PatchOp`].
pub enum PatchStep {
    Add { path: Seq<char>, value: Doc },
    Remove { path: Seq<char> },
    Replace { path: Seq<char>, value: Doc },
    Other { path: Seq<char> },
}

impl PatchStep {
    /// The path that the step speaks of.
    pub open spec fn path(self) -> Seq<char> {
        match self {
            PatchStep::Add { path, value } => path,
            PatchStep::Remove { path } => path,
            PatchStep::Replace { path, value } => path,
            PatchStep::Other { path } => path,
        }
    }
}

impl View for PatchOp {
    type V = PatchStep;

    open spec fn view(&self) -> PatchStep {
        match self {
            PatchOp::Add { path, value } => PatchStep::Add { path: path@, value: value@ },
            PatchOp::Remove { path } => PatchStep::Remove { path: path@ },
            PatchOp::Replace { path, value } => PatchStep::Replace { path: path@, value: value@ },
            PatchOp::Other { path } => PatchStep::Other { path: path@ },
        }
    }
}

impl PatchOp {
    /// The path that the step speaks of.
    pub fn path(&self) -> (path: &String)
        ensures
            path@ == self@.path(),
    {
        match self {
            PatchOp::Add { path, value } => path,
            PatchOp::Remove { path } => path,
            PatchOp::Replace { path, value } => path,
            PatchOp::Other { path } => path,
        }
    }
}

/// The contents of a list of patch steps.
pub open spec fn steps_of(ops: Seq<PatchOp>) -> Seq<PatchStep> {
    ops.map_values(|op: PatchOp| op@)
}

/// Builds the `serde_json::Value` that stands for `doc`, value for value
/// and member for member. A number goes through `serde_json::Number`'s
/// `FromStr` (a text that is no JSON number, which no well-formed document
/// holds, would become `null`). The functions that call this one take only
/// well-formed documents in which no name occurs twice: such a document
/// nests no deeper than the bound, and its members are its content.
#[verifier::external_body]
fn to_json(doc: &Document) -> serde_json::Value {
    match doc {
        Document::Null => serde_json::Value::Null,
        Document::Bool(b) => serde_json::Value::Bool(*b),
        Document::Number(n) => n.parse().map_or(serde_json::Value::Null, serde_json::Value::Number),
        Document::String(text) => serde_json::Value::String(text.clone()),
        Document::Array(items) => serde_json::Value::Array(items.iter().map(to_json).collect()),
        Document::Object(members) => {
            let members = members.iter().map(|member| (member.0.clone(), to_json(&member.1)));
            serde_json::Value::Object(members.collect())
        },
    }
}

/// Reads a `serde_json::Value` into a document. A number is kept as the text
/// that `serde_json::Number` displays; the members of an object come in the
/// order in which its `serde_json::Map` hands them out.
#[verifier::external_body]
fn from_json(json: &serde_json::Value) -> Document {
    match json {
        serde_json::Value::Null => Document::Null,
        serde_json::Value::Bool(b) => Document::Bool(*b),
        serde_json::Value::Number(n) => Document::Number(n.to_string()),
        serde_json::Value::String(text) => Document::String(text.clone()),
        serde_json::Value::Array(items) => Document::Array(items.iter().map(from_json).collect()),
        serde_json::Value::Object(map) => Document::Object(
            map.iter().map(|(name, value)| (name.clone(), from_json(value))).collect(),
        ),
    }
}

/// What `serde_json::from_str` reads from a JSON text: the document, or
/// nothing where the text is no JSON.
pub uninterp spec fn json_parse(text: Seq<char>) -> Option<Doc>;

/// What `serde_norway::from_str` reads from a YAML text: the document, or,
/// where the text is no YAML that stands for a JSON value, the error in the
/// crate's words.
pub uninterp spec fn yaml_parse(text: Seq<char>) -> Result<Doc, Seq<char>>;

/// The patch that `json_patch::diff` computes to turn `base` into `current`.
pub uninterp spec fn json_diff(base: Doc, current: Doc) -> Seq<PatchStep>;

/// The text in which `serde_json` writes the number that it reads from
/// `text`, through `FromStr` and `Display` of `serde_json::Number`: nothing
/// where `text` is no JSON number.
pub uninterp spec fn canonical_number(text: Seq<char>) -> Option<Seq<char>>;

/// Whether a text is a JSON pointer, which is what `jsonptr::Pointer::parse`
/// accepts: the empty text, or a text that begins with `/` and in which each
/// `~` is followed by `0` or by `1`.
pub open spec fn is_pointer(text: Seq<char>) -> bool {
    text.len() == 0 || (text[0] == '/' && forall|i: int|
        0 <= i < text.len() && #[trigger] text[i] == '~' ==> i + 1 < text.len() && (text[i + 1]
            == '0' || text[i + 1] == '1'))
}

/// The value that `jsonptr::Pointer::resolve` reaches in `doc` when it
/// follows the JSON pointer `pointer`: nothing where the pointer leads
/// nowhere.
pub uninterp spec fn pointer_reaches(doc: Doc, pointer: Seq<char>) -> Option<Doc>;

/// The value that the text `pointer` reaches in `doc`: what it reaches as a
/// JSON pointer, and nothing where it is none.
pub open spec fn pointer_target(doc: Doc, pointer: Seq<char>) -> Option<Doc> {
    if is_pointer(pointer) {
        pointer_reaches(doc, pointer)
    } else {
        None
    }
}

/// Whether `regex::Regex::new` compiles `pattern`: whether its syntax is in
/// order and what it compiles to is within the size that the crate allows.
pub uninterp spec fn regex_compiles(pattern: Seq<char>) -> bool;

/// Whether the regex compiled from `pattern` matches somewhere in `text`, as
/// `regex::Regex::is_match` finds it.
pub uninterp spec fn regex_finds(pattern: Seq<char>, text: Seq<char>) -> bool;

/// The compact JSON text that `serde_json` displays for a document.
pub uninterp spec fn json_text(doc: Doc) -> Seq<char>;

/// The text that the standard library's `Debug` writes for a list of strings:
/// the strings, quoted and escaped, between square brackets.
pub uninterp spec fn list_debug_text(items: Seq<Seq<char>>) -> Seq<char>;

/// Appends one character to a string, with `String::push` of the standard
/// library.
#[verifier::external_body]
pub(crate) fn push_char(s: &mut String, c: char)
    ensures
        final(s)@ == old(s)@.push(c),
{
    s.push(c)
}

/// Parses a JSON text with `serde_json::from_str`. The result depends on the
/// text alone.
#[verifier::external_body]
pub(crate) fn parse_json(text: &str) -> (doc: Option<Document>)
    ensures
        content_of(doc) == json_parse(text@),
{
    serde_json::from_str::<serde_json::Value>(text).ok().map(|json| from_json(&json))
}

/// Parses a YAML text into a JSON value with `serde_norway::from_str`, and
/// hands back the document or the error as the crate displays it. The result
/// depends on the text alone.
#[verifier::external_body]
pub(crate) fn parse_yaml(text: &str) -> (read: Result<Document, String>)
    ensures
        match read {
            Ok(doc) => yaml_parse(text@) == Ok::<Doc, Seq<char>>(doc@),
            Err(cause) => yaml_parse(text@) == Err::<Doc, Seq<char>>(cause@),
        },
{
    match serde_norway::from_str::<serde_json::Value>(text) {
        Ok(json) => Ok(from_json(&json)),
        Err(error) => Err(error.to_string()),
    }
}

/// Reads `text` as a number with `FromStr` of `serde_json::Number` and writes
/// it again with its `Display`. The result depends on the text alone.
#[verifier::external_body]
pub(crate) fn number_text(text: &str) -> (written: Option<String>)
    ensures
        match written {
            Some(canonical) => canonical_number(text@) == Some(canonical@),
            None => canonical_number(text@) is None,
        },
{
    text.parse::<serde_json::Number>().ok().map(|number| number.to_string())
}

/// Computes the patch from `base` to `current` with `json_patch::diff`. The
/// patch depends on the content of the two documents alone, and two documents
/// of the same content differ in nothing: the differ walks both in step and
/// emits a step only where a member or an item is missing on one side or two
/// leaves are unequal.
#[verifier::external_body]
pub(crate) fn diff_documents(base: &Document, current: &Document) -> (ops: Vec<PatchOp>)
    requires
        well_formed(base@),
        base.no_name_twice(),
        well_formed(current@),
        current.no_name_twice(),
    ensures
        steps_of(ops@) == json_diff(base@, current@),
        base@ == current@ ==> ops@.len() == 0,
{
    let patch = json_patch::diff(&to_json(base), &to_json(current));
    patch.0.into_iter().map(|op| {
        let path = op.path().to_string();
        match op {
            json_patch::PatchOperation::Add(op) => PatchOp::Add { path, value: from_json(&op.value) },
            json_patch::PatchOperation::Remove(_) => PatchOp::Remove { path },
            json_patch::PatchOperation::Replace(op) => PatchOp::Replace { path, value: from_json(&op.value) },
            json_patch::PatchOperation::Move(_) => PatchOp::Other { path },
            json_patch::PatchOperation::Copy(_) => PatchOp::Other { path },
            json_patch::PatchOperation::Test(_) => PatchOp::Other { path },
        }
    }).collect()
}

/// Parses `pointer` with `jsonptr::Pointer::parse` and, where it is a
/// pointer, follows it in `doc` with `jsonptr::Pointer::resolve`. What is
/// reached depends on the content of the document and on the pointer's text
/// alone.
#[verifier::external_body]
pub(crate) fn resolve_pointer(doc: &Document, pointer: &str) -> (target: Option<Document>)
    requires
        well_formed(doc@),
        doc.no_name_twice(),
    ensures
        content_of(target) == if is_pointer(pointer@) {
            pointer_reaches(doc@, pointer@)
        } else {
            None
        },
{
    let json = to_json(doc);
    jsonptr::Pointer::parse(pointer).ok()?.resolve(&json).ok().map(from_json)
}

/// Compiles `pattern` with `regex::Regex::new` and, where it compiles,
/// searches `text` with `regex::Regex::is_match`. Whether the pattern compiles
/// depends on its text alone, and what the search finds on the two texts.
#[verifier::external_body]
pub(crate) fn regex_is_match(pattern: &str, text: &str) -> (found: Option<bool>)
    ensures
        found == if regex_compiles(pattern@) {
            Some(regex_finds(pattern@, text@))
        } else {
            None
        },
{
    regex::Regex::new(pattern).ok().map(|re| re.is_match(text))
}

/// Writes a document as compact JSON, as `serde_json::Value` displays it.
#[verifier::external_body]
pub(crate) fn render_json(doc: &Document) -> (text: String)
    requires
        well_formed(doc@),
        doc.no_name_twice(),
    ensures
        text@ == json_text(doc@),
{
    to_json(doc).to_string()
}

/// Writes a list of strings as the standard library's `Debug` does, through
/// `format!`.
#[verifier::external_body]
pub(crate) fn debug_list(items: &Vec<String>) -> (text: String)
    ensures
        text@ == list_debug_text(strings_of(items@)),
{
    format!("{:?}", items)
}

} // verus!
