//! What is reported on a document, and the data that goes with it.

use vstd::prelude::*;

use crate::model::{Position, Range};

verus! {

// ---------------------------------------------------------------------------
// JSON objects
// ---------------------------------------------------------------------------

/// `serde_json::Value`.
#[verifier::external_type_specification]
#[verifier::external_body]
pub struct ExJsonValue(serde_json::Value);

/// `serde_json::Map`.
#[verifier::external_type_specification]
#[verifier::external_body]
#[verifier::reject_recursive_types(K)]
#[verifier::reject_recursive_types(V)]
pub struct ExJsonMap<K, V>(serde_json::Map<K, V>);

/// The strings that a JSON object holds, by key. What it holds besides strings
/// is left out.
pub uninterp spec fn object_texts(
    object: serde_json::Map<String, serde_json::Value>,
) -> Map<Seq<char>, Seq<char>>;

/// The strings that a JSON value holds by key, where it is an object.
pub uninterp spec fn value_texts(value: serde_json::Value) -> Option<Map<Seq<char>, Seq<char>>>;

/// No strings.
pub open spec fn no_texts() -> Map<Seq<char>, Seq<char>> {
    Map::empty()
}

/// `serde_json::Map::new`: the object holds nothing.
#[verifier::external_body]
pub(crate) fn new_object() -> (r: serde_json::Map<String, serde_json::Value>)
    ensures
        object_texts(r) == no_texts(),
{
    serde_json::Map::new()
}

/// `serde_json::Map::insert` with a string: the key has that string, and what it
/// had before is gone; the other keys keep what they have.
#[verifier::external_body]
pub(crate) fn insert_text(
    object: &mut serde_json::Map<String, serde_json::Value>,
    key: &str,
    text: &str,
)
    ensures
        object_texts(*final(object)) == object_texts(*old(object)).insert(key@, text@),
{
    object.insert(key.to_owned(), serde_json::Value::String(text.to_owned()));
}

/// `serde_json::Map::get` and `serde_json::Value::as_str`: the string of a key,
/// where there is one.
#[verifier::external_body]
pub(crate) fn get_text(object: &serde_json::Map<String, serde_json::Value>, key: &str) -> (r: Option<
    String,
>)
    ensures
        match r {
            Some(s) => object_texts(*object).contains_key(key@) && s@ == object_texts(
                *object,
            )[key@],
            None => !object_texts(*object).contains_key(key@),
        },
{
    object.get(key).and_then(|value| value.as_str()).map(|s| s.to_owned())
}

/// `serde_json::Value::Object`: the value is an object that holds what the map
/// holds.
#[verifier::external_body]
pub(crate) fn object_value(object: serde_json::Map<String, serde_json::Value>) -> (r: serde_json::Value)
    ensures
        value_texts(r) == Some(object_texts(object)),
{
    serde_json::Value::Object(object)
}

/// `serde_json::from_value` into a map: it succeeds on an object and only there,
/// and the map holds what the object holds.
#[verifier::external_body]
pub(crate) fn value_object(value: serde_json::Value) -> (r: Result<
    serde_json::Map<String, serde_json::Value>,
    serde_json::Error,
>)
    ensures
        match r {
            Ok(object) => value_texts(value) == Some(object_texts(object)),
            Err(_) => value_texts(value) is None,
        },
{
    serde_json::from_value(value)
}

/// `serde_json::Value::clone`: the copy holds what the value holds.
#[verifier::external_body]
pub(crate) fn copy_value(value: &serde_json::Value) -> (r: serde_json::Value)
    ensures
        value_texts(r) == value_texts(*value),
{
    value.clone()
}

/// `serde_json::Error`.
#[verifier::external_type_specification]
#[verifier::external_body]
pub struct ExJsonError(serde_json::Error);

// ---------------------------------------------------------------------------
// Diagnostics
// ---------------------------------------------------------------------------

/// How grave a diagnostic is.
#[derive(Debug, Clone, Copy, PartialEq, Eq, Structural)]
pub enum DiagnosticSeverity {
    Error,
    Warning,
    Information,
    Hint,
}

/// A report on a stretch of a document.
#[derive(Debug)]
pub struct Diagnostic {
    pub range: Range,
    pub severity: Option<DiagnosticSeverity>,
    pub code: Option<String>,
    pub source: Option<String>,
    pub message: String,
    pub data: Option<serde_json::Value>,
}

/// What a diagnostic says.
pub struct DiagnosticView {
    pub range: Range,
    pub severity: Option<DiagnosticSeverity>,
    pub code: Option<Seq<char>>,
    pub source: Option<Seq<char>>,
    pub message: Seq<char>,
    /// The strings that the data holds by key, where there is data and it is an
    /// object.
    pub data: Option<Option<Map<Seq<char>, Seq<char>>>>,
}

/// The view of the data of a diagnostic.
pub open spec fn data_view(data: Option<serde_json::Value>) -> Option<
    Option<Map<Seq<char>, Seq<char>>>,
> {
    match data {
        Some(value) => Some(value_texts(value)),
        None => None,
    }
}

impl View for Diagnostic {
    type V = DiagnosticView;

    open spec fn view(&self) -> DiagnosticView {
        DiagnosticView {
            range: self.range,
            severity: self.severity,
            code: self.code.deep_view(),
            source: self.source.deep_view(),
            message: self.message@,
            data: data_view(self.data),
        }
    }
}

/// The views of a list of diagnostics.
pub open spec fn diagnostic_views(list: Seq<Diagnostic>) -> Seq<DiagnosticView> {
    Seq::new(list.len(), |i: int| list[i]@)
}

/// A copy of an optional text.
fn copy_text(s: &Option<String>) -> (r: Option<String>)
    ensures
        r == *s,
{
    match s {
        Some(s) => Some(s.clone()),
        None => None,
    }
}

impl Clone for Diagnostic {
    fn clone(&self) -> (r: Self)
        ensures
            r@ == self@,
    {
        Diagnostic {
            range: self.range,
            severity: self.severity,
            code: copy_text(&self.code),
            source: copy_text(&self.source),
            message: self.message.clone(),
            data: match &self.data {
                Some(value) => Some(copy_value(value)),
                None => None,
            },
        }
    }
}

/// A copy of a list of diagnostics.
pub fn copy_diagnostics(list: &Vec<Diagnostic>) -> (r: Vec<Diagnostic>)
    ensures
        diagnostic_views(r@) == diagnostic_views(list@),
{
    let mut out: Vec<Diagnostic> = Vec::new();
    let ghost all = diagnostic_views(list@);
    for i in 0..list.len()
        invariant
            all == diagnostic_views(list@),
            diagnostic_views(out@) == all.take(i as int),
    {
        let ghost before = diagnostic_views(out@);
        out.push(list[i].clone());
        assert(diagnostic_views(out@) =~= before.push(all[i as int]));
        assert(all.take(i + 1) =~= all.take(i as int).push(all[i as int]));
    }
    assert(all.take(all.len() as int) =~= all);
    out
}

/// The range at the beginning of a document that holds nothing.
pub open spec fn empty_range() -> Range {
    Range {
        start: Position { line: 0, character: 0 },
        end: Position { line: 0, character: 0 },
    }
}

/// What an error says that concerns a document as a whole.
pub open spec fn error_view(message: Seq<char>) -> DiagnosticView {
    DiagnosticView {
        range: empty_range(),
        severity: Some(DiagnosticSeverity::Error),
        code: None,
        source: None,
        message,
        data: None,
    }
}

/// An error that concerns a document as a whole.
pub fn error_diagnostic(message: String) -> (r: Diagnostic)
    ensures
        r@ == error_view(message@),
{
    Diagnostic {
        range: Range {
            start: Position { line: 0, character: 0 },
            end: Position { line: 0, character: 0 },
        },
        severity: Some(DiagnosticSeverity::Error),
        code: None,
        source: None,
        message,
        data: None,
    }
}

/// Where something stands: a document, and a stretch of it.
#[derive(Debug)]
pub struct Location {
    pub uri: String,
    pub range: Range,
}

/// An error says its message, as an error, at the beginning of the document.
pub proof fn lemma_error_says(message: Seq<char>)
    ensures
        error_view(message).message == message,
        error_view(message).severity == Some(DiagnosticSeverity::Error),
        error_view(message).range.start == (Position { line: 0, character: 0 }),
        error_view(message).range.end == error_view(message).range.start,
        error_view(message).data is None,
{
}

} // verus!
