//! JSON texts, by way of `serde_json`.
use vstd::prelude::*;

verus! {

/// What kind of fault a JSON text has.
#[derive(Clone, Copy, Debug, PartialEq, Eq, Structural)]
pub enum JsonFaultKind {
    Io,
    Syntax,
    Data,
    Eof,
}

/// What is wrong with a JSON text, and where.
#[derive(Debug)]
pub struct JsonFault {
    pub kind: JsonFaultKind,
    pub message: String,
    pub line: usize,
    pub column: usize,
}

/// What a `JsonFault` holds.
pub struct JsonFaultView {
    pub kind: JsonFaultKind,
    pub message: Seq<char>,
    pub line: usize,
    pub column: usize,
}

impl DeepView for JsonFault {
    type V = JsonFaultView;

    open spec fn deep_view(&self) -> JsonFaultView {
        JsonFaultView {
            kind: self.kind,
            message: self.message@,
            line: self.line,
            column: self.column,
        }
    }
}

/// The value of `text` where it is a JSON string and nothing else.
pub uninterp spec fn string_value(text: Seq<char>) -> Option<Seq<char>>;

/// Calls `serde_json::from_str` for a `String`; the result, where it is no error, is named by
/// `string_value`.
#[verifier::external_body]
pub(crate) fn decode_string(text: &str) -> (value: Option<String>)
    ensures
        value.deep_view() == string_value(text@),
{
    serde_json::from_str(text).ok()
}

/// The JSON string with the value `text`.
pub uninterp spec fn string_literal(text: Seq<char>) -> Seq<char>;

/// Calls `serde_json::to_string` for a `str`, which cannot fail; the result is named by
/// `string_literal`, and reading it gives the text back.
#[verifier::external_body]
pub(crate) fn encode_string(text: &str) -> (literal: String)
    ensures
        literal@ == string_literal(text@),
        string_value(literal@) == Some(text@),
{
    serde_json::to_string(text).unwrap_or_default()
}

/// What is wrong with `text`, where it is not JSON.
pub uninterp spec fn fault(text: Seq<char>) -> Option<JsonFaultView>;

/// Calls `serde_json::from_str` for a `serde_json::Value`; the error, where there is one, is named
/// by `fault`.
#[verifier::external_body]
pub(crate) fn find_fault(text: &str) -> (found: Option<JsonFault>)
    ensures
        found.deep_view() == fault(text@),
{
    let error = serde_json::from_str::<serde_json::Value>(text).err()?;
    let kind = match error.classify() {
        serde_json::error::Category::Io => JsonFaultKind::Io,
        serde_json::error::Category::Syntax => JsonFaultKind::Syntax,
        serde_json::error::Category::Data => JsonFaultKind::Data,
        serde_json::error::Category::Eof => JsonFaultKind::Eof,
    };
    let (line, column) = (error.line(), error.column());
    Some(JsonFault { kind, message: error.to_string(), line, column })
}

} // verus!
