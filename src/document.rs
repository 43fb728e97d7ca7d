//! A whole conversion from source text to target text: the multi-line
//! description cut out, the text parsed, the document translated, rendered,
//! and the description spliced back.

use crate::decimal::Decimal;
use crate::diagnostics::{views, Diagnostic, ErrorKind};
use crate::multiline::{extraction, maybe_extract_multilines, recover_multilines, recovery};
use crate::tables::{Tables, TablesV};
use crate::translate::{
    append_multilines, translate, translation, translation_diags, with_blob_description,
};
use crate::tree::{Json, JsonV};
use json::JsonValue;
use vstd::prelude::*;

verus! {

#[verifier::external_type_specification]
#[verifier::external_body]
pub struct ExJsonValue(JsonValue);

#[verifier::external_type_specification]
#[verifier::external_body]
pub struct ExJsonError(json::Error);

/// The document that `json::parse` reads from a text, where it reads one.
pub uninterp spec fn parsed(text: Seq<char>) -> Option<JsonV>;

/// The compact text that `json::stringify` writes for a document.
pub uninterp spec fn compact_text(doc: JsonV) -> Seq<char>;

/// The indented text that `json::stringify_pretty` writes for a document, with
/// four spaces a level.
pub uninterp spec fn pretty_text(doc: JsonV) -> Seq<char>;

/// The json crate's value as a document tree, one node for one node: a
/// number keeps its sign, mantissa and exponent.
#[verifier::external_body]
fn tree_of(v: &JsonValue) -> Json {
    match v {
        JsonValue::Null => Json::Null,
        JsonValue::Boolean(b) => Json::Bool(*b),
        JsonValue::Short(s) => Json::Str(s.as_str().to_string()),
        JsonValue::String(s) => Json::Str(s.clone()),
        JsonValue::Number(n) => {
            let (positive, mantissa, exponent) = n.as_parts();
            Json::Number(Decimal { positive, mantissa, exponent })
        },
        JsonValue::Array(a) => Json::Array(a.iter().map(tree_of).collect()),
        JsonValue::Object(o) => Json::Object(o.iter().map(|(k, x)| (k.to_string(), tree_of(x))).collect()),
    }
}

/// The document tree as the json crate's value, one node for one node.
#[verifier::external_body]
fn value_of(j: &Json) -> JsonValue {
    match j {
        Json::Null => JsonValue::Null,
        Json::Bool(b) => JsonValue::Boolean(*b),
        Json::Str(s) => JsonValue::String(s.clone()),
        Json::Number(d) => JsonValue::Number(json::number::Number::from_parts(d.positive, d.mantissa, d.exponent)),
        Json::Array(a) => JsonValue::Array(a.iter().map(value_of).collect()),
        Json::Object(es) => JsonValue::Object(es.iter().map(|(k, x)| (k.as_str(), value_of(x))).collect()),
    }
}

/// Relies on `json::parse`: the document read from the text, a function of
/// the text alone.
#[verifier::external_body]
fn parse_text(text: &str) -> (r: Result<Json, json::Error>)
    ensures
        match r {
            Ok(doc) => parsed(text@) == Some(doc@),
            Err(_) => parsed(text@) is None,
        },
{
    json::parse(text).map(|v| tree_of(&v))
}

/// Relies on `json::stringify`: the compact text of the document.
#[verifier::external_body]
fn render_compact(doc: &Json) -> (r: String)
    ensures
        r@ == compact_text(doc@),
{
    json::stringify(value_of(doc))
}

/// Relies on `json::stringify_pretty`: the indented text of the document.
#[verifier::external_body]
fn render_pretty(doc: &Json) -> (r: String)
    ensures
        r@ == pretty_text(doc@),
{
    json::stringify_pretty(value_of(doc), 4)
}

/// Why a conversion stopped.
#[derive(Clone, Copy, Debug, PartialEq, Eq, Structural)]
pub enum ConvertError {
    /// The source text, with its description cut down to one line, is no JSON.
    Unparsable,
    /// The translation stopped.
    Translation(ErrorKind),
}

/// The target text and the findings reported on the way.
#[derive(Debug)]
pub struct Conversion {
    pub text: String,
    pub diagnostics: Vec<Diagnostic>,
}

/// The target text of a translated document, with the blob put back.
pub open spec fn output_text(doc: JsonV, blob: Option<Seq<char>>, compact: bool) -> Seq<char> {
    match blob {
        None => if compact {
            compact_text(doc)
        } else {
            pretty_text(doc)
        },
        Some(b) => if compact {
            compact_text(with_blob_description(doc, b))
        } else {
            recovery(pretty_text(doc), b)
        },
    }
}

/// The target text of a source text, or why there is none.
pub open spec fn conversion(source: Seq<char>, tables: TablesV, compact: bool) -> Result<
    Seq<char>,
    ConvertError,
> {
    let (sanitized, blob) = extraction(source);
    match parsed(sanitized) {
        None => Err(ConvertError::Unparsable),
        Some(doc) => match translation(doc, tables) {
            Err(k) => Err(ConvertError::Translation(k)),
            Ok(t) => Ok(output_text(t, blob, compact)),
        },
    }
}

/// Converts a source text to the target text, compact or indented.
pub fn convert_document(source: &str, tables: &Tables, compact: bool) -> (r: Result<
    Conversion,
    ConvertError,
>)
    ensures
        match r {
            Ok(c) => conversion(source@, tables@, compact) == Ok::<Seq<char>, ConvertError>(c.text@)
                && views(c.diagnostics@) == translation_diags(
                parsed(extraction(source@).0)->Some_0,
                tables@,
            ),
            Err(e) => conversion(source@, tables@, compact) == Err::<Seq<char>, ConvertError>(e),
        },
{
    let (sanitized, blob) = maybe_extract_multilines(source);
    let original = match parse_text(sanitized.as_str()) {
        Ok(doc) => doc,
        Err(_) => return Err(ConvertError::Unparsable),
    };
    let translated = match translate(&original, tables) {
        Ok(t) => t,
        Err(k) => return Err(ConvertError::Translation(k)),
    };
    let doc = translated.document;
    let text = match blob {
        None => if compact {
            render_compact(&doc)
        } else {
            render_pretty(&doc)
        },
        Some(b) => if compact {
            let with_blob = append_multilines(doc, b.as_str());
            render_compact(&with_blob)
        } else {
            let rendered = render_pretty(&doc);
            recover_multilines(rendered.as_str(), b.as_str())
        },
    };
    Ok(Conversion { text, diagnostics: translated.diagnostics })
}

} // verus!
