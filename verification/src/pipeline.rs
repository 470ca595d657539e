//! The whole per-file pass: parse the bytes, validate the structure, filter
//! the `MimeType` list, and render the replacement text.

use vstd::prelude::*;
use vstd::string::*;
use crate::mime::{all_tokens_ok, filter_mime_value, filter_tokens, first_bad_token};
use crate::model::{
    attr_value, doc_valid, lookup_attr, mime_key, validate, Attr, DesktopError, DocModel, Document,
    ErrorModel, Section,
};
use crate::render::{flatten_lines, render, rendered_lines};
use crate::text::{join_semis, split_semis};

verus! {

/// What the entry parser makes of a byte sequence: the sections, each with
/// its name and its keyed attributes — or nothing, when the text is not a
/// well-formed entry file. The result depends on the bytes alone.
pub uninterp spec fn parsed_doc(bytes: Seq<u8>) -> Option<DocModel>;

#[verifier::external_type_specification]
#[verifier::external_body]
pub struct ExParseError(freedesktop_entry_parser::ParseError);

/// Relies on `freedesktop_entry_parser::Entry::parse`: bytes parse into
/// named sections of keyed attributes (each key with an optional locale
/// parameter and a list of values), or fail with a parse error.
#[verifier::external_body]
fn parse_entry_bytes(bytes: &[u8]) -> (r: Result<Document, freedesktop_entry_parser::ParseError>)
    ensures
        match r {
            Ok(d) => parsed_doc(bytes@) == Some(d@),
            Err(_) => parsed_doc(bytes@) is None,
        },
{
    match freedesktop_entry_parser::Entry::parse(bytes) {
        Ok(entry) => Ok(Document {
            sections: entry.sections().map(|(name, sect)| Section {
                name: name.clone(),
                attrs: sect.attrs().map(
                    |(k, vs)| Attr { key: k.key.clone(), param: k.param.clone(), values: vs.clone() },
                ).collect(),
            }).collect(),
        }),
        Err(e) => Err(e),
    }
}

/// The outcome of the pass on a parsed document: the full rendered text,
/// or the error the document deserves — a structure error unless it is a
/// single `[Desktop Entry]` section, then a missing-attribute error
/// without a `MimeType` key, then a malformed-media-type error carrying
/// the first token that does not parse.
pub open spec fn spec_process(dm: DocModel) -> Result<Seq<char>, ErrorModel> {
    if !doc_valid(dm) {
        Err(ErrorModel::Structure)
    } else {
        match lookup_attr(dm[0].1, mime_key()) {
            None => Err(ErrorModel::MissingAttribute),
            Some(raw) => {
                let ts = split_semis(raw);
                if !all_tokens_ok(ts) {
                    Err(ErrorModel::MalformedMediaType(ts[first_bad_token(ts)]))
                } else {
                    Ok(
                        flatten_lines(
                            rendered_lines(dm[0].0, dm[0].1, join_semis(filter_tokens(ts))),
                        ),
                    )
                }
            },
        }
    }
}

/// Runs the pass on a parsed document.
pub fn process_document(doc: &Document) -> (r: Result<String, DesktopError>)
    ensures
        match r {
            Ok(s) => spec_process(doc@) == Ok::<Seq<char>, ErrorModel>(s@),
            Err(e) => spec_process(doc@) == Err::<Seq<char>, ErrorModel>(e@),
        },
{
    let section = match validate(doc) {
        Ok(s) => s,
        Err(e) => {
            return Err(e);
        },
    };
    let raw = match attr_value(section, "MimeType") {
        Some(v) => v,
        None => {
            return Err(DesktopError::MissingAttribute);
        },
    };
    let filtered = match filter_mime_value(raw.as_str()) {
        Ok(s) => s,
        Err(e) => {
            return Err(e);
        },
    };
    let out = render(section, filtered.as_str());
    Ok(out)
}

/// Runs the pass on the raw bytes of a launcher file: parses them, and
/// processes the parsed document.
pub fn process_bytes(bytes: &[u8]) -> (r: Result<String, DesktopError>)
    ensures
        match parsed_doc(bytes@) {
            None => r matches Err(e) && e@ == ErrorModel::Parse,
            Some(dm) => match r {
                Ok(s) => spec_process(dm) == Ok::<Seq<char>, ErrorModel>(s@),
                Err(e) => spec_process(dm) == Err::<Seq<char>, ErrorModel>(e@),
            },
        },
{
    match parse_entry_bytes(bytes) {
        Ok(doc) => process_document(&doc),
        Err(_) => Err(DesktopError::Parse),
    }
}

} // verus!
