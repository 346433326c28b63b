//! Parse CPAN distribution meta files (`META.json` / `META.yml`) into a typed
//! structure.
//!
//! The CPAN Meta Spec has several revisions: `META.yml` files use the `1.x` series,
//! `META.json` files use version `2`. Any of those versions is accepted in either JSON
//! or YAML, and the result is always a [`Meta`] value normalised to the version 2
//! structure. The spec version of the input document is kept in
//! [`Meta::spec_version`].
//!
//! Older spec versions are upgraded following the rules of Perl's
//! `CPAN::Meta::Converter`: the flat `requires` / `build_requires` /
//! `configure_requires` / `recommends` / `conflicts` fields become the
//! phase/relationship [`Prereqs`] map, a single `license` string becomes a list of
//! normalised license tokens, string `resources` become structured [`Repository`] /
//! [`Bugtracker`] values, the `private` field becomes [`NoIndex`], and so on.
pub mod assemble;
pub mod convert;
pub mod document;
pub mod error;
pub mod laws;
pub mod meta;
pub mod smap;
pub mod spec;
pub mod text;
pub mod value;
pub mod version_range;

pub use error::{Error, ErrorKind, Result};
pub use meta::{
    Bugtracker, Meta, MetaSpec, NoIndex, OptionalFeature, Phase, Prereqs, Provides, ReleaseStatus,
    Repository, Resources,
};
pub use smap::SortedMap;
pub use spec::SpecVersion;
pub use value::Value;

use vstd::prelude::*;
use crate::assemble::{meta_from, meta_of};
use crate::convert::{normalize, normalized};
use crate::document::{json_document, read_json, read_yaml, utf8_text, yaml_document};
use crate::error::Format;
use crate::meta::MetaView;
use crate::spec::{detect, detected_version};
use crate::text::{chars_of, starts_with, string_of, trim, trim_chars, trim_start, trim_start_chars};
use crate::value::{lemma_object_view, obj_contains, JsonView};

verus! {

/// What a document value gives: an error unless it is an object with a `name`;
/// otherwise the metadata that its normalised form reads as, with the spec version
/// detected in it as it was.
pub open spec fn built(v: JsonView) -> Result<MetaView, ErrorKind> {
    match v {
        JsonView::Object(m) => if !m.contains_key("name"@) {
            Err(ErrorKind::MissingField("name"@))
        } else {
            match meta_of(normalized(m), detected_version(m)) {
                Some(mv) => Ok(mv),
                None => Err(ErrorKind::Json),
            }
        },
        _ => Err(ErrorKind::NotAMapping),
    }
}

/// Whether a text looks like JSON: its first character that is not white space is
/// `{` or `[`.
pub open spec fn looks_json(input: Seq<char>) -> bool {
    let t = trim_start(input);
    t.len() > 0 && (t[0] == '{' || t[0] == '[')
}

/// The document a text reads as, and in which format. Blank text is of no known
/// format. The format it looks like is tried first and then the other; when neither
/// reads, the error is the first one's.
pub open spec fn document_of(input: Seq<char>) -> Result<(JsonView, Format), ErrorKind> {
    if trim(input).len() == 0 {
        Err(ErrorKind::UnknownFormat)
    } else if looks_json(input) {
        match json_document(input) {
            Some(d) => Ok((d, Format::Json)),
            None => match yaml_document(input) {
                Some(d) => Ok((d, Format::Yaml)),
                None => Err(ErrorKind::Json),
            },
        }
    } else {
        match yaml_document(input) {
            Some(d) => Ok((d, Format::Yaml)),
            None => match json_document(input) {
                Some(d) => Ok((d, Format::Json)),
                None => Err(ErrorKind::Yaml),
            },
        }
    }
}

/// What parsing a text gives (see [`document_of`] and [`built`]).
pub open spec fn parsed(input: Seq<char>) -> Result<MetaView, ErrorKind> {
    match document_of(input) {
        Ok((d, _)) => built(d),
        Err(k) => Err(k),
    }
}

/// A text without a leading byte order mark.
pub open spec fn without_bom(s: Seq<char>) -> Seq<char> {
    if s.len() > 0 && s[0] == '\u{feff}' {
        s.drop_first()
    } else {
        s
    }
}

/// The result matches what the spec says: the same metadata, or an error of the same
/// kind.
pub open spec fn result_matches(r: Result<Meta, Error>, s: Result<MetaView, ErrorKind>) -> bool {
    match s {
        Ok(mv) => r matches Ok(m) && m@ == mv,
        Err(k) => r matches Err(e) && e.kind() == k,
    }
}

/// Build [`Meta`] from a parsed document value (see [`built`]).
pub fn build(value: Value) -> (r: Result<Meta, Error>)
    ensures
        result_matches(r, built(value@)),
{
    let ghost v = value@;
    let mut obj = match value {
        Value::Object(map) => map,
        _ => {
            return Err(Error::NotAMapping);
        },
    };
    proof {
        lemma_object_view(obj);
    }
    let spec_version = detect(&obj);
    if !obj_contains(&obj, "name") {
        return Err(Error::MissingField("name"));
    }
    normalize(&mut obj);
    meta_from(&obj, spec_version)
}

/// Whether the text looks like JSON (see [`looks_json`]).
fn looks_like_json(input: &str) -> (r: bool)
    ensures
        r == looks_json(input@),
{
    let cs = chars_of(input);
    let t = trim_start_chars(cs.as_slice());
    t.len() > 0 && (t[0] == '{' || t[0] == '[')
}

/// Read a text as a document, detecting its format (see [`document_of`]).
fn parse_document(input: &str) -> (r: Result<(Value, Format), Error>)
    ensures
        match document_of(input@) {
            Ok((d, f)) => r matches Ok((v, g)) && v@ == d && g == f,
            Err(k) => r matches Err(e) && e.kind() == k,
        },
        r matches Ok((v, _)) ==> crate::value::well_keyed(v),
{
    let cs = chars_of(input);
    if trim_chars(cs.as_slice()).len() == 0 {
        return Err(Error::UnknownFormat);
    }
    if looks_like_json(input) {
        match read_json(input) {
            Ok(v) => Ok((v, Format::Json)),
            Err(first) => match read_yaml(input) {
                Ok(v) => Ok((v, Format::Yaml)),
                Err(_) => Err(Error::Json(first)),
            },
        }
    } else {
        match read_yaml(input) {
            Ok(v) => Ok((v, Format::Yaml)),
            Err(first) => match read_json(input) {
                Ok(v) => Ok((v, Format::Json)),
                Err(_) => Err(Error::Yaml(first)),
            },
        }
    }
}

/// Parse metadata from a string, detecting JSON vs YAML by content: a document whose
/// first non-whitespace character is `{` or `[` is tried as JSON first, any other as
/// YAML first; if that fails the other format is tried before giving up (see
/// [`parsed`]).
pub fn parse(input: &str) -> (r: Result<Meta, Error>)
    ensures
        result_matches(r, parsed(input@)),
{
    match parse_document(input) {
        Ok((value, _)) => build(value),
        Err(e) => Err(e),
    }
}

/// Parse metadata that is known to be JSON.
pub fn parse_json(input: &str) -> (r: Result<Meta, Error>)
    ensures
        result_matches(
            r,
            match json_document(input@) {
                Some(d) => built(d),
                None => Err(ErrorKind::Json),
            },
        ),
{
    match read_json(input) {
        Ok(v) => build(v),
        Err(e) => Err(Error::Json(e)),
    }
}

/// Parse metadata that is known to be YAML.
pub fn parse_yaml(input: &str) -> (r: Result<Meta, Error>)
    ensures
        result_matches(
            r,
            match yaml_document(input@) {
                Some(d) => built(d),
                None => Err(ErrorKind::Yaml),
            },
        ),
{
    match read_yaml(input) {
        Ok(v) => build(v),
        Err(e) => Err(Error::Yaml(e)),
    }
}

/// Parse metadata from raw bytes, detecting JSON vs YAML. The bytes must be UTF-8; a
/// leading byte order mark is ignored.
pub fn parse_slice(input: &[u8]) -> (r: Result<Meta, Error>)
    ensures
        vstd::utf8::valid_utf8(input@) ==> result_matches(
            r,
            parsed(without_bom(vstd::utf8::decode_utf8(input@))),
        ),
        !vstd::utf8::valid_utf8(input@) ==> (r matches Err(e) && (e.kind() matches ErrorKind::Invalid(
            m,
        ) && starts_with(m, "input is not valid UTF-8: "@))),
{
    match utf8_text(input) {
        Ok(text) => {
            let cs = chars_of(text);
            if cs.len() > 0 && cs[0] == '\u{feff}' {
                let rest = crate::text::piece(cs.as_slice(), 1, cs.len());
                assert(rest@ == cs@.drop_first());
                let s = string_of(rest.as_slice());
                parse(s.as_str())
            } else {
                parse(text)
            }
        },
        Err(msg) => {
            let m = crate::text::join("input is not valid UTF-8: ", msg.as_str());
            proof {
                assert(m@.take("input is not valid UTF-8: "@.len() as int) == "input is not valid UTF-8: "@);
            }
            Err(Error::Invalid(m))
        },
    }
}

} // verus!
