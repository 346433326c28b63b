//! Errors of reading and parsing a CPAN distribution meta file.
use vstd::prelude::*;
use serde_json::Error as JsonError;
use serde_norway::Error as YamlError;
use std::io::Error as IoError;

verus! {

#[verifier::external_type_specification]
#[verifier::external_body]
pub struct ExJsonError(JsonError);

#[verifier::external_type_specification]
#[verifier::external_body]
pub struct ExYamlError(YamlError);

#[verifier::external_type_specification]
#[verifier::external_body]
pub struct ExIoError(IoError);

/// Errors that can occur while reading and parsing a CPAN distribution meta file.
#[derive(Debug)]
#[non_exhaustive]
pub enum Error {
    /// The input could not be parsed as JSON.
    Json(JsonError),
    /// The input could not be parsed as YAML.
    Yaml(YamlError),
    /// An I/O error occurred while reading the input.
    Io(IoError),
    /// The input did not look like either JSON or YAML.
    UnknownFormat,
    /// The parsed document was not a mapping / object at the top level.
    NotAMapping,
    /// A field required by every spec version was missing.
    MissingField(&'static str),
    /// The metadata was structurally valid but semantically invalid.
    Invalid(String),
}

/// Results of this library.
pub type Result<T, E = Error> = core::result::Result<T, E>;

/// Which error an [`Error`] is, with the text it carries where it has one.
pub ghost enum ErrorKind {
    Json,
    Yaml,
    Io,
    UnknownFormat,
    NotAMapping,
    MissingField(Seq<char>),
    Invalid(Seq<char>),
}

impl Error {
    /// Which error this is.
    pub open spec fn kind(&self) -> ErrorKind {
        match self {
            Error::Json(_) => ErrorKind::Json,
            Error::Yaml(_) => ErrorKind::Yaml,
            Error::Io(_) => ErrorKind::Io,
            Error::UnknownFormat => ErrorKind::UnknownFormat,
            Error::NotAMapping => ErrorKind::NotAMapping,
            Error::MissingField(f) => ErrorKind::MissingField(f@),
            Error::Invalid(s) => ErrorKind::Invalid(s@),
        }
    }
}

/// Which format a parse attempt was made against.
#[derive(Debug, Clone, Copy, PartialEq, Eq, Structural)]
pub enum Format {
    Json,
    Yaml,
}

impl Format {
    /// The format's name.
    pub fn to_string(&self) -> (r: String)
        ensures
            r@ == match self {
                Format::Json => "JSON"@,
                Format::Yaml => "YAML"@,
            },
    {
        match self {
            Format::Json => crate::text::text("JSON"),
            Format::Yaml => crate::text::text("YAML"),
        }
    }
}

} // verus!
