//! Error type of the conversion core.

use vstd::prelude::*;

verus! {

/// Failure cases of a conversion. Carried messages are plain text.
#[derive(Clone, Debug)]
pub enum Error {
    /// The upstream container or XML parser failed.
    DocxParse(String),
    /// A file operation failed.
    Io(String),
    /// A transformation step failed.
    Conversion(String),
    /// A relationship id had no target.
    RelationshipNotFound(String),
    /// A note or comment reference had no matching definition and strict
    /// validation was requested.
    MissingReference(String),
    /// The archive could not be read.
    Zip(String),
    /// A media file was missing from the archive.
    MediaNotFound(String),
}

impl Error {
    /// A human-readable description, mirroring how each case prints.
    pub fn message(&self) -> (r: String)
        ensures
            r@ == self.spec_message(),
    {
        let mut s: String;
        match self {
            Error::DocxParse(m) => {
                s = String::from_str("Failed to parse DOCX file: ");
                s.append(m.as_str());
            },
            Error::Io(m) => {
                s = String::from_str("I/O error: ");
                s.append(m.as_str());
            },
            Error::Conversion(m) => {
                s = String::from_str("Conversion error: ");
                s.append(m.as_str());
            },
            Error::RelationshipNotFound(m) => {
                s = String::from_str("Relationship not found: ");
                s.append(m.as_str());
            },
            Error::MissingReference(m) => {
                s = String::from_str("Missing reference: ");
                s.append(m.as_str());
            },
            Error::Zip(m) => {
                s = String::from_str("ZIP error: ");
                s.append(m.as_str());
            },
            Error::MediaNotFound(m) => {
                s = String::from_str("Media not found: ");
                s.append(m.as_str());
            },
        }
        s
    }

    pub open spec fn spec_message(&self) -> Seq<char> {
        match self {
            Error::DocxParse(m) => "Failed to parse DOCX file: "@ + m@,
            Error::Io(m) => "I/O error: "@ + m@,
            Error::Conversion(m) => "Conversion error: "@ + m@,
            Error::RelationshipNotFound(m) => "Relationship not found: "@ + m@,
            Error::MissingReference(m) => "Missing reference: "@ + m@,
            Error::Zip(m) => "ZIP error: "@ + m@,
            Error::MediaNotFound(m) => "Media not found: "@ + m@,
        }
    }
}

} // verus!
