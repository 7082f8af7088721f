//! Errors reported while reading events.

use vstd::prelude::*;

verus! {

/// What the reader was scanning when the input ended too early.
#[derive(Debug, Clone, PartialEq, Eq)]
pub enum EofContext {
    /// A `<!` construct whose kind could not be told.
    Bang,
    /// A `<![CDATA[ ... ]]>` section.
    CData,
    /// A `<!-- ... -->` comment.
    Comment,
    /// A `<!DOCTYPE ... >` declaration.
    DocType,
    /// A start, empty or end tag.
    Element,
    /// A `<? ... ?>` declaration or processing instruction.
    XmlDecl,
    /// The text that a caller asked for.
    Text,
    /// The end tag with this name, which a caller waited for.
    EndTag(Vec<u8>),
}

/// The failures of the reader.
#[derive(Debug, Clone, PartialEq, Eq)]
pub enum Error {
    /// The byte after `<!` starts no comment, CDATA section or DOCTYPE.
    UnexpectedBang(u8),
    /// The input ended inside a construct.
    UnexpectedEof(EofContext),
    /// A forbidden token, such as `--` inside a checked comment.
    UnexpectedToken(Vec<u8>),
    /// An end tag does not close the element opened last (`expected` is empty
    /// when no element is open).
    EndEventMismatch { expected: Vec<u8>, found: Vec<u8> },
    /// Text was asked for where the next event is no text.
    TextNotFound,
    /// The bytes cannot be decoded in the current encoding.
    NonDecodable,
}

} // verus!
