//! The ways in which reading a part can fail.

use vstd::prelude::*;

verus! {

/// Why a text could not be read as a value.
///
/// The first four variants are syntax errors: the text is not well-formed
/// XML. The last three are schema errors: the text is well-formed, but has
/// not the shape of the value asked for.
#[derive(Debug, Clone, Copy, PartialEq, Eq, Structural)]
pub enum XmlError {
    /// The tokenizer rejected the text, or a character reference in it is
    /// unterminated or unknown.
    Malformed,
    /// The text ended before the root element was found or closed.
    UnexpectedEof,
    /// A token stands where the grammar of elements allows none.
    UnexpectedToken,
    /// A closing tag does not name the element that it closes.
    TagMismatch,
    /// A required child element is missing, or the element is not the one
    /// expected.
    MissingElement,
    /// A required attribute is missing.
    MissingAttribute,
    /// The text of an attribute is not a value of the attribute's type.
    InvalidValue,
}

impl XmlError {
    /// Whether the error says that the text is not well-formed XML.
    pub open spec fn syntax(self) -> bool {
        self == XmlError::Malformed || self == XmlError::UnexpectedEof
            || self == XmlError::UnexpectedToken || self == XmlError::TagMismatch
    }

    /// Whether the error says that well-formed XML has the wrong shape.
    pub open spec fn schema(self) -> bool {
        !self.syntax()
    }

    /// Tells a syntax error from a schema error.
    pub fn is_syntax(&self) -> (r: bool)
        ensures
            r == self.syntax(),
    {
        match self {
            XmlError::Malformed => true,
            XmlError::UnexpectedEof => true,
            XmlError::UnexpectedToken => true,
            XmlError::TagMismatch => true,
            XmlError::MissingElement => false,
            XmlError::MissingAttribute => false,
            XmlError::InvalidValue => false,
        }
    }

    /// Tells a schema error from a syntax error.
    pub fn is_schema(&self) -> (r: bool)
        ensures
            r == self.schema(),
    {
        !self.is_syntax()
    }

    /// The text of the message for this error.
    pub open spec fn message_text(self) -> Seq<char> {
        match self {
            XmlError::Malformed => "malformed XML"@,
            XmlError::UnexpectedEof => "unexpected end of input"@,
            XmlError::UnexpectedToken => "unexpected token in XML"@,
            XmlError::TagMismatch => "mismatched closing tag"@,
            XmlError::MissingElement => "missing element"@,
            XmlError::MissingAttribute => "missing attribute"@,
            XmlError::InvalidValue => "invalid attribute value"@,
        }
    }

    /// A one-line description of the error.
    pub fn message(&self) -> (r: String)
        ensures
            r@ == self.message_text(),
    {
        match self {
            XmlError::Malformed => String::from_str("malformed XML"),
            XmlError::UnexpectedEof => String::from_str("unexpected end of input"),
            XmlError::UnexpectedToken => String::from_str("unexpected token in XML"),
            XmlError::TagMismatch => String::from_str("mismatched closing tag"),
            XmlError::MissingElement => String::from_str("missing element"),
            XmlError::MissingAttribute => String::from_str("missing attribute"),
            XmlError::InvalidValue => String::from_str("invalid attribute value"),
        }
    }
}

} // verus!
