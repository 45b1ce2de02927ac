//! The errors of the binding.

use crate::event::Attribute;
use crate::outside::{error_text, error_to_string};
use vstd::prelude::*;
use vstd::string::*;

verus! {

/// Why an event could not be written to, or read from, its wire form.
#[derive(Debug)]
pub enum MessageError {
    /// The version header is absent, or holds no known version.
    UnknownSpecVersion,
    /// A required attribute has no header.
    MissingAttribute { attribute: Attribute },
    /// An attribute or extension has more than one header.
    RepeatedAttribute,
    /// A header value that must be text is not valid UTF-8.
    InvalidEncoding,
    /// An extension's name is reserved, or is no lower-case header token.
    InvalidExtensionName,
    /// A value cannot stand in a header.
    InvalidHeaderValue { reason: http::header::InvalidHeaderValue },
    /// The underlying builder refused what it was given.
    Other { source: http::Error },
}

impl MessageError {
    /// The error in words. An error of the underlying builder speaks for
    /// itself.
    pub open spec fn text(self) -> Seq<char> {
        match self {
            MessageError::UnknownSpecVersion => "unknown specification version"@,
            MessageError::MissingAttribute { attribute } => "missing attribute "@
                + attribute.name(),
            MessageError::RepeatedAttribute => "repeated attribute"@,
            MessageError::InvalidEncoding => "header value is not valid UTF-8"@,
            MessageError::InvalidExtensionName => "invalid extension name"@,
            MessageError::InvalidHeaderValue { reason } => "failed to parse header value"@,
            MessageError::Other { source } => error_text(source),
        }
    }

    /// The error in words.
    pub fn message(&self) -> (r: String)
        ensures
            r@ == self.text(),
    {
        match self {
            MessageError::UnknownSpecVersion => String::from_str("unknown specification version"),
            MessageError::MissingAttribute { attribute } => String::from_str(
                "missing attribute ",
            ).concat(attribute.as_str()),
            MessageError::RepeatedAttribute => String::from_str("repeated attribute"),
            MessageError::InvalidEncoding => String::from_str("header value is not valid UTF-8"),
            MessageError::InvalidExtensionName => String::from_str("invalid extension name"),
            MessageError::InvalidHeaderValue { reason } => String::from_str(
                "failed to parse header value",
            ),
            MessageError::Other { source } => error_to_string(source),
        }
    }
}

} // verus!
