//! The library's error type.
use vstd::prelude::*;

verus! {

/// Errors returned by the library.
#[derive(Debug)]
pub enum Error {
    /// An argument or option is invalid.
    InvalidArgument {
        /// The logical argument name that failed validation.
        name: &'static str,
        /// Human-readable validation message.
        message: String,
    },
    /// Waveform or audio data is malformed.
    InvalidData {
        /// Human-readable validation message.
        message: String,
    },
    /// A format name or feature is unsupported.
    UnsupportedFormat {
        /// The unsupported format identifier.
        format: String,
    },
    /// A required value is missing from structured data.
    MissingValue {
        /// The missing field name.
        name: &'static str,
    },
    /// Required stream metadata is unavailable.
    MissingMetadata {
        /// The missing metadata field name.
        name: &'static str,
    },
    /// Reading or writing bytes failed; the message describes the failure.
    Io {
        /// Human-readable description of the failure.
        message: String,
    },
    /// Decoding or encoding an audio or image stream failed.
    Codec {
        /// The codec's description of the failure.
        message: String,
    },
}

/// The text of an error, as its `to_string` method renders it.
pub open spec fn error_text(e: Error) -> Seq<char> {
    match e {
        Error::InvalidArgument { message, .. } => message@,
        Error::InvalidData { message } => message@,
        Error::UnsupportedFormat { format } => "Unsupported format: "@ + format@,
        Error::MissingValue { name } => "Missing value: "@ + name@,
        Error::MissingMetadata { name } => "Missing metadata: "@ + name@,
        Error::Io { message } => message@,
        Error::Codec { message } => message@,
    }
}

/// An `InvalidArgument` error for argument `name` with text `text`.
pub open spec fn is_invalid_argument(e: Error, name: Seq<char>, text: Seq<char>) -> bool {
    &&& e matches Error::InvalidArgument { name: n, message }
    &&& n@ == name
    &&& message@ == text
}

/// An `InvalidData` error with text `text`.
pub open spec fn is_invalid_data(e: Error, text: Seq<char>) -> bool {
    e matches Error::InvalidData { message } && message@ == text
}

/// An `UnsupportedFormat` error naming `format`.
pub open spec fn is_unsupported_format(e: Error, format: Seq<char>) -> bool {
    e matches Error::UnsupportedFormat { format: f } && f@ == format
}

impl Error {
    /// Builds an `InvalidArgument` error.
    pub fn invalid_argument(name: &'static str, message: &str) -> (e: Error)
        ensures
            is_invalid_argument(e, name@, message@),
    {
        Error::InvalidArgument { name, message: String::from_str(message) }
    }

    /// Builds an `InvalidArgument` error from an owned message.
    pub fn invalid_argument_owned(name: &'static str, message: String) -> (e: Error)
        ensures
            is_invalid_argument(e, name@, message@),
    {
        Error::InvalidArgument { name, message }
    }

    /// Builds an `InvalidData` error.
    pub fn invalid_data(message: &str) -> (e: Error)
        ensures
            is_invalid_data(e, message@),
    {
        Error::InvalidData { message: String::from_str(message) }
    }

    /// Builds an `UnsupportedFormat` error.
    pub fn unsupported_format(format: &str) -> (e: Error)
        ensures
            is_unsupported_format(e, format@),
    {
        Error::UnsupportedFormat { format: String::from_str(format) }
    }

    /// Renders the error message.
    pub fn to_string(&self) -> (s: String)
        ensures
            s@ == error_text(*self),
    {
        match self {
            Error::InvalidArgument { message, .. } => message.clone(),
            Error::InvalidData { message } => message.clone(),
            Error::UnsupportedFormat { format } => {
                let mut s = String::from_str("Unsupported format: ");
                s.append(format.as_str());
                s
            },
            Error::MissingValue { name } => {
                let mut s = String::from_str("Missing value: ");
                s.append(name);
                s
            },
            Error::MissingMetadata { name } => {
                let mut s = String::from_str("Missing metadata: ");
                s.append(name);
                s
            },
            Error::Io { message } => message.clone(),
            Error::Codec { message } => message.clone(),
        }
    }
}

} // verus!
