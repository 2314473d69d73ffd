use vstd::prelude::*;

verus! {

/// Invalid caller input or configuration, detected before any network access.
#[derive(Debug, Clone, Copy, PartialEq, Eq, Structural)]
pub enum ValueError {
    InvalidBucketName,
    EmptyObjectName,
    MissingBucketName,
    MissingHost,
    MissingAccessKey,
    MissingSecretKey,
    InvalidHostname,
    InvalidHost,
    InvalidAgent,
    TooManyParts,
}

/// A response body that is malformed or does not fit the expected schema.
#[derive(Debug, Clone, Copy, PartialEq, Eq)]
pub enum XmlError {
    /// The named element is missing or unreadable where the decoder looked
    /// (a name starting with `/` is an end tag).
    Expected(&'static str),
    /// The document is not well formed where the decoder looked.
    Malformed,
    /// An element holds a value outside its allowed set.
    InvalidValue,
    /// Bytes remain after the document.
    TrailingData,
}

/// The error document that the server sends with a failed request.
#[derive(Debug, Clone)]
pub struct ErrorResponse {
    pub code: String,
    pub message: String,
    pub resource: String,
    pub request_id: String,
}

impl View for ErrorResponse {
    type V = (Seq<char>, Seq<char>, Seq<char>, Seq<char>);

    open spec fn view(&self) -> Self::V {
        (self.code@, self.message@, self.resource@, self.request_id@)
    }
}

/// Every way a request of this client fails.
#[derive(Debug, Clone)]
pub enum Error {
    /// Invalid input, found before any network access.
    Value(ValueError),
    /// A malformed or unexpected response body.
    Xml(XmlError),
    /// A response outside 2xx: its status and, when it decodes, the error document.
    Server { status: u16, response: Option<ErrorResponse> },
    /// The request did not reach the server or its answer did not arrive.
    Transport,
    /// The provider could not supply credentials.
    Credential,
}

} // verus!
