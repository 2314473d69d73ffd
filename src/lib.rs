//! An S3-compatible object storage client core: request canonicalization and
//! AWS Signature Version 4 signing, request preparation, credential caching
//! with single-flight refresh, multipart upload bookkeeping, and an XML codec
//! for the service's documents.

pub mod canonical;
pub mod client;
pub mod codec;
pub mod credentials;
pub mod datatype;
pub mod encoding;
pub mod error;
pub mod signer;
pub mod sort;
pub mod time;
pub mod upload;
pub mod utils;
pub mod xml;

pub use client::{Builder, ClientConfig, PreparedRequest};
pub use credentials::{Credentials, RefreshGuard, StaticProvider};
pub use datatype::Region;
pub use error::{Error, ErrorResponse, ValueError, XmlError};
