//! The crate's error taxonomy.  Transport and storage failures reach the
//! library only as messages, since the network and the persistent backend
//! live outside it.

use vstd::prelude::*;

verus! {

#[derive(Debug)]
pub enum DepMapError {
    /// The persistent cache could not be used.
    CacheError(String),
    /// Mutually exclusive selectors were given together.
    InvalidArguments,
    /// A file lookup by name found nothing.
    FileNotFound(String),
    /// A dataset or release lookup found nothing.
    NotFound(String),
    /// A feed could not be parsed.
    ParseError(String),
    /// A downloaded body did not match its expected digest.
    ChecksumError(String),
    /// A transfer failed.
    DownloadError(String),
}

impl DepMapError {
    /// A human-readable description of the error.
    pub fn message(&self) -> (r: String)
        ensures
            self matches DepMapError::CacheError(m) ==> r@ == "Cache error: "@ + m@,
            self matches DepMapError::InvalidArguments ==> r@ == "Invalid arguments"@,
            self matches DepMapError::FileNotFound(m) ==> r@ == "File not found: "@ + m@,
            self matches DepMapError::NotFound(m) ==> r@ == "Not found: "@ + m@,
            self matches DepMapError::ParseError(m) ==> r@ == "Parse error: "@ + m@,
            self matches DepMapError::ChecksumError(m) ==> r@ == "Checksum validation failed for "@
                + m@,
            self matches DepMapError::DownloadError(m) ==> r@ == "Download failed: "@ + m@,
    {
        match self {
            DepMapError::CacheError(m) => "Cache error: ".to_owned().concat(m.as_str()),
            DepMapError::InvalidArguments => "Invalid arguments".to_owned(),
            DepMapError::FileNotFound(m) => "File not found: ".to_owned().concat(m.as_str()),
            DepMapError::NotFound(m) => "Not found: ".to_owned().concat(m.as_str()),
            DepMapError::ParseError(m) => "Parse error: ".to_owned().concat(m.as_str()),
            DepMapError::ChecksumError(m) => "Checksum validation failed for ".to_owned().concat(
                m.as_str(),
            ),
            DepMapError::DownloadError(m) => "Download failed: ".to_owned().concat(m.as_str()),
        }
    }
}

} // verus!
