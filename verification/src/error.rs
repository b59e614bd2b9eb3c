//! Errors reported by the image library.
use vstd::prelude::*;

verus! {

/// What can go wrong when reading or changing an image.
#[derive(Debug, Clone, PartialEq, Eq)]
pub enum Error {
    /// The bytes are not a recognisable TRD or SCL image.
    UnknownFormat,
    /// The image is recognised but structurally broken.
    BadArchive(String),
    /// Catalog is full (128 files for TRD, 255 for SCL).
    TooManyFiles,
    /// Not enough free sectors on the disk.
    DiskFull,
    /// File exceeds the 255-sector (65280 byte) TR-DOS limit.
    FileTooBig,
    /// Named file was not found in the catalog.
    NotFound,
}

/// The human-readable text of an error.
pub open spec fn error_text(e: Error) -> Seq<char> {
    match e {
        Error::UnknownFormat => "not a recognisable TRD or SCL image"@,
        Error::BadArchive(m) => "broken image: "@ + m@,
        Error::TooManyFiles => "catalog is full"@,
        Error::DiskFull => "not enough free space on disk"@,
        Error::FileTooBig => "file exceeds the 255-sector TR-DOS limit"@,
        Error::NotFound => "file not found in catalog"@,
    }
}

impl Error {
    /// The human-readable text of the error (what `to_string` shows).
    pub fn message(&self) -> (r: String)
        ensures
            r@ == error_text(*self),
    {
        match self {
            Error::UnknownFormat => String::from_str("not a recognisable TRD or SCL image"),
            Error::BadArchive(m) => {
                let mut s = String::from_str("broken image: ");
                s.append(m.as_str());
                s
            },
            Error::TooManyFiles => String::from_str("catalog is full"),
            Error::DiskFull => String::from_str("not enough free space on disk"),
            Error::FileTooBig => String::from_str("file exceeds the 255-sector TR-DOS limit"),
            Error::NotFound => String::from_str("file not found in catalog"),
        }
    }
}

} // verus!
