//! Sampling: what one commit's copy of the lock file says of the library.

use vstd::prelude::*;
use vstd::utf8::{decode_utf8, valid_utf8};
use crate::error::LockError;
use crate::package_manager::PackageManager;
use crate::text::optional_text;

verus! {

/// `std::str::Utf8Error`, which is only ever told apart from success.
#[verifier::external_type_specification]
#[verifier::external_body]
pub struct ExUtf8Error(std::str::Utf8Error);

/// The version of the library at one commit, with the commit's time.
#[derive(Debug, Clone, PartialEq, Eq)]
pub struct Sample {
    /// The pinned version; `None` where the lock file does not hold the library.
    pub version: Option<String>,
    /// The commit's time, in seconds since the Unix epoch.
    pub timestamp: i64,
}

/// A version, or the lack of one, at a point in time: what a [`Sample`] and a
/// timeline entry stand for.
pub struct Dated {
    pub version: Option<Seq<char>>,
    pub timestamp: i64,
}

impl View for Sample {
    type V = Dated;

    open spec fn view(&self) -> Dated {
        Dated { version: optional_text(self.version), timestamp: self.timestamp }
    }
}

/// Why a commit yields no sample.
#[derive(Debug, Clone, Copy, PartialEq, Eq, Structural)]
pub enum SampleError {
    /// The commit's tree holds no blob at the path of the lock file.
    NoBlob,
    /// The blob is not UTF-8 text.
    NotText,
    /// The file name selects none of the supported formats.
    UnknownFormat,
    /// The text could not be read as a lock file of the selected format.
    Lock(LockError),
}

/// What sampling one commit gives. The checks come in this order: is there a
/// blob, is it text, does the file name select a format, can the text be read
/// in that format. The first that fails decides the error.
pub open spec fn sampled(
    blob: Option<Seq<u8>>,
    file_name: Seq<char>,
    library: Seq<char>,
    timestamp: i64,
) -> Result<Dated, SampleError> {
    match blob {
        None => Err(SampleError::NoBlob),
        Some(bytes) => if !valid_utf8(bytes) {
            Err(SampleError::NotText)
        } else {
            match PackageManager::spec_guess(file_name) {
                None => Err(SampleError::UnknownFormat),
                Some(format) => match format.spec_library_version(decode_utf8(bytes), library) {
                    Ok(version) => Ok(Dated { version, timestamp }),
                    Err(e) => Err(SampleError::Lock(e)),
                },
            }
        },
    }
}

/// What an outcome of sampling stands for.
pub open spec fn sample_view(outcome: Result<Sample, SampleError>) -> Result<Dated, SampleError> {
    match outcome {
        Ok(sample) => Ok(sample@),
        Err(e) => Err(e),
    }
}

/// Calls `std::str::from_utf8`: the bytes are handed back as text exactly
/// where they are valid UTF-8, and the text then holds the characters that
/// the bytes decode to.
#[verifier::external_body]
fn decode_text(bytes: &[u8]) -> (outcome: Result<&str, std::str::Utf8Error>)
    ensures
        match outcome {
            Ok(text) => valid_utf8(bytes@) && text@ == decode_utf8(bytes@),
            Err(_) => !valid_utf8(bytes@),
        },
{
    std::str::from_utf8(bytes)
}

/// Samples one commit: reads the blob found at the lock file's path as text,
/// picks the format by the file's name and looks the library up.
pub fn search_in_file(
    blob: Option<&[u8]>,
    file_name: &str,
    library: &str,
    timestamp: i64,
) -> (outcome: Result<Sample, SampleError>)
    ensures
        sample_view(outcome) == sampled(
            match blob {
                Some(bytes) => Some(bytes@),
                None => None,
            },
            file_name@,
            library@,
            timestamp,
        ),
{
    let bytes = match blob {
        Some(bytes) => bytes,
        None => {
            return Err(SampleError::NoBlob);
        },
    };
    let content = match decode_text(bytes) {
        Ok(text) => text,
        Err(_) => {
            return Err(SampleError::NotText);
        },
    };
    let format = match PackageManager::guess_from_file_name(file_name) {
        Some(format) => format,
        None => {
            return Err(SampleError::UnknownFormat);
        },
    };
    match format.get_library_version(content, library) {
        Ok(version) => Ok(Sample { version, timestamp }),
        Err(e) => Err(SampleError::Lock(e)),
    }
}

} // verus!
