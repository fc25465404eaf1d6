//! What can be wrong with a request or with what came back for it.

use vstd::prelude::*;
use vstd::string::*;

use crate::cdn::VersionField;
use crate::hexcode::HexError;
use crate::text::{decimal_text, signed_decimal_text, NumberError};

verus! {

/// A failure that this library itself finds.
#[derive(Debug)]
pub enum Error {
    /// A product code that is empty or holds a character that it may not hold.
    InvalidProductName { name: String },
    /// The list of delivery networks is empty.
    NoCdnRows,
    /// The list of versions is empty.
    NoVersionRows,
    /// A version lacks a field.
    MissingVersionField { field: VersionField },
    /// A key in a version is not hexadecimal.
    InvalidVersionHex { field: VersionField, cause: HexError },
    /// The build configuration names no encoding file.
    MissingEncodingKey,
    /// The key of the encoding file is not hexadecimal.
    InvalidEncodingKeyHex { cause: HexError },
    /// The build configuration names no root file.
    MissingRoot,
    /// The encoding file does not list the root file.
    RootNotFound,
    /// The name of a cached index is no text.
    InvalidIndexFilename,
    /// A directory holds no cached index.
    NoCachedIndices { dir: String },
    /// A cached index could not be read.
    CachedIndexNotRead { path: String, cause: String },
    /// The bytes of an index are those of no index.
    IndexNotParsed { hash: String, cause: String },
    /// A request for an index was refused.
    IndexStatus { status: String, url: String },
    /// A request for a part of an archive was refused.
    ArchiveStatus { status: String, url: String },
    /// A key is in no archive, and a request for it as a file of its own was refused.
    LooseFileStatus { status: String, key_hex: String },
    /// An output path does not end in a file name.
    NoFileName,
    /// The root file could not be loaded.
    RootFileNotLoaded { cause: String },
    /// The encoding file could not be loaded.
    EncodingFileNotLoaded { cause: String },
    /// The root file does not list a path.
    PathNotFound { path: String },
    /// The root file does not list a file id.
    FileDataIdNotFound { fdid: u32 },
    /// The encoding file does not list the content of a path.
    PathContentKeyNotFound { path: String },
    /// The encoding file does not list the content of a file id.
    FdidContentKeyNotFound { fdid: u32 },
    /// The download of the list of file names failed.
    CurlFailed { code: i32 },
    /// Both a path and a file id were given.
    TargetConflict,
    /// Neither a path nor a file id was given.
    TargetMissing,
    /// A file id is no 32-bit number.
    InvalidFdid { cause: NumberError },
}

impl Error {
    /// The text of the message that tells of this failure.
    pub open spec fn text(&self) -> Seq<char> {
        match *self {
            Error::InvalidProductName { name } => "invalid product name: "@ + name@,
            Error::NoCdnRows => "CDNs response has no rows"@,
            Error::NoVersionRows => "versions response has no rows"@,
            Error::MissingVersionField { field } => "missing "@ + field.column()
                + " field in versions"@,
            Error::InvalidVersionHex { field, cause: _ } => "invalid hex in "@ + field.column()
                + " field"@,
            Error::MissingEncodingKey => "missing encoding key in BuildConfig"@,
            Error::InvalidEncodingKeyHex { cause: _ } => "invalid hex in encoding key"@,
            Error::MissingRoot => "missing root in BuildConfig"@,
            Error::RootNotFound => "root content key not found in encoding file"@,
            Error::InvalidIndexFilename => "invalid index filename"@,
            Error::NoCachedIndices { dir } => "no cached archive indices in "@ + dir@,
            Error::CachedIndexNotRead { path, cause: _ } => "failed to read "@ + path@,
            Error::IndexNotParsed { hash, cause: _ } => "failed to parse archive index "@ + hash@,
            Error::IndexStatus { status, url } => "HTTP "@ + status@ + " fetching index: "@ + url@,
            Error::ArchiveStatus { status, url } => "HTTP "@ + status@
                + " for archive range request: "@ + url@,
            Error::LooseFileStatus { status, key_hex } =>
                "encoding key not found in any archive index and loose file returned HTTP "@
                + status@ + ": "@ + key_hex@,
            Error::NoFileName => "output_path has no filename"@,
            Error::RootFileNotLoaded { cause: _ } => "Failed to load root file"@,
            Error::EncodingFileNotLoaded { cause: _ } => "Failed to load encoding file"@,
            Error::PathNotFound { path } => "Path not found in root file: "@ + path@,
            Error::FileDataIdNotFound { fdid } => "FileDataID "@ + crate::text::decimal(fdid as nat)
                + " not found in root file"@,
            Error::PathContentKeyNotFound { path } =>
                "Content key not found in encoding file for path: "@ + path@,
            Error::FdidContentKeyNotFound { fdid } =>
                "Content key not found in encoding file for FDID "@ + crate::text::decimal(
                fdid as nat,
            ),
            Error::CurlFailed { code } => "curl failed with exit code "@
                + crate::text::signed_decimal(code as int) + " while downloading listfile"@,
            Error::TargetConflict => "specify either <path> or --fdid, not both"@,
            Error::TargetMissing => "specify either <path> or --fdid"@,
            Error::InvalidFdid { cause: _ } => "invalid fdid"@,
        }
    }

    /// The message that tells of this failure.
    pub fn message(&self) -> (res: String)
        ensures
            res@ == self.text(),
    {
        match self {
            Error::InvalidProductName { name } => "invalid product name: ".to_string().concat(
                name.as_str(),
            ),
            Error::NoCdnRows => "CDNs response has no rows".to_string(),
            Error::NoVersionRows => "versions response has no rows".to_string(),
            Error::MissingVersionField { field } => "missing ".to_string().concat(
                field.name(),
            ).concat(" field in versions"),
            Error::InvalidVersionHex { field, cause: _ } => "invalid hex in ".to_string().concat(
                field.name(),
            ).concat(" field"),
            Error::MissingEncodingKey => "missing encoding key in BuildConfig".to_string(),
            Error::InvalidEncodingKeyHex { cause: _ } => "invalid hex in encoding key".to_string(),
            Error::MissingRoot => "missing root in BuildConfig".to_string(),
            Error::RootNotFound => "root content key not found in encoding file".to_string(),
            Error::InvalidIndexFilename => "invalid index filename".to_string(),
            Error::NoCachedIndices { dir } => "no cached archive indices in ".to_string().concat(
                dir.as_str(),
            ),
            Error::CachedIndexNotRead { path, cause: _ } => "failed to read ".to_string().concat(
                path.as_str(),
            ),
            Error::IndexNotParsed { hash, cause: _ } =>
                "failed to parse archive index ".to_string().concat(hash.as_str()),
            Error::IndexStatus { status, url } => "HTTP ".to_string().concat(
                status.as_str(),
            ).concat(" fetching index: ").concat(url.as_str()),
            Error::ArchiveStatus { status, url } => "HTTP ".to_string().concat(
                status.as_str(),
            ).concat(" for archive range request: ").concat(url.as_str()),
            Error::LooseFileStatus { status, key_hex } =>
                "encoding key not found in any archive index and loose file returned HTTP ".to_string().concat(
                status.as_str(),
            ).concat(": ").concat(key_hex.as_str()),
            Error::NoFileName => "output_path has no filename".to_string(),
            Error::RootFileNotLoaded { cause: _ } => "Failed to load root file".to_string(),
            Error::EncodingFileNotLoaded { cause: _ } => "Failed to load encoding file".to_string(),
            Error::PathNotFound { path } => "Path not found in root file: ".to_string().concat(
                path.as_str(),
            ),
            Error::FileDataIdNotFound { fdid } => "FileDataID ".to_string().concat(
                decimal_text(*fdid as u64).as_str(),
            ).concat(" not found in root file"),
            Error::PathContentKeyNotFound { path } =>
                "Content key not found in encoding file for path: ".to_string().concat(
                path.as_str(),
            ),
            Error::FdidContentKeyNotFound { fdid } =>
                "Content key not found in encoding file for FDID ".to_string().concat(
                decimal_text(*fdid as u64).as_str(),
            ),
            Error::CurlFailed { code } => "curl failed with exit code ".to_string().concat(
                signed_decimal_text(*code).as_str(),
            ).concat(" while downloading listfile"),
            Error::TargetConflict => "specify either <path> or --fdid, not both".to_string(),
            Error::TargetMissing => "specify either <path> or --fdid".to_string(),
            Error::InvalidFdid { cause: _ } => "invalid fdid".to_string(),
        }
    }
}

/// A message holds the values that it tells of as they are, at its end or between
/// fixed words.
pub proof fn messages_hold_their_values(error: Error)
    ensures
        match error {
            Error::InvalidProductName { name } => error.text() == "invalid product name: "@ + name@,
            Error::MissingVersionField { field } => error.text() == "missing "@ + field.column()
                + " field in versions"@,
            Error::InvalidVersionHex { field, cause: _ } => error.text() == "invalid hex in "@
                + field.column() + " field"@,
            Error::NoCachedIndices { dir } => error.text() == "no cached archive indices in "@
                + dir@,
            Error::CachedIndexNotRead { path, cause: _ } => error.text() == "failed to read "@
                + path@,
            Error::IndexNotParsed { hash, cause: _ } => error.text()
                == "failed to parse archive index "@ + hash@,
            Error::IndexStatus { status, url } => error.text() == "HTTP "@ + status@
                + " fetching index: "@ + url@,
            Error::ArchiveStatus { status, url } => error.text() == "HTTP "@ + status@
                + " for archive range request: "@ + url@,
            Error::LooseFileStatus { status, key_hex } => error.text()
                == "encoding key not found in any archive index and loose file returned HTTP "@
                + status@ + ": "@ + key_hex@,
            Error::PathNotFound { path } => error.text() == "Path not found in root file: "@
                + path@,
            Error::FileDataIdNotFound { fdid } => error.text() == "FileDataID "@
                + crate::text::decimal(fdid as nat) + " not found in root file"@,
            Error::PathContentKeyNotFound { path } => error.text()
                == "Content key not found in encoding file for path: "@ + path@,
            Error::FdidContentKeyNotFound { fdid } => error.text()
                == "Content key not found in encoding file for FDID "@ + crate::text::decimal(
                fdid as nat,
            ),
            Error::CurlFailed { code } => error.text() == "curl failed with exit code "@
                + crate::text::signed_decimal(code as int) + " while downloading listfile"@,
            _ => true,
        },
{
}

} // verus!
