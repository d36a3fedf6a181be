//! The error type of URL handling, and the outside error types it carries.

use vstd::prelude::*;

verus! {

/// `base64::DecodeError`, carried opaquely.
#[verifier::external_type_specification]
#[verifier::external_body]
pub struct ExDecodeError(base64::DecodeError);

/// `std::io::Error`, carried opaquely.
#[verifier::external_type_specification]
#[verifier::external_body]
pub struct ExIoError(std::io::Error);

/// `std::string::FromUtf8Error`, carried opaquely.
#[verifier::external_type_specification]
#[verifier::external_body]
pub struct ExFromUtf8Error(std::string::FromUtf8Error);

/// Why a `ush://` link could not be carried out.
#[derive(Debug)]
pub enum AppError {
    /// The link is malformed; the text says how.
    InvalidUrl(String),
    /// The payload is not valid base64.
    Base64(base64::DecodeError),
    /// The decoded payload is not a valid gzip stream.
    Gzip(std::io::Error),
    /// The decompressed payload is not UTF-8 text.
    Utf8(std::string::FromUtf8Error),
    /// No configured application has the requested name.
    AppNotFound(String),
    /// The configured application has no path.
    EmptyAppPath,
    /// The command line to hand to the application is empty.
    EmptyCommand,
    /// Starting the application failed; the text says why.
    Command(String),
}

/// `String::from_utf8`: the bytes as text when they are valid UTF-8.
#[verifier::external_body]
pub(crate) fn string_from_utf8(bytes: Vec<u8>) -> (r: Result<String, std::string::FromUtf8Error>)
    ensures
        r is Ok <==> vstd::utf8::valid_utf8(bytes@),
        r matches Ok(s) ==> s@ == vstd::utf8::decode_utf8(bytes@),
{
    String::from_utf8(bytes)
}

} // verus!
