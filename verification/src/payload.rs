//! Decoding of a link's payload: base64 text wrapping a gzip stream of the
//! UTF-8 command line.

use vstd::prelude::*;
use vstd::utf8::{decode_utf8, valid_utf8};
use crate::error::{string_from_utf8, AppError};

verus! {

/// What `base64::engine::general_purpose::STANDARD.decode` makes of a text:
/// the decoded bytes, or `None` where it reports an error.
pub uninterp spec fn base64_standard_decode(text: Seq<char>) -> Option<Seq<u8>>;

/// What reading a `flate2::read::GzDecoder` to its end makes of some bytes:
/// the decompressed bytes, or `None` where the read reports an error.
pub uninterp spec fn gzip_decompress(data: Seq<u8>) -> Option<Seq<u8>>;

/// `base64::Engine::decode` with the standard alphabet and padding. The
/// contract names the outcome: a function of the text alone.
#[verifier::external_body]
fn base64_decode(text: &str) -> (r: Result<Vec<u8>, base64::DecodeError>)
    ensures
        match r {
            Ok(bytes) => base64_standard_decode(text@) == Some(bytes@),
            Err(_) => base64_standard_decode(text@) is None,
        },
{
    base64::Engine::decode(&base64::engine::general_purpose::STANDARD, text)
}

/// `std::io::Read::read_to_end` on a `flate2::read::GzDecoder` over `data`.
/// The contract names the outcome: a function of the bytes alone.
#[verifier::external_body]
fn gunzip(data: &[u8]) -> (r: Result<Vec<u8>, std::io::Error>)
    ensures
        match r {
            Ok(out) => gzip_decompress(data@) == Some(out@),
            Err(_) => gzip_decompress(data@) is None,
        },
{
    let mut output = Vec::new();
    std::io::Read::read_to_end(&mut flate2::read::GzDecoder::new(data), &mut output).map(
        |_| output,
    )
}

/// The command line that decompressed bytes hold: their text when they are UTF-8.
pub fn text_of_decompressed(bytes: Vec<u8>) -> (r: Result<String, AppError>)
    ensures
        valid_utf8(bytes@) ==> (r matches Ok(s) && s@ == decode_utf8(bytes@)),
        !valid_utf8(bytes@) ==> (r matches Err(AppError::Utf8(_))),
{
    match string_from_utf8(bytes) {
        Ok(s) => Ok(s),
        Err(e) => Err(AppError::Utf8(e)),
    }
}

/// The command line that base64-decoded bytes hold once gunzipped.
pub fn decompress_decoded(bytes: Vec<u8>) -> (r: Result<String, AppError>)
    ensures
        match gzip_decompress(bytes@) {
            None => r matches Err(AppError::Gzip(_)),
            Some(out) => if valid_utf8(out) {
                r matches Ok(s) && s@ == decode_utf8(out)
            } else {
                r matches Err(AppError::Utf8(_))
            },
        },
{
    match gunzip(bytes.as_slice()) {
        Ok(out) => text_of_decompressed(out),
        Err(e) => Err(AppError::Gzip(e)),
    }
}

/// The command line that a link's payload carries: base64, then gzip, then UTF-8.
pub fn decompress_payload(payload: &str) -> (r: Result<String, AppError>)
    ensures
        match base64_standard_decode(payload@) {
            None => r matches Err(AppError::Base64(_)),
            Some(bytes) => match gzip_decompress(bytes) {
                None => r matches Err(AppError::Gzip(_)),
                Some(out) => if valid_utf8(out) {
                    r matches Ok(s) && s@ == decode_utf8(out)
                } else {
                    r matches Err(AppError::Utf8(_))
                },
            },
        },
{
    match base64_decode(payload) {
        Ok(bytes) => decompress_decoded(bytes),
        Err(e) => Err(AppError::Base64(e)),
    }
}

} // verus!
