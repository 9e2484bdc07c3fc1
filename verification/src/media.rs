//! Presentation of an image for display: the extension-to-MIME-type table,
//! the extension allow-list of the directory scanner, and the base64 data
//! URL an image's bytes are handed to the UI as.

use vstd::prelude::*;
use vstd::string::StringExecFns;
use crate::text::{ascii_eq_ignore_case, str_eq_ignore_ascii_case};

verus! {

/// The extensions the scanner accepts as images, compared without regard to
/// ASCII case.
pub open spec fn is_image_extension_spec(ext: Seq<char>) -> bool {
    ||| ascii_eq_ignore_case(ext, "jpg"@)
    ||| ascii_eq_ignore_case(ext, "jpeg"@)
    ||| ascii_eq_ignore_case(ext, "png"@)
    ||| ascii_eq_ignore_case(ext, "gif"@)
    ||| ascii_eq_ignore_case(ext, "bmp"@)
    ||| ascii_eq_ignore_case(ext, "webp"@)
    ||| ascii_eq_ignore_case(ext, "svg"@)
    ||| ascii_eq_ignore_case(ext, "ico"@)
}

/// Decides whether an extension names an image file.
pub fn is_image_extension(ext: &str) -> (r: bool)
    ensures
        r == is_image_extension_spec(ext@),
{
    str_eq_ignore_ascii_case(ext, "jpg") || str_eq_ignore_ascii_case(ext, "jpeg")
        || str_eq_ignore_ascii_case(ext, "png") || str_eq_ignore_ascii_case(ext, "gif")
        || str_eq_ignore_ascii_case(ext, "bmp") || str_eq_ignore_ascii_case(ext, "webp")
        || str_eq_ignore_ascii_case(ext, "svg") || str_eq_ignore_ascii_case(ext, "ico")
}

/// The MIME type shown for an extension; anything unrecognized is presented
/// as PNG, the scanner's deliberate default.
pub open spec fn mime_for_extension(ext: Seq<char>) -> Seq<char> {
    if ascii_eq_ignore_case(ext, "jpg"@) || ascii_eq_ignore_case(ext, "jpeg"@) {
        "image/jpeg"@
    } else if ascii_eq_ignore_case(ext, "png"@) {
        "image/png"@
    } else if ascii_eq_ignore_case(ext, "gif"@) {
        "image/gif"@
    } else if ascii_eq_ignore_case(ext, "bmp"@) {
        "image/bmp"@
    } else if ascii_eq_ignore_case(ext, "webp"@) {
        "image/webp"@
    } else if ascii_eq_ignore_case(ext, "svg"@) {
        "image/svg+xml"@
    } else if ascii_eq_ignore_case(ext, "ico"@) {
        "image/x-icon"@
    } else {
        "image/png"@
    }
}

/// Maps a file extension to the MIME type used in data URLs.
pub fn mime_type_for_extension(ext: &str) -> (r: &'static str)
    ensures
        r@ == mime_for_extension(ext@),
{
    if str_eq_ignore_ascii_case(ext, "jpg") || str_eq_ignore_ascii_case(ext, "jpeg") {
        "image/jpeg"
    } else if str_eq_ignore_ascii_case(ext, "png") {
        "image/png"
    } else if str_eq_ignore_ascii_case(ext, "gif") {
        "image/gif"
    } else if str_eq_ignore_ascii_case(ext, "bmp") {
        "image/bmp"
    } else if str_eq_ignore_ascii_case(ext, "webp") {
        "image/webp"
    } else if str_eq_ignore_ascii_case(ext, "svg") {
        "image/svg+xml"
    } else if str_eq_ignore_ascii_case(ext, "ico") {
        "image/x-icon"
    } else {
        "image/png"
    }
}

/// The base64 text that the standard padded alphabet encodes a byte string
/// to; a function of the bytes alone.
pub uninterp spec fn base64_of(bytes: Seq<u8>) -> Seq<char>;

/// Relies on `base64::Engine::encode` with the
/// `base64::engine::general_purpose::STANDARD` engine: the standard
/// alphabet with padding, four output characters for every three input
/// bytes rounded up. The length bound keeps the encoder's output size from
/// overflowing, on which it would panic.
#[verifier::external_body]
fn base64_encode(bytes: &Vec<u8>) -> (r: String)
    requires
        bytes@.len() / 3 * 4 + 4 <= usize::MAX,
    ensures
        r@ == base64_of(bytes@),
        r@.len() == (bytes@.len() + 2) / 3 * 4,
{
    base64::Engine::encode(&base64::engine::general_purpose::STANDARD, bytes)
}

/// Builds the data URL handed to the UI for an image: its MIME type and its
/// bytes encoded as base64.
pub fn encode_data_url(mime_type: &str, bytes: &Vec<u8>) -> (r: String)
    requires
        bytes@.len() / 3 * 4 + 4 <= usize::MAX,
    ensures
        r@ == "data:"@ + mime_type@ + ";base64,"@ + base64_of(bytes@),
{
    let b64: String = base64_encode(bytes);
    let r: String = String::from_str("data:").concat(mime_type).concat(";base64,").concat(
        b64.as_str(),
    );
    proof {
        assert(r@ =~= "data:"@ + mime_type@ + ";base64,"@ + base64_of(bytes@));
    }
    r
}

} // verus!
