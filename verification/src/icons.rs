use vstd::prelude::*;
use vstd::string::StrSliceExecFns;
use vstd::string::StringExecFns;
use vstd::string::StringSliceAdditionalSpecFns;
use crate::text::str_eq;

verus! {

/// What base64 encoding with the standard alphabet and padding yields for a
/// byte sequence. The result is a function of the bytes alone.
pub uninterp spec fn base64_of(bytes: Seq<u8>) -> Seq<char>;

/// Relies on base64's `Engine::encode` with the `STANDARD` engine: encodes
/// the bytes with the standard alphabet, padded.
#[verifier::external_body]
fn base64_encode(bytes: &[u8]) -> (r: String)
    ensures
        r@ == base64_of(bytes@),
{
    base64::Engine::encode(&base64::engine::general_purpose::STANDARD, bytes)
}

/// Whether the text ends with the given suffix.
pub fn str_ends_with(s: &str, suffix: &str) -> (r: bool)
    ensures
        r == suffix@.is_suffix_of(s@),
{
    let n = s.unicode_len();
    let m = suffix.unicode_len();
    if m > n {
        return false;
    }
    let tail = s.substring_char(n - m, n);
    str_eq(tail, suffix)
}

/// The MIME type that a path's extension announces.
pub open spec fn mime_of(path: Seq<char>) -> Seq<char> {
    if ".png"@.is_suffix_of(path) {
        "image/png"@
    } else if ".jpg"@.is_suffix_of(path) || ".jpeg"@.is_suffix_of(path) {
        "image/jpeg"@
    } else if ".ico"@.is_suffix_of(path) {
        "image/x-icon"@
    } else if ".gif"@.is_suffix_of(path) {
        "image/gif"@
    } else {
        "application/octet-stream"@
    }
}

/// Maps a file path to the MIME type its extension announces, falling back
/// to the generic byte-stream type.
pub fn mime_from_extension(path: &str) -> (r: &'static str)
    ensures
        r@ == mime_of(path@),
{
    if str_ends_with(path, ".png") {
        "image/png"
    } else if str_ends_with(path, ".jpg") || str_ends_with(path, ".jpeg") {
        "image/jpeg"
    } else if str_ends_with(path, ".ico") {
        "image/x-icon"
    } else if str_ends_with(path, ".gif") {
        "image/gif"
    } else {
        "application/octet-stream"
    }
}

/// Renders image bytes as a data URL, with the MIME type taken from the
/// path the bytes were read from.
pub fn icon_data_url(path: &str, bytes: &[u8]) -> (r: String)
    ensures
        r@ == "data:"@ + mime_of(path@) + ";base64,"@ + base64_of(bytes@),
{
    let mime = mime_from_extension(path);
    let mut s = "data:".to_owned();
    s.append(mime);
    s.append(";base64,");
    let b64 = base64_encode(bytes);
    s.append(b64.as_str());
    s
}

/// A lowercase hexadecimal digit, as a byte of ASCII text.
pub open spec fn is_hex_digit(b: u8) -> bool {
    (48 <= b <= 57) || (97 <= b <= 102)
}

/// The shape of a library-cache icon file name: forty lowercase hex digits
/// followed by `.jpg`.
pub open spec fn is_cache_icon_bytes(bs: Seq<u8>) -> bool {
    &&& bs.len() == 44
    &&& forall|i: int| 0 <= i < 40 ==> is_hex_digit(#[trigger] bs[i])
    &&& bs[40] == 46u8
    &&& bs[41] == 106u8
    &&& bs[42] == 112u8
    &&& bs[43] == 103u8
}

/// Whether a file name has the shape of a library-cache icon: forty
/// lowercase hex digits followed by `.jpg`.
pub fn is_cache_icon_name(name: &str) -> (r: bool)
    ensures
        r == is_cache_icon_bytes(name.spec_bytes()),
{
    let bs = name.as_bytes();
    if bs.len() != 44 {
        return false;
    }
    let mut i: usize = 0;
    while i < 40
        invariant
            i <= 40,
            bs@.len() == 44,
            bs@ == name.spec_bytes(),
            forall|j: int| 0 <= j < i ==> is_hex_digit(#[trigger] bs@[j]),
        decreases 40 - i,
    {
        let b = bs[i];
        if !((b >= 48 && b <= 57) || (b >= 97 && b <= 102)) {
            return false;
        }
        i = i + 1;
    }
    bs[40] == 46 && bs[41] == 106 && bs[42] == 112 && bs[43] == 103
}

} // verus!
