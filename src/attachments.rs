//! Images pasted into issues, handed to the presentation layer inline.

use vstd::prelude::*;
use crate::value::text_eq;

verus! {

/// The media type of an image file with extension `ext`; PNG where unknown.
pub open spec fn mime_of(ext: Option<Seq<char>>) -> Seq<char> {
    match ext {
        Some(e) => if e == "png"@ {
            "image/png"@
        } else if e == "jpg"@ || e == "jpeg"@ {
            "image/jpeg"@
        } else if e == "gif"@ {
            "image/gif"@
        } else if e == "webp"@ {
            "image/webp"@
        } else if e == "svg"@ {
            "image/svg+xml"@
        } else if e == "bmp"@ {
            "image/bmp"@
        } else {
            "image/png"@
        },
        None => "image/png"@,
    }
}

/// The media type of an image file by its extension.
pub fn mime_for_extension(ext: Option<&str>) -> (r: &'static str)
    ensures
        r@ == mime_of(match ext {
            Some(e) => Some(e@),
            None => None,
        }),
{
    match ext {
        Some(e) => {
            if text_eq(e, "png") {
                "image/png"
            } else if text_eq(e, "jpg") || text_eq(e, "jpeg") {
                "image/jpeg"
            } else if text_eq(e, "gif") {
                "image/gif"
            } else if text_eq(e, "webp") {
                "image/webp"
            } else if text_eq(e, "svg") {
                "image/svg+xml"
            } else if text_eq(e, "bmp") {
                "image/bmp"
            } else {
                "image/png"
            }
        },
        None => "image/png",
    }
}

/// What the standard base64 alphabet, with padding, makes of some bytes.
pub uninterp spec fn base64_of(data: Seq<u8>) -> Seq<char>;

/// Relies on `base64`'s standard engine to encode bytes: four characters
/// for each started group of three bytes, the last group padded.
#[verifier::external_body]
fn base64_encode(data: &Vec<u8>) -> (r: String)
    requires
        data@.len() <= usize::MAX / 2,
    ensures
        r@ == base64_of(data@),
        r@.len() == 4 * ((data@.len() + 2) / 3),
{
    base64::Engine::encode(&base64::engine::general_purpose::STANDARD, data)
}

/// The `data:` URL of an image file with extension `ext` and content `data`.
pub fn image_data_url(ext: Option<&str>, data: &Vec<u8>) -> (r: String)
    requires
        data@.len() <= usize::MAX / 2,
    ensures
        r@ == "data:"@ + mime_of(match ext {
            Some(e) => Some(e@),
            None => None,
        }) + ";base64,"@ + base64_of(data@),
{
    let mut url = String::from_str("data:");
    url.append(mime_for_extension(ext));
    url.append(";base64,");
    let b = base64_encode(data);
    url.append(b.as_str());
    url
}

/// What `urlencoding::decode` makes of a text: it with each `%XX` turned
/// into its byte, where the bytes form UTF-8.
pub uninterp spec fn url_decoded(s: Seq<char>) -> Option<Seq<char>>;

/// Relies on `urlencoding::decode` for percent-decoding.
#[verifier::external_body]
fn url_decode(s: &str) -> (r: Option<String>)
    ensures
        match r {
            Some(d) => url_decoded(s@) == Some(d@),
            None => url_decoded(s@) is None,
        },
{
    match urlencoding::decode(s) {
        Ok(d) => Some(d.into_owned()),
        Err(_) => None,
    }
}

/// An image path as the presentation layer may hand it over, percent-encoded
/// or not: decoded where it decodes, else as given.
pub fn decoded_path(path: &str) -> (r: String)
    ensures
        r@ == match url_decoded(path@) {
            Some(d) => d,
            None => path@,
        },
{
    match url_decode(path) {
        Some(d) => d,
        None => String::from_str(path),
    }
}

} // verus!
