//! What is sent of an image to the vision model: its MIME type and its
//! bytes in base64.
use crate::extractor::ExtractError;
use crate::text::{lowercase, text_is, to_chars, to_string};
use vstd::prelude::*;

verus! {

/// The standard base64 encoding, with padding, of a sequence of bytes, as
/// the crate `base64` makes it.
pub uninterp spec fn base64_standard(bytes: Seq<u8>) -> Seq<char>;

/// `Engine::encode` of the crate `base64` with the engine `STANDARD`: the
/// bytes in base64 after RFC 4648, with padding. The crate gives up where
/// the length of the encoding, four characters for each three bytes begun,
/// does not fit the machine's word; such input is left out. The result
/// depends on the bytes alone and is named `base64_standard`.
#[verifier::external_body]
fn base64_encode(bytes: &[u8]) -> (r: String)
    requires
        (bytes@.len() / 3) * 4 + 4 <= usize::MAX,
    ensures
        r@ == base64_standard(bytes@),
{
    base64::Engine::encode(&base64::engine::general_purpose::STANDARD, bytes)
}

/// The MIME type of the images with the lower-case extension `e`.
pub open spec fn mime_of(e: Seq<char>) -> Option<Seq<char>> {
    if e == "png"@ {
        Some("image/png"@)
    } else if e == "jpg"@ || e == "jpeg"@ {
        Some("image/jpeg"@)
    } else if e == "webp"@ {
        Some("image/webp"@)
    } else if e == "gif"@ {
        Some("image/gif"@)
    } else if e == "bmp"@ {
        Some("image/bmp"@)
    } else {
        None
    }
}

/// The extension of a path as a text: empty where the path has none.
pub open spec fn extension_text(extension: Option<&str>) -> Seq<char> {
    match extension {
        Some(e) => e@,
        None => Seq::empty(),
    }
}

/// The MIME type of the images with the extension `ext`, which is in lower
/// case.
pub fn mime_type_of_lowercase(ext: &str) -> (r: Option<&'static str>)
    ensures
        match mime_of(ext@) {
            Some(m) => r is Some && r->Some_0@ == m,
            None => r is None,
        },
{
    let e = to_chars(ext);
    if text_is(&e, "png") {
        Some("image/png")
    } else if text_is(&e, "jpg") || text_is(&e, "jpeg") {
        Some("image/jpeg")
    } else if text_is(&e, "webp") {
        Some("image/webp")
    } else if text_is(&e, "gif") {
        Some("image/gif")
    } else if text_is(&e, "bmp") {
        Some("image/bmp")
    } else {
        None
    }
}

/// The MIME type of an image by the extension of its path, in whatever
/// case; an error for an extension that is none of `png`, `jpg`, `jpeg`,
/// `webp`, `gif` and `bmp`, and for a path without an extension.
pub fn get_mime_type(extension: Option<&str>) -> (r: Result<&'static str, ExtractError>)
    ensures
        match mime_of(lowercase(extension_text(extension))) {
            Some(m) => r is Ok && r->Ok_0@ == m,
            None => r is Err && r->Err_0 is UnsupportedImageFormat
                && r->Err_0->UnsupportedImageFormat_0@ == lowercase(extension_text(extension)),
        },
{
    let lower = match extension {
        Some(e) => e.to_lowercase(),
        None => {
            let none: &str = "";
            proof {
                reveal_strlit("");
                assert(none@ =~= Seq::<char>::empty());
            }
            none.to_lowercase()
        },
    };
    match mime_type_of_lowercase(lower.as_str()) {
        Some(mime) => Ok(mime),
        None => Err(ExtractError::UnsupportedImageFormat(lower)),
    }
}

/// An image as it is sent to the vision model.
#[derive(Debug, Clone, PartialEq, Eq)]
pub struct InlineData {
    /// The MIME type of the image.
    pub mime_type: String,
    /// The bytes of the image in base64.
    pub data: String,
}

/// Whether the base64 encoding of this many bytes fits the machine's word.
pub open spec fn encodable(len: nat) -> bool {
    (len / 3) * 4 + 4 <= usize::MAX
}

/// The image with the given bytes as it is sent to the vision model: its
/// MIME type by the extension of its path, and its bytes in base64. An
/// extension that is not supported is reported first, then an image that is
/// too large to be encoded.
pub fn inline_image(extension: Option<&str>, bytes: &[u8]) -> (r: Result<InlineData, ExtractError>)
    ensures
        match mime_of(lowercase(extension_text(extension))) {
            Some(m) => if encodable(bytes@.len()) {
                &&& r is Ok
                &&& r->Ok_0.mime_type@ == m
                &&& r->Ok_0.data@ == base64_standard(bytes@)
            } else {
                r == Err::<InlineData, ExtractError>(ExtractError::ImageTooLarge(bytes.len()))
            },
            None => r is Err && r->Err_0 is UnsupportedImageFormat
                && r->Err_0->UnsupportedImageFormat_0@ == lowercase(extension_text(extension)),
        },
{
    let mime = match get_mime_type(extension) {
        Ok(m) => m,
        Err(e) => {
            return Err(e);
        },
    };
    if bytes.len() / 3 > (usize::MAX - 4) / 4 {
        return Err(ExtractError::ImageTooLarge(bytes.len()));
    }
    let data = base64_encode(bytes);
    Ok(InlineData { mime_type: to_string(&to_chars(mime)), data })
}

} // verus!
