//! Cover art: the image format is told from the leading bytes, and the
//! picture is written out as a `data:` URI.

use vstd::prelude::*;
use base64::Engine;

verus! {

/// The image formats told apart by their leading bytes.
#[derive(Clone, Copy, Debug, PartialEq, Eq, Structural)]
pub enum ImageKind {
    Png,
    Jpeg,
    Gif,
    Webp,
    Unknown,
}

pub open spec fn is_png(b: Seq<u8>) -> bool {
    b.len() >= 8 && b[0] == 0x89u8 && b[1] == 0x50u8 && b[2] == 0x4Eu8 && b[3] == 0x47u8
        && b[4] == 0x0Du8 && b[5] == 0x0Au8 && b[6] == 0x1Au8 && b[7] == 0x0Au8
}

pub open spec fn is_jpeg(b: Seq<u8>) -> bool {
    b.len() >= 3 && b[0] == 0xFFu8 && b[1] == 0xD8u8 && b[2] == 0xFFu8
}

/// "GIF87a" or "GIF89a".
pub open spec fn is_gif(b: Seq<u8>) -> bool {
    b.len() >= 6 && b[0] == 0x47u8 && b[1] == 0x49u8 && b[2] == 0x46u8 && b[3] == 0x38u8
        && (b[4] == 0x37u8 || b[4] == 0x39u8) && b[5] == 0x61u8
}

/// "RIFF", four bytes of size, then "WEBP".
pub open spec fn is_webp(b: Seq<u8>) -> bool {
    b.len() >= 12 && b[0] == 0x52u8 && b[1] == 0x49u8 && b[2] == 0x46u8 && b[3] == 0x46u8
        && b[8] == 0x57u8 && b[9] == 0x45u8 && b[10] == 0x42u8 && b[11] == 0x50u8
}

pub open spec fn kind_of(b: Seq<u8>) -> ImageKind {
    if is_png(b) {
        ImageKind::Png
    } else if is_jpeg(b) {
        ImageKind::Jpeg
    } else if is_gif(b) {
        ImageKind::Gif
    } else if is_webp(b) {
        ImageKind::Webp
    } else {
        ImageKind::Unknown
    }
}

pub open spec fn mime_of(k: ImageKind) -> Seq<char> {
    match k {
        ImageKind::Png => "image/png"@,
        ImageKind::Jpeg => "image/jpeg"@,
        ImageKind::Gif => "image/gif"@,
        ImageKind::Webp => "image/webp"@,
        ImageKind::Unknown => "application/octet-stream"@,
    }
}

/// Tells the image format from the leading bytes.
pub fn sniff_image(b: &[u8]) -> (r: ImageKind)
    ensures
        r == kind_of(b@),
{
    let n = b.len();
    if n >= 8 && b[0] == 0x89u8 && b[1] == 0x50u8 && b[2] == 0x4Eu8 && b[3] == 0x47u8
        && b[4] == 0x0Du8 && b[5] == 0x0Au8 && b[6] == 0x1Au8 && b[7] == 0x0Au8 {
        ImageKind::Png
    } else if n >= 3 && b[0] == 0xFFu8 && b[1] == 0xD8u8 && b[2] == 0xFFu8 {
        ImageKind::Jpeg
    } else if n >= 6 && b[0] == 0x47u8 && b[1] == 0x49u8 && b[2] == 0x46u8 && b[3] == 0x38u8
        && (b[4] == 0x37u8 || b[4] == 0x39u8) && b[5] == 0x61u8 {
        ImageKind::Gif
    } else if n >= 12 && b[0] == 0x52u8 && b[1] == 0x49u8 && b[2] == 0x46u8 && b[3] == 0x46u8
        && b[8] == 0x57u8 && b[9] == 0x45u8 && b[10] == 0x42u8 && b[11] == 0x50u8 {
        ImageKind::Webp
    } else {
        ImageKind::Unknown
    }
}

impl ImageKind {
    /// The MIME type of the format.
    pub fn mime_type(&self) -> (r: &'static str)
        ensures
            r@ == mime_of(*self),
    {
        match self {
            ImageKind::Png => "image/png",
            ImageKind::Jpeg => "image/jpeg",
            ImageKind::Gif => "image/gif",
            ImageKind::Webp => "image/webp",
            ImageKind::Unknown => "application/octet-stream",
        }
    }
}

/// What the standard padded base64 encoding makes of a byte sequence.
pub uninterp spec fn base64_of(b: Seq<u8>) -> Seq<char>;

/// Length of the padded base64 encoding of `n` bytes.
pub open spec fn base64_len(n: nat) -> nat {
    4 * ((n + 2) / 3)
}

/// Relies on `base64::engine::general_purpose::STANDARD.encode`: padded
/// standard alphabet, four characters for each started group of three bytes.
/// It panics when that length does not fit in `usize`.
#[verifier::external_body]
pub(crate) fn base64_standard(b: &[u8]) -> (r: String)
    requires
        base64_len(b@.len()) <= usize::MAX,
    ensures
        r@ == base64_of(b@),
        r@.len() == base64_len(b@.len()),
{
    base64::engine::general_purpose::STANDARD.encode(b)
}

/// The `data:` URI of a picture.
pub open spec fn data_uri_of(b: Seq<u8>) -> Seq<char> {
    "data:"@ + mime_of(kind_of(b)) + ";base64,"@ + base64_of(b)
}

/// Writes a picture as `data:<mime>;base64,<payload>`, with the MIME type
/// told from the leading bytes.
pub fn data_uri(b: &[u8]) -> (r: String)
    requires
        base64_len(b@.len()) <= usize::MAX,
    ensures
        r@ == data_uri_of(b@),
{
    let kind = sniff_image(b);
    let mut out = String::from_str("data:");
    out.append(kind.mime_type());
    out.append(";base64,");
    let payload = base64_standard(b);
    out.append(payload.as_str());
    out
}

} // verus!
