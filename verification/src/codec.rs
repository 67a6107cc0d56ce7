//! Calls into the `base64` and `image` crates.  Each function here is
//! trusted: its contract is taken as given and its body is not proved.

use base64::Engine;
use vstd::prelude::*;

verus! {

/// What the standard-alphabet, padded Base64 decoder of the `base64` crate
/// makes of `text` (`None` when it rejects it).
pub uninterp spec fn base64_decoded(text: Seq<char>) -> Option<Seq<u8>>;

/// What the standard-alphabet, padded Base64 encoder of the `base64` crate
/// makes of `bytes`.
pub uninterp spec fn base64_encoded(bytes: Seq<u8>) -> Seq<char>;

/// `base64::engine::general_purpose::STANDARD.decode(text)`: the bytes
/// that the crate's decoder yields for `text`, or `None` where the decoder
/// reports an error.  The claim is that the result is a function of `text`
/// alone.
#[verifier::external_body]
pub(crate) fn base64_decode(text: &str) -> (r: Option<Vec<u8>>)
    ensures
        match r {
            Some(v) => base64_decoded(text@) == Some(v@),
            None => base64_decoded(text@) is None,
        },
{
    base64::engine::general_purpose::STANDARD.decode(text).ok()
}

/// `base64::engine::general_purpose::STANDARD.encode(bytes)`: the padded
/// standard Base64 text of `bytes`, a function of `bytes` alone.  The crate
/// panics when the length of the text does not fit in `usize`, so
/// `requires` leaves such inputs out.
#[verifier::external_body]
pub(crate) fn base64_encode(bytes: &[u8]) -> (r: String)
    requires
        bytes@.len() / 3 * 4 + 4 <= usize::MAX,
    ensures
        r@ == base64_encoded(bytes@),
{
    base64::engine::general_purpose::STANDARD.encode(bytes)
}

/// What the `image` crate makes of `bytes` cut to pixel rows `y` to
/// `y + h`, full width: `image::load_from_memory(bytes)`, then
/// `DynamicImage::crop_imm(0, y, width, h)` (which clamps the rectangle to
/// the image), then `DynamicImage::write_to(.., ImageFormat::Png)` into
/// memory; the PNG file bytes, or `None` where loading or encoding reports
/// an error.
pub uninterp spec fn cropped_png(bytes: Seq<u8>, y: u32, h: u32) -> Option<Seq<u8>>;

/// Decode `bytes`, crop pixel rows `y..y + h` at full width and encode the
/// crop as PNG.  Claimed: the result is a function of `bytes`, `y` and `h`
/// alone.
#[verifier::external_body]
pub(crate) fn crop_to_png(bytes: &[u8], y: u32, h: u32) -> (r: Option<Vec<u8>>)
    ensures
        match r {
            Some(v) => cropped_png(bytes@, y, h) == Some(v@),
            None => cropped_png(bytes@, y, h) is None,
        },
{
    let img = image::load_from_memory(bytes).ok()?;
    let cropped = img.crop_imm(0, y, img.width(), h);
    let mut buf = std::io::Cursor::new(Vec::new());
    cropped.write_to(&mut buf, image::ImageFormat::Png).ok()?;
    Some(buf.into_inner())
}

} // verus!
