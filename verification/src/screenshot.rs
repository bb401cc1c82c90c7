//! Images sent to a vision model: a desktop screenshot shrunk and compressed
//! to a JPEG data URL, and the small test image of a provider check.
use vstd::prelude::*;

use crate::encoding::{base64_text, encode_base64};

verus! {

/// The RGBA pixels of `width` x `height` shrunk to fit within `limit` x
/// `limit` by the image crate's thumbnail: width, height and pixels.
pub uninterp spec fn thumbnail_of(width: u32, height: u32, pixels: Seq<u8>, limit: u32) -> (u32, u32, Seq<u8>);

/// The JPEG encoding of RGBA pixels by the image crate at `quality`, or the
/// text of its error.
pub uninterp spec fn jpeg_encoding(width: u32, height: u32, pixels: Seq<u8>, quality: u8) -> Result<Seq<u8>, Seq<char>>;

/// Calls `DynamicImage::thumbnail` on the RGBA image. The crate documents
/// that the result keeps the aspect ratio and fits within the bounds (each
/// side is at least one pixel, hence a bound of at least one); an RGBA image
/// holds four bytes per pixel.
#[verifier::external_body]
fn thumbnail_rgba(width: u32, height: u32, pixels: Vec<u8>, limit: u32) -> (res: (u32, u32, Vec<u8>))
    requires
        pixels@.len() == width * height * 4,
        limit >= 1,
    ensures
        (res.0, res.1, res.2@) == thumbnail_of(width, height, pixels@, limit),
        res.0 <= limit,
        res.1 <= limit,
        res.2@.len() == res.0 * res.1 * 4,
{
    let image = image::DynamicImage::ImageRgba8(
        image::RgbaImage::from_raw(width, height, pixels).expect("the length was checked"),
    );
    let small = image.thumbnail(limit, limit).into_rgba8();
    (small.width(), small.height(), small.into_raw())
}

/// Calls `JpegEncoder::new_with_quality(..).encode_image(..)` on the RGBA
/// image, with the crate's error turned into its message. The contract
/// names the outcome; like every `Vec`, the bytes are at most `isize::MAX`.
#[verifier::external_body]
fn encode_jpeg(width: u32, height: u32, pixels: Vec<u8>, quality: u8) -> (res: Result<Vec<u8>, String>)
    requires
        pixels@.len() == width * height * 4,
    ensures
        match res {
            Ok(b) => jpeg_encoding(width, height, pixels@, quality) == Ok::<Seq<u8>, Seq<char>>(b@)
                && b@.len() <= usize::MAX / 2,
            Err(e) => jpeg_encoding(width, height, pixels@, quality) == Err::<Seq<u8>, Seq<char>>(e@),
        },
{
    let image = image::DynamicImage::ImageRgba8(
        image::RgbaImage::from_raw(width, height, pixels).expect("the length was checked"),
    );
    let mut bytes = Vec::new();
    match image::codecs::jpeg::JpegEncoder::new_with_quality(&mut bytes, quality).encode_image(&image) {
        Ok(()) => Ok(bytes),
        Err(e) => Err(e.to_string()),
    }
}

/// A JPEG data URL of `bytes`.
pub open spec fn jpeg_data_url(bytes: Seq<u8>) -> Seq<char> {
    "data:image/jpeg;base64,"@ + base64_text(bytes)
}

fn jpeg_url(bytes: &Vec<u8>) -> (res: String)
    requires
        bytes@.len() <= usize::MAX / 2,
    ensures
        res@ == jpeg_data_url(bytes@),
{
    let text = encode_base64(bytes.as_slice());
    let mut out = String::from_str("data:image/jpeg;base64,");
    out.append(text.as_str());
    out
}

/// The image sent: shrunk to fit 1280 x 1280 when its longer side is
/// longer, as it is otherwise.
pub open spec fn sent_image(width: u32, height: u32, pixels: Seq<u8>) -> (u32, u32, Seq<u8>) {
    if width > 1280 || height > 1280 {
        thumbnail_of(width, height, pixels, 1280)
    } else {
        (width, height, pixels)
    }
}

/// `encode_screenshot` after the pet windows were masked out: the image,
/// shrunk when larger than 1280 pixels on a side, as a quality-70 JPEG data
/// URL.
pub fn screenshot_data_url(width: u32, height: u32, pixels: Vec<u8>) -> (res: Result<String, String>)
    requires
        pixels@.len() == width * height * 4,
    ensures
        ({
            let (w, h, p) = sent_image(width, height, pixels@);
            match jpeg_encoding(w, h, p, 70) {
                Ok(b) => res matches Ok(u) && u@ == jpeg_data_url(b),
                Err(e) => res matches Err(m) && m@ == "压缩桌面截图失败: "@ + e,
            }
        }),
{
    let longest = if width > height {
        width
    } else {
        height
    };
    let (w, h, p) = if longest > 1280 {
        thumbnail_rgba(width, height, pixels, 1280)
    } else {
        (width, height, pixels)
    };
    match encode_jpeg(w, h, p, 70) {
        Ok(bytes) => Ok(jpeg_url(&bytes)),
        Err(e) => {
            let mut m = String::from_str("压缩桌面截图失败: ");
            m.append(e.as_str());
            Err(m)
        },
    }
}

/// The test image: 2 x 2 pixels of one light blue.
pub open spec fn test_pixels() -> Seq<u8> {
    Seq::new(16, |i: int| seq![157u8, 218u8, 228u8, 255u8][i % 4])
}

/// `test_image_data_url`: the test image as a quality-70 JPEG data URL.
pub fn test_image_data_url() -> (res: Result<String, String>)
    ensures
        match jpeg_encoding(2, 2, test_pixels(), 70) {
            Ok(b) => res matches Ok(u) && u@ == jpeg_data_url(b),
            Err(e) => res matches Err(m) && m@ == e,
        },
{
    let mut pixels: Vec<u8> = Vec::new();
    let mut k: usize = 0;
    while k < 4
        invariant
            0 <= k <= 4,
            pixels@ == test_pixels().take(4 * k as int),
        decreases 4 - k,
    {
        let ghost before = pixels@;
        pixels.push(157);
        pixels.push(218);
        pixels.push(228);
        pixels.push(255);
        assert(pixels@ =~= test_pixels().take(4 * (k + 1) as int)) by {
            assert forall|i: int| 0 <= i < 4 * (k + 1) implies pixels@[i] == test_pixels()[i] by {
                if i >= 4 * k {
                    assert(i % 4 == i - 4 * k);
                }
            }
        }
        k = k + 1;
    }
    assert(pixels@ =~= test_pixels());
    match encode_jpeg(2, 2, pixels, 70) {
        Ok(bytes) => Ok(jpeg_url(&bytes)),
        Err(e) => Err(e),
    }
}

} // verus!
