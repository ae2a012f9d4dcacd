//! Turning clipboard pixels into something that can be shown and pasted.
//!
//! An image arrives as raw RGBA, which is useless to both the list and the
//! clipboard: a webview needs a `data:` URI and a rich paste needs a PNG.
//! Both are derived once, at the moment of capture, by the `image` crate.

use image::codecs::png::PngEncoder;
use image::{DynamicImage, ExtendedColorType, ImageEncoder, RgbaImage};
use vstd::prelude::*;

use crate::b64::{encode, encoded};
use crate::item::{copy_bytes, png_uri_prefix, ImageModel, ImagePayload};

verus! {

/// Longest edge of the thumbnail shown in the list. Small on purpose: the
/// snapshot carrying these is pushed to the window on every capture.
pub const THUMBNAIL_EDGE: u32 = 96;

/// The eight bytes every PNG file starts with.
pub open spec fn png_signature() -> Seq<u8> {
    seq![137u8, 80u8, 78u8, 71u8, 13u8, 10u8, 26u8, 10u8]
}

/// `bytes` starts the way a PNG file does.
pub open spec fn is_png(bytes: Seq<u8>) -> bool {
    bytes.len() >= 8 && bytes.subrange(0, 8) == png_signature()
}

/// The PNG file the image crate's PNG encoder, with its default settings,
/// makes of an RGBA image of this size, or `None` when it refuses.
pub uninterp spec fn png_encoding(width: u32, height: u32, rgba: Seq<u8>) -> Option<Seq<u8>>;

/// The size and RGBA pixels of the thumbnail the image crate makes of an
/// RGBA image of this size, scaled to fit a square of `edge` pixels.
pub uninterp spec fn thumbnail_image(width: u32, height: u32, rgba: Seq<u8>, edge: u32) -> (
    u32,
    u32,
    Seq<u8>,
);

/// `PngEncoder::write_image` of the image crate, with the encoder made by
/// `PngEncoder::new` over a new buffer and the pixels taken as RGBA with
/// eight bits a channel: the encoder asserts that the buffer holds exactly
/// four bytes a pixel, so only such a buffer is passed. The bytes written
/// are named by `png_encoding`, `None` when the encoder returns an error.
/// The encoder writes the PNG signature before anything else, so what comes
/// back starts with it.
#[verifier::external_body]
fn png_encoding_of(width: u32, height: u32, rgba: &[u8]) -> (r: Option<Vec<u8>>)
    requires
        rgba@.len() == 4 * (width as int) * (height as int),
    ensures
        match r {
            Some(bytes) => png_encoding(width, height, rgba@) == Some(bytes@),
            None => png_encoding(width, height, rgba@) is None,
        },
        r matches Some(bytes) ==> is_png(bytes@),
{
    let mut out = Vec::new();
    PngEncoder::new(&mut out)
        .write_image(rgba, width, height, ExtendedColorType::Rgba8)
        .ok()
        .map(|_| out)
}

/// `DynamicImage::thumbnail` of the RGBA image made by
/// `RgbaImage::from_raw`, read back as its size and RGBA pixels
/// (`to_rgba8`, `dimensions`, `into_raw`). `from_raw` accepts the buffer
/// exactly when it holds at least four bytes for every pixel, so that is
/// when a thumbnail comes back; its pixels are four bytes each, and the
/// thumbnail is named by `thumbnail_image`.
#[verifier::external_body]
fn thumbnail_pixels(width: u32, height: u32, rgba: Vec<u8>, edge: u32) -> (r: Option<
    (u32, u32, Vec<u8>),
>)
    ensures
        r is Some <==> 4 * (width as int) * (height as int) <= rgba@.len(),
        r matches Some((w, h, pixels)) ==> (w, h, pixels@) == thumbnail_image(
            width,
            height,
            rgba@,
            edge,
        ) && pixels@.len() == 4 * (w as int) * (h as int),
{
    let image = RgbaImage::from_raw(width, height, rgba)?;
    let small = DynamicImage::ImageRgba8(image).thumbnail(edge, edge).to_rgba8();
    let (w, h) = small.dimensions();
    Some((w, h, small.into_raw()))
}

/// The image's size fits the encoder's and the buffer holds every pixel.
pub open spec fn encodable(width: usize, height: usize, rgba: Seq<u8>) -> bool {
    &&& 0 < width <= u32::MAX
    &&& 0 < height <= u32::MAX
    &&& 4 * width * height <= rgba.len()
}

/// An encodable image with its derived forms filled in: the PNG of its
/// pixels, and the `data:` URI of the PNG of its thumbnail. A form the
/// encoder refuses stays as it was.
pub open spec fn prepared(p: ImageModel) -> ImageModel {
    let w = p.width as u32;
    let h = p.height as u32;
    let (tw, th, small) = thumbnail_image(w, h, p.rgba, THUMBNAIL_EDGE);
    ImageModel {
        png: match png_encoding(w, h, p.rgba.take(4 * p.width * p.height)) {
            Some(bytes) => bytes,
            None => p.png,
        },
        thumbnail: match png_encoding(tw, th, small) {
            Some(bytes) => png_uri_prefix() + encoded(bytes),
            None => p.thumbnail,
        },
        ..p
    }
}

/// Fill in the derived forms of a freshly captured image: the PNG and the
/// thumbnail's `data:` URI.
///
/// Failure is not fatal: an image with no size, a size the encoder cannot
/// take, or a buffer that does not match its size is left exactly as it
/// was, and a form that fails to encode is left as it was too. The image
/// still counts as a capture; it just shows and pastes as its description.
pub fn prepare(payload: &mut ImagePayload)
    ensures
        encodable(old(payload).width, old(payload).height, old(payload).rgba@)
            ==> final(payload)@ == prepared(old(payload)@),
        !encodable(old(payload).width, old(payload).height, old(payload).rgba@) ==> final(payload)@
            == old(payload)@,
        final(payload).png@ == old(payload).png@ || is_png(final(payload).png@),
        final(payload).thumbnail@ == old(payload).thumbnail@ || exists|thumb: Seq<u8>|
            is_png(thumb) && final(payload).thumbnail@ == png_uri_prefix() + #[trigger] encoded(
                thumb,
            ),
{
    if payload.width == 0 || payload.height == 0 || payload.width > 0xffff_ffff
        || payload.height > 0xffff_ffff {
        return;
    }
    let len: usize = payload.rgba.len();
    let ghost wi = payload.width as int;
    let ghost hi = payload.height as int;
    let n: usize = match 4usize.checked_mul(payload.width) {
        Some(a) => match a.checked_mul(payload.height) {
            Some(n) => n,
            None => {
                proof {
                    assert(4 * wi * hi > len) by (nonlinear_arith)
                        requires
                            a == 4 * wi,
                            a * hi > usize::MAX,
                            len <= usize::MAX,
                    ;
                }
                return;
            },
        },
        None => {
            proof {
                assert(4 * wi * hi > len) by (nonlinear_arith)
                    requires
                        4 * wi > usize::MAX,
                        hi >= 1,
                        len <= usize::MAX,
                ;
            }
            return;
        },
    };
    if n > len {
        return;
    }
    let ghost before = payload@;
    let w = payload.width as u32;
    let h = payload.height as u32;
    let pixels = vstd::slice::slice_subrange(payload.rgba.as_slice(), 0, n);
    match png_encoding_of(w, h, pixels) {
        Some(png) => {
            payload.png = png;
        },
        None => {},
    }
    match thumbnail_pixels(w, h, copy_bytes(payload.rgba.as_slice()), THUMBNAIL_EDGE) {
        Some((tw, th, small)) => match png_encoding_of(tw, th, small.as_slice()) {
            Some(png) => {
                let mut uri = "data:image/png;base64,".to_owned();
                let text = encode(png.as_slice());
                uri.append(text.as_str());
                payload.thumbnail = uri;
            },
            None => {},
        },
        None => {},
    }
    proof {
        assert(before.rgba.subrange(0, n as int) =~= before.rgba.take(4 * before.width * before.height));
        assert(payload@ =~= prepared(before));
    }
}

} // verus!
