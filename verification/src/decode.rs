//! From the bytes of an image file to the pixels on screen: decoding, orientation, and
//! scaling down to a limit.

use crate::raster::{add_alpha, apply_orientation, Picture, Raster};
use crate::sizing::fit_dims;
use fast_image_resize::images::Image;
use fast_image_resize::{FilterType, PixelType, ResizeAlg, ResizeOptions, Resizer};
use image::{DynamicImage, ImageReader};
use std::io::Cursor;
use vstd::prelude::*;

verus! {

/// The error of the `image` crate, carried through.
#[verifier::external_type_specification]
#[verifier::external_body]
pub struct ExImageError(image::ImageError);

/// Why an image cannot be shown.
#[derive(Debug)]
pub enum DecodeError {
    /// The bytes are no image that can be decoded.
    Image(image::ImageError),
    /// The pixels with an alpha channel would be more bytes than can be addressed.
    TooLarge,
}

/// The unsigned number that the bytes of an image file hold as EXIF orientation of the
/// primary image.
pub uninterp spec fn exif_orientation(bytes: Seq<u8>) -> Option<u32>;

/// `exif::Reader::read_from_container` on the bytes, then `Exif::get_field` for the
/// orientation of the primary image and `Value::get_uint` for its first number; `None`
/// where one of the three has no answer. The result depends on the bytes alone.
#[verifier::external_body]
fn read_exif_orientation(bytes: &[u8]) -> (r: Option<u32>)
    ensures
        r == exif_orientation(bytes@),
{
    let exif = exif::Reader::new().read_from_container(&mut Cursor::new(bytes)).ok()?;
    let field = exif.get_field(exif::Tag::Orientation, exif::In::PRIMARY)?;
    field.value.get_uint(0)
}

/// Decoding the bytes may give this: width, height, channels, whether there is an alpha
/// channel in the file, and pixels, or nothing. The decoders run code that is chosen for the processor, and a process can register further
/// ones, so it is not said that the outcome for one file is the same everywhere.
pub uninterp spec fn may_decode_to(
    bytes: Seq<u8>,
    outcome: Option<(u32, u32, u8, bool, Seq<u8>)>,
) -> bool;

/// `image::ImageReader` on the bytes: `with_guessed_format` tells the format by the first
/// bytes, and `decode` reads the pixels. An image of 8-bit RGB is handed out as it is, any
/// other through `DynamicImage::into_rgba8`; the buffer is exactly the pixels. Along with it
/// comes what `DynamicImage::has_alpha` says: 8-bit RGB has no alpha channel, and where there
/// is none the conversion gives every pixel the alpha 255.
#[verifier::external_body]
fn decode_pixels(bytes: &[u8]) -> (r: Result<(u32, u32, u8, bool, Vec<u8>), image::ImageError>)
    ensures
        match r {
            Ok((width, height, channels, alpha, data)) => {
                &&& may_decode_to(bytes@, Some((width, height, channels, alpha, data@)))
                &&& (channels == 3 && !alpha) || channels == 4
                &&& data.len() == width * height * channels
                &&& channels == 4 && !alpha ==> crate::raster::opaque(data@)
            },
            Err(_) => may_decode_to(bytes@, None),
        },
{
    let decoded = ImageReader::new(Cursor::new(bytes)).with_guessed_format()?.decode()?;
    let alpha = decoded.has_alpha();
    Ok(match decoded {
        DynamicImage::ImageRgb8(rgb) => (rgb.width(), rgb.height(), 3, alpha, rgb.into_raw()),
        other => {
            let rgba = other.into_rgba8();
            (rgba.width(), rgba.height(), 4, alpha, rgba.into_raw())
        },
    })
}

/// Resizing the pixels with the Lanczos filter may give this. The filter's weights come from
/// the platform's sine function and are applied by code that is chosen for the processor, so
/// the last bit of a byte need not be the same on every machine.
pub uninterp spec fn may_resize_to(
    source: Seq<u8>,
    width: u32,
    height: u32,
    channels: u8,
    new_width: u32,
    new_height: u32,
    result: Seq<u8>,
) -> bool;

/// `fast_image_resize::Resizer::resize` with a Lanczos3 convolution on RGBA pixels. The
/// buffer that comes back is exactly the pixels of the new size. Opaque pixels stay opaque if
/// no side becomes less than an eighth: multiplying and dividing by alpha leave the alpha
/// channel alone, and each of the two passes adds up 50 weights at most, which sum to one
/// before they are rounded to multiples of `2^-14` or a smaller power (as each is below two).
/// So their sum is off by 25 such units at most, 255 times that is less than half of one,
/// and the result is rounded and clipped to 255.
#[verifier::external_body]
fn resize_u8x4(data: Vec<u8>, width: u32, height: u32, new_width: u32, new_height: u32) -> (r: Vec<
    u8,
>)
    requires
        data.len() == width * height * 4,
        new_width >= 1,
        new_height >= 1,
        new_width * new_height * 4 <= data.len(),
    ensures
        r.len() == new_width * new_height * 4,
        may_resize_to(data@, width, height, 4, new_width, new_height, r@),
        crate::raster::opaque(data@) && width <= 8 * new_width && height <= 8 * new_height
            ==> crate::raster::opaque(r@),
{
    let lanczos = ResizeOptions::new().resize_alg(ResizeAlg::Convolution(FilterType::Lanczos3));
    let source = Image::from_vec_u8(width, height, data, PixelType::U8x4).unwrap();
    let mut resized = Image::new(new_width, new_height, PixelType::U8x4);
    Resizer::new().resize(&source, &mut resized, &lanczos).unwrap();
    resized.into_vec()
}

/// `fast_image_resize::Resizer::resize` with a Lanczos3 convolution on RGB pixels. The
/// buffer that comes back is exactly the pixels of the new size.
#[verifier::external_body]
fn resize_u8x3(data: Vec<u8>, width: u32, height: u32, new_width: u32, new_height: u32) -> (r: Vec<
    u8,
>)
    requires
        data.len() == width * height * 3,
        new_width >= 1,
        new_height >= 1,
        new_width * new_height * 3 <= data.len(),
    ensures
        r.len() == new_width * new_height * 3,
        may_resize_to(data@, width, height, 3, new_width, new_height, r@),
{
    let lanczos = ResizeOptions::new().resize_alg(ResizeAlg::Convolution(FilterType::Lanczos3));
    let source = Image::from_vec_u8(width, height, data, PixelType::U8x3).unwrap();
    let mut resized = Image::new(new_width, new_height, PixelType::U8x3);
    Resizer::new().resize(&source, &mut resized, &lanczos).unwrap();
    resized.into_vec()
}

/// An EXIF orientation is a number from 1 to 8; anything else is none.
pub open spec fn valid_orientation(value: Option<u32>) -> Option<u16> {
    match value {
        Some(v) => if 1 <= v <= 8 {
            Some(v as u16)
        } else {
            None
        },
        None => None,
    }
}

/// The orientation that a number read from EXIF stands for, if it stands for one.
pub fn orientation_from_value(value: Option<u32>) -> (r: Option<u16>)
    ensures
        r == valid_orientation(value),
{
    match value {
        Some(v) => if 1 <= v && v <= 8 {
            Some(v as u16)
        } else {
            None
        },
        None => None,
    }
}

/// EXIF orientation (1 to 8) parsed from in-memory image bytes, if present.
pub fn orientation_from_bytes(bytes: &[u8]) -> (r: Option<u16>)
    ensures
        r == valid_orientation(exif_orientation(bytes@)),
{
    orientation_from_value(read_exif_orientation(bytes))
}

/// The EXIF orientation (1 to 8) of a file whose contents could be read, if present.
pub fn read_orientation(contents: Option<&Vec<u8>>) -> (r: Option<u16>)
    ensures
        match contents {
            Some(bytes) => r == valid_orientation(exif_orientation(bytes@)),
            None => r is None,
        },
{
    match contents {
        Some(bytes) => orientation_from_bytes(bytes.as_slice()),
        None => None,
    }
}

/// The bytes may decode to this image, from a file with or without an alpha channel. Without
/// one the pixels are RGB, or RGBA and opaque.
pub open spec fn decodes_to(bytes: Seq<u8>, alpha: bool, p: Picture) -> bool {
    &&& p.valid()
    &&& (p.channels == 3 && !alpha) || p.channels == 4
    &&& p.channels == 4 && !alpha ==> crate::raster::opaque(p.bytes)
    &&& p.width <= u32::MAX
    &&& p.height <= u32::MAX
    &&& may_decode_to(
        bytes,
        Some((p.width as u32, p.height as u32, p.channels as u8, alpha, p.bytes)),
    )
}

/// Decodes image bytes, telling the format by the first of them. RGB stays RGB; everything
/// else becomes RGBA. Says too whether there is an alpha channel in the file.
fn decode_bytes(bytes: &[u8]) -> (r: Result<(Raster, bool), DecodeError>)
    ensures
        match r {
            Ok((img, alpha)) => decodes_to(bytes@, alpha, img@),
            Err(DecodeError::Image(_)) => may_decode_to(bytes@, None),
            Err(DecodeError::TooLarge) => false,
        },
{
    match decode_pixels(bytes) {
        Err(e) => Err(DecodeError::Image(e)),
        Ok((width, height, channels, alpha, data)) => {
            let ghost pixels = data@;
            match Raster::new(width, height, channels, data) {
                Some(img) => Ok((img, alpha)),
                None => {
                    assert(pixels.len() == width * height * channels);
                    Err(DecodeError::TooLarge)
                },
            }
        },
    }
}

/// The image in RGBA: one of three channels gets an opaque alpha channel.
pub open spec fn in_rgba(p: Picture) -> Picture {
    if p.channels == 3 {
        crate::raster::with_alpha(p)
    } else {
        p
    }
}

/// The image in RGBA, or `None` if it would be more bytes than can be addressed.
fn into_rgba8(img: Raster) -> (r: Option<Raster>)
    requires
        img@.channels == 3 || img@.channels == 4,
    ensures
        r is None <==> img@.channels == 3 && img@.width * img@.height * 4 > usize::MAX,
        r matches Some(rgba) ==> rgba@ == in_rgba(img@) && rgba@.valid() && rgba@.channels == 4,
        img@.valid(),
{
    if img.channels() == 3 {
        add_alpha(&img)
    } else {
        Some(img)
    }
}

/// Decodes any supported image to RGBA, telling the format by the first bytes.
pub fn decode_to_rgba8(bytes: &[u8]) -> (r: Result<Raster, DecodeError>)
    ensures
        match r {
            Ok(img) => exists|alpha: bool, p: Picture| #[trigger]
                decodes_to(bytes@, alpha, p) && img@ == in_rgba(p),
            Err(DecodeError::Image(_)) => may_decode_to(bytes@, None),
            Err(DecodeError::TooLarge) => exists|alpha: bool, p: Picture| #[trigger]
                decodes_to(bytes@, alpha, p) && p.channels == 3 && p.width * p.height * 4 > usize::MAX,
        },
{
    match decode_bytes(bytes) {
        Err(e) => Err(e),
        Ok((img, _)) => match into_rgba8(img) {
            Some(rgba) => Ok(rgba),
            None => Err(DecodeError::TooLarge),
        },
    }
}

/// Scaling the image down to `max` may give this: itself where it is within `max` already,
/// else pixels of the fitted size. An image without pixels becomes a blank one. An opaque one
/// stays opaque, if no side becomes less than an eighth.
pub open spec fn scales_to(p: Picture, max: u32, q: Picture) -> bool {
    match crate::sizing::fitted(p.width, p.height, max as nat) {
        None => q == p,
        Some((nw, nh)) => {
            &&& q.valid()
            &&& q.width == nw
            &&& q.height == nh
            &&& q.channels == p.channels
            &&& if p.width == 0 || p.height == 0 {
                forall|k: int| 0 <= k < q.bytes.len() ==> #[trigger] q.bytes[k] == 0
            } else {
                &&& may_resize_to(
                    p.bytes,
                    p.width as u32,
                    p.height as u32,
                    p.channels as u8,
                    nw as u32,
                    nh as u32,
                    q.bytes,
                )
                &&& p.channels == 4 && crate::raster::opaque(p.bytes) && p.width <= 8 * nw
                    && p.height <= 8 * nh ==> crate::raster::opaque(q.bytes)
            }
        },
    }
}

/// The scaled image can be addressed: always where the image has pixels, as it is then no
/// larger than the image itself.
pub open spec fn scalable(p: Picture, max: u32) -> bool {
    (p.width > 0 && p.height > 0) || crate::sizing::at_least_one(max as nat) * p.channels
        <= usize::MAX
}

/// The size of the scaled image can be addressed and, where the image has pixels, is no
/// larger than the image.
proof fn lemma_scaled_size(p: Picture, max: u32)
    requires
        p.valid(),
        p.width <= u32::MAX,
        p.height <= u32::MAX,
        p.bytes.len() <= usize::MAX,
        scalable(p, max),
    ensures
        crate::sizing::fitted(p.width, p.height, max as nat) matches Some((nw, nh)) ==> 1 <= nw
            && 1 <= nh && nw * nh * p.channels <= usize::MAX && (p.width > 0 && p.height > 0 ==> nw
            * nh * p.channels <= p.bytes.len()),
{
    if let Some((nw, nh)) = crate::sizing::fitted(p.width, p.height, max as nat) {
        let c = p.channels as int;
        let most = crate::sizing::at_least_one(max as nat) as int;
        if p.width > 0 && p.height > 0 {
            assert(nw * nh * c <= p.width * p.height * c) by (nonlinear_arith)
                requires
                    nw <= p.width,
                    nh <= p.height,
                    c >= 0,
            {
                assert(nw * nh <= p.width * p.height);
            }
        } else {
            assert(nw * nh * c <= most * c) by (nonlinear_arith)
                requires
                    (nw == 1 && nh <= most) || (nh == 1 && nw <= most),
                    c >= 0,
                    nw >= 0,
                    nh >= 0,
            {
                assert(nw * nh <= most);
            }
        }
    }
}

/// A row of zeros.
fn zeros(len: usize) -> (r: Vec<u8>)
    ensures
        r.len() == len,
        forall|k: int| 0 <= k < len ==> #[trigger] r@[k] == 0,
{
    let mut r: Vec<u8> = Vec::new();
    let mut i: usize = 0;
    while i < len
        invariant
            i <= len,
            r.len() == i,
            forall|k: int| 0 <= k < i ==> #[trigger] r@[k] == 0,
        decreases len - i,
    {
        r.push(0);
        i = i + 1;
    }
    r
}

/// A blank image.
fn blank(width: u32, height: u32, channels: u8) -> (r: Raster)
    requires
        channels > 0,
        width * height * channels <= usize::MAX,
    ensures
        r@.valid(),
        r@.width == width,
        r@.height == height,
        r@.channels == channels,
        forall|k: int| 0 <= k < r@.bytes.len() ==> #[trigger] r@.bytes[k] == 0,
{
    let pixels: u64 = crate::raster::mul_u32(width, height);
    let len: u128 = crate::raster::mul_wide(pixels, channels);
    Raster::from_exact(width, height, channels, zeros(len as usize))
}

/// Shrinks an image of four channels so that both sides are at most `max`, without
/// enlarging anything.
pub fn downscale_to_fit(img: Raster, max: u32) -> (r: Raster)
    requires
        img@.channels == 4,
        scalable(img@, max),
    ensures
        scales_to(img@, max, r@),
        r@.valid(),
{
    let (w, h) = (img.width(), img.height());
    match fit_dims(w, h, max) {
        None => img,
        Some((nw, nh)) => {
            let ghost before = img@;
            let data = img.into_data();
            assert(data.len() == before.bytes.len());
            proof {
                lemma_scaled_size(before, max);
            }
            if w == 0 || h == 0 {
                return blank(nw, nh, 4);
            }
            Raster::from_exact(nw, nh, 4, resize_u8x4(data, w, h, nw, nh))
        },
    }
}

/// Shrinks an image of three channels so that both sides are at most `max`, without
/// enlarging anything.
pub fn downscale_rgb_to_fit(img: Raster, max: u32) -> (r: Raster)
    requires
        img@.channels == 3,
        scalable(img@, max),
    ensures
        scales_to(img@, max, r@),
        r@.valid(),
{
    let (w, h) = (img.width(), img.height());
    match fit_dims(w, h, max) {
        None => img,
        Some((nw, nh)) => {
            let ghost before = img@;
            let data = img.into_data();
            assert(data.len() == before.bytes.len());
            proof {
                lemma_scaled_size(before, max);
            }
            if w == 0 || h == 0 {
                return blank(nw, nh, 3);
            }
            Raster::from_exact(nw, nh, 3, resize_u8x3(data, w, h, nw, nh))
        },
    }
}

/// The orientation to apply: 1, which changes nothing, where there is none.
pub open spec fn orientation_or_default(orientation: Option<u16>) -> u16 {
    match orientation {
        Some(o) => o,
        None => 1,
    }
}

/// The image brought upright.
pub open spec fn brought_upright(
    p: Picture,
    orientation: Option<u16>,
) -> Picture {
    crate::raster::oriented(p, orientation_or_default(orientation))
}

/// The decoded image may be shown as this: upright, within `max`, in RGBA.
pub open spec fn displays_as(
    p: Picture,
    orientation: Option<u16>,
    max: u32,
    out: Picture,
) -> bool {
    exists|small: Picture| #[trigger]
        scales_to(brought_upright(p, orientation), max, small) && out == in_rgba(small)
}

/// The number of pixels of the image once it is within `max`.
pub open spec fn pixels_within(p: Picture, max: u32) -> nat {
    match crate::sizing::fitted(p.width, p.height, max as nat) {
        Some((nw, nh)) => nw * nh,
        None => p.width * p.height,
    }
}

/// Showing the decoded image would take more bytes than can be addressed.
pub open spec fn too_large(
    p: Picture,
    orientation: Option<u16>,
    max: u32,
) -> bool {
    let up = brought_upright(p, orientation);
    !scalable(up, max) || (p.channels == 3 && pixels_within(up, max) * 4 > usize::MAX)
}

/// Brings a decoded image upright, shrinks it so that both sides are at most `max`, and
/// hands it out in RGBA. The alpha channel is added last, so that no large RGBA buffer is
/// made for an image without one. `None` if the result could not be addressed.
pub fn display_decoded(img: Raster, orientation: Option<u16>, max: u32) -> (r: Option<Raster>)
    requires
        img@.channels == 3 || img@.channels == 4,
    ensures
        img@.valid(),
        r is None <==> too_large(img@, orientation, max),
        r matches Some(out) ==> displays_as(img@, orientation, max, out@) && out@.valid()
            && out@.channels == 4,
{
    let orientation: u16 = match orientation {
        Some(o) => o,
        None => 1,
    };
    let up = apply_orientation(img, orientation);
    let rgb: bool = up.channels() == 3;
    if up.width() == 0 || up.height() == 0 {
        let most: u32 = if max == 0 {
            1
        } else {
            max
        };
        let len: u128 = crate::raster::mul_wide(most as u64, up.channels());
        if len > usize::MAX as u128 {
            return None;
        }
    }
    let small = if rgb {
        downscale_rgb_to_fit(up, max)
    } else {
        downscale_to_fit(up, max)
    };
    into_rgba8(small)
}

/// Decodes the bytes of an image file, normalizes the EXIF orientation and shrinks the
/// image so that both sides are at most `max`.
pub fn display_image(bytes: &[u8], max: u32) -> (r: Result<Raster, DecodeError>)
    ensures
        match r {
            Ok(out) => {
                &&& out@.valid()
                &&& out@.channels == 4
                &&& exists|alpha: bool, p: Picture| #[trigger]
                    decodes_to(bytes@, alpha, p) && displays_as(
                        p,
                        valid_orientation(exif_orientation(bytes@)),
                        max,
                        out@,
                    )
            },
            Err(DecodeError::Image(_)) => may_decode_to(bytes@, None),
            Err(DecodeError::TooLarge) => exists|alpha: bool, p: Picture| #[trigger]
                decodes_to(bytes@, alpha, p) && too_large(
                    p,
                    valid_orientation(exif_orientation(bytes@)),
                    max,
                ),
        },
{
    let orientation = orientation_from_bytes(bytes);
    match decode_bytes(bytes) {
        Err(e) => Err(e),
        Ok((img, _)) => match display_decoded(img, orientation, max) {
            Some(out) => Ok(out),
            None => Err(DecodeError::TooLarge),
        },
    }
}

/// What is shown of an image is in RGBA and within the limit on both sides, and no side of
/// an image with pixels is longer than it was upright.
pub proof fn law_display_is_within_the_limit(
    p: Picture,
    orientation: Option<u16>,
    max: u32,
    out: Picture,
)
    requires
        p.valid(),
        p.channels == 3 || p.channels == 4,
        p.width <= u32::MAX,
        p.height <= u32::MAX,
        max >= 1,
        displays_as(p, orientation, max, out),
    ensures
        out.channels == 4,
        out.width <= max,
        out.height <= max,
        p.width >= 1 && p.height >= 1 ==> {
            &&& 1 <= out.width <= brought_upright(p, orientation).width
            &&& 1 <= out.height <= brought_upright(p, orientation).height
        },
{
    let up = brought_upright(p, orientation);
    if up.width > max || up.height > max {
        crate::proportions::law_fit_shrinks_within_the_limit(
            up.width as u32,
            up.height as u32,
            max,
        );
    }
}

/// An image of any kind is shown in the size that fits its upright size within the limit,
/// which is that size itself where it fits already.
pub proof fn law_display_has_the_fitted_size(
    p: Picture,
    orientation: Option<u16>,
    max: u32,
    out: Picture,
)
    requires
        displays_as(p, orientation, max, out),
    ensures
        ({
            let (w, h) = if 5 <= orientation_or_default(orientation) <= 8 {
                (p.height, p.width)
            } else {
                (p.width, p.height)
            };
            (out.width, out.height) == match crate::sizing::fitted(w, h, max as nat) {
                Some(size) => size,
                None => (w, h),
            }
        }),
{
}

/// An image with pixels whose bytes in RGBA can be addressed is never too large to be shown.
pub proof fn law_addressable_images_are_shown(p: Picture, orientation: Option<u16>, max: u32)
    requires
        p.width >= 1,
        p.height >= 1,
        p.width * p.height * 4 <= usize::MAX,
    ensures
        !too_large(p, orientation, max),
{
    let up = brought_upright(p, orientation);
    assert(up.width * up.height == p.width * p.height) by (nonlinear_arith)
        requires
            (up.width == p.width && up.height == p.height) || (up.width == p.height && up.height
                == p.width),
    ;
    if let Some((nw, nh)) = crate::sizing::fitted(up.width, up.height, max as nat) {
        assert(nw * nh <= up.width * up.height) by (nonlinear_arith)
            requires
                nw <= up.width,
                nh <= up.height,
        ;
    }
}

/// An image that is larger than the limit is shown with its longer side exactly at the
/// limit.
pub proof fn law_display_uses_up_the_limit(
    p: Picture,
    orientation: Option<u16>,
    max: u32,
    out: Picture,
)
    requires
        p.width <= u32::MAX,
        p.height <= u32::MAX,
        1 <= max < 0x80_0000,
        p.width > max || p.height > max,
        displays_as(p, orientation, max, out),
    ensures
        ({
            let up = brought_upright(p, orientation);
            &&& up.width >= up.height ==> out.width == max
            &&& up.height >= up.width ==> out.height == max
        }),
{
    let up = brought_upright(p, orientation);
    crate::proportions::law_fit_uses_up_the_limit(up.width as u32, up.height as u32, max);
}

/// An image within the limit keeps its pixels: it is only brought upright and given an
/// alpha channel, in whichever order.
pub proof fn law_display_keeps_small_images(
    p: Picture,
    orientation: Option<u16>,
    max: u32,
    out: Picture,
)
    requires
        p.valid(),
        p.channels == 3 || p.channels == 4,
        p.width <= max,
        p.height <= max,
        displays_as(p, orientation, max, out),
    ensures
        out == in_rgba(brought_upright(p, orientation)),
        out == brought_upright(in_rgba(p), orientation),
{
    if let Some(s) = crate::raster::upright(orientation_or_default(orientation)) {
        crate::raster::law_alpha_commutes_with_symmetries(p, s);
    }
}

/// The image is scaled down to an eighth on each side at most.
pub open spec fn moderately_scaled(p: Picture, max: u32) -> bool {
    match crate::sizing::fitted(p.width, p.height, max as nat) {
        Some((nw, nh)) => p.width <= 8 * nw && p.height <= 8 * nh,
        None => true,
    }
}

/// A file without an alpha channel is decoded to opaque pixels, whatever its colors are.
pub proof fn law_decoded_without_alpha_is_opaque(bytes: Seq<u8>, p: Picture)
    requires
        decodes_to(bytes, false, p),
    ensures
        in_rgba(p).channels == 4,
        crate::raster::opaque(in_rgba(p).bytes),
{
    crate::raster::law_opaque_pixels_stay_opaque(p, crate::raster::Symmetry::half());
}

/// An image of three channels is shown opaque, and so is one of opaque RGBA pixels that is
/// scaled down to an eighth on each side at most.
pub proof fn law_opaque_images_are_shown_opaque(
    p: Picture,
    orientation: Option<u16>,
    max: u32,
    out: Picture,
    x: int,
    y: int,
)
    requires
        p.valid(),
        p.channels == 3 || (p.channels == 4 && crate::raster::opaque(p.bytes) && p.width >= 1
            && p.height >= 1 && moderately_scaled(brought_upright(p, orientation), max)),
        displays_as(p, orientation, max, out),
        0 <= x < out.width,
        0 <= y < out.height,
    ensures
        out.at(x, y, 3) == 255,
{
    let up = brought_upright(p, orientation);
    let small = choose|small: Picture| #[trigger]
        scales_to(up, max, small) && out == in_rgba(small);
    assert(up.valid()) by {
        crate::raster::law_orientation_keeps_valid(p, orientation_or_default(orientation));
    }
    if p.channels == 3 {
        crate::raster::law_alpha_keeps_colors(small, x, y, 3);
    } else {
        if let Some(s) = crate::raster::upright(orientation_or_default(orientation)) {
            crate::raster::law_opaque_pixels_stay_opaque(p, s);
        }
        assert(crate::raster::opaque(up.bytes));
        crate::raster::law_opaque_pixels_stay_opaque(small, crate::raster::Symmetry::half());
        assert(small.has(x, y, 3));
    }
}

/// A file without an alpha channel is shown opaque: always if it is RGB, else if it has
/// pixels and is scaled down to an eighth on each side at most.
pub proof fn law_display_without_alpha_is_opaque(
    bytes: Seq<u8>,
    p: Picture,
    orientation: Option<u16>,
    max: u32,
    out: Picture,
    x: int,
    y: int,
)
    requires
        decodes_to(bytes, false, p),
        p.channels == 3 || (p.width >= 1 && p.height >= 1 && moderately_scaled(
            brought_upright(p, orientation),
            max,
        )),
        displays_as(p, orientation, max, out),
        0 <= x < out.width,
        0 <= y < out.height,
    ensures
        out.at(x, y, 3) == 255,
{
    law_opaque_images_are_shown_opaque(p, orientation, max, out, x, y);
}

/// A number read from EXIF is an orientation exactly if it is one of 1 to 8, and then it is
/// that number.
pub proof fn law_orientations_are_one_to_eight(value: Option<u32>, r: Option<u16>)
    requires
        call_ensures(orientation_from_value, (value,), r),
    ensures
        r is Some <==> value is Some && 1 <= value->0 <= 8,
        r is Some ==> r->0 as int == value->0 as int,
{
}

/// The orientation that a file has is the one that its bytes hold; a file that cannot be read
/// has none.
pub proof fn law_orientation_is_that_of_the_bytes(
    bytes: &[u8],
    r: Option<u16>,
    contents: Option<&Vec<u8>>,
    of_file: Option<u16>,
)
    requires
        call_ensures(orientation_from_bytes, (bytes,), r),
        call_ensures(read_orientation, (contents,), of_file),
    ensures
        r is Some <==> exif_orientation(bytes@) is Some && 1 <= exif_orientation(bytes@)->0 <= 8,
        r is Some ==> r->0 as int == exif_orientation(bytes@)->0 as int,
        contents is None ==> of_file is None,
        contents matches Some(v) && v@ == bytes@ ==> of_file == r,
{
}

/// A decoded image has the width, height, channels and bytes that decoding gave.
pub proof fn law_decoded_is_what_decoding_gave(bytes: Seq<u8>, alpha: bool, p: Picture)
    requires
        decodes_to(bytes, alpha, p),
    ensures
        p.valid(),
        exists|w: u32, h: u32, c: u8| #[trigger]
            may_decode_to(bytes, Some((w, h, c, alpha, p.bytes))) && p.width == w && p.height == h
                && p.channels == c && (c == 3 || c == 4),
{
}

/// The pixel of the upright image is the one that the orientation says.
pub open spec fn upright_pixel(
    p: Picture,
    orientation: int,
    up: Seq<u8>,
    up_width: int,
    x: int,
    y: int,
    channel: int,
) -> bool {
    let (w, h, c) = (p.width as int, p.height as int, p.channels as int);
    let (sx, sy) = crate::raster::upright_source(orientation, w, h, x, y);
    crate::raster::pixel_byte(up, up_width, c, x, y, channel) == crate::raster::pixel_byte(
        p.bytes,
        w,
        c,
        sx,
        sy,
        channel,
    )
}

/// These are the bytes of the image once it is upright, in this width and height.
pub open spec fn upright_bytes(
    p: Picture,
    orientation: Option<u16>,
    up: Seq<u8>,
    up_width: int,
    up_height: int,
) -> bool {
    let turn = match orientation {
        Some(o) => o as int,
        None => 1,
    };
    &&& (up_width, up_height) == if 5 <= turn <= 8 {
        (p.height as int, p.width as int)
    } else {
        (p.width as int, p.height as int)
    }
    &&& up.len() == p.bytes.len()
    &&& !(2 <= turn <= 8) ==> up == p.bytes
    &&& forall|x: int, y: int, channel: int|
        0 <= x < up_width && 0 <= y < up_height && 0 <= channel < p.channels
            ==> #[trigger] upright_pixel(p, turn, up, up_width, x, y, channel)
}

/// The pixel of four bytes is that of three, and opaque.
pub open spec fn opaque_pixel(rgb: Seq<u8>, rgba: Seq<u8>, pixel: int) -> bool {
    &&& rgba[4 * pixel] == rgb[3 * pixel]
    &&& rgba[4 * pixel + 1] == rgb[3 * pixel + 1]
    &&& rgba[4 * pixel + 2] == rgb[3 * pixel + 2]
    &&& rgba[4 * pixel + 3] == 255
}

/// The bytes in RGBA of so many pixels in three or four channels: those of four are as they
/// are, those of three get an opaque alpha channel.
pub open spec fn rgba_bytes(bytes: Seq<u8>, channels: int, pixels: int, rgba: Seq<u8>) -> bool {
    &&& rgba.len() == 4 * pixels
    &&& channels == 4 ==> rgba == bytes
    &&& channels == 3 ==> forall|pixel: int|
        0 <= pixel < pixels ==> #[trigger] opaque_pixel(bytes, rgba, pixel)
}

proof fn lemma_in_rgba(p: Picture)
    requires
        p.valid(),
        p.channels == 3 || p.channels == 4,
    ensures
        in_rgba(p).width == p.width,
        in_rgba(p).height == p.height,
        in_rgba(p).channels == 4,
        rgba_bytes(
            p.bytes,
            p.channels as int,
            (p.width * p.height) as int,
            in_rgba(p).bytes,
        ),
{
    let n = (p.width * p.height) as int;
    assert(p.width * p.height * 4 == 4 * n);
    if p.channels == 3 {
        assert(p.width * p.height * (p.channels + 1) == 4 * n) by (nonlinear_arith)
            requires
                p.channels == 3,
                n == p.width * p.height,
        ;
        assert forall|pixel: int| 0 <= pixel < n implies #[trigger] opaque_pixel(
            p.bytes,
            in_rgba(p).bytes,
            pixel,
        ) by {
            crate::raster::law_alpha_bytes(p, pixel);
        }
    }
}

proof fn lemma_upright_bytes(p: Picture, orientation: Option<u16>)
    requires
        p.valid(),
    ensures
        ({
            let up = brought_upright(p, orientation);
            &&& up.valid()
            &&& up.channels == p.channels
            &&& upright_bytes(p, orientation, up.bytes, up.width as int, up.height as int)
        }),
{
    let up = brought_upright(p, orientation);
    let o: u16 = if orientation is Some {
        orientation->0
    } else {
        1
    };
    crate::raster::law_orientation_keeps_valid(p, o);
    crate::raster::law_oriented_size(p, o);
    assert forall|x: int, y: int, channel: int|
        0 <= x < up.width && 0 <= y < up.height && 0 <= channel < p.channels implies
        #[trigger] upright_pixel(p, o as int, up.bytes, up.width as int, x, y, channel) by {
        crate::raster::law_oriented_pixels(p, o, x, y, channel);
    }
}

/// An image within the limit is shown with its own pixels: upright as its orientation says, or
/// as they are where it has none, and in RGBA.
pub proof fn law_small_images_are_shown_as_they_are(
    p: Picture,
    orientation: Option<u16>,
    max: u32,
    out: Picture,
)
    requires
        p.valid(),
        p.channels == 3 || p.channels == 4,
        p.width <= max,
        p.height <= max,
        displays_as(p, orientation, max, out),
    ensures
        out.channels == 4,
        exists|up: Seq<u8>|
            #[trigger] upright_bytes(
                p,
                orientation,
                up,
                out.width as int,
                out.height as int,
            ) && rgba_bytes(
                up,
                p.channels as int,
                (out.width * out.height) as int,
                out.bytes,
            ),
        orientation is None ==> {
            &&& out.width == p.width
            &&& out.height == p.height
            &&& rgba_bytes(
                p.bytes,
                p.channels as int,
                (p.width * p.height) as int,
                out.bytes,
            )
        },
{
    let up = brought_upright(p, orientation);
    lemma_upright_bytes(p, orientation);
    lemma_in_rgba(up);
}

/// An image above the limit is shown as what resizing its own pixels gives: upright as its
/// orientation says, or as they are where it has none, from its own size to that of what is
/// shown; the alpha channel of an image without one is added last.
pub proof fn law_large_images_are_shown_resized(
    p: Picture,
    orientation: Option<u16>,
    max: u32,
    out: Picture,
)
    requires
        p.valid(),
        p.channels == 3 || p.channels == 4,
        1 <= p.width <= u32::MAX,
        1 <= p.height <= u32::MAX,
        p.width > max || p.height > max,
        displays_as(p, orientation, max, out),
    ensures
        out.channels == 4,
        exists|up: Seq<u8>, w: u32, h: u32, c: u8, nw: u32, nh: u32, small: Seq<u8>|
            {
                &&& #[trigger] may_resize_to(up, w, h, c, nw, nh, small)
                &&& upright_bytes(p, orientation, up, w as int, h as int)
                &&& c == p.channels
                &&& out.width == nw
                &&& out.height == nh
                &&& rgba_bytes(small, p.channels as int, nw * nh, out.bytes)
            },
        orientation is None ==> exists|w: u32, h: u32, c: u8, nw: u32, nh: u32, small: Seq<u8>|
            {
                &&& #[trigger] may_resize_to(p.bytes, w, h, c, nw, nh, small)
                &&& w == p.width
                &&& h == p.height
                &&& c == p.channels
                &&& out.width == nw
                &&& out.height == nh
                &&& rgba_bytes(small, p.channels as int, nw * nh, out.bytes)
            },
{
    let up = brought_upright(p, orientation);
    lemma_upright_bytes(p, orientation);
    let small = choose|small: Picture| #[trigger]
        scales_to(up, max, small) && out == in_rgba(small);
    lemma_in_rgba(small);
    let (nw, nh) = crate::sizing::fitted(up.width, up.height, max as nat)->0;
    crate::proportions::lemma_fitted_in_range(up.width as u32, up.height as u32, max);
    assert(may_resize_to(
        up.bytes,
        up.width as u32,
        up.height as u32,
        p.channels as u8,
        nw as u32,
        nh as u32,
        small.bytes,
    ));
}

/// Scaling down keeps an image within the limit as it is, and resizes the bytes of any other
/// in the order they have, from its width and height to those of the result, which are within
/// the limit, and not less than a pixel. An image without pixels above the limit becomes blank.
pub proof fn law_scaling_keeps_the_picture(
    img: Raster,
    max: u32,
    r: Raster,
)
    requires
        call_ensures(downscale_to_fit, (img, max), r) && img@.channels == 4 || call_ensures(
            downscale_rgb_to_fit,
            (img, max),
            r,
        ) && img@.channels == 3,
        img@.width <= u32::MAX,
        img@.height <= u32::MAX,
    ensures
        r@.channels == img@.channels,
        img@.width <= max && img@.height <= max ==> r@ == img@,
        (img@.width > max || img@.height > max) && img@.width >= 1 && img@.height >= 1 ==> {
            &&& may_resize_to(
                img@.bytes,
                img@.width as u32,
                img@.height as u32,
                img@.channels as u8,
                r@.width as u32,
                r@.height as u32,
                r@.bytes,
            )
            &&& 1 <= r@.width <= img@.width
            &&& 1 <= r@.height <= img@.height
            &&& max >= 1 ==> r@.width <= max && r@.height <= max
        },
        (img@.width > max || img@.height > max) && (img@.width == 0 || img@.height == 0)
            ==> forall|k: int| 0 <= k < r@.bytes.len() ==> #[trigger] r@.bytes[k] == 0,
{
    if img@.width > max || img@.height > max {
        crate::proportions::lemma_fitted_in_range(
            img@.width as u32,
            img@.height as u32,
            max,
        );
        if max >= 1 {
            crate::proportions::law_fit_shrinks_within_the_limit(
                img@.width as u32,
                img@.height as u32,
                max,
            );
        }
    }
}

/// Scaling an image that is larger than the limit resizes the bytes that it has, in the order
/// they have.
pub proof fn law_scaling_resizes_the_bytes_there_are(p: Picture, max: u32, q: Picture)
    requires
        1 <= p.width <= u32::MAX,
        1 <= p.height <= u32::MAX,
        p.width > max || p.height > max,
        scales_to(p, max, q),
    ensures
        q.channels == p.channels,
        may_resize_to(
            p.bytes,
            p.width as u32,
            p.height as u32,
            p.channels as u8,
            q.width as u32,
            q.height as u32,
            q.bytes,
        ),
{
}

/// What becomes of a decoded image: it is refused only if its bytes in RGBA could not be
/// addressed, or, where it has no pixels, those of a row as long as the limit; else it is shown.
pub proof fn law_decoded_images_are_shown(
    img: Raster,
    orientation: Option<u16>,
    max: u32,
    r: Option<Raster>,
)
    requires
        call_ensures(display_decoded, (img, orientation, max), r),
        img@.channels == 3 || img@.channels == 4,
    ensures
        r is None ==> img@.width * img@.height * 4 > usize::MAX || ((img@.width == 0 || img@.height
            == 0) && 4 * max > usize::MAX),
        r matches Some(out) ==> displays_as(img@, orientation, max, out@) && out@.channels == 4
            && out@.valid(),
{
    if img@.width * img@.height * 4 <= usize::MAX {
        if img@.width >= 1 && img@.height >= 1 {
            law_addressable_images_are_shown(img@, orientation, max);
        } else if 4 * max <= usize::MAX {
            lemma_empty_images_are_shown(img@, orientation, max);
        }
    }
}

proof fn lemma_empty_images_are_shown(p: Picture, orientation: Option<u16>, max: u32)
    requires
        p.channels == 3 || p.channels == 4,
        p.width == 0 || p.height == 0,
        4 * max <= usize::MAX,
    ensures
        !too_large(p, orientation, max),
{
    let up = brought_upright(p, orientation);
    assert(up.width * up.height == 0) by (nonlinear_arith)
        requires
            up.width == 0 || up.height == 0,
    ;
    if let Some((nw, nh)) = crate::sizing::fitted(up.width, up.height, max as nat) {
        let most = crate::sizing::at_least_one(max as nat);
        assert(nw * nh <= most) by (nonlinear_arith)
            requires
                (nw == 1 && nh <= most) || (nh == 1 && nw <= most),
        ;
    }
    assert(crate::sizing::at_least_one(max as nat) * p.channels <= usize::MAX) by {
        let most = crate::sizing::at_least_one(max as nat);
        assert(most * p.channels <= 4 * most) by (nonlinear_arith)
            requires
                p.channels <= 4,
        ;
    }
}

/// Every decoded image can be handed over to be shown, and every one with pixels to be scaled
/// down.
pub proof fn law_every_image_is_accepted(
    img: Raster,
    orientation: Option<u16>,
    max: u32,
    value: Option<u32>,
    bytes: &[u8],
)
    requires
        img@.channels == 3 || img@.channels == 4,
    ensures
        call_requires(display_decoded, (img, orientation, max)),
        img@.channels == 4 && img@.width >= 1 && img@.height >= 1 ==> call_requires(
            downscale_to_fit,
            (img, max),
        ),
        img@.channels == 3 && img@.width >= 1 && img@.height >= 1 ==> call_requires(
            downscale_rgb_to_fit,
            (img, max),
        ),
        call_requires(orientation_from_value, (value,)),
        call_requires(orientation_from_bytes, (bytes,)),
        call_requires(decode_to_rgba8, (bytes,)),
        call_requires(display_image, (bytes, max)),
{
}

/// What becomes of a file: what is shown is an image that its bytes decode to, by the
/// orientation that they hold if that is one of 1 to 8, and by none otherwise. It is an error
/// only if the bytes do not decode or the image is too large.
pub proof fn law_files_are_shown(bytes: &[u8], max: u32, r: Result<Raster, DecodeError>)
    requires
        call_ensures(display_image, (bytes, max), r),
    ensures
        r matches Ok(out) ==> exists|alpha: bool, p: Picture, orientation: Option<u16>|
            #![trigger decodes_to(bytes@, alpha, p), displays_as(p, orientation, max, out@)]
            {
                &&& decodes_to(bytes@, alpha, p)
                &&& displays_as(p, orientation, max, out@)
                &&& orientation is Some <==> exif_orientation(bytes@) is Some && 1
                    <= exif_orientation(bytes@)->0 <= 8
                &&& orientation is Some ==> orientation->0 as int == exif_orientation(
                    bytes@,
                )->0 as int
            },
        r matches Err(DecodeError::Image(_)) ==> may_decode_to(bytes@, None),
        r matches Err(DecodeError::TooLarge) ==> exists|alpha: bool, p: Picture| #[trigger]
            decodes_to(bytes@, alpha, p) && (p.width * p.height * 4 > usize::MAX || ((p.width == 0
                || p.height == 0) && 4 * max > usize::MAX)),
{
    let orientation = valid_orientation(exif_orientation(bytes@));
    if let Ok(out) = r {
        let (alpha, p) = choose|alpha: bool, p: Picture| #[trigger]
            decodes_to(bytes@, alpha, p) && displays_as(p, orientation, max, out@);
        assert(decodes_to(bytes@, alpha, p) && displays_as(p, orientation, max, out@));
    }
    if let Err(DecodeError::TooLarge) = r {
        let (alpha, p) = choose|alpha: bool, p: Picture| #[trigger]
            decodes_to(bytes@, alpha, p) && too_large(p, orientation, max);
        if p.width * p.height * 4 <= usize::MAX {
            if p.width >= 1 && p.height >= 1 {
                law_addressable_images_are_shown(p, orientation, max);
            } else if 4 * max <= usize::MAX {
                lemma_empty_images_are_shown(p, orientation, max);
            }
        }
        assert(decodes_to(bytes@, alpha, p));
    }
}

/// What becomes of a file that is decoded whole: an image that its bytes decode to, in its own
/// size and with its own pixels in RGBA.
pub proof fn law_files_are_decoded(bytes: &[u8], r: Result<Raster, DecodeError>)
    requires
        call_ensures(decode_to_rgba8, (bytes,), r),
    ensures
        r matches Ok(out) ==> out@.channels == 4 && exists|alpha: bool, p: Picture|
            #![trigger decodes_to(bytes@, alpha, p)]
            {
                &&& decodes_to(bytes@, alpha, p)
                &&& out@.width == p.width
                &&& out@.height == p.height
                &&& rgba_bytes(
                    p.bytes,
                    p.channels as int,
                    (p.width * p.height) as int,
                    out@.bytes,
                )
            },
        r matches Err(DecodeError::Image(_)) ==> may_decode_to(bytes@, None),
        r matches Err(DecodeError::TooLarge) ==> exists|alpha: bool, p: Picture| #[trigger]
            decodes_to(bytes@, alpha, p) && p.width * p.height * 4 > usize::MAX,
{
    if let Ok(out) = r {
        let (alpha, p) = choose|alpha: bool, p: Picture| #[trigger]
            decodes_to(bytes@, alpha, p) && out@ == in_rgba(p);
        lemma_in_rgba(p);
        assert(decodes_to(bytes@, alpha, p));
    }
}

} // verus!
