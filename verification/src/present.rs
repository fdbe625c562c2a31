//! The step from the framebuffer to the display surface: the image is
//! resampled to the size of the surface.

use vstd::prelude::*;
use crate::framebuffer::Framebuffer;

verus! {

/// Most pixels that an image handed to the resampler, or made by it, may
/// have. The resampler's intermediate image takes sixteen bytes per pixel;
/// with this many pixels it is the largest that a vector can hold where a
/// machine word has 32 bits. Frames of 7680 by 4320 and of 15360 by 8640
/// pixels are within the limit.
pub const MAX_RESAMPLE_PIXELS: u64 = 0x7FF_FFFF;

/// Longest side that an image handed to the resampler, or made by it, may
/// have. The resampler places its samples in single precision; up to this
/// length every sample position is told apart from its neighbours, so every
/// output pixel has a sample of positive weight to take its colour from.
pub const MAX_RESAMPLE_SIDE: u32 = 0xFFFF;

/// The image that `image::imageops::resize` with the triangle filter
/// returns for an RGBA image of `width` by `height` pixels and a new size.
pub uninterp spec fn resized(width: u32, height: u32, rgba: Seq<u8>, new_width: u32, new_height: u32) -> Seq<
    u8,
>;

/// Whether an image of one size can be resampled to another: neither is
/// empty, no side is longer than `MAX_RESAMPLE_SIDE`, and neither the
/// result nor the intermediate image, which has the old width and the new
/// height, has more than `MAX_RESAMPLE_PIXELS` pixels.
pub open spec fn can_resample(width: u32, height: u32, new_width: u32, new_height: u32) -> bool {
    &&& 0 < width <= MAX_RESAMPLE_SIDE
    &&& 0 < height <= MAX_RESAMPLE_SIDE
    &&& 0 < new_width <= MAX_RESAMPLE_SIDE
    &&& 0 < new_height <= MAX_RESAMPLE_SIDE
    &&& width * height <= MAX_RESAMPLE_PIXELS
    &&& width * new_height <= MAX_RESAMPLE_PIXELS
    &&& new_width * new_height <= MAX_RESAMPLE_PIXELS
}

/// Calls `image::ImageBuffer::from_raw` and `image::imageops::resize` with
/// `FilterType::Triangle`. The contract names the result, which depends on
/// the arguments alone, and states two things of it: its length, the new
/// width times the new height, four bytes each; and that a new size equal
/// to the old one gives the pixels back as they are, since the outside
/// function then copies in place of resampling. Empty images and sizes
/// above the limits of this module are left out.
#[verifier::external_body]
fn resize_rgba(width: u32, height: u32, rgba: &[u8], new_width: u32, new_height: u32) -> (out: Vec<u8>)
    requires
        can_resample(width, height, new_width, new_height),
        rgba@.len() == width * height * 4,
    ensures
        out@ == resized(width, height, rgba@, new_width, new_height),
        out@.len() == new_width * new_height * 4,
        (new_width == width && new_height == height) ==> out@ == rgba@,
{
    let source = image::ImageBuffer::<image::Rgba<u8>, &[u8]>::from_raw(width, height, rgba);
    match source {
        Some(img) => image::imageops::resize(
            &img,
            new_width,
            new_height,
            image::imageops::FilterType::Triangle,
        ).into_raw(),
        None => Vec::new(),
    }
}

/// Tests `can_resample`.
pub fn check_resample(width: u32, height: u32, new_width: u32, new_height: u32) -> (ok: bool)
    ensures
        ok == can_resample(width, height, new_width, new_height),
{
    if width == 0 || height == 0 || new_width == 0 || new_height == 0 {
        return false;
    }
    if width > MAX_RESAMPLE_SIDE || height > MAX_RESAMPLE_SIDE || new_width > MAX_RESAMPLE_SIDE
        || new_height > MAX_RESAMPLE_SIDE {
        return false;
    }
    assert(width * height <= u64::MAX && width * new_height <= u64::MAX && new_width * new_height
        <= u64::MAX) by (nonlinear_arith)
        requires
            width <= u32::MAX,
            height <= u32::MAX,
            new_width <= u32::MAX,
            new_height <= u32::MAX,
    ;
    (width as u64) * (height as u64) <= MAX_RESAMPLE_PIXELS && (width as u64) * (new_height as u64)
        <= MAX_RESAMPLE_PIXELS && (new_width as u64) * (new_height as u64) <= MAX_RESAMPLE_PIXELS
}

/// The framebuffer resampled to the size of the display surface, tightly
/// packed RGBA; a surface of the framebuffer's own size gets its pixels as
/// they are. `None` exactly when the framebuffer or the surface is empty or
/// one of the images would be above the limits of this module; then there
/// is nothing to draw.
pub fn scale_to_surface(fb: &Framebuffer, surface_width: u32, surface_height: u32) -> (out: Option<
    Vec<u8>,
>)
    requires
        fb.wf(),
    ensures
        match out {
            Some(image) => fb.fits_surface(surface_width, surface_height) && image@ == resized(
                fb@.width as u32,
                fb@.height as u32,
                fb@.pixels,
                surface_width,
                surface_height,
            ) && image@.len() == surface_width * surface_height * 4 && ((surface_width
                == fb@.width && surface_height == fb@.height) ==> image@ == fb@.pixels),
            None => !fb.fits_surface(surface_width, surface_height),
        },
{
    if !check_resample(fb.width(), fb.height(), surface_width, surface_height) {
        return None;
    }
    Some(resize_rgba(fb.width(), fb.height(), fb.pixels(), surface_width, surface_height))
}

} // verus!
