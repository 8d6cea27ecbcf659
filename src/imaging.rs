use vstd::prelude::*;

use crate::raster::{GrayRaster, GrayView, RgbaRaster, RgbaView};

verus! {

/// Intensities that the `image` crate computes for an RGBA image of the given size.
pub uninterp spec fn luma_of(width: u32, height: u32, data: Seq<u8>) -> Seq<u8>;

/// Width, height and RGBA bytes of the `image` crate's thumbnail of an RGBA image that
/// fits within `max_width` by `max_height`.
pub uninterp spec fn thumbnail_of(
    width: u32,
    height: u32,
    data: Seq<u8>,
    max_width: u32,
    max_height: u32,
) -> (u32, u32, Seq<u8>);

/// The luma image of `img`, as the `image` crate computes it.
pub open spec fn luma_view(img: RgbaView) -> GrayView {
    GrayView { width: img.width, height: img.height, pixels: luma_of(img.width, img.height, img.data) }
}

/// The thumbnail of `img` within the bounds, as the `image` crate computes it.
pub open spec fn thumbnail_view(img: RgbaView, max_width: u32, max_height: u32) -> RgbaView {
    let (w, h, d) = thumbnail_of(img.width, img.height, img.data, max_width, max_height);
    RgbaView { width: w, height: h, data: d }
}

/// Relies on `image::DynamicImage::to_luma8`: converts an RGBA8 image to 8-bit luma,
/// one byte per pixel, keeping the image's size.
#[verifier::external_body]
pub(crate) fn to_luma(img: &RgbaRaster) -> (r: GrayRaster)
    requires
        img.wf(),
    ensures
        r.wf(),
        r.width == img.width,
        r.height == img.height,
        r.pixels@ == luma_of(img.width, img.height, img.data@),
{
    let buf = image::RgbaImage::from_raw(img.width, img.height, img.data.clone()).unwrap_or_default();
    let luma = image::DynamicImage::ImageRgba8(buf).to_luma8();
    GrayRaster { width: luma.width(), height: luma.height(), pixels: luma.into_raw() }
}

/// Relies on `image::DynamicImage::thumbnail`: scales an RGBA8 image, keeping its aspect
/// ratio, to a size computed from the bounds, and returns it as RGBA8 again.
#[verifier::external_body]
pub(crate) fn thumbnail(img: &RgbaRaster, max_width: u32, max_height: u32) -> (r: RgbaRaster)
    requires
        img.wf(),
        4 * ((max_width as int + 1) * (max_height as int + 1)) <= usize::MAX,
    ensures
        r.wf(),
        (r.width, r.height, r.data@) == thumbnail_of(
            img.width,
            img.height,
            img.data@,
            max_width,
            max_height,
        ),
{
    let buf = image::RgbaImage::from_raw(img.width, img.height, img.data.clone()).unwrap_or_default();
    let small = image::DynamicImage::ImageRgba8(buf).thumbnail(max_width, max_height).into_rgba8();
    RgbaRaster { width: small.width(), height: small.height(), data: small.into_raw() }
}

} // verus!
