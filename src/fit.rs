//! Fitting a screenshot to a target size: scale to cover, then crop.
use vstd::prelude::*;
use crate::raster::{Image, byte_index, lemma_byte_index_bounds};

verus! {

/// The size an `ow` by `oh` image is scaled to so that it covers `tw` by `th`
/// while keeping its aspect ratio: a relatively wider image takes the target
/// height, any other the target width; the free side is truncated.
pub open spec fn fit_size(ow: int, oh: int, tw: int, th: int) -> (int, int) {
    if ow * th > tw * oh {
        (th * ow / oh, th)
    } else {
        (tw, tw * oh / ow)
    }
}

/// What `image::imageops::resize` with the Lanczos3 filter makes of the RGBA
/// bytes `src` of a `w` by `h` image when asked for `nw` by `nh`.
pub uninterp spec fn lanczos_resized(src: Seq<u8>, w: u32, h: u32, nw: u32, nh: u32) -> Seq<u8>;

/// Relies on `image::imageops::resize` with `FilterType::Lanczos3`: the result
/// is `nw` by `nh` RGBA and depends on the source bytes and sizes alone. It
/// allocates the result and a `width` by `nh` buffer of four `f32` per pixel.
#[verifier::external_body]
fn resize_lanczos(img: &Image, nw: u32, nh: u32) -> (r: Image)
    requires
        img.wf(),
        4 * (nw as int * nh as int) <= isize::MAX,
        16 * (img.width as int * nh as int) <= isize::MAX,
    ensures
        r.wf(),
        r.width == nw,
        r.height == nh,
        r.data@ == lanczos_resized(img.data@, img.width, img.height, nw, nh),
{
    let src = image::RgbaImage::from_raw(img.width, img.height, img.data.clone()).unwrap();
    let out = image::imageops::resize(&src, nw, nh, image::imageops::FilterType::Lanczos3);
    Image { width: nw, height: nh, data: out.into_raw() }
}

/// The size that covers `target_w` by `target_h` with the aspect ratio of an
/// `overlay_w` by `overlay_h` image.
pub fn scaled_size(overlay_w: u32, overlay_h: u32, target_w: u32, target_h: u32) -> (r: (u64, u64))
    requires
        overlay_w > 0,
        overlay_h > 0,
    ensures
        (r.0 as int, r.1 as int) == fit_size(
            overlay_w as int,
            overlay_h as int,
            target_w as int,
            target_h as int,
        ),
{
    let (ow, oh, tw, th) = (overlay_w as u64, overlay_h as u64, target_w as u64, target_h as u64);
    proof {
        assert(ow * th <= 0xffff_ffff * 0xffff_ffff) by (nonlinear_arith)
            requires ow <= 0xffff_ffff, th <= 0xffff_ffff;
        assert(tw * oh <= 0xffff_ffff * 0xffff_ffff) by (nonlinear_arith)
            requires tw <= 0xffff_ffff, oh <= 0xffff_ffff;
    }
    if ow * th > tw * oh {
        (th * ow / oh, th)
    } else {
        (tw, tw * oh / ow)
    }
}

/// An image of the given size with every byte zero.
pub fn blank(width: u32, height: u32) -> (r: Image)
    requires
        4 * (width as int * height as int) <= usize::MAX,
    ensures
        r.wf(),
        r.width == width,
        r.height == height,
        forall|i: int| 0 <= i < r.data@.len() ==> r.data@[i] == 0,
{
    let n: usize = 4 * (width as usize * height as usize);
    let mut data: Vec<u8> = Vec::new();
    while data.len() < n
        invariant
            data@.len() <= n,
            forall|i: int| 0 <= i < data@.len() ==> data@[i] == 0,
        decreases n - data@.len(),
    {
        data.push(0);
    }
    Image { width, height, data }
}

/// The top-left `w` by `h` part of the image.
pub fn crop_top_left(img: &Image, w: u32, h: u32) -> (r: Image)
    requires
        img.wf(),
        w <= img.width,
        h <= img.height,
    ensures
        r.wf(),
        r.width == w,
        r.height == h,
        forall|x: int, y: int, c: int|
            0 <= x < w && 0 <= y < h && 0 <= c < 4 ==> #[trigger] r.px(x, y, c) == img.px(x, y, c),
{
    proof {
        assert(w as int * h as int <= img.width as int * img.height as int) by (nonlinear_arith)
            requires w <= img.width, h <= img.height;
        assert(img.data.len() == img.data@.len());
    }
    let mut out = blank(w, h);
    let mut y: u32 = 0;
    while y < h
        invariant
            img.wf(),
            w <= img.width,
            h <= img.height,
            y <= h,
            out.wf(),
            out.width == w,
            out.height == h,
            forall|px: int, py: int, c: int|
                0 <= px < w && 0 <= py < y && 0 <= c < 4 ==> #[trigger] out.px(px, py, c) == img.px(
                    px,
                    py,
                    c,
                ),
        decreases h - y,
    {
        let mut x: u32 = 0;
        while x < w
            invariant
                img.wf(),
                w <= img.width,
                h <= img.height,
                y < h,
                x <= w,
                out.wf(),
                out.width == w,
                out.height == h,
                forall|px: int, py: int, c: int|
                    0 <= px < w && 0 <= c < 4 && (0 <= py < y || (py == y && px < x))
                        ==> #[trigger] out.px(px, py, c) == img.px(px, py, c),
            decreases w - x,
        {
            let mut c: usize = 0;
            while c < 4
                invariant
                    img.wf(),
                    w <= img.width,
                    h <= img.height,
                    y < h,
                    x < w,
                    c <= 4,
                    out.wf(),
                    out.width == w,
                    out.height == h,
                    forall|px: int, py: int, cc: int|
                        0 <= px < w && 0 <= cc < 4 && (0 <= py < y || (py == y && px < x) || (py
                            == y && px == x && cc < c)) ==> #[trigger] out.px(px, py, cc) == img.px(
                            px,
                            py,
                            cc,
                        ),
                decreases 4 - c,
            {
                let v = img.channel(x, y, c);
                out.set_channel(x, y, c, v);
                c += 1;
            }
            x += 1;
        }
        y += 1;
    }
    out
}

/// `f` is `overlay` fitted to `tw` by `th`: the top-left part of the overlay
/// scaled to cover that size.
pub open spec fn is_fit_of(overlay: Image, tw: int, th: int, f: Image) -> bool {
    let (sw, sh) = fit_size(overlay.width as int, overlay.height as int, tw, th);
    let src = lanczos_resized(overlay.data@, overlay.width, overlay.height, sw as u32, sh as u32);
    f.wf() && f.width == tw && f.height == th && forall|x: int, y: int, c: int|
        0 <= x < tw && 0 <= y < th && 0 <= c < 4 ==> #[trigger] f.px(x, y, c) == src[byte_index(
            sw,
            x,
            y,
            c,
        )]
}

/// The sizes for which `fit` can allocate its images.
pub open spec fn fit_fits(ow: int, oh: int, tw: int, th: int) -> bool {
    let (sw, sh) = fit_size(ow, oh, tw, th);
    sw <= u32::MAX && sh <= u32::MAX && 4 * (sw * sh) <= isize::MAX && 16 * (ow * sh) <= isize::MAX
}

/// Scaling to cover keeps the target inside the scaled image.
proof fn lemma_fit_covers(ow: int, oh: int, tw: int, th: int)
    requires
        ow > 0,
        oh > 0,
        tw >= 0,
        th >= 0,
    ensures
        fit_size(ow, oh, tw, th).0 >= tw,
        fit_size(ow, oh, tw, th).1 >= th,
{
    if ow * th > tw * oh {
        assert(th * ow / oh >= tw) by (nonlinear_arith)
            requires ow * th > tw * oh, oh > 0, tw >= 0;
    } else {
        assert(tw * oh / ow >= th) by (nonlinear_arith)
            requires ow * th <= tw * oh, ow > 0, th >= 0;
    }
}

/// Scales the overlay, keeping its aspect ratio, so that it covers `target_w`
/// by `target_h`, then crops it to exactly that size from the top-left corner.
pub fn fit(overlay: &Image, target_w: u32, target_h: u32) -> (r: Image)
    requires
        overlay.wf(),
        overlay.width > 0,
        overlay.height > 0,
        fit_fits(overlay.width as int, overlay.height as int, target_w as int, target_h as int),
    ensures
        r.width == target_w,
        r.height == target_h,
        is_fit_of(*overlay, target_w as int, target_h as int, r),
{
    let (sw, sh) = scaled_size(overlay.width, overlay.height, target_w, target_h);
    proof {
        lemma_fit_covers(overlay.width as int, overlay.height as int, target_w as int, target_h as int);
    }
    let scaled = resize_lanczos(overlay, sw as u32, sh as u32);
    crop_top_left(&scaled, target_w, target_h)
}


/// Fitting never pads: each pixel of the fitted image is the pixel at the same
/// place of the scaled overlay, which is at least as large as the target.
pub proof fn lemma_fit_never_pads(overlay: Image, tw: int, th: int, f: Image, x: int, y: int, c: int)
    requires
        overlay.width > 0,
        overlay.height > 0,
        tw >= 0,
        th >= 0,
        is_fit_of(overlay, tw, th, f),
        0 <= x < tw,
        0 <= y < th,
        0 <= c < 4,
    ensures
        ({
            let (sw, sh) = fit_size(overlay.width as int, overlay.height as int, tw, th);
            &&& sw >= tw
            &&& sh >= th
            &&& f.px(x, y, c) == lanczos_resized(
                overlay.data@,
                overlay.width,
                overlay.height,
                sw as u32,
                sh as u32,
            )[byte_index(sw, x, y, c)]
            &&& 0 <= byte_index(sw, x, y, c) < 4 * (sw * sh)
        }),
{
    lemma_fit_covers(overlay.width as int, overlay.height as int, tw, th);
    let (sw, sh) = fit_size(overlay.width as int, overlay.height as int, tw, th);
    lemma_byte_index_bounds(sw, sh, x, y, c);
}

} // verus!
