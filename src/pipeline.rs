//! The whole placement: find the screen area, fit the screenshot, blend it in.
use vstd::prelude::*;
use crate::raster::Image;
use crate::region::{FramerError, grid_shape, eligible, marked};
use crate::bounds::seed_of;
use crate::rays::{Strategy, found_by, detect_region};
use crate::fit::{fit, fit_fits, is_fit_of, scaled_size};
use crate::blend::{
    composite, is_composite, lemma_composite_keeps_base, lemma_composite_alpha_grows,
};

verus! {

/// The overlay can be fitted to `tw` by `th` and placed at `(x, y)` on the base.
pub open spec fn overlay_fits(base: Image, overlay: Image, x: int, y: int, tw: int, th: int) -> bool {
    overlay.width > 0 && overlay.height > 0 && tw > 0 && th > 0 && x + tw <= base.width && y + th
        <= base.height && fit_fits(overlay.width as int, overlay.height as int, tw, th)
}

/// Fits the overlay to `target_width` by `target_height` and blends it onto a
/// copy of the base at `(x, y)`, within the mask.
pub fn overlay_image(
    base_img: &Image,
    contiguous_area: &Vec<Vec<bool>>,
    overlay: &Image,
    x: u32,
    y: u32,
    target_width: u32,
    target_height: u32,
) -> (r: Result<Image, FramerError>)
    requires
        base_img.wf(),
        overlay.wf(),
        grid_shape(contiguous_area@, base_img.width as int, base_img.height as int),
    ensures
        r is Ok <==> overlay_fits(
            *base_img,
            *overlay,
            x as int,
            y as int,
            target_width as int,
            target_height as int,
        ),
        r matches Err(e) ==> e is GeometryError,
        r matches Ok(out) ==> exists|f: Image|
            is_fit_of(*overlay, target_width as int, target_height as int, f) && is_composite(
                *base_img,
                contiguous_area@,
                f,
                x as int,
                y as int,
                out,
            ),
{
    if overlay.width == 0 || overlay.height == 0 || target_width == 0 || target_height == 0 {
        return Err(FramerError::GeometryError);
    }
    if x as u64 + target_width as u64 > base_img.width as u64 || y as u64 + target_height as u64
        > base_img.height as u64 {
        return Err(FramerError::GeometryError);
    }
    let (sw, sh) = scaled_size(overlay.width, overlay.height, target_width, target_height);
    if sw > u32::MAX as u64 || sh > u32::MAX as u64 {
        return Err(FramerError::GeometryError);
    }
    proof {
        assert(sw * sh <= 0xffff_ffff * 0xffff_ffff) by (nonlinear_arith)
            requires sw <= 0xffff_ffff, sh <= 0xffff_ffff;
        assert(overlay.width * sh <= 0xffff_ffff * 0xffff_ffff) by (nonlinear_arith)
            requires overlay.width <= 0xffff_ffff, sh <= 0xffff_ffff;
    }
    let limit: u128 = isize::MAX as u128;
    if 4 * (sw as u128 * sh as u128) > limit || 16 * (overlay.width as u128 * sh as u128) > limit {
        return Err(FramerError::GeometryError);
    }
    let fitted = fit(overlay, target_width, target_height);
    let out = composite(base_img, contiguous_area, &fitted, x, y);
    Ok(out)
}

/// Places `screenshot` into the screen area of `frame` that `strategy` finds
/// from the seed given in percent of the frame's size.
pub fn frame_screenshot(
    frame: &Image,
    screenshot: &Image,
    strategy: Strategy,
    x_perc: u8,
    y_perc: u8,
) -> (r: Result<Image, FramerError>)
    requires
        frame.wf(),
        screenshot.wf(),
    ensures
        r matches Err(e) ==> (e is RegionNotFound <==> !eligible(
            *frame,
            seed_of(*frame, x_perc, y_perc),
        )),
        r matches Err(e) ==> e is RegionNotFound || e is GeometryError,
        r matches Err(e) && e is GeometryError ==> exists|
            t: int,
            b: int,
            l: int,
            rt: int,
            m: Seq<Vec<bool>>,
        |
            found_by(strategy, *frame, seed_of(*frame, x_perc, y_perc), t, b, l, rt, m)
                && !overlay_fits(*frame, *screenshot, l, t, rt - l, b - t),
        r matches Ok(out) ==> exists|t: int, b: int, l: int, rt: int, m: Seq<Vec<bool>>, f: Image|
            found_by(strategy, *frame, seed_of(*frame, x_perc, y_perc), t, b, l, rt, m)
                && is_fit_of(*screenshot, rt - l, b - t, f) && is_composite(
                *frame,
                m,
                f,
                l,
                t,
                out,
            ),
{
    match detect_region(frame, strategy, x_perc, y_perc) {
        Err(e) => Err(e),
        Ok((top, bottom, left, right, mask)) => {
            if right < left || bottom < top {
                proof {
                    assert(found_by(strategy, *frame, seed_of(*frame, x_perc, y_perc), top as int,
                        bottom as int, left as int, right as int, mask@));
                    assert(!overlay_fits(*frame, *screenshot, left as int, top as int,
                        right - left, bottom - top));
                }
                return Err(FramerError::GeometryError);
            }
            let res = overlay_image(frame, &mask, screenshot, left, top, right - left, bottom - top);
            proof {
                let seed = seed_of(*frame, x_perc, y_perc);
                assert(found_by(strategy, *frame, seed, top as int, bottom as int, left as int,
                    right as int, mask@));
                if res is Ok {
                    let out = res->Ok_0;
                    let f = choose|f: Image|
                        is_fit_of(*screenshot, (right - left) as int, (bottom - top) as int, f)
                            && is_composite(*frame, mask@, f, left as int, top as int, out);
                    assert(is_fit_of(*screenshot, right - left, bottom - top, f));
                }
            }
            res
        },
    }
}


/// What `overlay_image` returns never touches the frame where the mask is
/// unset or the frame is opaque, and never lowers any pixel's alpha.
pub proof fn lemma_overlay_keeps_frame(
    base: Image,
    mask: Seq<Vec<bool>>,
    overlay: Image,
    x: int,
    y: int,
    tw: int,
    th: int,
    out: Image,
)
    requires
        exists|f: Image| is_fit_of(overlay, tw, th, f) && is_composite(base, mask, f, x, y, out),
    ensures
        forall|px: int, py: int, c: int|
            base.in_bounds(px, py) && 0 <= c < 4 && (!marked(mask, (px, py)) || base.px(px, py, 3)
                == 255) ==> #[trigger] out.px(px, py, c) == base.px(px, py, c),
        forall|px: int, py: int|
            base.in_bounds(px, py) ==> #[trigger] out.px(px, py, 3) >= base.px(px, py, 3),
{
    let f = choose|f: Image| is_fit_of(overlay, tw, th, f) && is_composite(base, mask, f, x, y, out);
    assert forall|px: int, py: int, c: int|
        base.in_bounds(px, py) && 0 <= c < 4 && (!marked(mask, (px, py)) || base.px(px, py, 3)
            == 255) implies #[trigger] out.px(px, py, c) == base.px(px, py, c) by {
        lemma_composite_keeps_base(base, mask, f, x, y, out, px, py, c);
    }
    assert forall|px: int, py: int| base.in_bounds(px, py) implies #[trigger] out.px(px, py, 3)
        >= base.px(px, py, 3) by {
        lemma_composite_alpha_grows(base, mask, f, x, y, out, px, py);
    }
}

} // verus!
