//! Alpha compositing of an overlay onto a base image, restricted to a mask.
use vstd::prelude::*;
use crate::raster::Image;
use crate::region::{grid_shape, marked};

verus! {

/// A colour channel after blending, in straight alpha with the base over the
/// overlay: `ba/255 * bc + (1 - ba/255) * oa/255 * oc`, truncated.
pub open spec fn blend_channel(ba: int, bc: int, oa: int, oc: int) -> int {
    (ba * bc * 255 + (255 - ba) * oa * oc) / 65025
}

/// The alpha after blending: the sum of both alphas, at most fully opaque.
pub open spec fn blend_alpha(ba: int, oa: int) -> int {
    if ba + oa > 255 {
        255
    } else {
        ba + oa
    }
}

/// The overlay placed at `(x0, y0)` covers base pixel `(x, y)`, which is
/// masked and not opaque, and the overlay pixel there is not fully transparent.
pub open spec fn blends(
    base: Image,
    mask: Seq<Vec<bool>>,
    ov: Image,
    x0: int,
    y0: int,
    x: int,
    y: int,
) -> bool {
    x0 <= x < x0 + ov.width && y0 <= y < y0 + ov.height && base.px(x, y, 3) < 255 && ov.px(
        x - x0,
        y - y0,
        3,
    ) > 0 && marked(mask, (x, y))
}

/// Channel `c` of pixel `(x, y)` of the composite.
pub open spec fn composite_px(
    base: Image,
    mask: Seq<Vec<bool>>,
    ov: Image,
    x0: int,
    y0: int,
    x: int,
    y: int,
    c: int,
) -> int {
    if blends(base, mask, ov, x0, y0, x, y) {
        if c < 3 {
            blend_channel(
                base.px(x, y, 3) as int,
                base.px(x, y, c) as int,
                ov.px(x - x0, y - y0, 3) as int,
                ov.px(x - x0, y - y0, c) as int,
            )
        } else {
            blend_alpha(base.px(x, y, 3) as int, ov.px(x - x0, y - y0, 3) as int)
        }
    } else {
        base.px(x, y, c) as int
    }
}

/// `out` is the composite of `ov` at `(x0, y0)` onto `base` within `mask`.
pub open spec fn is_composite(
    base: Image,
    mask: Seq<Vec<bool>>,
    ov: Image,
    x0: int,
    y0: int,
    out: Image,
) -> bool {
    out.wf() && out.width == base.width && out.height == base.height && forall|
        x: int,
        y: int,
        c: int,
    |
        0 <= x < base.width && 0 <= y < base.height && 0 <= c < 4 ==> #[trigger] out.px(x, y, c)
            == composite_px(base, mask, ov, x0, y0, x, y, c)
}

/// Blends one colour channel.
pub fn blend_color(ba: u8, bc: u8, oa: u8, oc: u8) -> (r: u8)
    ensures
        r == blend_channel(ba as int, bc as int, oa as int, oc as int),
{
    let (ba, bc, oa, oc) = (ba as u32, bc as u32, oa as u32, oc as u32);
    proof {
        assert(ba * bc * 255 <= ba * 255 * 255) by (nonlinear_arith)
            requires bc <= 255, 0 <= ba;
        assert((255 - ba) * oa * oc <= (255 - ba) * 255 * 255) by (nonlinear_arith)
            requires oa <= 255, oc <= 255, ba <= 255;
        assert(ba * 255 * 255 + (255 - ba) * 255 * 255 == 255 * 65025) by (nonlinear_arith);
        assert(0 <= ba * bc * 255) by (nonlinear_arith)
            requires 0 <= ba, 0 <= bc;
        assert((255 - ba) * oa <= 255 * 255) by (nonlinear_arith)
            requires oa <= 255, ba <= 255;
        assert(ba * bc <= 255 * 255) by (nonlinear_arith)
            requires ba <= 255, bc <= 255;
        assert(0 <= (255 - ba) * oa * oc) by (nonlinear_arith)
            requires ba <= 255, 0 <= oa, 0 <= oc;
    }
    ((ba * bc * 255 + (255 - ba) * oa * oc) / 65025) as u8
}

/// Blends the alpha channel.
pub fn blend_opacity(ba: u8, oa: u8) -> (r: u8)
    ensures
        r == blend_alpha(ba as int, oa as int),
{
    let sum: u16 = ba as u16 + oa as u16;
    if sum > 255 {
        255
    } else {
        sum as u8
    }
}

/// Copies the image.
pub fn copy_image(img: &Image) -> (r: Image)
    requires
        img.wf(),
    ensures
        r.wf(),
        r.width == img.width,
        r.height == img.height,
        r.data@ == img.data@,
{
    let mut data: Vec<u8> = Vec::new();
    let mut i: usize = 0;
    while i < img.data.len()
        invariant
            i <= img.data@.len(),
            data@ == img.data@.subrange(0, i as int),
        decreases img.data@.len() - i,
    {
        data.push(img.data[i]);
        i += 1;
    }
    assert(data@ =~= img.data@);
    Image { width: img.width, height: img.height, data }
}


/// Blends `overlay`, placed with its top-left corner at `(x, y)`, onto a copy
/// of `base`, at the pixels where the mask is set, the base is not opaque and
/// the overlay is not fully transparent.
pub fn composite(base: &Image, mask: &Vec<Vec<bool>>, overlay: &Image, x: u32, y: u32) -> (r: Image)
    requires
        base.wf(),
        overlay.wf(),
        grid_shape(mask@, base.width as int, base.height as int),
        x + overlay.width <= base.width,
        y + overlay.height <= base.height,
    ensures
        is_composite(*base, mask@, *overlay, x as int, y as int, r),
{
    let mut out = copy_image(base);
    let ghost x0 = x as int;
    let ghost y0 = y as int;
    let mut dy: u32 = 0;
    while dy < overlay.height
        invariant
            base.wf(),
            overlay.wf(),
            grid_shape(mask@, base.width as int, base.height as int),
            x + overlay.width <= base.width,
            y + overlay.height <= base.height,
            dy <= overlay.height,
            x0 == x,
            y0 == y,
            out.wf(),
            out.width == base.width,
            out.height == base.height,
            forall|px: int, py: int, c: int|
                0 <= px < base.width && 0 <= py < base.height && 0 <= c < 4 ==> #[trigger] out.px(
                    px,
                    py,
                    c,
                ) == if y0 <= py < y0 + dy && x0 <= px < x0 + overlay.width {
                    composite_px(*base, mask@, *overlay, x0, y0, px, py, c)
                } else {
                    base.px(px, py, c) as int
                },
        decreases overlay.height - dy,
    {
        let mut dx: u32 = 0;
        while dx < overlay.width
            invariant
                base.wf(),
                overlay.wf(),
                grid_shape(mask@, base.width as int, base.height as int),
                x + overlay.width <= base.width,
                y + overlay.height <= base.height,
                dy < overlay.height,
                dx <= overlay.width,
                x0 == x,
                y0 == y,
                out.wf(),
                out.width == base.width,
                out.height == base.height,
                forall|px: int, py: int, c: int|
                    0 <= px < base.width && 0 <= py < base.height && 0 <= c < 4 ==> #[trigger] out.px(
                        px,
                        py,
                        c,
                    ) == if (y0 <= py < y0 + dy && x0 <= px < x0 + overlay.width) || (py == y0 + dy
                        && x0 <= px < x0 + dx) {
                        composite_px(*base, mask@, *overlay, x0, y0, px, py, c)
                    } else {
                        base.px(px, py, c) as int
                    },
            decreases overlay.width - dx,
        {
            let bx = x + dx;
            let by = y + dy;
            let ba = base.alpha(bx, by);
            let oa = overlay.alpha(dx, dy);
            assert(mask@[bx as int]@.len() == base.height);
            assert(bx as int - x0 == dx && by as int - y0 == dy);
            if ba < 255 && oa > 0 && mask[bx as usize][by as usize] {
                let ghost before = out;
                let r = blend_color(ba, base.channel(bx, by, 0), oa, overlay.channel(dx, dy, 0));
                out.set_channel(bx, by, 0, r);
                let g = blend_color(ba, base.channel(bx, by, 1), oa, overlay.channel(dx, dy, 1));
                out.set_channel(bx, by, 1, g);
                let b = blend_color(ba, base.channel(bx, by, 2), oa, overlay.channel(dx, dy, 2));
                out.set_channel(bx, by, 2, b);
                let a = blend_opacity(ba, oa);
                out.set_channel(bx, by, 3, a);
                assert(blends(*base, mask@, *overlay, x0, y0, bx as int, by as int));
                assert forall|px: int, py: int, c: int|
                    0 <= px < base.width && 0 <= py < base.height && 0 <= c < 4 && (px, py) != (
                        bx as int,
                        by as int,
                    ) implies #[trigger] out.px(px, py, c) == before.px(px, py, c) by {}
            } else {
                assert(!blends(*base, mask@, *overlay, x0, y0, bx as int, by as int));
            }
            dx += 1;
        }
        dy += 1;
    }
    out
}


/// Where the mask is unset or the base pixel is opaque, the composite keeps
/// the base pixel.
pub proof fn lemma_composite_keeps_base(
    base: Image,
    mask: Seq<Vec<bool>>,
    ov: Image,
    x0: int,
    y0: int,
    out: Image,
    x: int,
    y: int,
    c: int,
)
    requires
        is_composite(base, mask, ov, x0, y0, out),
        base.in_bounds(x, y),
        0 <= c < 4,
        !marked(mask, (x, y)) || base.px(x, y, 3) == 255,
    ensures
        out.px(x, y, c) == base.px(x, y, c),
{
}

/// Compositing never lowers a pixel's alpha.
pub proof fn lemma_composite_alpha_grows(
    base: Image,
    mask: Seq<Vec<bool>>,
    ov: Image,
    x0: int,
    y0: int,
    out: Image,
    x: int,
    y: int,
)
    requires
        is_composite(base, mask, ov, x0, y0, out),
        base.in_bounds(x, y),
    ensures
        out.px(x, y, 3) >= base.px(x, y, 3),
{
}

/// An opaque overlay of the base's size, over the whole image with every mask
/// cell set, shows through unchanged wherever the base is fully transparent.
pub proof fn lemma_composite_opaque_overlay(
    base: Image,
    mask: Seq<Vec<bool>>,
    ov: Image,
    out: Image,
    x: int,
    y: int,
    c: int,
)
    requires
        ov.width == base.width,
        ov.height == base.height,
        grid_shape(mask, base.width as int, base.height as int),
        forall|i: int, j: int| base.in_bounds(i, j) ==> #[trigger] marked(mask, (i, j)),
        forall|i: int, j: int| base.in_bounds(i, j) ==> #[trigger] ov.px(i, j, 3) == 255,
        is_composite(base, mask, ov, 0, 0, out),
        base.in_bounds(x, y),
        0 <= c < 4,
        base.px(x, y, 3) == 0,
    ensures
        out.px(x, y, c) == ov.px(x, y, c),
{
    assert(marked(mask, (x, y)));
    assert(ov.px(x, y, 3) == 255);
    assert(blends(base, mask, ov, 0, 0, x, y));
    if c < 3 {
        let oc = ov.px(x, y, c) as int;
        assert((0 * (base.px(x, y, c) as int) * 255 + (255 - 0) * 255 * oc) / 65025 == oc)
            by (nonlinear_arith);
    }
}

} // verus!
