//! Detection by four straight scans from the seed, and the choice of strategy.
use vstd::prelude::*;
use crate::raster::Image;
use crate::region::{FramerError, eligible, grid_shape, marked, is_region_of, filled_grid};
use crate::bounds::{
    seed_of, framed_hole, strictly_inside, detected_rect, find_transparent_pixels,
    lemma_rectangle_found,
};

verus! {

/// Pixel `(x, y)` is fully opaque frame material.
pub open spec fn opaque_at(img: Image, x: int, y: int) -> bool {
    img.px(x, y, 3) == 255
}

/// `l` is where a scan from `(sx, sy)` towards the left stops: the nearest
/// opaque pixel left of the seed on its row, or 0 if there is none.
pub open spec fn is_left_stop(img: Image, sx: int, sy: int, l: int) -> bool {
    if exists|x: int| 0 <= x < sx && opaque_at(img, x, sy) {
        0 <= l < sx && opaque_at(img, l, sy) && forall|x: int| l < x < sx ==> !opaque_at(img, x, sy)
    } else {
        l == 0
    }
}

/// `r` is where a scan from `(sx, sy)` towards the right stops: the nearest
/// opaque pixel right of the seed on its row, or the width if there is none.
pub open spec fn is_right_stop(img: Image, sx: int, sy: int, r: int) -> bool {
    if exists|x: int| sx < x < img.width && opaque_at(img, x, sy) {
        sx < r < img.width && opaque_at(img, r, sy) && forall|x: int|
            sx < x < r ==> !opaque_at(img, x, sy)
    } else {
        r == img.width
    }
}

/// `t` is where a scan from `(sx, sy)` upwards stops, as for the left.
pub open spec fn is_top_stop(img: Image, sx: int, sy: int, t: int) -> bool {
    if exists|y: int| 0 <= y < sy && opaque_at(img, sx, y) {
        0 <= t < sy && opaque_at(img, sx, t) && forall|y: int| t < y < sy ==> !opaque_at(img, sx, y)
    } else {
        t == 0
    }
}

/// `b` is where a scan from `(sx, sy)` downwards stops, as for the right.
pub open spec fn is_bottom_stop(img: Image, sx: int, sy: int, b: int) -> bool {
    if exists|y: int| sy < y < img.height && opaque_at(img, sx, y) {
        sy < b < img.height && opaque_at(img, sx, b) && forall|y: int|
            sy < y < b ==> !opaque_at(img, sx, y)
    } else {
        b == img.height
    }
}

fn scan_left(img: &Image, sx: u32, sy: u32) -> (r: u32)
    requires
        img.wf(),
        sx < img.width,
        sy < img.height,
    ensures
        is_left_stop(*img, sx as int, sy as int, r as int),
{
    let mut x: u32 = sx;
    while x > 0
        invariant
            img.wf(),
            x <= sx < img.width,
            sy < img.height,
            forall|k: int| x <= k < sx ==> !opaque_at(*img, k, sy as int),
        decreases x,
    {
        if img.alpha(x - 1, sy) == 255 {
            assert(opaque_at(*img, (x - 1) as int, sy as int));
            return x - 1;
        }
        x -= 1;
    }
    0
}

fn scan_right(img: &Image, sx: u32, sy: u32) -> (r: u32)
    requires
        img.wf(),
        sx < img.width,
        sy < img.height,
    ensures
        is_right_stop(*img, sx as int, sy as int, r as int),
{
    let mut x: u32 = sx + 1;
    while x < img.width
        invariant
            img.wf(),
            sx < x <= img.width,
            sy < img.height,
            forall|k: int| sx < k < x ==> !opaque_at(*img, k, sy as int),
        decreases img.width - x,
    {
        if img.alpha(x, sy) == 255 {
            assert(opaque_at(*img, x as int, sy as int));
            return x;
        }
        x += 1;
    }
    img.width
}

fn scan_up(img: &Image, sx: u32, sy: u32) -> (r: u32)
    requires
        img.wf(),
        sx < img.width,
        sy < img.height,
    ensures
        is_top_stop(*img, sx as int, sy as int, r as int),
{
    let mut y: u32 = sy;
    while y > 0
        invariant
            img.wf(),
            sx < img.width,
            y <= sy < img.height,
            forall|k: int| y <= k < sy ==> !opaque_at(*img, sx as int, k),
        decreases y,
    {
        if img.alpha(sx, y - 1) == 255 {
            assert(opaque_at(*img, sx as int, (y - 1) as int));
            return y - 1;
        }
        y -= 1;
    }
    0
}

fn scan_down(img: &Image, sx: u32, sy: u32) -> (r: u32)
    requires
        img.wf(),
        sx < img.width,
        sy < img.height,
    ensures
        is_bottom_stop(*img, sx as int, sy as int, r as int),
{
    let mut y: u32 = sy + 1;
    while y < img.height
        invariant
            img.wf(),
            sx < img.width,
            sy < y <= img.height,
            forall|k: int| sy < k < y ==> !opaque_at(*img, sx as int, k),
        decreases img.height - y,
    {
        if img.alpha(sx, y) == 255 {
            assert(opaque_at(*img, sx as int, y as int));
            return y;
        }
        y += 1;
    }
    img.height
}

/// Finds the screen area by four straight scans from the seed, one in each
/// direction, each stopping at the first opaque pixel. Returns
/// `(top, bottom, left, right)`. Cheaper than the flood fill, but a notch in
/// the cutout can end a scan early.
pub fn find_rect_by_rays(img: &Image, x_perc: u8, y_perc: u8) -> (r: Result<
    (u32, u32, u32, u32),
    FramerError,
>)
    requires
        img.wf(),
    ensures
        r is Ok <==> eligible(*img, seed_of(*img, x_perc, y_perc)),
        r matches Err(e) ==> e is RegionNotFound,
        r matches Ok((t, b, l, rt)) ==> {
            let seed = seed_of(*img, x_perc, y_perc);
            &&& is_top_stop(*img, seed.0, seed.1, t as int)
            &&& is_bottom_stop(*img, seed.0, seed.1, b as int)
            &&& is_left_stop(*img, seed.0, seed.1, l as int)
            &&& is_right_stop(*img, seed.0, seed.1, rt as int)
        },
{
    proof {
        assert(img.width * x_perc <= 0xffff_ffff * 255) by (nonlinear_arith)
            requires img.width <= 0xffff_ffff, x_perc <= 255;
        assert(img.height * y_perc <= 0xffff_ffff * 255) by (nonlinear_arith)
            requires img.height <= 0xffff_ffff, y_perc <= 255;
    }
    let sx64: u64 = img.width as u64 * x_perc as u64 / 100;
    let sy64: u64 = img.height as u64 * y_perc as u64 / 100;
    if sx64 >= img.width as u64 || sy64 >= img.height as u64 {
        return Err(FramerError::RegionNotFound);
    }
    let sx = sx64 as u32;
    let sy = sy64 as u32;
    if img.alpha(sx, sy) == 255 {
        return Err(FramerError::RegionNotFound);
    }
    Ok((scan_up(img, sx, sy), scan_down(img, sx, sy), scan_left(img, sx, sy), scan_right(img, sx, sy)))
}

/// A seed strictly inside a fully transparent rectangle that opaque pixels
/// enclose makes the four scans stop exactly on the rectangle's bounds.
pub proof fn lemma_rays_find_rectangle(
    img: Image,
    seed: (int, int),
    top: int,
    bottom: int,
    left: int,
    right: int,
    t: int,
    b: int,
    l: int,
    r: int,
)
    requires
        framed_hole(img, top, bottom, left, right),
        strictly_inside(seed, top, bottom, left, right),
        is_top_stop(img, seed.0, seed.1, t),
        is_bottom_stop(img, seed.0, seed.1, b),
        is_left_stop(img, seed.0, seed.1, l),
        is_right_stop(img, seed.0, seed.1, r),
    ensures
        (t, b, l, r) == (top, bottom, left, right),
{
    let (sx, sy) = seed;
    assert(opaque_at(img, left, sy));
    assert(opaque_at(img, right, sy));
    assert(opaque_at(img, sx, top));
    assert(opaque_at(img, sx, bottom));
    if l != left {
        if l < left {
            assert(!opaque_at(img, left, sy));
        } else {
            assert(img.px(l, sy, 3) == 0);
        }
    }
    if r != right {
        if r > right {
            assert(!opaque_at(img, right, sy));
        } else {
            assert(img.px(r, sy, 3) == 0);
        }
    }
    if t != top {
        if t < top {
            assert(!opaque_at(img, sx, top));
        } else {
            assert(img.px(sx, t, 3) == 0);
        }
    }
    if b != bottom {
        if b > bottom {
            assert(!opaque_at(img, sx, bottom));
        } else {
            assert(img.px(sx, b, 3) == 0);
        }
    }
}


/// How the screen area is found.
pub enum Strategy {
    /// Flood fill from the seed; follows cutouts of any shape.
    FloodFill,
    /// Four straight scans from the seed; no mask, every pixel may be blended.
    RayScan,
}

/// `(t, b, l, rt)` and mask `m` are what `strategy` finds from `seed`.
pub open spec fn found_by(
    strategy: Strategy,
    img: Image,
    seed: (int, int),
    t: int,
    b: int,
    l: int,
    rt: int,
    m: Seq<Vec<bool>>,
) -> bool {
    match strategy {
        Strategy::FloodFill => is_region_of(img, m, seed) && (t, b, l, rt) == detected_rect(m),
        Strategy::RayScan => {
            &&& is_top_stop(img, seed.0, seed.1, t)
            &&& is_bottom_stop(img, seed.0, seed.1, b)
            &&& is_left_stop(img, seed.0, seed.1, l)
            &&& is_right_stop(img, seed.0, seed.1, rt)
            &&& grid_shape(m, img.width as int, img.height as int)
            &&& forall|x: int, y: int| img.in_bounds(x, y) ==> #[trigger] marked(m, (x, y))
        },
    }
}

/// Finds the screen area with the chosen strategy. Returns
/// `(top, bottom, left, right, mask)`; the ray scan's mask is set everywhere.
pub fn detect_region(img: &Image, strategy: Strategy, x_perc: u8, y_perc: u8) -> (r: Result<
    (u32, u32, u32, u32, Vec<Vec<bool>>),
    FramerError,
>)
    requires
        img.wf(),
    ensures
        r is Ok <==> eligible(*img, seed_of(*img, x_perc, y_perc)),
        r matches Err(e) ==> e is RegionNotFound,
        r matches Ok((t, b, l, rt, m)) ==> found_by(
            strategy,
            *img,
            seed_of(*img, x_perc, y_perc),
            t as int,
            b as int,
            l as int,
            rt as int,
            m@,
        ),
{
    match strategy {
        Strategy::FloodFill => find_transparent_pixels(img, x_perc, y_perc),
        Strategy::RayScan => match find_rect_by_rays(img, x_perc, y_perc) {
            Err(e) => Err(e),
            Ok((t, b, l, rt)) => {
                let m = filled_grid(img.width as usize, img.height as usize, true);
                Ok((t, b, l, rt, m))
            },
        },
    }
}


/// On a fully transparent rectangle that opaque pixels enclose, both
/// strategies find the same bounds from any seed strictly inside it.
pub proof fn lemma_strategies_agree(
    img: Image,
    seed: (int, int),
    top: int,
    bottom: int,
    left: int,
    right: int,
    fill: (int, int, int, int, Seq<Vec<bool>>),
    rays: (int, int, int, int, Seq<Vec<bool>>),
)
    requires
        framed_hole(img, top, bottom, left, right),
        strictly_inside(seed, top, bottom, left, right),
        found_by(Strategy::FloodFill, img, seed, fill.0, fill.1, fill.2, fill.3, fill.4),
        found_by(Strategy::RayScan, img, seed, rays.0, rays.1, rays.2, rays.3, rays.4),
    ensures
        (fill.0, fill.1, fill.2, fill.3) == (rays.0, rays.1, rays.2, rays.3),
{
    lemma_rectangle_found(img, fill.4, seed, top, bottom, left, right);
    lemma_rays_find_rectangle(img, seed, top, bottom, left, right, rays.0, rays.1, rays.2, rays.3);
}

} // verus!
