//! The bounding rectangle of the filled area.
use vstd::prelude::*;
use crate::raster::Image;
use crate::region::{
    FramerError, eligible, adjacent, is_path, reachable, grid_shape, marked, is_region_of,
    find_contiguous_area, lemma_reach_seed, lemma_reach_step, lemma_reach_needs_seed,
};

verus! {
/// No row of the grid is shorter than the first.
pub open spec fn rows_cover_first(m: Seq<Vec<bool>>) -> bool {
    forall|i: int| 0 <= i < m.len() ==> (#[trigger] m[i])@.len() >= m[0]@.len()
}

/// Swaps the roles of rows and columns: `r[j][i] == matrix[i][j]`, for the
/// columns of the first row; cells beyond it in longer rows are left out. An
/// empty matrix, or one whose first row is empty, gives an empty result.
pub fn transpose(matrix: &Vec<Vec<bool>>) -> (r: Vec<Vec<bool>>)
    requires
        rows_cover_first(matrix@),
    ensures
        matrix@.len() == 0 || matrix@[0]@.len() == 0 ==> r@.len() == 0,
        matrix@.len() > 0 && matrix@[0]@.len() > 0 ==> grid_shape(
            r@,
            matrix@[0]@.len() as int,
            matrix@.len() as int,
        ),
        forall|j: int, i: int|
            0 <= j < r@.len() && 0 <= i < matrix@.len() ==> #[trigger] r@[j]@[i] == matrix@[i]@[j],
{
    if matrix.len() == 0 || matrix[0].len() == 0 {
        return Vec::new();
    }
    let rows = matrix.len();
    let cols = matrix[0].len();
    let mut transposed: Vec<Vec<bool>> = Vec::new();
    let mut j: usize = 0;
    while j < cols
        invariant
            j <= cols,
            rows == matrix@.len(),
            cols == matrix@[0]@.len(),
            rows_cover_first(matrix@),
            grid_shape(transposed@, j as int, rows as int),
            forall|jj: int, i: int|
                0 <= jj < j && 0 <= i < rows ==> #[trigger] transposed@[jj]@[i] == matrix@[i]@[jj],
        decreases cols - j,
    {
        let mut col: Vec<bool> = Vec::new();
        let mut i: usize = 0;
        while i < rows
            invariant
                i <= rows,
                j < cols,
                rows == matrix@.len(),
                cols == matrix@[0]@.len(),
                rows_cover_first(matrix@),
                col@.len() == i,
                forall|ii: int| 0 <= ii < i ==> #[trigger] col@[ii] == matrix@[ii]@[j as int],
            decreases rows - i,
        {
            assert(matrix@[i as int]@.len() >= cols);
            col.push(matrix[i][j]);
            i += 1;
        }
        let ghost before = transposed@;
        transposed.push(col);
        assert forall|jj: int, i: int|
            0 <= jj < j + 1 && 0 <= i < rows implies #[trigger] transposed@[jj]@[i]
                == matrix@[i]@[jj] by {
            if jj < j {
                assert(transposed@[jj] == before[jj]);
            }
        }
        j += 1;
    }
    transposed
}

/// Index of the first `true` of `row` at or after `i`, or `d` if there is none.
pub open spec fn first_from(row: Seq<bool>, i: int, d: int) -> int
    decreases row.len() - i,
{
    if i < 0 || i >= row.len() {
        d
    } else if row[i] {
        i
    } else {
        first_from(row, i + 1, d)
    }
}

/// Index of the last `true` of `row` before `n`, or `d` if there is none.
pub open spec fn last_before(row: Seq<bool>, n: int, d: int) -> int
    decreases n,
{
    if n <= 0 || n > row.len() {
        d
    } else if row[n - 1] {
        n - 1
    } else {
        last_before(row, n - 1, d)
    }
}

/// Index of the first `true` of `row`, or `d` if there is none.
pub open spec fn first_pos(row: Seq<bool>, d: int) -> int {
    first_from(row, 0, d)
}

/// Index of the last `true` of `row`, or `d` if there is none.
pub open spec fn last_pos(row: Seq<bool>, d: int) -> int {
    last_before(row, row.len() as int, d)
}

proof fn lemma_first_from(row: Seq<bool>, i: int, d: int)
    requires
        0 <= i <= row.len(),
    ensures
        (exists|j: int| i <= j < row.len() && row[j]) ==> {
            let f = first_from(row, i, d);
            i <= f < row.len() && row[f] && forall|k: int| i <= k < f ==> !row[k]
        },
        !(exists|j: int| i <= j < row.len() && row[j]) ==> first_from(row, i, d) == d,
    decreases row.len() - i,
{
    if i < row.len() && !row[i] {
        lemma_first_from(row, i + 1, d);
        if exists|j: int| i <= j < row.len() && row[j] {
            let j = choose|j: int| i <= j < row.len() && row[j];
            assert(i + 1 <= j);
        }
    }
}

proof fn lemma_last_before(row: Seq<bool>, n: int, d: int)
    requires
        0 <= n <= row.len(),
    ensures
        (exists|j: int| 0 <= j < n && row[j]) ==> {
            let f = last_before(row, n, d);
            0 <= f < n && row[f] && forall|k: int| f < k < n ==> !row[k]
        },
        !(exists|j: int| 0 <= j < n && row[j]) ==> last_before(row, n, d) == d,
    decreases n,
{
    if n > 0 && !row[n - 1] {
        lemma_last_before(row, n - 1, d);
        if exists|j: int| 0 <= j < n && row[j] {
            let j = choose|j: int| 0 <= j < n && row[j];
            assert(j < n - 1);
        }
    }
}

fn first_true(row: &Vec<bool>, d: usize) -> (r: usize)
    ensures
        r == first_pos(row@, d as int),
{
    let mut j: usize = 0;
    while j < row.len()
        invariant
            j <= row@.len(),
            first_from(row@, 0, d as int) == first_from(row@, j as int, d as int),
        decreases row@.len() - j,
    {
        if row[j] {
            return j;
        }
        j += 1;
    }
    d
}

fn last_true(row: &Vec<bool>, d: usize) -> (r: usize)
    ensures
        r == last_pos(row@, d as int),
{
    let mut n: usize = row.len();
    while n > 0
        invariant
            n <= row@.len(),
            last_before(row@, row@.len() as int, d as int) == last_before(row@, n as int, d as int),
        decreases n,
    {
        if row[n - 1] {
            return n - 1;
        }
        n -= 1;
    }
    d
}

/// Over the rows of the grid: the least index of a first `true` (a row with
/// none counts as `max`), and the greatest index of a last `true` (a row with
/// none counts as `min`). An empty grid gives `(min, max)`.
pub fn find_first_last(contiguous_area: &Vec<Vec<bool>>, min: u32, max: u32) -> (r: (usize, usize))
    ensures
        contiguous_area@.len() == 0 ==> r == (min as usize, max as usize),
        contiguous_area@.len() > 0 ==> (exists|i: int|
            0 <= i < contiguous_area@.len() && r.0 == first_pos(
                #[trigger] contiguous_area@[i]@,
                max as int,
            )),
        forall|i: int|
            0 <= i < contiguous_area@.len() ==> r.0 <= first_pos(
                #[trigger] contiguous_area@[i]@,
                max as int,
            ),
        contiguous_area@.len() > 0 ==> (exists|i: int|
            0 <= i < contiguous_area@.len() && r.1 == last_pos(
                #[trigger] contiguous_area@[i]@,
                min as int,
            )),
        forall|i: int|
            0 <= i < contiguous_area@.len() ==> r.1 >= last_pos(
                #[trigger] contiguous_area@[i]@,
                min as int,
            ),
{
    let g = contiguous_area;
    if g.len() == 0 {
        return (min as usize, max as usize);
    }
    let mut lo: usize = first_true(&g[0], max as usize);
    let mut hi: usize = last_true(&g[0], min as usize);
    let ghost mut lo_at: int = 0;
    let ghost mut hi_at: int = 0;
    let mut i: usize = 1;
    while i < g.len()
        invariant
            1 <= i <= g@.len(),
            0 <= lo_at < i,
            0 <= hi_at < i,
            lo == first_pos(g@[lo_at]@, max as int),
            hi == last_pos(g@[hi_at]@, min as int),
            forall|k: int| 0 <= k < i ==> lo <= first_pos(#[trigger] g@[k]@, max as int),
            forall|k: int| 0 <= k < i ==> hi >= last_pos(#[trigger] g@[k]@, min as int),
        decreases g@.len() - i,
    {
        let f = first_true(&g[i], max as usize);
        let l = last_true(&g[i], min as usize);
        if f < lo {
            lo = f;
            proof {
                lo_at = i as int;
            }
        }
        if l > hi {
            hi = l;
            proof {
                hi_at = i as int;
            }
        }
        i += 1;
    }
    (lo, hi)
}


/// `v` is the least row of a marked cell.
pub open spec fn is_min_y(g: Seq<Vec<bool>>, v: int) -> bool {
    (exists|x: int| marked(g, (x, v))) && forall|x: int, y: int| #[trigger] marked(g, (x, y)) ==> v <= y
}

/// `v` is the greatest row of a marked cell.
pub open spec fn is_max_y(g: Seq<Vec<bool>>, v: int) -> bool {
    (exists|x: int| marked(g, (x, v))) && forall|x: int, y: int| #[trigger] marked(g, (x, y)) ==> v >= y
}

/// `v` is the least column of a marked cell.
pub open spec fn is_min_x(g: Seq<Vec<bool>>, v: int) -> bool {
    (exists|y: int| marked(g, (v, y))) && forall|x: int, y: int| #[trigger] marked(g, (x, y)) ==> v <= x
}

/// `v` is the greatest column of a marked cell.
pub open spec fn is_max_x(g: Seq<Vec<bool>>, v: int) -> bool {
    (exists|y: int| marked(g, (v, y))) && forall|x: int, y: int| #[trigger] marked(g, (x, y)) ==> v >= x
}

/// One step outward from a lower bound, held at zero.
pub open spec fn step_out(v: int) -> int {
    if v > 0 {
        v - 1
    } else {
        0
    }
}

/// The rectangle `(top, bottom, left, right)` that encloses the marked cells
/// one pixel outside them on each side (held at zero at the top and left edges).
pub open spec fn detected_rect(g: Seq<Vec<bool>>) -> (int, int, int, int) {
    (
        step_out(choose|v: int| is_min_y(g, v)),
        (choose|v: int| is_max_y(g, v)) + 1,
        step_out(choose|v: int| is_min_x(g, v)),
        (choose|v: int| is_max_x(g, v)) + 1,
    )
}

/// The seed pixel for a position given in percent of the frame's size.
pub open spec fn seed_of(img: Image, x_perc: u8, y_perc: u8) -> (int, int) {
    ((img.width * x_perc) as int / 100, (img.height * y_perc) as int / 100)
}

proof fn lemma_min_second(g: Seq<Vec<bool>>, w: int, h: int, lo: int, c: (int, int))
    requires
        grid_shape(g, w, h),
        marked(g, c),
        exists|i: int| 0 <= i < g.len() && lo == first_pos(#[trigger] g[i]@, h - 1),
        forall|i: int| 0 <= i < g.len() ==> lo <= first_pos(#[trigger] g[i]@, h - 1),
    ensures
        is_min_y(g, lo),
{
    assert forall|x: int, y: int| #[trigger] marked(g, (x, y)) implies lo <= y by {
        lemma_first_from(g[x]@, 0, h - 1);
        assert(lo <= first_pos(g[x]@, h - 1));
    }
    let i = choose|i: int| 0 <= i < g.len() && lo == first_pos(#[trigger] g[i]@, h - 1);
    lemma_first_from(g[i]@, 0, h - 1);
    lemma_first_from(g[c.0]@, 0, h - 1);
    assert(lo <= first_pos(g[c.0]@, h - 1));
    if exists|j: int| 0 <= j < g[i]@.len() && g[i]@[j] {
        assert(marked(g, (i, lo)));
    } else {
        assert(marked(g, (c.0, lo)));
    }
}

proof fn lemma_max_second(g: Seq<Vec<bool>>, w: int, h: int, hi: int, c: (int, int))
    requires
        grid_shape(g, w, h),
        marked(g, c),
        exists|i: int| 0 <= i < g.len() && hi == last_pos(#[trigger] g[i]@, 0),
        forall|i: int| 0 <= i < g.len() ==> hi >= last_pos(#[trigger] g[i]@, 0),
    ensures
        is_max_y(g, hi),
{
    assert forall|x: int, y: int| #[trigger] marked(g, (x, y)) implies hi >= y by {
        lemma_last_before(g[x]@, g[x]@.len() as int, 0);
        assert(hi >= last_pos(g[x]@, 0));
    }
    let i = choose|i: int| 0 <= i < g.len() && hi == last_pos(#[trigger] g[i]@, 0);
    lemma_last_before(g[i]@, g[i]@.len() as int, 0);
    lemma_last_before(g[c.0]@, g[c.0]@.len() as int, 0);
    assert(hi >= last_pos(g[c.0]@, 0));
    if exists|j: int| 0 <= j < g[i]@.len() && g[i]@[j] {
        assert(marked(g, (i, hi)));
    } else {
        assert(marked(g, (c.0, hi)));
    }
}

/// Finds the screen area around the seed given in percent of the frame's
/// size. Returns `(top, bottom, left, right, mask)`: the mask, indexed
/// `[x][y]`, marks the cells reachable from the seed, and the four bounds lie
/// one pixel outside the marked cells.
pub fn find_transparent_pixels(img: &Image, x_perc: u8, y_perc: u8) -> (r: Result<
    (u32, u32, u32, u32, Vec<Vec<bool>>),
    FramerError,
>)
    requires
        img.wf(),
    ensures
        r is Ok <==> eligible(*img, seed_of(*img, x_perc, y_perc)),
        r matches Err(e) ==> e is RegionNotFound,
        r matches Ok((t, b, l, rt, m)) ==> is_region_of(*img, m@, seed_of(*img, x_perc, y_perc)) && (
        t as int, b as int, l as int, rt as int) == detected_rect(m@),
{
    let ghost seed = seed_of(*img, x_perc, y_perc);
    proof {
        assert(img.width * x_perc <= 0xffff_ffff * 255) by (nonlinear_arith)
            requires img.width <= 0xffff_ffff, x_perc <= 255;
        assert(img.height * y_perc <= 0xffff_ffff * 255) by (nonlinear_arith)
            requires img.height <= 0xffff_ffff, y_perc <= 255;
    }
    let sx64: u64 = img.width as u64 * x_perc as u64 / 100;
    let sy64: u64 = img.height as u64 * y_perc as u64 / 100;
    if sx64 >= img.width as u64 || sy64 >= img.height as u64 {
        return Err(FramerError::RegionNotFound);
    }
    let sx = sx64 as usize;
    let sy = sy64 as usize;
    let w = img.width as usize;
    let h = img.height as usize;
    let (grid, _visits) = find_contiguous_area(img, sx, sy);
    proof {
        if eligible(*img, seed) {
            lemma_reach_seed(*img, seed);
        }
        if reachable(*img, seed, seed) {
            lemma_reach_needs_seed(*img, seed, seed);
        }
    }
    if !grid[sx][sy] {
        return Err(FramerError::RegionNotFound);
    }
    proof {
        assert(marked(grid@, seed));
        assert(img.in_bounds(seed.0, seed.1));
        assert(reachable(*img, seed, seed));
        lemma_reach_needs_seed(*img, seed, seed);
    }
    let (first_y, last_y) = find_first_last(&grid, 0, (h - 1) as u32);
    let cols = transpose(&grid);
    let (first_x, last_x) = find_first_last(&cols, 0, (w - 1) as u32);
    proof {
        lemma_min_second(grid@, w as int, h as int, first_y as int, seed);
        lemma_max_second(grid@, w as int, h as int, last_y as int, seed);
        let t = cols@;
        assert(grid_shape(t, h as int, w as int));
        assert forall|y: int, x: int| #[trigger] marked(t, (y, x)) <==> marked(grid@, (x, y)) by {
            if 0 <= y < h && 0 <= x < w {
                assert(t[y]@[x] == grid@[x]@[y]);
            }
        }
        assert(marked(t, (seed.1, seed.0)));
        lemma_min_second(t, h as int, w as int, first_x as int, (seed.1, seed.0));
        lemma_max_second(t, h as int, w as int, last_x as int, (seed.1, seed.0));
        assert(is_min_x(grid@, first_x as int)) by {
            let y = choose|y: int| marked(t, (y, first_x as int));
            assert(marked(grid@, (first_x as int, y)));
            assert forall|x: int, y: int| #[trigger] marked(grid@, (x, y)) implies first_x <= x by {
                assert(marked(t, (y, x)));
            }
        }
        assert(is_max_x(grid@, last_x as int)) by {
            let y = choose|y: int| marked(t, (y, last_x as int));
            assert(marked(grid@, (last_x as int, y)));
            assert forall|x: int, y: int| #[trigger] marked(grid@, (x, y)) implies last_x >= x by {
                assert(marked(t, (y, x)));
            }
        }
        assert(is_min_y(grid@, choose|v: int| is_min_y(grid@, v)));
        assert(is_max_y(grid@, choose|v: int| is_max_y(grid@, v)));
        assert(is_min_x(grid@, choose|v: int| is_min_x(grid@, v)));
        assert(is_max_x(grid@, choose|v: int| is_max_x(grid@, v)));
    }
    let top: u32 = if first_y > 0 { (first_y - 1) as u32 } else { 0 };
    let bottom: u32 = (last_y + 1) as u32;
    let left: u32 = if first_x > 0 { (first_x - 1) as u32 } else { 0 };
    let right: u32 = (last_x + 1) as u32;
    Ok((top, bottom, left, right, grid))
}


/// `c` lies strictly between the four bounds.
pub open spec fn strictly_inside(c: (int, int), top: int, bottom: int, left: int, right: int) -> bool {
    left < c.0 < right && top < c.1 < bottom
}

/// A fully transparent rectangle strictly between `top`, `bottom`, `left` and
/// `right`, enclosed by a ring of opaque pixels on those four lines.
pub open spec fn framed_hole(img: Image, top: int, bottom: int, left: int, right: int) -> bool {
    &&& 0 <= left && left + 1 < right && right < img.width
    &&& 0 <= top && top + 1 < bottom && bottom < img.height
    &&& forall|x: int, y: int|
        strictly_inside((x, y), top, bottom, left, right) ==> #[trigger] img.px(x, y, 3) == 0
    &&& forall|x: int, y: int|
        ((left <= x <= right && (y == top || y == bottom)) || (top <= y <= bottom && (x == left
            || x == right))) ==> #[trigger] img.px(x, y, 3) == 255
}

proof fn lemma_path_inside(
    img: Image,
    path: Seq<(int, int)>,
    i: int,
    top: int,
    bottom: int,
    left: int,
    right: int,
)
    requires
        framed_hole(img, top, bottom, left, right),
        is_path(img, path),
        0 <= i < path.len(),
        strictly_inside(path[0], top, bottom, left, right),
    ensures
        strictly_inside(path[i], top, bottom, left, right),
    decreases i,
{
    if i > 0 {
        lemma_path_inside(img, path, i - 1, top, bottom, left, right);
        assert(adjacent(path[i - 1], path[i]));
        assert(eligible(img, path[i]));
        let c = path[i];
        assert(img.px(c.0, c.1, 3) != 255);
    }
}

proof fn lemma_inside_reachable(
    img: Image,
    seed: (int, int),
    c: (int, int),
    top: int,
    bottom: int,
    left: int,
    right: int,
)
    requires
        framed_hole(img, top, bottom, left, right),
        strictly_inside(seed, top, bottom, left, right),
        strictly_inside(c, top, bottom, left, right),
    ensures
        reachable(img, seed, c),
    decreases
            (if c.0 >= seed.0 { c.0 - seed.0 } else { seed.0 - c.0 }) + (if c.1 >= seed.1 {
                c.1 - seed.1
            } else {
                seed.1 - c.1
            }),
{
    assert(img.px(c.0, c.1, 3) == 0);
    if c == seed {
        lemma_reach_seed(img, seed);
    } else {
        let p = if c.0 > seed.0 {
            (c.0 - 1, c.1)
        } else if c.0 < seed.0 {
            (c.0 + 1, c.1)
        } else if c.1 > seed.1 {
            (c.0, c.1 - 1)
        } else {
            (c.0, c.1 + 1)
        };
        lemma_inside_reachable(img, seed, p, top, bottom, left, right);
        lemma_reach_step(img, seed, p, c);
    }
}

/// A seed strictly inside a fully transparent rectangle that opaque pixels
/// enclose gives exactly that rectangle's bounds.
pub proof fn lemma_rectangle_found(
    img: Image,
    g: Seq<Vec<bool>>,
    seed: (int, int),
    top: int,
    bottom: int,
    left: int,
    right: int,
)
    requires
        framed_hole(img, top, bottom, left, right),
        strictly_inside(seed, top, bottom, left, right),
        is_region_of(img, g, seed),
    ensures
        detected_rect(g) == (top, bottom, left, right),
{
    assert forall|x: int, y: int| #[trigger] marked(g, (x, y)) implies strictly_inside(
        (x, y),
        top,
        bottom,
        left,
        right,
    ) by {
        assert(img.in_bounds(x, y));
        assert(reachable(img, seed, (x, y)));
        let path = choose|path: Seq<(int, int)>|
            is_path(img, path) && path.len() > 0 && path[0] == seed && path.last() == (x, y);
        lemma_path_inside(img, path, path.len() - 1, top, bottom, left, right);
    }
    assert forall|x: int, y: int| strictly_inside((x, y), top, bottom, left, right) implies #[trigger] marked(
        g,
        (x, y),
    ) by {
        lemma_inside_reachable(img, seed, (x, y), top, bottom, left, right);
    }
    assert(marked(g, (seed.0, top + 1)));
    assert(marked(g, (seed.0, bottom - 1)));
    assert(marked(g, (left + 1, seed.1)));
    assert(marked(g, (right - 1, seed.1)));
    assert(is_min_y(g, top + 1));
    assert(is_max_y(g, bottom - 1));
    assert(is_min_x(g, left + 1));
    assert(is_max_x(g, right - 1));
    let a = choose|v: int| is_min_y(g, v);
    let b = choose|v: int| is_max_y(g, v);
    let l = choose|v: int| is_min_x(g, v);
    let r = choose|v: int| is_max_x(g, v);
    assert(a == top + 1) by {
        let x = choose|x: int| marked(g, (x, a));
    }
    assert(b == bottom - 1) by {
        let x = choose|x: int| marked(g, (x, b));
    }
    assert(l == left + 1) by {
        let y = choose|y: int| marked(g, (l, y));
    }
    assert(r == right - 1) by {
        let y = choose|y: int| marked(g, (r, y));
    }
}


} // verus!
