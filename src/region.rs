//! Flood fill of the transparent screen area of a frame.
use vstd::prelude::*;
use crate::raster::Image;

verus! {

/// Why no screen area could be placed.
pub enum FramerError {
    /// The seed point lies on opaque frame material or outside the frame.
    RegionNotFound,
    /// The area or the screenshot has a size that cannot be fitted.
    GeometryError,
    /// The finished image could not be recompressed.
    CompressionError,
}


/// A pixel that the fill may enter: inside the image and not fully opaque.
pub open spec fn eligible(img: Image, c: (int, int)) -> bool {
    img.in_bounds(c.0, c.1) && img.px(c.0, c.1, 3) != 255
}

/// The two cells share an edge.
pub open spec fn adjacent(a: (int, int), b: (int, int)) -> bool {
    (a.0 == b.0 && (a.1 == b.1 + 1 || a.1 + 1 == b.1))
        || (a.1 == b.1 && (a.0 == b.0 + 1 || a.0 + 1 == b.0))
}

/// Consecutive cells of `path` share an edge, and each is eligible.
pub open spec fn is_path(img: Image, path: Seq<(int, int)>) -> bool {
    (forall|i: int| 0 <= i < path.len() ==> eligible(img, #[trigger] path[i]))
        && forall|i: int| 0 < i < path.len() ==> adjacent(path[i - 1], #[trigger] path[i])
}

/// `c` is joined to `seed` by a path through eligible cells.
pub open spec fn reachable(img: Image, seed: (int, int), c: (int, int)) -> bool {
    exists|path: Seq<(int, int)>|
        #![trigger is_path(img, path), path.last()]
        is_path(img, path) && path.len() > 0 && path[0] == seed && path.last() == c
}

/// A grid indexed `[x][y]` with `w` columns of `h` cells.
pub open spec fn grid_shape(g: Seq<Vec<bool>>, w: int, h: int) -> bool {
    g.len() == w && forall|x: int| 0 <= x < w ==> (#[trigger] g[x])@.len() == h
}

pub open spec fn marked(g: Seq<Vec<bool>>, c: (int, int)) -> bool {
    0 <= c.0 < g.len() && 0 <= c.1 < g[c.0]@.len() && g[c.0]@[c.1]
}

/// The grid marks exactly the cells reachable from `seed`.
pub open spec fn is_region_of(img: Image, g: Seq<Vec<bool>>, seed: (int, int)) -> bool {
    grid_shape(g, img.width as int, img.height as int)
        && forall|x: int, y: int| img.in_bounds(x, y) ==>
            (marked(g, (x, y)) <==> reachable(img, seed, (x, y)))
}

/// Number of `true` cells of a row.
pub open spec fn count_row(s: Seq<bool>) -> nat
    decreases s.len(),
{
    if s.len() == 0 {
        0
    } else {
        count_row(s.drop_last()) + if s.last() { 1nat } else { 0nat }
    }
}

/// Number of `true` cells of a grid.
pub open spec fn count_grid(g: Seq<Vec<bool>>) -> nat
    decreases g.len(),
{
    if g.len() == 0 {
        0
    } else {
        count_grid(g.drop_last()) + count_row(g.last()@)
    }
}

proof fn lemma_count_row_update(s: Seq<bool>, i: int)
    requires
        0 <= i < s.len(),
        !s[i],
    ensures
        count_row(s.update(i, true)) == count_row(s) + 1,
    decreases s.len(),
{
    let t = s.update(i, true);
    if i < s.len() - 1 {
        assert(t.drop_last() =~= s.drop_last().update(i, true));
        lemma_count_row_update(s.drop_last(), i);
    } else {
        assert(t.drop_last() =~= s.drop_last());
    }
}

proof fn lemma_count_row_le(s: Seq<bool>)
    ensures
        count_row(s) <= s.len(),
    decreases s.len(),
{
    if s.len() > 0 {
        lemma_count_row_le(s.drop_last());
    }
}

proof fn lemma_count_row_false(s: Seq<bool>)
    requires
        forall|i: int| 0 <= i < s.len() ==> !s[i],
    ensures
        count_row(s) == 0,
    decreases s.len(),
{
    if s.len() > 0 {
        lemma_count_row_false(s.drop_last());
    }
}

proof fn lemma_count_grid_update(g: Seq<Vec<bool>>, x: int, y: int, row: Vec<bool>)
    requires
        0 <= x < g.len(),
        0 <= y < g[x]@.len(),
        !g[x]@[y],
        row@ == g[x]@.update(y, true),
    ensures
        count_grid(g.update(x, row)) == count_grid(g) + 1,
    decreases g.len(),
{
    let t = g.update(x, row);
    if x < g.len() - 1 {
        assert(t.drop_last() =~= g.drop_last().update(x, row));
        lemma_count_grid_update(g.drop_last(), x, y, row);
    } else {
        assert(t.drop_last() =~= g.drop_last());
        lemma_count_row_update(g[x]@, y);
    }
}

proof fn lemma_count_grid_le(g: Seq<Vec<bool>>, w: int, h: int)
    requires
        grid_shape(g, w, h),
        h >= 0,
    ensures
        count_grid(g) <= w * h,
    decreases g.len(),
{
    if g.len() > 0 {
        assert(grid_shape(g.drop_last(), w - 1, h));
        lemma_count_grid_le(g.drop_last(), w - 1, h);
        lemma_count_row_le(g.last()@);
        assert((w - 1) * h + h == w * h) by (nonlinear_arith);
    }
}

proof fn lemma_count_grid_false(g: Seq<Vec<bool>>)
    requires
        forall|x: int, y: int| 0 <= x < g.len() && 0 <= y < g[x]@.len() ==> !g[x]@[y],
    ensures
        count_grid(g) == 0,
    decreases g.len(),
{
    if g.len() > 0 {
        lemma_count_grid_false(g.drop_last());
        lemma_count_row_false(g.last()@);
    }
}

/// A grid `w` columns by `h` rows with every cell set to `v`.
pub fn filled_grid(w: usize, h: usize, v: bool) -> (g: Vec<Vec<bool>>)
    ensures
        grid_shape(g@, w as int, h as int),
        forall|x: int, y: int| marked(g@, (x, y)) <==> (v && 0 <= x < w && 0 <= y < h),
{
    let mut g: Vec<Vec<bool>> = Vec::new();
    let mut i: usize = 0;
    while i < w
        invariant
            i <= w,
            grid_shape(g@, i as int, h as int),
            forall|x: int, y: int| marked(g@, (x, y)) <==> (v && 0 <= x < i && 0 <= y < h),
        decreases w - i,
    {
        let mut col: Vec<bool> = Vec::new();
        let mut j: usize = 0;
        while j < h
            invariant
                j <= h,
                col@.len() == j,
                forall|y: int| 0 <= y < j ==> col@[y] == v,
            decreases h - j,
        {
            col.push(v);
            j += 1;
        }
        let ghost old_g = g@;
        g.push(col);
        assert forall|x: int, y: int| marked(g@, (x, y)) <==> (v && 0 <= x < i + 1 && 0 <= y < h) by {
            if 0 <= x < i {
                assert(g@[x] == old_g[x]);
                assert(marked(old_g, (x, y)) == marked(g@, (x, y)));
            }
        }
        i += 1;
    }
    g
}


/// The cell `c` is somewhere on the stack.
pub open spec fn on_stack(s: Seq<(usize, usize)>, c: (int, int)) -> bool {
    exists|k: int| 0 <= k < s.len() && s[k].0 as int == c.0 && s[k].1 as int == c.1
}

/// Every eligible neighbour of a marked cell is marked or still waits on the stack.
pub open spec fn closed_except(img: Image, g: Seq<Vec<bool>>, s: Seq<(usize, usize)>) -> bool {
    forall|c: (int, int), n: (int, int)|
        #![trigger marked(g, c), eligible(img, n)]
        marked(g, c) && adjacent(c, n) && eligible(img, n) ==> marked(g, n) || on_stack(s, n)
}

pub(crate) proof fn lemma_reach_step(img: Image, seed: (int, int), p: (int, int), c: (int, int))
    requires
        reachable(img, seed, p),
        adjacent(p, c),
        eligible(img, c),
    ensures
        reachable(img, seed, c),
{
    let path = choose|path: Seq<(int, int)>|
        is_path(img, path) && path.len() > 0 && path[0] == seed && path.last() == p;
    let longer = path.push(c);
    assert(longer[longer.len() - 2] == p);
    assert(is_path(img, longer));
    assert(longer.last() == c);
}

pub(crate) proof fn lemma_reach_seed(img: Image, seed: (int, int))
    requires
        eligible(img, seed),
    ensures
        reachable(img, seed, seed),
{
    let path = seq![seed];
    assert(is_path(img, path));
    assert(path.last() == seed);
}

pub(crate) proof fn lemma_reach_needs_seed(img: Image, seed: (int, int), c: (int, int))
    requires
        reachable(img, seed, c),
    ensures
        eligible(img, seed),
{
    let path = choose|path: Seq<(int, int)>|
        is_path(img, path) && path.len() > 0 && path[0] == seed && path.last() == c;
    assert(eligible(img, path[0]));
}

proof fn lemma_closed_complete(img: Image, g: Seq<Vec<bool>>, seed: (int, int), c: (int, int))
    requires
        closed_except(img, g, Seq::empty()),
        marked(g, seed),
        reachable(img, seed, c),
    ensures
        marked(g, c),
{
    let path = choose|path: Seq<(int, int)>|
        is_path(img, path) && path.len() > 0 && path[0] == seed && path.last() == c;
    lemma_path_marked(img, g, path, path.len() - 1);
}

proof fn lemma_path_marked(img: Image, g: Seq<Vec<bool>>, path: Seq<(int, int)>, i: int)
    requires
        closed_except(img, g, Seq::empty()),
        is_path(img, path),
        0 <= i < path.len(),
        marked(g, path[0]),
    ensures
        marked(g, path[i]),
    decreases i,
{
    if i > 0 {
        lemma_path_marked(img, g, path, i - 1);
        assert(adjacent(path[i - 1], path[i]) && eligible(img, path[i]));
        assert(!on_stack(Seq::<(usize, usize)>::empty(), path[i]));
    }
}

proof fn lemma_on_stack_push(s: Seq<(usize, usize)>, e: (usize, usize))
    ensures
        forall|n: (int, int)| on_stack(s, n) ==> #[trigger] on_stack(s.push(e), n),
        on_stack(s.push(e), (e.0 as int, e.1 as int)),
{
    assert forall|n: (int, int)| on_stack(s, n) implies #[trigger] on_stack(s.push(e), n) by {
        let k = choose|k: int| 0 <= k < s.len() && s[k].0 as int == n.0 && s[k].1 as int == n.1;
        assert(s.push(e)[k] == s[k]);
    }
    assert(s.push(e)[s.len() as int] == e);
}

proof fn lemma_on_stack_pop(s: Seq<(usize, usize)>, n: (int, int))
    requires
        s.len() > 0,
        on_stack(s, n),
        n != (s.last().0 as int, s.last().1 as int),
    ensures
        on_stack(s.drop_last(), n),
{
    let k = choose|k: int| 0 <= k < s.len() && s[k].0 as int == n.0 && s[k].1 as int == n.1;
    assert(s.drop_last()[k] == s[k]);
}

proof fn lemma_marked_update(old_g: Seq<Vec<bool>>, g: Seq<Vec<bool>>, x: int, y: int)
    requires
        0 <= x < old_g.len(),
        0 <= y < old_g[x]@.len(),
        g.len() == old_g.len(),
        g[x]@ == old_g[x]@.update(y, true),
        forall|i: int| 0 <= i < g.len() && i != x ==> g[i] == old_g[i],
    ensures
        forall|p: (int, int)| #[trigger] marked(g, p) <==> marked(old_g, p) || p == (x, y),
{
    assert forall|p: (int, int)| #[trigger] marked(g, p) <==> marked(old_g, p) || p == (x, y) by {
        if 0 <= p.0 < g.len() && p.0 != x {
            assert(g[p.0] == old_g[p.0]);
        }
    }
}

/// Marks every cell reachable from `(start_x, start_y)` through eligible
/// neighbours, with an explicit stack in place of recursion. Returns the grid,
/// indexed `[x][y]`, and the number of cells visited.
#[verifier::rlimit(60)]
pub fn find_contiguous_area(img: &Image, start_x: usize, start_y: usize) -> (r: (
    Vec<Vec<bool>>,
    usize,
))
    requires
        img.wf(),
    ensures
        is_region_of(*img, r.0@, (start_x as int, start_y as int)),
        r.1 == count_grid(r.0@),
        r.1 <= img.width * img.height,
{
    let w = img.width as usize;
    let h = img.height as usize;
    let ghost seed = (start_x as int, start_y as int);
    let mut grid = filled_grid(w, h, false);
    let mut visits: usize = 0;
    let mut stack: Vec<(usize, usize)> = Vec::new();
    stack.push((start_x, start_y));
    let ghost mut parent: Seq<(int, int)> = seq![seed];
    proof {
        assert forall|x: int, y: int| 0 <= x < grid@.len() && 0 <= y < grid@[x]@.len() implies !grid@[x]@[y] by {
            assert(!marked(grid@, (x, y)));
        }
        lemma_count_grid_false(grid@);
        assert(img.data.len() == img.data@.len());
        assert(w * h <= 4 * (w * h)) by (nonlinear_arith)
            requires 0 <= w * h;
        assert(0 <= w * h) by (nonlinear_arith);
        assert(on_stack(stack@, seed)) by {
            assert(stack@[0].0 as int == seed.0 && stack@[0].1 as int == seed.1);
        }
    }
    while stack.len() > 0
        invariant
            img.wf(),
            w == img.width,
            h == img.height,
            w * h <= usize::MAX,
            grid_shape(grid@, w as int, h as int),
            visits == count_grid(grid@),
            visits <= w * h,
            parent.len() == stack@.len(),
            forall|k: int|
                #![trigger stack@[k]]
                0 <= k < stack@.len() ==> ((stack@[k].0 as int, stack@[k].1 as int) == seed || (
                marked(grid@, parent[k]) && adjacent(
                    parent[k],
                    (stack@[k].0 as int, stack@[k].1 as int),
                ))),
            forall|c: (int, int)| #[trigger] marked(grid@, c) ==> reachable(*img, seed, c),
            closed_except(*img, grid@, stack@),
            eligible(*img, seed) ==> marked(grid@, seed) || on_stack(stack@, seed),
        decreases 5 * (w * h - visits) + stack.len(),
    {
        let ghost old_grid = grid@;
        let ghost old_stack = stack@;
        let ghost pk = parent.last();
        let (x, y) = stack.pop().unwrap();
        let ghost c = (x as int, y as int);
        proof {
            parent = parent.drop_last();
            assert(old_stack[old_stack.len() - 1] == (x, y));
            assert forall|k: int| 0 <= k < stack@.len() implies #[trigger] stack@[k] == old_stack[k] by {}
        }
        if x < w && y < h && !grid[x][y] && img.alpha(x as u32, y as u32) != 255 {
            grid[x][y] = true;
            proof {
                lemma_count_grid_update(old_grid, x as int, y as int, grid@[x as int]);
                assert(grid@ == old_grid.update(x as int, grid@[x as int]));
                assert(grid_shape(grid@, w as int, h as int)) by {
                    assert forall|i: int| 0 <= i < w implies (#[trigger] grid@[i])@.len() == h by {
                        if i != x {
                            assert(grid@[i] == old_grid[i]);
                        }
                    }
                }
                lemma_count_grid_le(grid@, w as int, h as int);
            }
            visits += 1;
            proof {
                lemma_marked_update(old_grid, grid@, x as int, y as int);
                if c == seed {
                    lemma_reach_seed(*img, seed);
                } else {
                    assert(marked(old_grid, pk));
                    lemma_reach_step(*img, seed, pk, c);
                }
            }
            let ghost popped = stack@;
            let ghost popped_parent = parent;
            let ghost base = stack@.len() as int;
            stack.push((x + 1, y));
            proof {
                lemma_on_stack_push(popped, ((x + 1) as usize, y));
                parent = parent.push(c);
            }
            if x > 0 {
                let ghost s0 = stack@;
                stack.push((x - 1, y));
                proof {
                    lemma_on_stack_push(s0, ((x - 1) as usize, y));
                    parent = parent.push(c);
                }
            }
            let ghost s1 = stack@;
            stack.push((x, y + 1));
            proof {
                lemma_on_stack_push(s1, (x, (y + 1) as usize));
                parent = parent.push(c);
            }
            if y > 0 {
                let ghost s2 = stack@;
                stack.push((x, y - 1));
                proof {
                    lemma_on_stack_push(s2, (x, (y - 1) as usize));
                    parent = parent.push(c);
                }
            }
            proof {
                assert(stack@.subrange(0, base) =~= popped);
                assert(parent.subrange(0, base) =~= popped_parent);
                assert forall|k: int| #![trigger stack@[k]] 0 <= k < stack@.len() implies ((stack@[k].0 as int, stack@[k].1 as int) == seed || (
                    marked(grid@, parent[k]) && adjacent(parent[k], (stack@[k].0 as int, stack@[k].1 as int)))) by {
                    if k < base {
                        assert(stack@[k] == stack@.subrange(0, base)[k]);
                        assert(parent[k] == parent.subrange(0, base)[k]);
                        assert(stack@[k] == old_stack[k]);
                    }
                }
                assert forall|cc: (int, int), n: (int, int)|
                    marked(grid@, cc) && adjacent(cc, n) && eligible(*img, n) implies
                        marked(grid@, n) || on_stack(stack@, n) by {
                    if cc != c {
                        assert(marked(old_grid, cc));
                        if !marked(old_grid, n) {
                            assert(on_stack(old_stack, n));
                            if n != c {
                                lemma_on_stack_pop(old_stack, n);
                                assert(on_stack(popped, n));
                            }
                        }
                    }
                }
                if eligible(*img, seed) && !marked(grid@, seed) {
                    assert(on_stack(old_stack, seed));
                    lemma_on_stack_pop(old_stack, seed);
                }
            }
        } else {
            proof {
                assert forall|cc: (int, int), n: (int, int)|
                    marked(grid@, cc) && adjacent(cc, n) && eligible(*img, n) implies
                        marked(grid@, n) || on_stack(stack@, n) by {
                    if !marked(grid@, n) {
                        assert(on_stack(old_stack, n));
                        if n != c {
                            lemma_on_stack_pop(old_stack, n);
                        }
                    }
                }
                if eligible(*img, seed) && !marked(grid@, seed) {
                    assert(on_stack(old_stack, seed));
                    if seed != c {
                        lemma_on_stack_pop(old_stack, seed);
                    }
                }
                assert forall|k: int| #![trigger stack@[k]] 0 <= k < stack@.len() implies ((stack@[k].0 as int, stack@[k].1 as int) == seed || (
                    marked(grid@, parent[k]) && adjacent(parent[k], (stack@[k].0 as int, stack@[k].1 as int)))) by {
                    assert(stack@[k] == old_stack[k]);
                }
            }
        }
    }
    proof {
        assert forall|x: int, y: int| img.in_bounds(x, y) implies (marked(grid@, (x, y))
            <==> reachable(*img, seed, (x, y))) by {
            if reachable(*img, seed, (x, y)) {
                lemma_reach_needs_seed(*img, seed, (x, y));
                assert(!on_stack(stack@, seed));
                assert(stack@ =~= Seq::<(usize, usize)>::empty());
                lemma_closed_complete(*img, grid@, seed, (x, y));
            }
        }
    }
    (grid, visits)
}


} // verus!
