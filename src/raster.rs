//! RGBA images held as plain bytes.
use vstd::prelude::*;

verus! {

/// An RGBA image with 8-bit channels, stored row by row, four bytes per pixel.
pub struct Image {
    pub width: u32,
    pub height: u32,
    pub data: Vec<u8>,
}

/// Index of channel `c` of pixel `(x, y)` in the byte buffer of an image `w` pixels wide.
pub open spec fn byte_index(w: int, x: int, y: int, c: int) -> int {
    4 * (y * w + x) + c
}

/// Distinct channels of distinct pixels sit at distinct bytes.
pub proof fn lemma_byte_index_distinct(w: int, x: int, y: int, c: int, x2: int, y2: int, c2: int)
    requires
        0 <= x < w,
        0 <= x2 < w,
        0 <= y,
        0 <= y2,
        0 <= c < 4,
        0 <= c2 < 4,
        (x, y, c) != (x2, y2, c2),
    ensures
        byte_index(w, x, y, c) != byte_index(w, x2, y2, c2),
{
    if y < y2 {
        assert(y * w + x < y2 * w + x2) by (nonlinear_arith)
            requires y < y2, 0 <= x < w, 0 <= x2;
    } else if y2 < y {
        assert(y2 * w + x2 < y * w + x) by (nonlinear_arith)
            requires y2 < y, 0 <= x2 < w, 0 <= x;
    }
}

pub proof fn lemma_byte_index_bounds(w: int, h: int, x: int, y: int, c: int)
    requires
        0 <= x < w,
        0 <= y < h,
        0 <= c < 4,
    ensures
        0 <= y * w,
        y * w + x < w * h,
        0 <= byte_index(w, x, y, c) < 4 * (w * h),
{
    assert(0 <= y * w) by (nonlinear_arith)
        requires 0 <= y, 0 <= w;
    assert(y * w + x < w * h) by (nonlinear_arith)
        requires 0 <= x < w, 0 <= y < h;
}

impl Image {
    /// The buffer holds exactly four bytes for every pixel.
    pub open spec fn wf(&self) -> bool {
        self.data@.len() == 4 * (self.width as int * self.height as int)
    }

    /// Channel `c` (0 red, 1 green, 2 blue, 3 alpha) of pixel `(x, y)`.
    pub open spec fn px(&self, x: int, y: int, c: int) -> u8 {
        self.data@[byte_index(self.width as int, x, y, c)]
    }

    pub open spec fn in_bounds(&self, x: int, y: int) -> bool {
        0 <= x < self.width && 0 <= y < self.height
    }

    /// Builds an image from raw RGBA bytes; `None` when the length is not `4 * width * height`.
    pub fn from_raw(width: u32, height: u32, data: Vec<u8>) -> (r: Option<Image>)
        ensures
            r is Some <==> data@.len() == 4 * (width as int * height as int),
            r matches Some(img) ==> img.width == width && img.height == height && img.data@ == data@,
    {
        proof {
            assert(0 <= width as int * height as int <= 0xffff_ffff * 0xffff_ffff) by (nonlinear_arith)
                requires width <= 0xffff_ffff, height <= 0xffff_ffff;
        }
        let n: u128 = 4u128 * (width as u128 * height as u128);
        if n == data.len() as u128 {
            Some(Image { width, height, data })
        } else {
            None
        }
    }

    /// Channel `c` of pixel `(x, y)`.
    pub fn channel(&self, x: u32, y: u32, c: usize) -> (r: u8)
        requires
            self.wf(),
            x < self.width,
            y < self.height,
            c < 4,
        ensures
            r == self.px(x as int, y as int, c as int),
    {
        proof {
            lemma_byte_index_bounds(self.width as int, self.height as int, x as int, y as int, c as int);
            assert(self.data.len() == self.data@.len());
        }
        let i: usize = 4 * (y as usize * self.width as usize + x as usize) + c;
        self.data[i]
    }

    /// Sets channel `c` of pixel `(x, y)` to `v`; every other byte stays.
    pub fn set_channel(&mut self, x: u32, y: u32, c: usize, v: u8)
        requires
            old(self).wf(),
            x < old(self).width,
            y < old(self).height,
            c < 4,
        ensures
            final(self).wf(),
            final(self).width == old(self).width,
            final(self).height == old(self).height,
            final(self).px(x as int, y as int, c as int) == v,
            forall|x2: int, y2: int, c2: int|
                0 <= x2 < final(self).width && 0 <= y2 < final(self).height && 0 <= c2 < 4
                    && (x2, y2, c2) != (x as int, y as int, c as int) ==> #[trigger] final(self).px(
                    x2,
                    y2,
                    c2,
                ) == old(self).px(x2, y2, c2),
    {
        proof {
            lemma_byte_index_bounds(self.width as int, self.height as int, x as int, y as int, c as int);
            assert(self.data.len() == self.data@.len());
        }
        let i: usize = 4 * (y as usize * self.width as usize + x as usize) + c;
        self.data.set(i, v);
        proof {
            assert forall|x2: int, y2: int, c2: int|
                0 <= x2 < self.width && 0 <= y2 < self.height && 0 <= c2 < 4
                    && (x2, y2, c2) != (x as int, y as int, c as int) implies #[trigger] self.px(
                    x2,
                    y2,
                    c2,
                ) == old(self).px(x2, y2, c2) by {
                lemma_byte_index_distinct(self.width as int, x as int, y as int, c as int, x2, y2, c2);
                lemma_byte_index_bounds(self.width as int, self.height as int, x2, y2, c2);
            }
        }
    }

    /// Alpha channel of pixel `(x, y)`.
    pub fn alpha(&self, x: u32, y: u32) -> (r: u8)
        requires
            self.wf(),
            x < self.width,
            y < self.height,
        ensures
            r == self.px(x as int, y as int, 3),
    {
        self.channel(x, y, 3)
    }
}

} // verus!
