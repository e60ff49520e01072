//! The character framebuffer and its paired depth buffer.
//!
//! Both buffers are row-major grids of the same dimensions, resized together
//! and cleared together; a depth cell holds the minimum depth written to it
//! this frame, with fixed-point 1.0 as the "nothing drawn yet" sentinel. A
//! glyph is written only when its depth is strictly below both the sentinel
//! and the stored depth.

use vstd::prelude::*;
use crate::fixed::ONE;

verus! {

/// The mathematical model of a framebuffer: dimensions and the two
/// row-major cell sequences.
#[verifier::ext_equal]
pub ghost struct FrameView {
    pub width: nat,
    pub height: nat,
    pub glyphs: Seq<u8>,
    pub depth: Seq<i64>,
}

impl FrameView {
    /// Both grids hold exactly width * height cells.
    pub open spec fn wf(self) -> bool {
        &&& self.glyphs.len() == self.width * self.height
        &&& self.depth.len() == self.width * self.height
    }

    /// The flat index of the cell in column x of row y.
    pub open spec fn idx(self, x: int, y: int) -> int {
        y * self.width + x
    }

    /// The glyph at column x of row y.
    pub open spec fn glyph_at(self, x: int, y: int) -> u8 {
        self.glyphs[self.idx(x, y)]
    }

    /// The depth at column x of row y.
    pub open spec fn depth_at(self, x: int, y: int) -> i64 {
        self.depth[self.idx(x, y)]
    }

    /// Every glyph cell holds the background glyph and every depth cell the
    /// far-plane sentinel.
    pub open spec fn cleared(self, bg: u8) -> bool {
        &&& forall|k: int| 0 <= k < self.glyphs.len() ==> self.glyphs[k] == bg
        &&& forall|k: int| 0 <= k < self.depth.len() ==> self.depth[k] == ONE
    }
}

/// A cell index is in range exactly when its coordinates are.
pub proof fn lemma_idx_bound(x: int, y: int, w: int, h: int)
    requires
        0 <= x < w,
        0 <= y < h,
    ensures
        0 <= y * w + x < w * h,
        (y * w + x) % w == x,
        (y * w + x) / w == y,
{
    assert(0 <= y * w + x && y * w + x <= w * h - 1) by (nonlinear_arith)
        requires
            0 <= x < w,
            0 <= y < h,
    ;
    vstd::arithmetic::div_mod::lemma_fundamental_div_mod_converse(y * w + x, w, y, x);
}

/// A whole row of cells lies within the flat grid.
pub proof fn lemma_row_bound(y: int, w: int, h: int)
    requires
        0 <= y < h,
        0 <= w,
    ensures
        0 <= y * w,
        y * w + w <= w * h,
{
    assert(0 <= y * w && y * w + w <= w * h) by (nonlinear_arith)
        requires
            0 <= y < h,
            0 <= w,
    ;
}

/// A flat index in range names a unique in-range cell.
pub proof fn lemma_idx_split(k: int, w: int, h: int)
    requires
        w > 0,
        0 <= k < w * h,
    ensures
        0 <= k % w < w,
        0 <= k / w < h,
        (k / w) * w + (k % w) == k,
{
    vstd::arithmetic::div_mod::lemma_fundamental_div_mod(k, w);
    vstd::arithmetic::div_mod::lemma_mod_bound(k, w);
    crate::fixed::lemma_div_bounds(k, w);
    let q = k / w;
    let r = k % w;
    assert(k == w * q + r);
    assert(w * q == q * w) by (nonlinear_arith);
    if q >= h {
        assert(q * w + r >= h * w) by (nonlinear_arith)
            requires
                q >= h,
                w > 0,
                r >= 0,
        ;
        assert(w * h == h * w) by (nonlinear_arith);
        assert(false);
    }
}

/// The character framebuffer with its depth buffer, both row-major and of
/// the same terminal dimensions.
pub struct Frame {
    pub width: usize,
    pub height: usize,
    pub glyphs: Vec<u8>,
    pub depth: Vec<i64>,
}

impl View for Frame {
    type V = FrameView;

    open spec fn view(&self) -> FrameView {
        FrameView {
            width: self.width as nat,
            height: self.height as nat,
            glyphs: self.glyphs@,
            depth: self.depth@,
        }
    }
}

impl Frame {
    /// Buffers sized to the dimensions, and dimensions small enough for
    /// fixed-point screen mapping.
    pub open spec fn wf(self) -> bool {
        &&& self@.wf()
        &&& self.width <= 65535
        &&& self.height <= 65535
        &&& self.width * self.height <= usize::MAX
    }

    /// A framebuffer of the given dimensions with every cell at the
    /// background glyph and every depth cell at the sentinel.
    pub fn new(width: usize, height: usize, bg: u8) -> (r: Frame)
        requires
            width <= 65535,
            height <= 65535,
        ensures
            r.wf(),
            r.width == width,
            r.height == height,
            r@.cleared(bg),
    {
        proof {
            assert(width * height <= 65535 * 65535) by (nonlinear_arith)
                requires
                    width <= 65535,
                    height <= 65535,
            ;
        }
        let n = width * height;
        let glyphs = vec![bg; n];
        let depth = vec![ONE; n];
        Frame { width, height, glyphs, depth }
    }

    /// Reset every glyph cell to the background glyph and every depth cell
    /// to the sentinel, in place; dimensions are unchanged.
    pub fn clear(&mut self, bg: u8)
        requires
            old(self).wf(),
        ensures
            final(self).wf(),
            final(self).width == old(self).width,
            final(self).height == old(self).height,
            final(self)@.cleared(bg),
    {
        let n = self.glyphs.len();
        let mut k: usize = 0;
        while k < n
            invariant
                self.wf(),
                self.width == old(self).width,
                self.height == old(self).height,
                n == self.glyphs.len(),
                k <= n,
                forall|i: int| 0 <= i < k ==> self.glyphs@[i] == bg,
                forall|i: int| 0 <= i < k ==> self.depth@[i] == ONE,
            decreases n - k,
        {
            self.glyphs[k] = bg;
            self.depth[k] = ONE;
            k = k + 1;
        }
    }

    /// Bring the buffers to the requested dimensions for a new frame:
    /// cleared in place when the size is unchanged, reallocated otherwise.
    /// Returns whether a reallocation happened, so the caller recomputes
    /// what depends on the size exactly once per resize.
    pub fn prepare(&mut self, width: usize, height: usize, bg: u8) -> (resized: bool)
        requires
            old(self).wf(),
            width <= 65535,
            height <= 65535,
        ensures
            final(self).wf(),
            final(self).width == width,
            final(self).height == height,
            final(self)@.cleared(bg),
            resized == !(old(self).width == width && old(self).height == height),
    {
        if self.width == width && self.height == height {
            self.clear(bg);
            false
        } else {
            *self = Frame::new(width, height, bg);
            true
        }
    }

    /// What a depth-tested write leaves in a cell: the glyph and depth are
    /// replaced only when the new depth is strictly below both the sentinel
    /// and the stored depth.
    pub open spec fn write_spec(g0: u8, d0: i64, glyph: u8, z: i64) -> (u8, i64) {
        if z < ONE && z < d0 {
            (glyph, z)
        } else {
            (g0, d0)
        }
    }

    /// Depth-tested write of one cell; every other cell is untouched.
    pub fn write_if_nearer(&mut self, x: usize, y: usize, glyph: u8, z: i64)
        requires
            old(self).wf(),
            x < old(self).width,
            y < old(self).height,
        ensures
            final(self).wf(),
            final(self).width == old(self).width,
            final(self).height == old(self).height,
            forall|i: int, j: int|
                #![trigger old(self)@.glyph_at(i, j)]
                0 <= i < final(self).width && 0 <= j < final(self).height ==> {
                    let (g, d) = Self::write_spec(
                        old(self)@.glyph_at(i, j),
                        old(self)@.depth_at(i, j),
                        glyph,
                        z,
                    );
                    if i == x && j == y {
                        final(self)@.glyph_at(i, j) == g && final(self)@.depth_at(i, j) == d
                    } else {
                        final(self)@.glyph_at(i, j) == old(self)@.glyph_at(i, j)
                            && final(self)@.depth_at(i, j) == old(self)@.depth_at(i, j)
                    }
                },
    {
        proof {
            lemma_idx_bound(x as int, y as int, self.width as int, self.height as int);
        }
        let k = y * self.width + x;
        if z < ONE && z < self.depth[k] {
            self.glyphs[k] = glyph;
            self.depth[k] = z;
        }
        proof {
            let w = self.width as int;
            let h = self.height as int;
            assert forall|i: int, j: int| #![trigger old(self)@.glyph_at(i, j)]
                0 <= i < w && 0 <= j < h && !(i == x && j == y) implies
                self@.idx(i, j) != y * w + x && 0 <= self@.idx(i, j) < self@.glyphs.len() by {
                lemma_idx_bound(i, j, w, h);
            }
        }
    }

    /// The bytes of row y, left to right.
    pub open spec fn row_spec(self, y: int) -> Seq<u8> {
        self@.glyphs.subrange(y * self.width, y * self.width + self.width)
    }

    /// The frame flushed for display: the rows in order, each after the
    /// first preceded by a line break, none before the first row and none
    /// after the last.
    pub open spec fn flush_spec(self, rows: int) -> Seq<u8>
        decreases rows,
    {
        if rows <= 0 {
            Seq::empty()
        } else if rows == 1 {
            self.row_spec(0)
        } else {
            self.flush_spec(rows - 1) + seq![10u8] + self.row_spec(rows - 1)
        }
    }

    /// Flatten the frame into display bytes: rows separated by line breaks.
    pub fn flush_bytes(&self) -> (r: Vec<u8>)
        requires
            self.wf(),
        ensures
            r@ == self.flush_spec(self.height as int),
    {
        let mut out: Vec<u8> = Vec::new();
        let mut y: usize = 0;
        while y < self.height
            invariant
                self.wf(),
                y <= self.height,
                out@ == self.flush_spec(y as int),
            decreases self.height - y,
        {
            proof {
                lemma_row_bound(y as int, self.width as int, self.height as int);
            }
            if y > 0 {
                out.push(10u8);
            }
            let mut x: usize = 0;
            while x < self.width
                invariant
                    self.wf(),
                    y < self.height,
                    x <= self.width,
                    out@ =~= (if y == 0 {
                        self.flush_spec(y as int)
                    } else {
                        self.flush_spec(y as int) + seq![10u8]
                    }) + self@.glyphs.subrange(
                        y as int * self.width as int,
                        y as int * self.width as int + x as int,
                    ),
                decreases self.width - x,
            {
                proof {
                    lemma_idx_bound(x as int, y as int, self.width as int, self.height as int);
                }
                let k = y * self.width + x;
                out.push(self.glyphs[k]);
                proof {
                    assert(self@.glyphs.subrange(
                        y as int * self.width as int,
                        y as int * self.width as int + x as int + 1,
                    ) =~= self@.glyphs.subrange(
                        y as int * self.width as int,
                        y as int * self.width as int + x as int,
                    ).push(self@.glyphs[y as int * self.width as int + x as int]));
                }
                x = x + 1;
            }
            proof {
                if y == 0 {
                    assert(out@ =~= self.flush_spec(y as int + 1));
                } else {
                    assert(out@ =~= self.flush_spec(y as int + 1));
                }
            }
            y = y + 1;
        }
        out
    }
}

} // verus!
