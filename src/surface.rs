//! The mirrored pixel surface.

use vstd::prelude::*;
use crate::types::{Rect, Size};

verus! {

/// A pixel with its alpha byte forced to fully opaque.
pub open spec fn opaque(p: u32) -> u32 {
    (p & 0x00ff_ffffu32) | 0xff00_0000u32
}

/// The pixel at column `c`, row `r` of a row-major buffer of row length `w`.
pub open spec fn px(buf: Seq<u32>, w: int, c: int, r: int) -> u32 {
    buf[r * w + c]
}

/// Offset within a rectangle's row-major data of the surface pixel at column `c`, row `r`.
pub open spec fn offset_in(rect: Rect, c: int, r: int) -> int {
    (r - rect.y) * rect.width + (c - rect.x)
}

/// A blit of `data` into `rect` is accepted on a surface of size `s`.
pub open spec fn blit_accepted(s: Size, rect: Rect, data_len: int) -> bool {
    rect.within(s) && data_len >= rect.width * rect.height
}

/// The buffer `old` of a surface of size `s` after `data` was blitted into `rect`.
pub open spec fn blit_result(old: Seq<u32>, s: Size, rect: Rect, data: Seq<u32>) -> Seq<u32> {
    Seq::new(
        old.len(),
        |i: int|
            if rect.contains(i % (s.width as int), i / (s.width as int)) {
                opaque(data[offset_in(rect, i % (s.width as int), i / (s.width as int))])
            } else {
                old[i]
            },
    )
}

/// The pixels of `buf` (a surface of row length `w`) inside `rect`, row-major.
pub open spec fn region(buf: Seq<u32>, w: int, rect: Rect) -> Seq<u32> {
    Seq::new(
        (rect.width * rect.height) as nat,
        |k: int| px(buf, w, rect.x + k % (rect.width as int), rect.y + k / (rect.width as int)),
    )
}

/// Reading back the rectangle that a successful blit wrote gives the blitted
/// data, each pixel with its alpha byte forced to 0xff.
pub proof fn lemma_blit_read_back(old: Seq<u32>, s: Size, rect: Rect, data: Seq<u32>)
    requires
        old.len() == s.area(),
        blit_accepted(s, rect, data.len() as int),
    ensures
        region(blit_result(old, s, rect, data), s.width as int, rect) == data.take(
            rect.width * rect.height,
        ).map_values(|p: u32| opaque(p)),
{
    let ww = s.width as int;
    let hh = s.height as int;
    let rw = rect.width as int;
    let n = rect.width * rect.height;
    let got = region(blit_result(old, s, rect, data), ww, rect);
    let want = data.take(n).map_values(|p: u32| opaque(p));
    assert forall|k: int| 0 <= k < n implies got[k] == want[k] by {
        if rw <= 0 {
            assert(rw * rect.height <= 0) by (nonlinear_arith)
                requires rw <= 0, rect.height >= 0;
        }
        lemma_flat_index_split(rw, k);
        let dc = k % rw;
        let dr = k / rw;
        if dr >= rect.height {
            assert(dr * rw >= rect.height * rw) by (nonlinear_arith)
                requires dr >= rect.height, rw >= 0;
            assert(rect.height * rw == rw * rect.height) by (nonlinear_arith);
        }
        let c = rect.x + dc;
        let r = rect.y + dr;
        lemma_flat_index_bound(ww, hh, c, r);
        lemma_flat_index_parts(ww, c, r);
        assert(offset_in(rect, c, r) == k);
    }
    assert(got =~= want);
}

/// A buffer of `n` zero pixels.
pub open spec fn zeroed(n: nat) -> Seq<u32> {
    Seq::new(n, |i: int| 0u32)
}

/// After a resize to `size`, the buffer holds exactly width times height
/// pixels, all zero.
pub proof fn lemma_resize_zeroed(size: Size)
    ensures
        zeroed(size.area() as nat).len() == size.width * size.height,
        forall|i: int| 0 <= i < size.width * size.height ==> #[trigger] zeroed(size.area() as nat)[i] == 0,
{
    assert(size.area() >= 0) by (nonlinear_arith)
        requires size.width >= 0, size.height >= 0;
}

/// Errors of surface mutation.
#[derive(Clone, Copy, Debug, PartialEq, Eq, Structural)]
pub enum SurfaceError {
    /// The rectangle exceeds the surface, or the data does not fill it.
    OutOfBounds,
}

/// A surface of 32-bit pixels (0xAARRGGBB), stored row-major.
pub struct Surface {
    buffer: Vec<u32>,
    size: Size,
}

/// Row `r`, column `c` of a `w`-wide grid sits at a unique flat index.
pub proof fn lemma_flat_index_unique(w: int, c1: int, r1: int, c2: int, r2: int)
    requires
        0 <= c1 < w,
        0 <= c2 < w,
        r1 * w + c1 == r2 * w + c2,
    ensures
        r1 == r2,
        c1 == c2,
{
    if r1 < r2 {
        assert((r2 - r1) * w >= w) by (nonlinear_arith)
            requires r2 - r1 >= 1, w > 0;
        assert(r2 * w - r1 * w == (r2 - r1) * w) by (nonlinear_arith);
    } else if r2 < r1 {
        assert((r1 - r2) * w >= w) by (nonlinear_arith)
            requires r1 - r2 >= 1, w > 0;
        assert(r1 * w - r2 * w == (r1 - r2) * w) by (nonlinear_arith);
    }
}

/// A cell of a `w` by `h` grid has a flat index below `w * h`.
pub proof fn lemma_flat_index_bound(w: int, h: int, c: int, r: int)
    requires
        0 <= c < w,
        0 <= r < h,
    ensures
        0 <= r * w + c < w * h,
{
    assert(0 <= r * w) by (nonlinear_arith)
        requires 0 <= r, 0 <= w;
    assert(r * w + c < (r + 1) * w) by (nonlinear_arith)
        requires c < w;
    assert((r + 1) * w <= h * w) by (nonlinear_arith)
        requires r + 1 <= h, 0 <= w;
    assert(h * w == w * h) by (nonlinear_arith);
}

/// A flat index of a `w`-wide grid splits into its column and row.
pub proof fn lemma_flat_index_split(w: int, i: int)
    requires
        0 < w,
        0 <= i,
    ensures
        0 <= i % w < w,
        0 <= i / w,
        i == (i / w) * w + i % w,
{
    vstd::arithmetic::div_mod::lemma_fundamental_div_mod(i, w);
    vstd::arithmetic::div_mod::lemma_mod_bound(i, w);
    vstd::arithmetic::div_mod::lemma_div_pos_is_pos(i, w);
    assert(w * (i / w) == (i / w) * w) by (nonlinear_arith);
}

/// The column and row recovered from a flat index are the ones it was built from.
pub proof fn lemma_flat_index_parts(w: int, c: int, r: int)
    requires
        0 <= c < w,
        0 <= r,
    ensures
        (r * w + c) % w == c,
        (r * w + c) / w == r,
{
    assert(0 <= r * w) by (nonlinear_arith)
        requires 0 <= r, 0 <= w;
    lemma_flat_index_split(w, r * w + c);
    lemma_flat_index_unique(w, c, r, (r * w + c) % w, (r * w + c) / w);
}

impl Surface {
    #[verifier::type_invariant]
    spec fn inv(&self) -> bool {
        self.buffer@.len() == self.size.area()
    }

    /// The surface's dimensions.
    pub closed spec fn spec_size(&self) -> Size {
        self.size
    }

    /// The surface's pixels, row-major.
    pub closed spec fn pixels(&self) -> Seq<u32> {
        self.buffer@
    }

    /// An empty surface of size 0x0.
    pub fn new() -> (r: Self)
        ensures
            r.spec_size() == (Size { width: 0, height: 0 }),
            r.pixels() == Seq::<u32>::empty(),
    {
        Surface { buffer: Vec::new(), size: Size { width: 0, height: 0 } }
    }

    /// The surface's dimensions.
    pub fn size(&self) -> (r: Size)
        ensures
            r == self.spec_size(),
    {
        self.size
    }

    /// Reallocates the buffer for `size`, all pixels zero. Prior contents are discarded.
    pub fn resize(&mut self, size: Size)
        requires
            size.area() <= usize::MAX,
        ensures
            final(self).spec_size() == size,
            final(self).pixels() == zeroed(size.area() as nat),
    {
        let n = size.linear();
        let buffer: Vec<u32> = vec![0u32; n];
        assert(buffer@ =~= zeroed(size.area() as nat));
        *self = Surface { buffer, size };
    }

    /// The surface's pixels, row-major.
    pub fn get_buffer(&self) -> (r: &[u32])
        ensures
            r@ == self.pixels(),
            r@.len() == self.spec_size().area(),
    {
        proof {
            use_type_invariant(self);
        }
        self.buffer.as_slice()
    }

    /// Copies `data` (row-major, `src_at.width` pixels per row) into the
    /// rectangle `src_at`, forcing the alpha byte of every written pixel to
    /// 0xff. Fails with `OutOfBounds`, leaving the surface unchanged, when the
    /// rectangle exceeds the surface or `data` holds fewer than
    /// `src_at.width * src_at.height` pixels.
    pub fn blit_buffer(&mut self, src_at: Rect, data: &[u32]) -> (r: Result<(), SurfaceError>)
        ensures
            final(self).spec_size() == old(self).spec_size(),
            r is Ok <==> blit_accepted(old(self).spec_size(), src_at, data@.len() as int),
            r is Ok ==> final(self).pixels() == blit_result(
                old(self).pixels(),
                old(self).spec_size(),
                src_at,
                data@,
            ),
            r is Err ==> r == Err::<(), SurfaceError>(SurfaceError::OutOfBounds) && final(self).pixels()
                == old(self).pixels(),
            final(self).pixels().len() == final(self).spec_size().area(),
    {
        proof {
            use_type_invariant(&*self);
        }
        let size = self.size;
        if src_at.x as u64 + src_at.width as u64 > size.width as u64 || src_at.y as u64
            + src_at.height as u64 > size.height as u64 {
            return Err(SurfaceError::OutOfBounds);
        }
        proof {
            vstd::arithmetic::mul::lemma_mul_upper_bound(
                src_at.width as int,
                u32::MAX as int,
                src_at.height as int,
                u32::MAX as int,
            );
        }
        if (data.len() as u64) < (src_at.width as u64) * (src_at.height as u64) {
            return Err(SurfaceError::OutOfBounds);
        }
        let ghost old_buf = self.buffer@;
        let buf_len = self.buffer.len();
        let data_len = data.len();
        let ghost ww = size.width as int;
        let ghost hh = size.height as int;
        let wd = size.width as usize;
        let rw = src_at.width as usize;
        let mut yy: u32 = 0;
        let rows = if src_at.width == 0 { 0 } else { src_at.height };
        while yy < rows
            invariant
                rows == 0 || rows == src_at.height,
                rows > 0 ==> src_at.width > 0,
                buf_len == old_buf.len(),
                data_len == data@.len(),
                self.size == size,
                self.buffer@.len() == old_buf.len(),
                old_buf.len() == ww * hh,
                ww == size.width,
                hh == size.height,
                wd == ww,
                rw == src_at.width,
                src_at.within(size),
                data@.len() >= src_at.width * src_at.height,
                yy <= rows,
                forall|c: int, r: int|
                    0 <= c < ww && 0 <= r < hh ==> #[trigger] px(self.buffer@, ww, c, r) == if src_at.contains(c, r)
                        && r < src_at.y + yy {
                        opaque(data@[offset_in(src_at, c, r)])
                    } else {
                        px(old_buf, ww, c, r)
                    },
            decreases rows - yy,
        {
            let ghost yr = src_at.y + yy;
            proof {
                lemma_flat_index_bound(ww, hh, src_at.x as int, yr);
                lemma_flat_index_bound(
                    src_at.width as int,
                    src_at.height as int,
                    0,
                    yy as int,
                );
            }
            let row_start = (src_at.y + yy) as usize * wd + src_at.x as usize;
            let data_start = yy as usize * rw;
            let mut xx: u32 = 0;
            while xx < src_at.width
                invariant
                    src_at.width > 0,
                    buf_len == old_buf.len(),
                    data_len == data@.len(),
                    self.size == size,
                    self.buffer@.len() == old_buf.len(),
                    old_buf.len() == ww * hh,
                    ww == size.width,
                    hh == size.height,
                    wd == ww,
                    rw == src_at.width,
                    src_at.within(size),
                    data@.len() >= src_at.width * src_at.height,
                    yy < src_at.height,
                    yr == src_at.y + yy,
                    row_start == yr * ww + src_at.x,
                    data_start == yy * src_at.width,
                    xx <= src_at.width,
                    forall|c: int, r: int|
                        0 <= c < ww && 0 <= r < hh ==> #[trigger] px(self.buffer@, ww, c, r) == if src_at.contains(c, r)
                            && (r < yr || (r == yr && c < src_at.x + xx)) {
                            opaque(data@[offset_in(src_at, c, r)])
                        } else {
                            px(old_buf, ww, c, r)
                        },
                decreases src_at.width - xx,
            {
                let ghost xc = src_at.x + xx;
                proof {
                    lemma_flat_index_bound(ww, hh, xc, yr);
                    lemma_flat_index_bound(src_at.width as int, src_at.height as int, xx as int, yy as int);
                    assert(offset_in(src_at, xc, yr) == yy * src_at.width + xx);
                }
                let v = data[data_start + xx as usize];
                let ghost before = self.buffer@;
                self.buffer[row_start + xx as usize] = (v & 0x00ff_ffffu32) | 0xff00_0000u32;
                proof {
                    assert forall|c: int, r: int| 0 <= c < ww && 0 <= r < hh implies #[trigger] px(
                        self.buffer@,
                        ww,
                        c,
                        r,
                    ) == if src_at.contains(c, r) && (r < yr || (r == yr && c < xc + 1)) {
                        opaque(data@[offset_in(src_at, c, r)])
                    } else {
                        px(old_buf, ww, c, r)
                    } by {
                        if c == xc && r == yr {
                        } else {
                            if r * ww + c == yr * ww + xc {
                                lemma_flat_index_unique(ww, c, r, xc, yr);
                            }
                            lemma_flat_index_bound(ww, hh, c, r);
                            assert(px(before, ww, c, r) == px(self.buffer@, ww, c, r));
                        }
                    }
                }
                xx = xx + 1;
            }
            yy = yy + 1;
        }
        proof {
            let nb = self.buffer@;
            if rows == 0 && src_at.width > 0 {
                assert(src_at.height == 0);
            }
            let br = blit_result(old_buf, size, src_at, data@);
            assert forall|i: int| 0 <= i < nb.len() implies nb[i] == br[i] by {
                if ww <= 0 {
                    assert(ww * hh <= 0) by (nonlinear_arith)
                        requires ww <= 0, hh >= 0;
                }
                lemma_flat_index_split(ww, i);
                let c = i % ww;
                let r = i / ww;
                if r >= hh {
                    assert(r * ww >= hh * ww) by (nonlinear_arith)
                        requires r >= hh, ww >= 0;
                    assert(hh * ww == ww * hh) by (nonlinear_arith);
                }
                assert(px(nb, ww, c, r) == nb[i]);
            }
            assert(nb =~= br);
        }
        Ok(())
    }

    /// An owned copy of the pixels inside `rect`, row-major. Fails with
    /// `OutOfBounds` when the rectangle exceeds the surface.
    pub fn snapshot(&self, rect: Rect) -> (r: Result<Vec<u32>, SurfaceError>)
        ensures
            r is Ok <==> rect.within(self.spec_size()),
            r matches Ok(v) ==> v@ == region(self.pixels(), self.spec_size().width as int, rect),
            r is Err ==> r == Err::<Vec<u32>, SurfaceError>(SurfaceError::OutOfBounds),
    {
        proof {
            use_type_invariant(self);
        }
        let size = self.size;
        if rect.x as u64 + rect.width as u64 > size.width as u64 || rect.y as u64 + rect.height as u64
            > size.height as u64 {
            return Err(SurfaceError::OutOfBounds);
        }
        let ghost buf = self.buffer@;
        let ghost ww = size.width as int;
        let ghost hh = size.height as int;
        let ghost rw = rect.width as int;
        let buf_len = self.buffer.len();
        let wd = size.width as usize;
        let mut out: Vec<u32> = Vec::new();
        let rows = if rect.width == 0 { 0 } else { rect.height };
        let mut yy: u32 = 0;
        while yy < rows
            invariant
                rows == 0 || rows == rect.height,
                rows > 0 ==> rect.width > 0,
                buf == self.buffer@,
                buf_len == buf.len(),
                buf.len() == ww * hh,
                ww == size.width,
                hh == size.height,
                rw == rect.width,
                wd == ww,
                rect.within(size),
                yy <= rows,
                out@.len() == yy * rw,
                forall|k: int|
                    0 <= k < out@.len() ==> #[trigger] out@[k] == px(buf, ww, rect.x + k % rw, rect.y + k / rw),
            decreases rows - yy,
        {
            let ghost yr = rect.y + yy;
            proof {
                lemma_flat_index_bound(ww, hh, rect.x as int, yr);
            }
            let row_start = (rect.y + yy) as usize * wd + rect.x as usize;
            let mut xx: u32 = 0;
            while xx < rect.width
                invariant
                    rect.width > 0,
                    buf == self.buffer@,
                    buf_len == buf.len(),
                    buf.len() == ww * hh,
                    ww == size.width,
                    hh == size.height,
                    rw == rect.width,
                    wd == ww,
                    rect.within(size),
                    yy < rows,
                    rows == rect.height,
                    yr == rect.y + yy,
                    row_start == yr * ww + rect.x,
                    xx <= rect.width,
                    out@.len() == yy * rw + xx,
                    forall|k: int|
                        0 <= k < out@.len() ==> #[trigger] out@[k] == px(buf, ww, rect.x + k % rw, rect.y + k / rw),
                decreases rect.width - xx,
            {
                proof {
                    lemma_flat_index_bound(ww, hh, rect.x + xx, yr);
                    lemma_flat_index_parts(rw, xx as int, yy as int);
                }
                let v = self.buffer[row_start + xx as usize];
                out.push(v);
                xx = xx + 1;
            }
            proof {
                assert(yy * rw + rw == (yy + 1) * rw) by (nonlinear_arith);
            }
            yy = yy + 1;
        }
        proof {
            if rows == 0 && rect.width > 0 {
                assert(rect.height == 0);
            }
            if rw == 0 {
                assert(rw * rect.height == 0);
            }
            assert(yy * rw == rw * rect.height) by (nonlinear_arith)
                requires yy == rect.height || rw == 0, rw == rect.width;
            assert(out@ =~= region(buf, ww, rect));
        }
        Ok(out)
    }
}

} // verus!
