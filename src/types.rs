//! Geometry value types and the dirty-rectangle batcher.

use vstd::prelude::*;

verus! {

/// An axis-aligned region.
#[derive(Clone, Copy, Debug, PartialEq, Eq, Structural)]
pub struct Rect {
    pub x: u32,
    pub y: u32,
    pub width: u32,
    pub height: u32,
}

/// A 2D coordinate.
#[derive(Clone, Copy, Debug, PartialEq, Eq, Structural)]
pub struct Point {
    pub x: u32,
    pub y: u32,
}

/// Dimensions of a surface.
#[derive(Clone, Copy, Debug, PartialEq, Eq, Structural)]
pub struct Size {
    pub width: u32,
    pub height: u32,
}

impl Size {
    /// Number of pixels covered by this size.
    pub open spec fn area(self) -> int {
        self.width * self.height
    }

    /// Returns the linear size (width times height).
    pub fn linear(&self) -> (r: usize)
        requires
            self.area() <= usize::MAX,
        ensures
            r == self.area(),
    {
        proof {
            vstd::arithmetic::mul::lemma_mul_upper_bound(
                self.width as int,
                u32::MAX as int,
                self.height as int,
                u32::MAX as int,
            );
        }
        (self.width as usize) * (self.height as usize)
    }
}

impl Rect {
    /// One past the last column.
    pub open spec fn right(self) -> int {
        self.x + self.width
    }

    /// One past the last row.
    pub open spec fn bottom(self) -> int {
        self.y + self.height
    }

    /// Both far edges are representable as `u32`.
    pub open spec fn fits(self) -> bool {
        self.right() <= u32::MAX && self.bottom() <= u32::MAX
    }

    /// The rectangle lies inside a surface of size `s`.
    pub open spec fn within(self, s: Size) -> bool {
        self.right() <= s.width && self.bottom() <= s.height
    }

    /// `self` covers every pixel of `o`.
    pub open spec fn covers(self, o: Rect) -> bool {
        self.x <= o.x && self.y <= o.y && o.right() <= self.right() && o.bottom() <= self.bottom()
    }

    /// The pixel at column `c`, row `r` lies inside the rectangle.
    pub open spec fn contains(self, c: int, r: int) -> bool {
        self.x <= c < self.right() && self.y <= r < self.bottom()
    }
}

/// Smallest left edge of a non-empty sequence of rectangles.
pub open spec fn min_x(rs: Seq<Rect>) -> int
    decreases rs.len(),
{
    if rs.len() <= 1 {
        rs[0].x as int
    } else {
        let m = min_x(rs.drop_last());
        if rs.last().x < m { rs.last().x as int } else { m }
    }
}

/// Smallest top edge of a non-empty sequence of rectangles.
pub open spec fn min_y(rs: Seq<Rect>) -> int
    decreases rs.len(),
{
    if rs.len() <= 1 {
        rs[0].y as int
    } else {
        let m = min_y(rs.drop_last());
        if rs.last().y < m { rs.last().y as int } else { m }
    }
}

/// Largest right edge of a non-empty sequence of rectangles.
pub open spec fn max_right(rs: Seq<Rect>) -> int
    decreases rs.len(),
{
    if rs.len() <= 1 {
        rs[0].right()
    } else {
        let m = max_right(rs.drop_last());
        if rs.last().right() > m { rs.last().right() } else { m }
    }
}

/// Largest bottom edge of a non-empty sequence of rectangles.
pub open spec fn max_bottom(rs: Seq<Rect>) -> int
    decreases rs.len(),
{
    if rs.len() <= 1 {
        rs[0].bottom()
    } else {
        let m = max_bottom(rs.drop_last());
        if rs.last().bottom() > m { rs.last().bottom() } else { m }
    }
}

/// The smallest rectangle covering every rectangle of a non-empty sequence.
pub open spec fn bounding_box(rs: Seq<Rect>) -> Rect {
    Rect {
        x: min_x(rs) as u32,
        y: min_y(rs) as u32,
        width: (max_right(rs) - min_x(rs)) as u32,
        height: (max_bottom(rs) - min_y(rs)) as u32,
    }
}

/// Every rectangle of the sequence has representable far edges.
pub open spec fn all_fit(rs: Seq<Rect>) -> bool {
    forall|i: int| 0 <= i < rs.len() ==> #[trigger] rs[i].fits()
}

/// Every rectangle of the sequence lies inside a surface of size `s`.
pub open spec fn all_within(rs: Seq<Rect>, s: Size) -> bool {
    forall|i: int| 0 <= i < rs.len() ==> #[trigger] rs[i].within(s)
}

/// The four extremes are attained by members of the sequence and bound all of them.
pub proof fn lemma_extremes(rs: Seq<Rect>)
    requires
        rs.len() > 0,
    ensures
        forall|i: int|
            0 <= i < rs.len() ==> {
                &&& min_x(rs) <= (#[trigger] rs[i]).x
                &&& min_y(rs) <= rs[i].y
                &&& rs[i].right() <= max_right(rs)
                &&& rs[i].bottom() <= max_bottom(rs)
            },
        exists|i: int| 0 <= i < rs.len() && #[trigger] rs[i].x == min_x(rs),
        exists|i: int| 0 <= i < rs.len() && #[trigger] rs[i].y == min_y(rs),
        exists|i: int| 0 <= i < rs.len() && #[trigger] rs[i].right() == max_right(rs),
        exists|i: int| 0 <= i < rs.len() && #[trigger] rs[i].bottom() == max_bottom(rs),
    decreases rs.len(),
{
    if rs.len() > 1 {
        let p = rs.drop_last();
        lemma_extremes(p);
        assert forall|i: int| 0 <= i < p.len() implies #[trigger] rs[i] == p[i] by {}
        let last = rs.len() - 1;
        assert(rs[last] == rs.last());
        let ix = choose|i: int| 0 <= i < p.len() && #[trigger] p[i].x == min_x(p);
        let iy = choose|i: int| 0 <= i < p.len() && #[trigger] p[i].y == min_y(p);
        let ir = choose|i: int| 0 <= i < p.len() && #[trigger] p[i].right() == max_right(p);
        let ib = choose|i: int| 0 <= i < p.len() && #[trigger] p[i].bottom() == max_bottom(p);
        assert(rs[ix] == p[ix] && rs[iy] == p[iy] && rs[ir] == p[ir] && rs[ib] == p[ib]);
        if rs[last].x < min_x(p) {
            assert(rs[last].x == min_x(rs));
        } else {
            assert(rs[ix].x == min_x(rs));
        }
        if rs[last].y < min_y(p) {
            assert(rs[last].y == min_y(rs));
        } else {
            assert(rs[iy].y == min_y(rs));
        }
        if rs[last].right() > max_right(p) {
            assert(rs[last].right() == max_right(rs));
        } else {
            assert(rs[ir].right() == max_right(rs));
        }
        if rs[last].bottom() > max_bottom(p) {
            assert(rs[last].bottom() == max_bottom(rs));
        } else {
            assert(rs[ib].bottom() == max_bottom(rs));
        }
    } else {
        assert(rs[0].x == min_x(rs) && rs[0].y == min_y(rs));
        assert(rs[0].right() == max_right(rs) && rs[0].bottom() == max_bottom(rs));
    }
}

/// The extremes of a non-empty prefix extended by one element.
proof fn lemma_extremes_step(rs: Seq<Rect>, i: int)
    requires
        0 < i < rs.len(),
    ensures
        min_x(rs.take(i + 1)) == if rs[i].x < min_x(rs.take(i)) { rs[i].x as int } else { min_x(rs.take(i)) },
        min_y(rs.take(i + 1)) == if rs[i].y < min_y(rs.take(i)) { rs[i].y as int } else { min_y(rs.take(i)) },
        max_right(rs.take(i + 1)) == if rs[i].right() > max_right(rs.take(i)) { rs[i].right() } else { max_right(rs.take(i)) },
        max_bottom(rs.take(i + 1)) == if rs[i].bottom() > max_bottom(rs.take(i)) { rs[i].bottom() } else { max_bottom(rs.take(i)) },
{
    assert(rs.take(i + 1).drop_last() =~= rs.take(i));
    assert(rs.take(i + 1).last() == rs[i]);
}

/// For every non-empty set of rectangles, the bounding union covers each input
/// rectangle, and its left and top edges are the smallest input left and top edges.
pub proof fn lemma_bounding_union_covers(rs: Seq<Rect>)
    requires
        rs.len() > 0,
        all_fit(rs),
    ensures
        forall|i: int| 0 <= i < rs.len() ==> bounding_box(rs).covers(#[trigger] rs[i]),
        forall|i: int| 0 <= i < rs.len() ==> bounding_box(rs).x <= #[trigger] rs[i].x,
        forall|i: int| 0 <= i < rs.len() ==> bounding_box(rs).y <= #[trigger] rs[i].y,
        exists|i: int| 0 <= i < rs.len() && #[trigger] rs[i].x == bounding_box(rs).x,
        exists|i: int| 0 <= i < rs.len() && #[trigger] rs[i].y == bounding_box(rs).y,
{
    lemma_extremes(rs);
    let ir = choose|i: int| 0 <= i < rs.len() && #[trigger] rs[i].right() == max_right(rs);
    let ib = choose|i: int| 0 <= i < rs.len() && #[trigger] rs[i].bottom() == max_bottom(rs);
    let ix = choose|i: int| 0 <= i < rs.len() && #[trigger] rs[i].x == min_x(rs);
    let iy = choose|i: int| 0 <= i < rs.len() && #[trigger] rs[i].y == min_y(rs);
    assert(rs[ir].fits() && rs[ib].fits());
    assert(rs[ix].x == bounding_box(rs).x);
    assert(rs[iy].y == bounding_box(rs).y);
}

/// The bounding union of a single rectangle is that rectangle.
pub proof fn lemma_bounding_union_single(r: Rect)
    ensures
        bounding_box(seq![r]) == r,
{
    assert(seq![r].len() == 1);
}

impl Rect {
    /// The smallest rectangle covering every rectangle of `rects`: its left and
    /// top edges are the smallest input edges, and it extends to the largest
    /// right and bottom edges.
    pub fn bounding_union(rects: &[Rect]) -> (r: Rect)
        requires
            rects@.len() > 0,
            all_fit(rects@),
        ensures
            r == bounding_box(rects@),
    {
        let ghost rs = rects@;
        assert(rs[0].fits());
        let mut mx: u32 = rects[0].x;
        let mut my: u32 = rects[0].y;
        let mut mr: u32 = rects[0].x + rects[0].width;
        let mut mb: u32 = rects[0].y + rects[0].height;
        assert(rs.take(1) =~= seq![rs[0]]);
        let mut i: usize = 1;
        while i < rects.len()
            invariant
                rs == rects@,
                all_fit(rs),
                1 <= i <= rs.len(),
                mx == min_x(rs.take(i as int)),
                my == min_y(rs.take(i as int)),
                mr == max_right(rs.take(i as int)),
                mb == max_bottom(rs.take(i as int)),
            decreases rs.len() - i,
        {
            proof {
                lemma_extremes_step(rs, i as int);
                assert(rs[i as int].fits());
            }
            let c = rects[i];
            if c.x < mx {
                mx = c.x;
            }
            if c.y < my {
                my = c.y;
            }
            if c.x + c.width > mr {
                mr = c.x + c.width;
            }
            if c.y + c.height > mb {
                mb = c.y + c.height;
            }
            i = i + 1;
        }
        assert(rs.take(i as int) =~= rs);
        proof {
            lemma_extremes(rs);
            assert(rs[0].x >= min_x(rs) && rs[0].right() <= max_right(rs));
            assert(rs[0].y >= min_y(rs) && rs[0].bottom() <= max_bottom(rs));
        }
        Rect { x: mx, y: my, width: mr - mx, height: mb - my }
    }

    /// Batch a set of dirty rectangles into the one rectangle that covers
    /// them all. An empty set becomes the empty rectangle at the far corner
    /// of a surface of size `size`.
    pub fn batch_set(size: &Size, rects: &mut Vec<Self>)
        requires
            all_fit(old(rects)@),
        ensures
            old(rects)@.len() == 0 ==> final(rects)@ == seq![
                Rect { x: size.width, y: size.height, width: 0, height: 0 },
            ],
            old(rects)@.len() > 0 ==> final(rects)@ == seq![bounding_box(old(rects)@)],
            all_within(old(rects)@, *size) ==> all_within(final(rects)@, *size),
    {
        if rects.len() == 0 {
            rects.push(Rect { x: size.width, y: size.height, width: 0, height: 0 });
            return;
        }
        let batched = Rect::bounding_union(rects.as_slice());
        proof {
            lemma_extremes(rects@);
            if all_within(rects@, *size) {
                let ir = choose|i: int| 0 <= i < rects@.len() && #[trigger] rects@[i].right() == max_right(rects@);
                let ib = choose|i: int| 0 <= i < rects@.len() && #[trigger] rects@[i].bottom() == max_bottom(rects@);
                assert(rects@[ir].within(*size) && rects@[ib].within(*size));
                assert(rects@[0].x >= min_x(rects@) && rects@[0].y >= min_y(rects@));
            }
        }
        rects.clear();
        rects.push(batched);
        proof {
            if all_within(old(rects)@, *size) {
                assert(rects@[0].within(*size));
            }
        }
    }
}

} // verus!
