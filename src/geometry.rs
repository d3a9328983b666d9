//! Axis-aligned boxes in fixed-point source-image coordinates, and the
//! overlap measures that suppression is built on.
use vstd::prelude::*;

verus! {

/// Sub-pixel units per source pixel: box coordinates are thousandths of a pixel.
pub const UNITS_PER_PIXEL: i64 = 1000;

/// Largest magnitude a coordinate of a well-formed box may have (2^56).
pub const COORD_LIMIT: i64 = 72057594037927936;

/// An axis-aligned rectangle `[x1, x2] x [y1, y2]`, in thousandths of a
/// source pixel.
#[derive(Clone, Copy, Debug, PartialEq, Eq, Structural)]
pub struct BoundingBox {
    pub x1: i64,
    pub y1: i64,
    pub x2: i64,
    pub y2: i64,
}

pub open spec fn coord_ok(c: i64) -> bool {
    -COORD_LIMIT <= c <= COORD_LIMIT
}

impl BoundingBox {
    /// Coordinates are small enough for exact area arithmetic.
    pub open spec fn wf(&self) -> bool {
        coord_ok(self.x1) && coord_ok(self.y1) && coord_ok(self.x2) && coord_ok(self.y2)
    }
}

/// Length of `[lo, hi]`, clamped at zero when the interval is empty or inverted.
pub open spec fn extent(lo: int, hi: int) -> int {
    if hi > lo {
        hi - lo
    } else {
        0
    }
}

pub open spec fn max_i(a: int, b: int) -> int {
    if a >= b {
        a
    } else {
        b
    }
}

pub open spec fn min_i(a: int, b: int) -> int {
    if a <= b {
        a
    } else {
        b
    }
}

pub open spec fn area_of(b: BoundingBox) -> int {
    extent(b.x1 as int, b.x2 as int) * extent(b.y1 as int, b.y2 as int)
}

pub open spec fn intersection_of(a: BoundingBox, b: BoundingBox) -> int {
    extent(max_i(a.x1 as int, b.x1 as int), min_i(a.x2 as int, b.x2 as int)) * extent(
        max_i(a.y1 as int, b.y1 as int),
        min_i(a.y2 as int, b.y2 as int),
    )
}

pub open spec fn union_of(a: BoundingBox, b: BoundingBox) -> int {
    area_of(a) + area_of(b) - intersection_of(a, b)
}

/// IoU as a fraction `(numerator, denominator)`; boxes whose union is empty
/// have IoU zero.
pub open spec fn iou_fraction(a: BoundingBox, b: BoundingBox) -> (int, int) {
    if union_of(a, b) > 0 {
        (intersection_of(a, b), union_of(a, b))
    } else {
        (0, 1)
    }
}

/// The IoU of `a` and `b` is strictly below 0.7.
pub open spec fn iou_below(a: BoundingBox, b: BoundingBox) -> bool {
    10 * iou_fraction(a, b).0 < 7 * iou_fraction(a, b).1
}


proof fn lemma_product_bound(x: int, y: int)
    requires
        0 <= x <= 2 * COORD_LIMIT,
        0 <= y <= 2 * COORD_LIMIT,
    ensures
        0 <= x * y <= 4 * COORD_LIMIT * COORD_LIMIT,
{
    let l = COORD_LIMIT as int;
    assert(0 <= x * y <= (2 * l) * (2 * l)) by (nonlinear_arith)
        requires
            0 <= x <= 2 * l,
            0 <= y <= 2 * l,
    ;
    assert((2 * l) * (2 * l) == 4 * l * l) by (nonlinear_arith);
}

fn extent_exec(lo: i64, hi: i64) -> (r: i128)
    requires
        coord_ok(lo),
        coord_ok(hi),
    ensures
        r == extent(lo as int, hi as int),
        0 <= r <= 2 * COORD_LIMIT,
{
    if hi > lo {
        (hi as i128) - (lo as i128)
    } else {
        0
    }
}

/// Area of a box; an inverted side counts as zero length.
pub fn area(b: &BoundingBox) -> (r: i128)
    requires
        b.wf(),
    ensures
        r == area_of(*b),
        0 <= r <= 4 * COORD_LIMIT * COORD_LIMIT,
{
    let w = extent_exec(b.x1, b.x2);
    let h = extent_exec(b.y1, b.y2);
    proof {
        lemma_product_bound(w as int, h as int);
    }
    w * h
}

/// Area of the overlap of two boxes, zero when they do not overlap.
pub fn intersection(a: &BoundingBox, b: &BoundingBox) -> (r: i128)
    requires
        a.wf(),
        b.wf(),
    ensures
        r == intersection_of(*a, *b),
        0 <= r <= 4 * COORD_LIMIT * COORD_LIMIT,
{
    let lx = if a.x1 >= b.x1 { a.x1 } else { b.x1 };
    let hx = if a.x2 <= b.x2 { a.x2 } else { b.x2 };
    let ly = if a.y1 >= b.y1 { a.y1 } else { b.y1 };
    let hy = if a.y2 <= b.y2 { a.y2 } else { b.y2 };
    let w = extent_exec(lx, hx);
    let h = extent_exec(ly, hy);
    proof {
        lemma_product_bound(w as int, h as int);
    }
    w * h
}

/// Area covered by either box: `area(a) + area(b) - intersection(a, b)`.
pub fn union(a: &BoundingBox, b: &BoundingBox) -> (r: i128)
    requires
        a.wf(),
        b.wf(),
    ensures
        r == union_of(*a, *b),
        -4 * COORD_LIMIT * COORD_LIMIT <= r <= 8 * COORD_LIMIT * COORD_LIMIT,
{
    area(a) + area(b) - intersection(a, b)
}

/// IoU of two boxes as a fraction with a positive denominator.
pub fn iou_ratio(a: &BoundingBox, b: &BoundingBox) -> (r: (i128, i128))
    requires
        a.wf(),
        b.wf(),
    ensures
        r.0 == iou_fraction(*a, *b).0,
        r.1 == iou_fraction(*a, *b).1,
        0 <= r.0 <= 4 * COORD_LIMIT * COORD_LIMIT,
        0 < r.1 <= 8 * COORD_LIMIT * COORD_LIMIT,
{
    let u = union(a, b);
    if u > 0 {
        (intersection(a, b), u)
    } else {
        (0, 1)
    }
}

/// Whether the IoU of two boxes is strictly below the suppression threshold 0.7.
pub fn iou_below_threshold(a: &BoundingBox, b: &BoundingBox) -> (r: bool)
    requires
        a.wf(),
        b.wf(),
    ensures
        r == iou_below(*a, *b),
{
    let (n, d) = iou_ratio(a, b);
    10 * n < 7 * d
}

/// A box overlaps itself entirely: its intersection and its union with
/// itself are both its area, and a box of zero area has IoU zero with any box.
pub proof fn lemma_self_overlap(b: BoundingBox, other: BoundingBox)
    ensures
        intersection_of(b, b) == area_of(b),
        union_of(b, b) == area_of(b),
        area_of(b) == 0 ==> iou_fraction(b, other).0 == 0 && iou_fraction(other, b).0 == 0,
        iou_fraction(b, other).1 > 0,
{
    let ex = extent(b.x1 as int, b.x2 as int);
    let ey = extent(b.y1 as int, b.y2 as int);
    let ox = extent(max_i(b.x1 as int, other.x1 as int), min_i(b.x2 as int, other.x2 as int));
    let oy = extent(max_i(b.y1 as int, other.y1 as int), min_i(b.y2 as int, other.y2 as int));
    if ex * ey == 0 {
        assert(ex == 0 || ey == 0) by (nonlinear_arith)
            requires
                ex * ey == 0,
        ;
        assert(ox == 0 || oy == 0);
        assert(ox * oy == 0) by (nonlinear_arith)
            requires
                ox == 0 || oy == 0,
        ;
        assert(intersection_of(other, b) == ox * oy);
    }
}

/// IoU does not depend on the order of the two boxes.
pub proof fn lemma_iou_symmetric(a: BoundingBox, b: BoundingBox)
    ensures
        intersection_of(a, b) == intersection_of(b, a),
        union_of(a, b) == union_of(b, a),
        iou_below(a, b) == iou_below(b, a),
{
}

} // verus!
