//! Axis-aligned rectangles in longitude and latitude, and the overlap test
//! that every spatial filter of the crate uses.

use vstd::prelude::*;

verus! {

/// A coordinate on one axis. The crate only ever compares ordinates, so any
/// encoding of degrees that keeps their order can be used by a caller.
pub type Ordinate = i64;

/// An axis-aligned bounding box: `x` runs along the longitude, `y` along the
/// latitude.
#[derive(Clone, Copy, Debug, PartialEq, Eq, Structural)]
pub struct Bbox {
    pub xmin: Ordinate,
    pub ymin: Ordinate,
    pub xmax: Ordinate,
    pub ymax: Ordinate,
}

/// Two boxes overlap when their projections meet on both axes; touching at an
/// edge or a corner counts.
pub open spec fn overlaps(a: Bbox, b: Bbox) -> bool {
    &&& a.xmin <= b.xmax
    &&& a.xmax >= b.xmin
    &&& a.ymin <= b.ymax
    &&& a.ymax >= b.ymin
}

/// The rectangle without area that stands for the single point `(x, y)`.
pub open spec fn point_box(x: Ordinate, y: Ordinate) -> Bbox {
    Bbox { xmin: x, ymin: y, xmax: x, ymax: y }
}

/// The smallest rectangle that holds both corners, whichever way round they
/// are given.
pub open spec fn corner_box(x1: Ordinate, y1: Ordinate, x2: Ordinate, y2: Ordinate) -> Bbox {
    Bbox {
        xmin: if x1 <= x2 { x1 } else { x2 },
        ymin: if y1 <= y2 { y1 } else { y2 },
        xmax: if x1 <= x2 { x2 } else { x1 },
        ymax: if y1 <= y2 { y2 } else { y1 },
    }
}

/// Some box of `boxes` overlaps `query`.
pub open spec fn any_overlaps(boxes: Seq<Bbox>, query: Bbox) -> bool {
    exists|i: int| 0 <= i < boxes.len() && overlaps(#[trigger] boxes[i], query)
}

impl Bbox {
    /// The box with the given sides.
    pub fn new(xmin: Ordinate, ymin: Ordinate, xmax: Ordinate, ymax: Ordinate) -> (r: Bbox)
        ensures
            r == (Bbox { xmin, ymin, xmax, ymax }),
    {
        Bbox { xmin, ymin, xmax, ymax }
    }

    /// The degenerate box of one point.
    pub fn point(x: Ordinate, y: Ordinate) -> (r: Bbox)
        ensures
            r == point_box(x, y),
    {
        Bbox { xmin: x, ymin: y, xmax: x, ymax: y }
    }

    /// The box spanned by two opposite corners, normalised on each axis.
    pub fn from_corners(x1: Ordinate, y1: Ordinate, x2: Ordinate, y2: Ordinate) -> (r: Bbox)
        ensures
            r == corner_box(x1, y1, x2, y2),
            r.xmin <= r.xmax,
            r.ymin <= r.ymax,
    {
        Bbox {
            xmin: if x1 <= x2 { x1 } else { x2 },
            ymin: if y1 <= y2 { y1 } else { y2 },
            xmax: if x1 <= x2 { x2 } else { x1 },
            ymax: if y1 <= y2 { y2 } else { y1 },
        }
    }

    /// Whether this box and `other` overlap.
    pub fn overlaps(&self, other: &Bbox) -> (r: bool)
        ensures
            r == overlaps(*self, *other),
    {
        self.xmin <= other.xmax && self.xmax >= other.xmin && self.ymin <= other.ymax
            && self.ymax >= other.ymin
    }
}

/// Whether any box of `boxes` overlaps `query`.
pub fn any_bbox_overlaps(boxes: &Vec<Bbox>, query: &Bbox) -> (r: bool)
    ensures
        r == any_overlaps(boxes@, *query),
{
    let mut i: usize = 0;
    while i < boxes.len()
        invariant
            i <= boxes.len(),
            forall|j: int| 0 <= j < i ==> !overlaps(#[trigger] boxes@[j], *query),
        decreases boxes.len() - i,
    {
        if boxes[i].overlaps(query) {
            return true;
        }
        i += 1;
    }
    false
}

/// Overlap does not depend on the order of the two boxes.
pub proof fn lemma_overlaps_symmetric(a: Bbox, b: Bbox)
    ensures
        overlaps(a, b) == overlaps(b, a),
{
}

/// A point is a rectangle without area: a box overlaps it exactly when the
/// box holds the point, its border included.
pub proof fn lemma_point_overlap_is_containment(b: Bbox, x: Ordinate, y: Ordinate)
    ensures
        overlaps(b, point_box(x, y)) <==> (b.xmin <= x <= b.xmax && b.ymin <= y <= b.ymax),
        corner_box(x, y, x, y) == point_box(x, y),
{
}

} // verus!
