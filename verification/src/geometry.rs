//! Points, rectangles and display layout in virtual-desktop space.

use vstd::prelude::*;

verus! {

/// A position in integer pixel coordinates.
#[derive(Clone, Copy, Debug, PartialEq, Eq, Structural)]
pub struct Point {
    pub x: i32,
    pub y: i32,
}

/// One display: where it sits in virtual-desktop space and how large it is.
#[derive(Clone, Copy, Debug, PartialEq, Eq, Structural)]
pub struct DisplayDescriptor {
    /// Left edge in virtual-desktop space; may be negative.
    pub x: i32,
    /// Top edge in virtual-desktop space; may be negative.
    pub y: i32,
    pub width: u32,
    pub height: u32,
}

impl DisplayDescriptor {
    pub open spec fn left(self) -> int {
        self.x as int
    }

    pub open spec fn top(self) -> int {
        self.y as int
    }

    pub open spec fn right(self) -> int {
        self.x + self.width
    }

    pub open spec fn bottom(self) -> int {
        self.y + self.height
    }

    /// Whether the virtual-desktop position `(x, y)` lies on this display.
    pub open spec fn covers(self, x: int, y: int) -> bool {
        self.left() <= x < self.right() && self.top() <= y < self.bottom()
    }
}

pub open spec fn min_int(a: int, b: int) -> int {
    if a <= b { a } else { b }
}

pub open spec fn max_int(a: int, b: int) -> int {
    if a >= b { a } else { b }
}

/// Smallest left edge of `ds`; `i32::MAX` when there is none.
pub open spec fn min_left(ds: Seq<DisplayDescriptor>) -> int
    decreases ds.len(),
{
    if ds.len() == 0 {
        i32::MAX as int
    } else {
        min_int(min_left(ds.drop_last()), ds.last().left())
    }
}

/// Smallest top edge of `ds`; `i32::MAX` when there is none.
pub open spec fn min_top(ds: Seq<DisplayDescriptor>) -> int
    decreases ds.len(),
{
    if ds.len() == 0 {
        i32::MAX as int
    } else {
        min_int(min_top(ds.drop_last()), ds.last().top())
    }
}

/// Largest right edge of `ds`; `i32::MIN` when there is none.
pub open spec fn max_right(ds: Seq<DisplayDescriptor>) -> int
    decreases ds.len(),
{
    if ds.len() == 0 {
        i32::MIN as int
    } else {
        max_int(max_right(ds.drop_last()), ds.last().right())
    }
}

/// Largest bottom edge of `ds`; `i32::MIN` when there is none.
pub open spec fn max_bottom(ds: Seq<DisplayDescriptor>) -> int
    decreases ds.len(),
{
    if ds.len() == 0 {
        i32::MIN as int
    } else {
        max_int(max_bottom(ds.drop_last()), ds.last().bottom())
    }
}

/// Smallest height among `ds`; `u32::MAX` when there is none.
pub open spec fn min_height(ds: Seq<DisplayDescriptor>) -> int
    decreases ds.len(),
{
    if ds.len() == 0 {
        u32::MAX as int
    } else {
        min_int(min_height(ds.drop_last()), ds.last().height as int)
    }
}

/// The bounding rectangle of a set of displays, with the smallest height
/// found among them.
#[derive(Clone, Copy, Debug, PartialEq, Eq, Structural)]
pub struct Bounds {
    pub min_x: i32,
    pub min_y: i32,
    pub max_x: i64,
    pub max_y: i64,
    pub min_height: u32,
}

impl Bounds {
    /// Whether this is the bounding rectangle of `ds`.
    pub open spec fn bounds_of(self, ds: Seq<DisplayDescriptor>) -> bool {
        &&& self.min_x == min_left(ds)
        &&& self.min_y == min_top(ds)
        &&& self.max_x == max_right(ds)
        &&& self.max_y == max_bottom(ds)
        &&& self.min_height == min_height(ds)
    }
}

/// The extremes of a set of displays bound every member of it, and each is
/// reached by some member: the rectangle they span is the smallest that holds
/// all the displays.
pub proof fn lemma_bounds_are_tight(ds: Seq<DisplayDescriptor>)
    requires
        ds.len() > 0,
    ensures
        forall|i: int|
            0 <= i < ds.len() ==> {
                &&& min_left(ds) <= (#[trigger] ds[i]).left()
                &&& min_top(ds) <= ds[i].top()
                &&& ds[i].right() <= max_right(ds)
                &&& ds[i].bottom() <= max_bottom(ds)
                &&& min_height(ds) <= ds[i].height
            },
        exists|i: int| 0 <= i < ds.len() && (#[trigger] ds[i]).left() == min_left(ds),
        exists|i: int| 0 <= i < ds.len() && (#[trigger] ds[i]).top() == min_top(ds),
        exists|i: int| 0 <= i < ds.len() && (#[trigger] ds[i]).right() == max_right(ds),
        exists|i: int| 0 <= i < ds.len() && (#[trigger] ds[i]).bottom() == max_bottom(ds),
        exists|i: int| 0 <= i < ds.len() && (#[trigger] ds[i]).height == min_height(ds),
    decreases ds.len(),
{
    let n = ds.len() - 1;
    let init = ds.drop_last();
    let d = ds[n];
    assert(d == ds.last());
    if init.len() == 0 {
        assert(min_left(init) == i32::MAX && min_top(init) == i32::MAX);
        assert(max_right(init) == i32::MIN && max_bottom(init) == i32::MIN);
        assert(min_height(init) == u32::MAX);
        assert(d.left() == min_left(ds) && d.top() == min_top(ds));
        assert(d.right() == max_right(ds) && d.bottom() == max_bottom(ds));
        assert(d.height == min_height(ds));
    } else {
        lemma_bounds_are_tight(init);
        assert(forall|i: int| 0 <= i < init.len() ==> init[i] == ds[i]);
        let a = choose|i: int| 0 <= i < init.len() && (#[trigger] init[i]).left() == min_left(init);
        let b = choose|i: int| 0 <= i < init.len() && (#[trigger] init[i]).top() == min_top(init);
        let c = choose|i: int| 0 <= i < init.len() && (#[trigger] init[i]).right() == max_right(init);
        let e = choose|i: int| 0 <= i < init.len() && (#[trigger] init[i]).bottom() == max_bottom(init);
        let f = choose|i: int| 0 <= i < init.len() && (#[trigger] init[i]).height == min_height(init);
        let a2 = if d.left() <= min_left(init) { n } else { a };
        let b2 = if d.top() <= min_top(init) { n } else { b };
        let c2 = if d.right() >= max_right(init) { n } else { c };
        let e2 = if d.bottom() >= max_bottom(init) { n } else { e };
        let f2 = if d.height <= min_height(init) { n } else { f };
        assert(0 <= a2 < ds.len() && ds[a2].left() == min_left(ds));
        assert(0 <= b2 < ds.len() && ds[b2].top() == min_top(ds));
        assert(0 <= c2 < ds.len() && ds[c2].right() == max_right(ds));
        assert(0 <= e2 < ds.len() && ds[e2].bottom() == max_bottom(ds));
        assert(0 <= f2 < ds.len() && ds[f2].height == min_height(ds));
    }
}

/// Computes the bounding rectangle of `displays` and their smallest height.
pub fn bounding_box(displays: &[DisplayDescriptor]) -> (b: Bounds)
    ensures
        b.bounds_of(displays@),
{
    let mut b = Bounds {
        min_x: i32::MAX,
        min_y: i32::MAX,
        max_x: -2147483648i64,
        max_y: -2147483648i64,
        min_height: u32::MAX,
    };
    let mut i: usize = 0;
    while i < displays.len()
        invariant
            i <= displays@.len(),
            b.bounds_of(displays@.take(i as int)),
        decreases displays@.len() - i,
    {
        let d = displays[i];
        proof {
            let next = displays@.take(i + 1);
            assert(next.drop_last() =~= displays@.take(i as int));
            assert(next.last() == d);
            lemma_edges_in_range(displays@.take(i as int));
        }
        let right: i64 = d.x as i64 + d.width as i64;
        let bottom: i64 = d.y as i64 + d.height as i64;
        if d.x < b.min_x {
            b.min_x = d.x;
        }
        if d.y < b.min_y {
            b.min_y = d.y;
        }
        if right > b.max_x {
            b.max_x = right;
        }
        if bottom > b.max_y {
            b.max_y = bottom;
        }
        if d.height < b.min_height {
            b.min_height = d.height;
        }
        i += 1;
    }
    proof {
        assert(displays@.take(displays@.len() as int) =~= displays@);
    }
    b
}

/// The extremes of any set of displays stay within the range that the
/// coordinates' types allow.
pub proof fn lemma_edges_in_range(ds: Seq<DisplayDescriptor>)
    ensures
        i32::MIN <= min_left(ds) <= i32::MAX,
        i32::MIN <= min_top(ds) <= i32::MAX,
        i32::MIN <= max_right(ds) <= i32::MAX + u32::MAX,
        i32::MIN <= max_bottom(ds) <= i32::MAX + u32::MAX,
        0 <= min_height(ds) <= u32::MAX,
    decreases ds.len(),
{
    if ds.len() > 0 {
        lemma_edges_in_range(ds.drop_last());
    }
}


/// The rectangle that a drag selects, by its top-left and bottom-right
/// corners in frame coordinates.
#[derive(Clone, Copy, Debug, PartialEq, Eq, Structural)]
pub struct SelectionRect {
    pub min: Point,
    pub max: Point,
}

impl SelectionRect {
    /// Distance from the left to the right edge.
    pub open spec fn spec_width(self) -> int {
        self.max.x - self.min.x
    }

    /// Distance from the top to the bottom edge.
    pub open spec fn spec_height(self) -> int {
        self.max.y - self.min.y
    }

    /// The axis-aligned bounding box of two points.
    pub open spec fn spanning(a: Point, b: Point) -> SelectionRect {
        SelectionRect {
            min: Point { x: min_int(a.x as int, b.x as int) as i32, y: min_int(a.y as int, b.y as int) as i32 },
            max: Point { x: max_int(a.x as int, b.x as int) as i32, y: max_int(a.y as int, b.y as int) as i32 },
        }
    }

    /// No corner lies left of or above the `min` corner.
    pub open spec fn normalized(self) -> bool {
        self.min.x <= self.max.x && self.min.y <= self.max.y
    }

    /// The rectangle between two corners of a drag, whichever way the drag
    /// went.
    pub fn from_two_pos(a: Point, b: Point) -> (r: SelectionRect)
        ensures
            r == Self::spanning(a, b),
            r.normalized(),
    {
        SelectionRect {
            min: Point { x: if a.x <= b.x { a.x } else { b.x }, y: if a.y <= b.y { a.y } else { b.y } },
            max: Point { x: if a.x >= b.x { a.x } else { b.x }, y: if a.y >= b.y { a.y } else { b.y } },
        }
    }

    pub fn width(&self) -> (w: i64)
        ensures
            w == self.spec_width(),
    {
        self.max.x as i64 - self.min.x as i64
    }

    pub fn height(&self) -> (h: i64)
        ensures
            h == self.spec_height(),
    {
        self.max.y as i64 - self.min.y as i64
    }
}

/// The rectangle of a drag does not depend on which corner the drag began at.
pub proof fn lemma_spanning_is_symmetric(a: Point, b: Point)
    ensures
        SelectionRect::spanning(a, b) == SelectionRect::spanning(b, a),
        SelectionRect::spanning(a, b).normalized(),
{
}

} // verus!
