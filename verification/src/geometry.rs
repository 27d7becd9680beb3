//! Integer geometry: points, sizes, rectangles and the box constraints that a
//! parent hands to a child during layout.

use vstd::prelude::*;

verus! {

/// A position, in whole device-independent units.
#[derive(Clone, Copy, Debug, PartialEq, Eq, Structural)]
pub struct Point {
    pub x: i32,
    pub y: i32,
}

/// An extent. A size with a negative component covers nothing.
#[derive(Clone, Copy, Debug, PartialEq, Eq, Structural)]
pub struct Size {
    pub width: i32,
    pub height: i32,
}

/// A rectangle: the position of its top-left corner and its extent.
#[derive(Clone, Copy, Debug, PartialEq, Eq, Structural)]
pub struct Rect {
    pub origin: Point,
    pub size: Size,
}

/// The least and the greatest size that a parent allows a child.
///
/// Every value has `min <= max` in both components.
#[derive(Clone, Copy, Debug, PartialEq, Eq, Structural)]
pub struct BoxConstraints {
    min: Size,
    max: Size,
}

/// `v` moved into the interval from `lo` to `hi`.
pub open spec fn clamp(v: int, lo: int, hi: int) -> int {
    if v < lo {
        lo
    } else if v > hi {
        hi
    } else {
        v
    }
}

/// `v` moved into the range of `i32`.
pub open spec fn clamp_i32(v: int) -> int {
    clamp(v, i32::MIN as int, i32::MAX as int)
}

/// The sum of two coordinates, held at the ends of the `i32` range.
pub fn offset_coord(a: i32, b: i32) -> (r: i32)
    ensures
        r == clamp_i32(a + b),
{
    let wide: i64 = a as i64 + b as i64;
    if wide < i32::MIN as i64 {
        i32::MIN
    } else if wide > i32::MAX as i64 {
        i32::MAX
    } else {
        wide as i32
    }
}

/// The difference of two coordinates, held at the ends of the `i32` range.
pub fn local_coord(a: i32, b: i32) -> (r: i32)
    ensures
        r == clamp_i32(a - b),
{
    let wide: i64 = a as i64 - b as i64;
    if wide < i32::MIN as i64 {
        i32::MIN
    } else if wide > i32::MAX as i64 {
        i32::MAX
    } else {
        wide as i32
    }
}

impl Point {
    pub fn new(x: i32, y: i32) -> (p: Point)
        ensures
            p == (Point { x, y }),
    {
        Point { x, y }
    }

    /// The point `(0, 0)`.
    pub fn origin() -> (p: Point)
        ensures
            p == (Point { x: 0, y: 0 }),
    {
        Point { x: 0, y: 0 }
    }

    /// This point moved by `by`, each coordinate held at the ends of the
    /// `i32` range.
    pub open spec fn shifted(self, by: Point) -> Point {
        Point { x: clamp_i32(self.x + by.x) as i32, y: clamp_i32(self.y + by.y) as i32 }
    }

    pub fn offset(&self, by: Point) -> (p: Point)
        ensures
            p == self.shifted(by),
    {
        Point { x: offset_coord(self.x, by.x), y: offset_coord(self.y, by.y) }
    }
}

impl Size {
    pub fn new(width: i32, height: i32) -> (s: Size)
        ensures
            s == (Size { width, height }),
    {
        Size { width, height }
    }

    /// Both components of `self` are at most those of `other`.
    pub open spec fn fits_in(self, other: Size) -> bool {
        self.width <= other.width && self.height <= other.height
    }
}

impl Rect {
    pub fn new(origin: Point, size: Size) -> (r: Rect)
        ensures
            r == (Rect { origin, size }),
    {
        Rect { origin, size }
    }

    /// The rectangle at `(0, 0)` with no extent.
    pub open spec fn empty() -> Rect {
        Rect { origin: Point { x: 0, y: 0 }, size: Size { width: 0, height: 0 } }
    }

    /// The rectangle at `(0, 0)` with no extent.
    pub fn zero() -> (r: Rect)
        ensures
            r == Rect::empty(),
    {
        Rect { origin: Point { x: 0, y: 0 }, size: Size { width: 0, height: 0 } }
    }

    /// The rectangle covers `(x, y)`: its left and top edges belong to it,
    /// its right and bottom edges do not.
    pub open spec fn covers(self, x: int, y: int) -> bool {
        &&& self.origin.x <= x < self.origin.x + self.size.width
        &&& self.origin.y <= y < self.origin.y + self.size.height
    }

    pub fn contains(&self, p: Point) -> (r: bool)
        ensures
            r == self.covers(p.x as int, p.y as int),
    {
        let dx: i64 = p.x as i64 - self.origin.x as i64;
        let dy: i64 = p.y as i64 - self.origin.y as i64;
        0 <= dx && dx < self.size.width as i64 && 0 <= dy && dy < self.size.height as i64
    }

    /// `p`, given in the coordinates in which this rectangle is placed,
    /// relative to the rectangle's own corner. For a point that the rectangle
    /// covers this is exact; for others each coordinate is held at the ends of
    /// the `i32` range.
    pub open spec fn localized(self, p: Point) -> Point {
        Point {
            x: clamp_i32(p.x - self.origin.x) as i32,
            y: clamp_i32(p.y - self.origin.y) as i32,
        }
    }

    pub fn to_local(&self, p: Point) -> (r: Point)
        ensures
            r == self.localized(p),
            self.covers(p.x as int, p.y as int) ==> {
                &&& r.x == p.x - self.origin.x
                &&& r.y == p.y - self.origin.y
                &&& 0 <= r.x < self.size.width
                &&& 0 <= r.y < self.size.height
            },
    {
        Point { x: local_coord(p.x, self.origin.x), y: local_coord(p.y, self.origin.y) }
    }
}

impl BoxConstraints {
    #[verifier::type_invariant]
    spec fn ordered(self) -> bool {
        self.min.fits_in(self.max)
    }

    /// The least size allowed.
    pub closed spec fn min_size(self) -> Size {
        self.min
    }

    /// The greatest size allowed.
    pub closed spec fn max_size(self) -> Size {
        self.max
    }

    /// The constraints from `min` to `max`, where `min` does not exceed `max`.
    pub fn new(min: Size, max: Size) -> (r: Option<BoxConstraints>)
        ensures
            r.is_some() <==> min.fits_in(max),
            r matches Some(bc) ==> bc.min_size() == min && bc.max_size() == max,
    {
        if min.width <= max.width && min.height <= max.height {
            Some(BoxConstraints { min, max })
        } else {
            None
        }
    }

    /// The constraints that allow `size` and nothing else.
    pub fn tight(size: Size) -> (bc: BoxConstraints)
        ensures
            bc.min_size() == size,
            bc.max_size() == size,
    {
        BoxConstraints { min: size, max: size }
    }

    pub fn min(&self) -> (r: Size)
        ensures
            r == self.min_size(),
            r.fits_in(self.max_size()),
    {
        proof {
            use_type_invariant(self);
        }
        self.min
    }

    pub fn max(&self) -> (r: Size)
        ensures
            r == self.max_size(),
            self.min_size().fits_in(r),
    {
        proof {
            use_type_invariant(self);
        }
        self.max
    }

    /// `size` is within the bounds.
    pub open spec fn admits(self, size: Size) -> bool {
        self.min_size().fits_in(size) && size.fits_in(self.max_size())
    }

    /// The size within the bounds that is nearest to `size`.
    pub open spec fn constrained(self, size: Size) -> Size {
        Size {
            width: clamp(
                size.width as int,
                self.min_size().width as int,
                self.max_size().width as int,
            ) as i32,
            height: clamp(
                size.height as int,
                self.min_size().height as int,
                self.max_size().height as int,
            ) as i32,
        }
    }

    pub fn constrain(&self, size: Size) -> (r: Size)
        ensures
            r == self.constrained(size),
            self.admits(r),
            self.admits(size) ==> r == size,
    {
        proof {
            use_type_invariant(self);
        }
        let width = if size.width < self.min.width {
            self.min.width
        } else if size.width > self.max.width {
            self.max.width
        } else {
            size.width
        };
        let height = if size.height < self.min.height {
            self.min.height
        } else if size.height > self.max.height {
            self.max.height
        } else {
            size.height
        };
        Size { width, height }
    }
}

} // verus!
