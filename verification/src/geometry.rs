//! Points, sizes and rectangles in device pixel space.
//!
//! The arithmetic on rectangles (intersection, containment, the far corner,
//! the row-major walk over the points) is done by `embedded_graphics_core`.
//! This module states what those operations return, over the mathematical
//! model below, and the rest of the crate is proved against those statements.

use vstd::prelude::*;

verus! {

/// A pixel position. `x` grows to the right, `y` grows downwards.
#[derive(Clone, Copy, Debug, PartialEq, Eq, Structural)]
pub struct Point {
    pub x: i32,
    pub y: i32,
}

/// A width and a height, in pixels.
#[derive(Clone, Copy, Debug, PartialEq, Eq, Structural)]
pub struct Size {
    pub width: u32,
    pub height: u32,
}

/// An axis-aligned rectangle: its top left corner and its size.
///
/// A rectangle of zero width or zero height holds no point.
#[derive(Clone, Copy, Debug, PartialEq, Eq, Structural)]
pub struct Rectangle {
    pub top_left: Point,
    pub size: Size,
}

impl Point {
    pub fn new(x: i32, y: i32) -> (p: Point)
        ensures
            p == (Point { x, y }),
    {
        Point { x, y }
    }
}

impl Size {
    pub fn new(width: u32, height: u32) -> (s: Size)
        ensures
            s == (Size { width, height }),
    {
        Size { width, height }
    }
}

impl Rectangle {
    /// The leftmost column.
    pub open spec fn left(self) -> int {
        self.top_left.x as int
    }

    /// The topmost row.
    pub open spec fn top(self) -> int {
        self.top_left.y as int
    }

    /// The column just past the rightmost one.
    pub open spec fn right(self) -> int {
        self.top_left.x + self.size.width
    }

    /// The row just past the bottom one.
    pub open spec fn bottom(self) -> int {
        self.top_left.y + self.size.height
    }

    /// Whether the rectangle holds no point.
    pub open spec fn spec_is_zero_sized(self) -> bool {
        self.size.width == 0 || self.size.height == 0
    }

    /// The number of points in the rectangle.
    pub open spec fn spec_area(self) -> nat {
        (self.size.width * self.size.height) as nat
    }

    /// Whether the corner arithmetic on this rectangle stays within `i32`.
    ///
    /// A rectangle that holds points must have a width and a height of at
    /// most `i32::MAX`, and its right and bottom edges must not lie past
    /// `i32::MAX`. A rectangle without points always qualifies.
    pub open spec fn corners_fit(self) -> bool {
        !self.spec_is_zero_sized() ==> {
            &&& self.size.width <= i32::MAX
            &&& self.size.height <= i32::MAX
            &&& self.right() <= i32::MAX
            &&& self.bottom() <= i32::MAX
        }
    }

    /// Whether `p` lies inside the rectangle.
    pub open spec fn spec_contains(self, p: Point) -> bool {
        &&& !self.spec_is_zero_sized()
        &&& self.left() <= p.x < self.right()
        &&& self.top() <= p.y < self.bottom()
    }

    /// Whether every point of `inner` lies inside this rectangle.
    pub open spec fn spec_encloses(self, inner: Rectangle) -> bool {
        &&& self.left() <= inner.left()
        &&& inner.right() <= self.right()
        &&& self.top() <= inner.top()
        &&& inner.bottom() <= self.bottom()
    }

    /// Whether the two rectangles, both holding points, share a point.
    pub open spec fn spec_overlaps(self, other: Rectangle) -> bool {
        &&& self.left() < other.right()
        &&& other.left() < self.right()
        &&& self.top() < other.bottom()
        &&& other.top() < self.bottom()
    }

    /// The rectangle without points at the origin.
    pub open spec fn spec_zero() -> Rectangle {
        Rectangle { top_left: Point { x: 0, y: 0 }, size: Size { width: 0, height: 0 } }
    }

    /// The rectangle of the points that two overlapping rectangles share: it
    /// reaches from the larger of the two left edges to the smaller of the
    /// two right edges, and likewise from top to bottom.
    pub open spec fn spec_common(self, other: Rectangle) -> Rectangle {
        let left = if self.left() >= other.left() { self.left() } else { other.left() };
        let top = if self.top() >= other.top() { self.top() } else { other.top() };
        let right = if self.right() <= other.right() { self.right() } else { other.right() };
        let bottom = if self.bottom() <= other.bottom() { self.bottom() } else { other.bottom() };
        Rectangle {
            top_left: Point { x: left as i32, y: top as i32 },
            size: Size { width: (right - left) as u32, height: (bottom - top) as u32 },
        }
    }

    /// The intersection of two rectangles.
    ///
    /// Two rectangles that hold points and overlap give the rectangle of the
    /// points they share. A rectangle without points whose corner lies inside
    /// the other one is returned as it is. In every other case the result is
    /// the rectangle without points at the origin.
    pub open spec fn spec_intersection(self, other: Rectangle) -> Rectangle {
        if self.spec_is_zero_sized() && other.spec_is_zero_sized() {
            Self::spec_zero()
        } else if self.spec_is_zero_sized() {
            if other.spec_contains(self.top_left) { self } else { Self::spec_zero() }
        } else if other.spec_is_zero_sized() {
            if self.spec_contains(other.top_left) { other } else { Self::spec_zero() }
        } else if self.spec_overlaps(other) {
            self.spec_common(other)
        } else {
            Self::spec_zero()
        }
    }

    /// The bottom right point, if the rectangle holds any point.
    pub open spec fn spec_bottom_right(self) -> Option<Point> {
        if self.spec_is_zero_sized() {
            None
        } else {
            Some(Point { x: (self.right() - 1) as i32, y: (self.bottom() - 1) as i32 })
        }
    }

    /// The point at position `i` of the row-major walk: rows from top to
    /// bottom, each row from left to right.
    pub open spec fn spec_point(self, i: int) -> Point {
        Point {
            x: (self.left() + i % (self.size.width as int)) as i32,
            y: (self.top() + i / (self.size.width as int)) as i32,
        }
    }

    /// All points of the rectangle in row-major order.
    pub open spec fn spec_points(self) -> Seq<Point> {
        Seq::new(self.spec_area(), |i: int| self.spec_point(i))
    }

    pub fn new(top_left: Point, size: Size) -> (r: Rectangle)
        ensures
            r == (Rectangle { top_left, size }),
    {
        Rectangle { top_left, size }
    }

    /// Whether the rectangle holds no point.
    pub fn is_zero_sized(&self) -> (empty: bool)
        ensures
            empty == self.spec_is_zero_sized(),
    {
        self.size.width == 0 || self.size.height == 0
    }

    /// Whether the corner arithmetic on this rectangle stays within `i32`.
    /// The operations of this crate that take a rectangle ask for this.
    pub fn has_fitting_corners(&self) -> (fits: bool)
        ensures
            fits == self.corners_fit(),
    {
        if self.is_zero_sized() {
            return true;
        }
        let limit: i64 = i32::MAX as i64;
        let right: i64 = self.top_left.x as i64 + self.size.width as i64;
        let bottom: i64 = self.top_left.y as i64 + self.size.height as i64;
        self.size.width as i64 <= limit && self.size.height as i64 <= limit && right <= limit
            && bottom <= limit
    }

    /// The intersection of this rectangle and `other`: the rectangle of the
    /// points that both hold, or a rectangle without points.
    pub fn intersection(&self, other: &Rectangle) -> (common: Rectangle)
        requires
            self.corners_fit(),
            other.corners_fit(),
        ensures
            common == self.spec_intersection(*other),
            common.corners_fit(),
    {
        intersection_of(self, other)
    }

    /// The bottom right point, if the rectangle holds any point.
    pub fn bottom_right(&self) -> (corner: Option<Point>)
        requires
            self.corners_fit(),
        ensures
            corner == self.spec_bottom_right(),
    {
        bottom_right_of(self)
    }

    /// Whether `p` lies inside the rectangle.
    pub fn contains(&self, p: Point) -> (inside: bool)
        requires
            self.corners_fit(),
        ensures
            inside == self.spec_contains(p),
    {
        contains_point(self, p)
    }

    /// The number of points in the rectangle.
    pub fn area(&self) -> (n: u64)
        ensures
            n == self.spec_area(),
    {
        let w: u64 = self.size.width as u64;
        let h: u64 = self.size.height as u64;
        assert(w * h <= 0xffff_ffff * 0xffff_ffff) by (nonlinear_arith)
            requires
                0 <= w <= 0xffff_ffff,
                0 <= h <= 0xffff_ffff,
        ;
        w * h
    }
}

/// The points that a walk over a rectangle has still to give, in order.
pub uninterp spec fn points_left(walk: embedded_graphics_core::primitives::rectangle::Points) -> Seq<Point>;

/// `embedded_graphics_core`'s iterator over the points of a rectangle.
#[verifier::external_type_specification]
#[verifier::external_body]
pub struct ExPoints(embedded_graphics_core::primitives::rectangle::Points);

/// Calls `Rectangle::intersection` of `embedded_graphics_core`. Trusted: for
/// two rectangles whose corners fit, the result is the intersection that
/// [`Rectangle::spec_intersection`] states.
#[verifier::external_body]
pub(crate) fn intersection_of(a: &Rectangle, b: &Rectangle) -> (r: Rectangle)
    requires
        a.corners_fit(),
        b.corners_fit(),
    ensures
        r == a.spec_intersection(*b),
{
    let a = embedded_graphics_core::primitives::Rectangle::new(
        embedded_graphics_core::geometry::Point::new(a.top_left.x, a.top_left.y),
        embedded_graphics_core::geometry::Size::new(a.size.width, a.size.height),
    );
    let b = embedded_graphics_core::primitives::Rectangle::new(
        embedded_graphics_core::geometry::Point::new(b.top_left.x, b.top_left.y),
        embedded_graphics_core::geometry::Size::new(b.size.width, b.size.height),
    );
    let r = a.intersection(&b);
    Rectangle {
        top_left: Point { x: r.top_left.x, y: r.top_left.y },
        size: Size { width: r.size.width, height: r.size.height },
    }
}

/// Calls `Rectangle::bottom_right` of `embedded_graphics_core`. Trusted: a
/// rectangle without points has no bottom right point; one with points, whose
/// corners fit, has the point one column and one row inside its far edges.
#[verifier::external_body]
pub(crate) fn bottom_right_of(r: &Rectangle) -> (corner: Option<Point>)
    requires
        r.corners_fit(),
    ensures
        corner == r.spec_bottom_right(),
{
    let r = embedded_graphics_core::primitives::Rectangle::new(
        embedded_graphics_core::geometry::Point::new(r.top_left.x, r.top_left.y),
        embedded_graphics_core::geometry::Size::new(r.size.width, r.size.height),
    );
    match r.bottom_right() {
        Some(p) => Some(Point { x: p.x, y: p.y }),
        None => None,
    }
}

/// Calls `Rectangle::contains` of `embedded_graphics_core`. Trusted: for a
/// rectangle whose corners fit, the answer is whether the point lies between
/// its edges.
#[verifier::external_body]
pub(crate) fn contains_point(r: &Rectangle, p: Point) -> (inside: bool)
    requires
        r.corners_fit(),
    ensures
        inside == r.spec_contains(p),
{
    let r = embedded_graphics_core::primitives::Rectangle::new(
        embedded_graphics_core::geometry::Point::new(r.top_left.x, r.top_left.y),
        embedded_graphics_core::geometry::Size::new(r.size.width, r.size.height),
    );
    r.contains(embedded_graphics_core::geometry::Point::new(p.x, p.y))
}

/// Calls `PointsIter::points` of `embedded_graphics_core` on a rectangle.
/// Trusted: for a rectangle whose corners fit, the walk gives the points of
/// the rectangle in row-major order, and none for a rectangle without points.
#[verifier::external_body]
pub(crate) fn points_of(r: &Rectangle) -> (walk: embedded_graphics_core::primitives::rectangle::Points)
    requires
        r.corners_fit(),
    ensures
        points_left(walk) == r.spec_points(),
{
    let r = embedded_graphics_core::primitives::Rectangle::new(
        embedded_graphics_core::geometry::Point::new(r.top_left.x, r.top_left.y),
        embedded_graphics_core::geometry::Size::new(r.size.width, r.size.height),
    );
    embedded_graphics_core::primitives::PointsIter::points(&r)
}

/// Calls `Iterator::next` on `embedded_graphics_core`'s walk over a
/// rectangle. Trusted: it hands out the first of the points that are left and
/// keeps the others in order; with none left it returns `None` and the walk
/// stays as it is.
#[verifier::external_body]
pub(crate) fn next_point(walk: &mut embedded_graphics_core::primitives::rectangle::Points) -> (p: Option<Point>)
    ensures
        points_left(*old(walk)).len() == 0 ==> p is None && points_left(*final(walk)) == points_left(*old(walk)),
        points_left(*old(walk)).len() > 0 ==> p == Some(points_left(*old(walk)).first())
            && points_left(*final(walk)) == points_left(*old(walk)).drop_first(),
{
    match walk.next() {
        Some(p) => Some(Point { x: p.x, y: p.y }),
        None => None,
    }
}

impl Rectangle {
    /// All points of the rectangle in row-major order: rows from top to
    /// bottom, each row from left to right.
    pub fn points(&self) -> (all: Vec<Point>)
        requires
            self.corners_fit(),
        ensures
            all@ == self.spec_points(),
    {
        let mut walk = points_of(self);
        let mut all: Vec<Point> = Vec::new();
        let ghost expected = self.spec_points();
        assert(expected.take(0) =~= Seq::empty());
        assert(expected.skip(0) =~= expected);
        loop
            invariant
                expected == self.spec_points(),
                all@.len() <= expected.len(),
                all@ == expected.take(all@.len() as int),
                points_left(walk) == expected.skip(all@.len() as int),
            ensures
                all@ == expected,
            decreases expected.len() - all@.len(),
        {
            let ghost done = all@.len() as int;
            match next_point(&mut walk) {
                Some(p) => {
                    all.push(p);
                    assert(all@ =~= expected.take(done + 1));
                    assert(expected.skip(done).drop_first() =~= expected.skip(done + 1));
                },
                None => {
                    assert(expected.take(done) =~= expected);
                    break ;
                },
            }
        }
        all
    }
}

/// Clips `requested` against `bounds`.
///
/// Returns the part of `requested` that lies inside `bounds`, or `None` when
/// no point of `requested` does.
pub fn clip(requested: &Rectangle, bounds: &Rectangle) -> (drawable: Option<Rectangle>)
    requires
        requested.corners_fit(),
        bounds.corners_fit(),
    ensures
        drawable == spec_clip(*requested, *bounds),
{
    let common = requested.intersection(bounds);
    match common.bottom_right() {
        Some(_) => Some(common),
        None => None,
    }
}

/// The part of `requested` inside `bounds`, or `None` when they share no
/// point.
pub open spec fn spec_clip(requested: Rectangle, bounds: Rectangle) -> Option<Rectangle> {
    let common = requested.spec_intersection(bounds);
    if common.spec_is_zero_sized() {
        None
    } else {
        Some(common)
    }
}

/// Clipping gives a part of both rectangles, and clipping that part again
/// changes nothing: when `requested` and `bounds` share a point, the clipped
/// rectangle holds points, lies inside `bounds` and inside `requested`, holds
/// exactly the points that both hold, and is its own clipping against
/// `bounds`.
pub proof fn lemma_clip_idempotent(requested: Rectangle, bounds: Rectangle)
    requires
        requested.corners_fit(),
        bounds.corners_fit(),
    ensures
        spec_clip(requested, bounds) matches Some(drawable) ==> {
            &&& !drawable.spec_is_zero_sized()
            &&& drawable.corners_fit()
            &&& bounds.spec_encloses(drawable)
            &&& requested.spec_encloses(drawable)
            &&& spec_clip(drawable, bounds) == Some(drawable)
            &&& forall|p: Point| #[trigger]
                drawable.spec_contains(p) <==> requested.spec_contains(p) && bounds.spec_contains(p)
        },
        spec_clip(requested, bounds) is None ==> forall|p: Point|
            !(#[trigger] requested.spec_contains(p) && bounds.spec_contains(p)),
{
}

} // verus!
