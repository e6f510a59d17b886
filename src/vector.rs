//! Points and polylines in the plane.
use vstd::prelude::*;

verus! {

/// A point of the plane with integer coordinates.
#[derive(Clone, Copy, Debug, PartialEq, Eq, Structural)]
pub struct Vec2d {
    pub x: i64,
    pub y: i64,
}

/// A mathematical point: the pair of coordinates as integers.
pub type Point = (int, int);

impl View for Vec2d {
    type V = Point;

    open spec fn view(&self) -> Point {
        (self.x as int, self.y as int)
    }
}

/// Whether a pair of integers can be stored as a `Vec2d`.
pub open spec fn fits(p: Point) -> bool {
    i64::MIN <= p.0 <= i64::MAX && i64::MIN <= p.1 <= i64::MAX
}

/// Componentwise sum of two mathematical points.
pub open spec fn point_add(a: Point, b: Point) -> Point {
    (a.0 + b.0, a.1 + b.1)
}

impl Vec2d {
    /// The coordinates as a pair.
    pub fn tuple(&self) -> (r: (i64, i64))
        ensures
            r == (self.x, self.y),
    {
        (self.x, self.y)
    }

    /// Componentwise sum.
    pub fn add(&self, rhs: &Vec2d) -> (r: Vec2d)
        requires
            fits(point_add(self@, rhs@)),
        ensures
            r@ == point_add(self@, rhs@),
    {
        Vec2d { x: self.x + rhs.x, y: self.y + rhs.y }
    }

    /// Componentwise negation.
    pub fn neg(&self) -> (r: Vec2d)
        requires
            fits((-self@.0, -self@.1)),
        ensures
            r@ == (-self@.0, -self@.1),
    {
        Vec2d { x: -self.x, y: -self.y }
    }
}

/// An ordered, possibly empty polyline.
#[derive(Clone, Debug)]
pub struct Path {
    points: Vec<Vec2d>,
}

/// The points of a sequence of paths, as mathematical polylines.
pub open spec fn paths_view(v: Seq<Path>) -> Seq<Seq<Point>> {
    v.map_values(|p: Path| p@)
}

impl View for Path {
    type V = Seq<Point>;

    closed spec fn view(&self) -> Seq<Point> {
        self.points@.map_values(|q: Vec2d| q@)
    }
}

impl Path {
    /// The path with no points.
    pub fn empty() -> (r: Path)
        ensures
            r@ == Seq::<Point>::empty(),
    {
        let r = Path { points: Vec::new() };
        assert(r@ =~= Seq::<Point>::empty());
        r
    }

    /// Appends a point at the end.
    pub fn push(&mut self, point: Vec2d)
        ensures
            final(self)@ == old(self)@.push(point@),
    {
        self.points.push(point);
        assert(self@ =~= old(self)@.push(point@));
    }

    /// The path through the given points, in order.
    pub fn new(points: Vec<Vec2d>) -> (r: Path)
        ensures
            r@ == points@.map_values(|q: Vec2d| q@),
    {
        Path { points }
    }

    /// Every point of the path is a stored `Vec2d`.
    pub proof fn lemma_fits(&self)
        ensures
            forall|i: int| 0 <= i < self@.len() ==> fits(#[trigger] self@[i]),
    {
    }

    /// The points of the path, in order.
    pub fn points(&self) -> (r: &Vec<Vec2d>)
        ensures
            r@.map_values(|q: Vec2d| q@) == self@,
    {
        &self.points
    }
}

} // verus!
