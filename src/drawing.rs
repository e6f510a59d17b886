//! Pen programs: travel and stroke moves, their extent, and the line
//! segments that a rendering surface draws.
use vstd::prelude::*;

use crate::vector::{fits, paths_view, point_add, Path, Point, Vec2d};
use crate::PlotError;

verus! {

/// A pen move as mathematical data.
pub enum PenMove {
    /// Pen up: a repositioning move that draws nothing.
    Travel(Seq<Point>),
    /// Pen down: a move that draws the polyline.
    Stroke(Seq<Point>),
}

/// The points that a pen move passes through.
pub open spec fn move_points(m: PenMove) -> Seq<Point> {
    match m {
        PenMove::Travel(p) => p,
        PenMove::Stroke(p) => p,
    }
}

/// One move of the pen along a path.
#[derive(Clone, Debug)]
pub enum PenPath {
    /// Pen up: travel without drawing.
    PenUp(Path),
    /// Pen down: draw the path.
    PenDown(Path),
}

impl View for PenPath {
    type V = PenMove;

    open spec fn view(&self) -> PenMove {
        match self {
            PenPath::PenUp(p) => PenMove::Travel(p@),
            PenPath::PenDown(p) => PenMove::Stroke(p@),
        }
    }
}

impl PenPath {
    /// The path of the move, whichever the pen's state.
    pub fn path(&self) -> (r: &Path)
        ensures
            r@ == move_points(self@),
    {
        match self {
            PenPath::PenUp(p) => p,
            PenPath::PenDown(p) => p,
        }
    }
}

/// The pen program for the paths, with the pen resting at `prev`:
/// for each non-empty path, a travel from the pen's position to the
/// path's first point, then a stroke along the path; empty paths are
/// dropped.
pub open spec fn build_from(paths: Seq<Seq<Point>>, prev: Point) -> Seq<PenMove>
    decreases paths.len(),
{
    if paths.len() == 0 {
        Seq::empty()
    } else if paths[0].len() == 0 {
        build_from(paths.drop_first(), prev)
    } else {
        seq![PenMove::Travel(seq![prev, paths[0][0]]), PenMove::Stroke(paths[0])]
            + build_from(paths.drop_first(), paths[0].last())
    }
}

/// The pen program for the paths, starting from the origin.
pub open spec fn build(paths: Seq<Seq<Point>>) -> Seq<PenMove> {
    build_from(paths, (0, 0))
}

/// Some path has a point.
pub open spec fn any_nonempty(paths: Seq<Seq<Point>>) -> bool {
    exists|i: int| 0 <= i < paths.len() && (#[trigger] paths[i]).len() > 0
}

/// A drawing has a move, and every move has a point.
pub open spec fn drawing_wf(d: Seq<PenMove>) -> bool {
    &&& d.len() > 0
    &&& forall|i: int| 0 <= i < d.len() ==> move_points(#[trigger] d[i]).len() > 0
}

/// The full plot program for one rendered text.
pub struct Drawing {
    pub paths: Vec<PenPath>,
}

impl View for Drawing {
    type V = Seq<PenMove>;

    open spec fn view(&self) -> Seq<PenMove> {
        self.paths@.map_values(|p: PenPath| p@)
    }
}

/// Every move of the pen program has a point.
proof fn lemma_build_moves_nonempty(paths: Seq<Seq<Point>>, prev: Point)
    ensures
        forall|i: int|
            0 <= i < build_from(paths, prev).len() ==> move_points(
                #[trigger] build_from(paths, prev)[i],
            ).len() > 0,
        build_from(paths, prev).len() > 0 <==> any_nonempty(paths),
    decreases paths.len(),
{
    if paths.len() > 0 {
        lemma_build_moves_nonempty(paths.drop_first(), prev);
        if paths[0].len() > 0 {
            lemma_build_moves_nonempty(paths.drop_first(), paths[0].last());
            let rest = build_from(paths.drop_first(), paths[0].last());
            let head = seq![PenMove::Travel(seq![prev, paths[0][0]]), PenMove::Stroke(paths[0])];
            assert forall|i: int| 0 <= i < (head + rest).len() implies move_points(
                #[trigger] (head + rest)[i],
            ).len() > 0 by {
                if i >= 2 {
                    assert((head + rest)[i] == rest[i - 2]);
                }
            }
        } else {
            if any_nonempty(paths) {
                let i = choose|i: int| 0 <= i < paths.len() && (#[trigger] paths[i]).len() > 0;
                assert(paths.drop_first()[i - 1] == paths[i]);
            }
            if any_nonempty(paths.drop_first()) {
                let i = choose|i: int|
                    0 <= i < paths.drop_first().len() && (#[trigger] paths.drop_first()[i]).len() > 0;
                assert(paths[i + 1] == paths.drop_first()[i]);
            }
        }
    }
}

impl Drawing {
    /// The pen program that draws the paths: `EmptyDrawing` when no path
    /// has a point.
    pub fn new(paths: Vec<Path>) -> (r: Result<Drawing, PlotError>)
        ensures
            r is Ok <==> any_nonempty(paths_view(paths@)),
            r matches Ok(d) ==> d@ == build(paths_view(paths@)) && drawing_wf(d@),
            r matches Err(e) ==> e == PlotError::EmptyDrawing,
    {
        let ghost input = paths_view(paths@);
        let mut prev_position = Vec2d { x: 0, y: 0 };
        let mut out_paths: Vec<PenPath> = Vec::new();
        let mut i: usize = 0;
        assert(input.skip(0) =~= input);
        assert(out_paths@.map_values(|p: PenPath| p@) =~= Seq::<PenMove>::empty());
        while i < paths.len()
            invariant
                input == paths_view(paths@),
                i <= paths@.len(),
                build(input) == out_paths@.map_values(|p: PenPath| p@) + build_from(
                    input.skip(i as int),
                    prev_position@,
                ),
            decreases paths@.len() - i,
        {
            let pts = paths[i].points();
            assert(input.skip(i as int).drop_first() =~= input.skip(i + 1));
            assert(input.skip(i as int)[0] == paths@[i as int]@);
            if pts.len() > 0 {
                let first = pts[0];
                let last = pts[pts.len() - 1];
                let mut travel = Path::empty();
                travel.push(prev_position);
                travel.push(first);
                let mut stroke = Path::empty();
                let mut j: usize = 0;
                while j < pts.len()
                    invariant
                        j <= pts@.len(),
                        stroke@ == pts@.map_values(|q: Vec2d| q@).take(j as int),
                    decreases pts@.len() - j,
                {
                    stroke.push(pts[j]);
                    assert(pts@.map_values(|q: Vec2d| q@).take(j + 1) =~= pts@.map_values(
                        |q: Vec2d| q@,
                    ).take(j as int).push(pts@[j as int]@));
                    j = j + 1;
                }
                assert(pts@.map_values(|q: Vec2d| q@).take(j as int) =~= pts@.map_values(
                    |q: Vec2d| q@,
                ));
                let ghost before = out_paths@.map_values(|p: PenPath| p@);
                let ghost tv = travel@;
                let ghost sv = stroke@;
                assert(tv =~= seq![prev_position@, input.skip(i as int)[0][0]]);
                out_paths.push(PenPath::PenUp(travel));
                out_paths.push(PenPath::PenDown(stroke));
                assert(out_paths@.map_values(|p: PenPath| p@) =~= before + seq![
                    PenMove::Travel(tv),
                    PenMove::Stroke(sv),
                ]);
                prev_position = last;
            }
            i = i + 1;
        }
        assert(input.skip(i as int) =~= Seq::<Seq<Point>>::empty());
        assert(out_paths@.map_values(|p: PenPath| p@) =~= build(input));
        proof {
            lemma_build_moves_nonempty(input, (0, 0));
        }
        if out_paths.len() == 0 {
            return Err(PlotError::EmptyDrawing);
        }
        Ok(Drawing { paths: out_paths })
    }
}

/// The extent of a drawing.
#[derive(Clone, Copy, Debug, PartialEq, Eq, Structural)]
pub struct BoundingBox {
    /// Smallest X.
    pub left: i64,
    /// Largest X.
    pub right: i64,
    /// Smallest Y.
    pub top: i64,
    /// Largest Y.
    pub bottom: i64,
}

/// Point `j` of move `i` exists.
pub open spec fn valid_at(d: Seq<PenMove>, i: int, j: int) -> bool {
    0 <= i < d.len() && 0 <= j < move_points(d[i]).len()
}

/// `b` is the smallest box holding every point of every move of `d`,
/// travel moves included.
pub open spec fn is_box_of(d: Seq<PenMove>, b: BoundingBox) -> bool {
    &&& forall|i: int, j: int|
        valid_at(d, i, j) ==> {
            &&& b.left <= (#[trigger] move_points(d[i])[j]).0 <= b.right
            &&& b.top <= move_points(d[i])[j].1 <= b.bottom
        }
    &&& exists|i: int, j: int| valid_at(d, i, j) && (#[trigger] move_points(d[i])[j]).0 == b.left
    &&& exists|i: int, j: int| valid_at(d, i, j) && (#[trigger] move_points(d[i])[j]).0 == b.right
    &&& exists|i: int, j: int| valid_at(d, i, j) && (#[trigger] move_points(d[i])[j]).1 == b.top
    &&& exists|i: int, j: int| valid_at(d, i, j) && (#[trigger] move_points(d[i])[j]).1 == b.bottom
}

/// The box's size and offset can be computed in `i64`.
pub open spec fn box_fits(b: BoundingBox) -> bool {
    &&& b.left > i64::MIN
    &&& b.top > i64::MIN
    &&& b.right - b.left <= i64::MAX
    &&& b.bottom - b.top <= i64::MAX
}

/// The translation that takes the box's top-left corner to the origin.
pub open spec fn box_offset(b: BoundingBox) -> Point {
    (-b.left, -b.top)
}

/// The box's width and height.
pub open spec fn box_size(b: BoundingBox) -> Point {
    (b.right - b.left, b.bottom - b.top)
}

impl BoundingBox {
    /// The box holding the single point.
    pub fn new(defaults: &Vec2d) -> (r: BoundingBox)
        ensures
            r.left == defaults.x && r.right == defaults.x,
            r.top == defaults.y && r.bottom == defaults.y,
    {
        BoundingBox { left: defaults.x, right: defaults.x, top: defaults.y, bottom: defaults.y }
    }

    /// Width (x) and height (y) of the box.
    pub fn size(&self) -> (r: Vec2d)
        requires
            fits(box_size(*self)),
        ensures
            r@ == box_size(*self),
    {
        Vec2d { x: self.right - self.left, y: self.bottom - self.top }
    }

    /// The vector that, added to the top-left corner, gives the origin.
    pub fn offset(&self) -> (r: Vec2d)
        requires
            fits(box_offset(*self)),
        ensures
            r@ == box_offset(*self),
    {
        Vec2d { x: -self.left, y: -self.top }
    }

    /// Grows the box just enough to hold the point.
    pub fn update(&mut self, point: &Vec2d)
        ensures
            final(self).left == if point.x < old(self).left { point.x } else { old(self).left },
            final(self).right == if point.x > old(self).right { point.x } else { old(self).right },
            final(self).top == if point.y < old(self).top { point.y } else { old(self).top },
            final(self).bottom == if point.y > old(self).bottom { point.y } else { old(self).bottom },
    {
        if point.x < self.left {
            self.left = point.x;
        }
        if point.x > self.right {
            self.right = point.x;
        }
        if point.y < self.top {
            self.top = point.y;
        }
        if point.y > self.bottom {
            self.bottom = point.y;
        }
    }
}

/// Points of moves before `i`, and of move `i` before `j`.
pub open spec fn seen(d: Seq<PenMove>, i: int, j: int, i2: int, j2: int) -> bool {
    valid_at(d, i2, j2) && (i2 < i || (i2 == i && j2 < j))
}

impl Drawing {
    /// The smallest box holding every point of the drawing.
    pub fn bounding_box(&self) -> (r: BoundingBox)
        requires
            drawing_wf(self@),
        ensures
            is_box_of(self@, r),
    {
        let ghost d = self@;
        assert(d[0] == self.paths@[0]@);
        let first = self.paths[0].path().points();
        assert(first@.map_values(|q: Vec2d| q@)[0] == first@[0]@);
        let mut bb = BoundingBox::new(&first[0]);
        let ghost mut wl: (int, int) = (0, 0);
        let ghost mut wr: (int, int) = (0, 0);
        let ghost mut wt: (int, int) = (0, 0);
        let ghost mut wb: (int, int) = (0, 0);
        let mut i: usize = 0;
        while i < self.paths.len()
            invariant
                d == self@,
                drawing_wf(d),
                i <= d.len(),
                forall|i2: int, j2: int|
                    seen(d, i as int, 0, i2, j2) ==> {
                        &&& bb.left <= (#[trigger] move_points(d[i2])[j2]).0 <= bb.right
                        &&& bb.top <= move_points(d[i2])[j2].1 <= bb.bottom
                    },
                valid_at(d, wl.0, wl.1) && move_points(d[wl.0])[wl.1].0 == bb.left,
                valid_at(d, wr.0, wr.1) && move_points(d[wr.0])[wr.1].0 == bb.right,
                valid_at(d, wt.0, wt.1) && move_points(d[wt.0])[wt.1].1 == bb.top,
                valid_at(d, wb.0, wb.1) && move_points(d[wb.0])[wb.1].1 == bb.bottom,
            decreases d.len() - i,
        {
            let pts = self.paths[i].path().points();
            assert(d[i as int] == self.paths@[i as int]@);
            let mut j: usize = 0;
            while j < pts.len()
                invariant
                    d == self@,
                    drawing_wf(d),
                    i < d.len(),
                    pts@.map_values(|q: Vec2d| q@) == move_points(d[i as int]),
                    j <= pts@.len(),
                    forall|i2: int, j2: int|
                        seen(d, i as int, j as int, i2, j2) ==> {
                            &&& bb.left <= (#[trigger] move_points(d[i2])[j2]).0 <= bb.right
                            &&& bb.top <= move_points(d[i2])[j2].1 <= bb.bottom
                        },
                    valid_at(d, wl.0, wl.1) && move_points(d[wl.0])[wl.1].0 == bb.left,
                    valid_at(d, wr.0, wr.1) && move_points(d[wr.0])[wr.1].0 == bb.right,
                    valid_at(d, wt.0, wt.1) && move_points(d[wt.0])[wt.1].1 == bb.top,
                    valid_at(d, wb.0, wb.1) && move_points(d[wb.0])[wb.1].1 == bb.bottom,
                decreases pts@.len() - j,
            {
                let p = pts[j];
                assert(move_points(d[i as int])[j as int] == p@);
                proof {
                    if p.x < bb.left {
                        wl = (i as int, j as int);
                    }
                    if p.x > bb.right {
                        wr = (i as int, j as int);
                    }
                    if p.y < bb.top {
                        wt = (i as int, j as int);
                    }
                    if p.y > bb.bottom {
                        wb = (i as int, j as int);
                    }
                }
                bb.update(&p);
                j = j + 1;
            }
            i = i + 1;
        }
        assert forall|i2: int, j2: int| valid_at(d, i2, j2) implies {
            &&& bb.left <= (#[trigger] move_points(d[i2])[j2]).0 <= bb.right
            &&& bb.top <= move_points(d[i2])[j2].1 <= bb.bottom
        } by {
            assert(seen(d, i as int, 0, i2, j2));
        }
        bb
    }
}

/// A line segment from its first point to its second.
pub type Segment = (Point, Point);

/// The segments of a list of line segments.
pub open spec fn lines_view(v: Seq<(Vec2d, Vec2d)>) -> Seq<Segment> {
    v.map_values(|l: (Vec2d, Vec2d)| (l.0@, l.1@))
}

/// The segments between consecutive points of the polyline, moved by `off`.
pub open spec fn path_segments(p: Seq<Point>, off: Point) -> Seq<Segment> {
    Seq::new(
        (if p.len() == 0 { 0 } else { p.len() - 1 }) as nat,
        |k: int| (point_add(p[k], off), point_add(p[k + 1], off)),
    )
}

/// What a move draws, moved by `off`: nothing for a travel.
pub open spec fn move_segments(m: PenMove, off: Point) -> Seq<Segment> {
    match m {
        PenMove::Travel(_) => Seq::empty(),
        PenMove::Stroke(p) => path_segments(p, off),
    }
}

/// Every segment that the drawing draws, in order, moved by `off`.
pub open spec fn segments(d: Seq<PenMove>, off: Point) -> Seq<Segment>
    decreases d.len(),
{
    if d.len() == 0 {
        Seq::empty()
    } else {
        segments(d.drop_last(), off) + move_segments(d.last(), off)
    }
}

/// The segments of an optional list of line segments.
pub open spec fn opt_lines_view(r: Option<Vec<(Vec2d, Vec2d)>>) -> Option<Seq<Segment>> {
    match r {
        Some(v) => Some(lines_view(v@)),
        None => None,
    }
}

/// `r` is what the drawing renders as: with `b` its box, the segments
/// moved by `b`'s offset, or `None` when `b`'s size or offset does not
/// fit `i64`.
pub open spec fn renders_as(d: Seq<PenMove>, r: Option<Seq<Segment>>) -> bool {
    forall|b: BoundingBox| #[trigger] is_box_of(d, b) ==> {
        &&& (r is Some <==> box_fits(b))
        &&& r matches Some(v) ==> v == segments(d, box_offset(b))
    }
}

impl Drawing {
    /// The line segments to stroke, in order, moved so that the drawing's
    /// top-left corner is at the origin; travel moves draw nothing.
    /// `None` when the drawing's extent does not fit `i64`.
    pub fn strokes(&self) -> (r: Option<Vec<(Vec2d, Vec2d)>>)
        requires
            drawing_wf(self@),
        ensures
            renders_as(self@, opt_lines_view(r)),
    {
        let bb = self.bounding_box();
        proof {
            lemma_box_unique(self@, bb);
        }
        if bb.left == i64::MIN || bb.top == i64::MIN
            || (bb.right as i128) - (bb.left as i128) > i64::MAX as i128
            || (bb.bottom as i128) - (bb.top as i128) > i64::MAX as i128 {
            return None;
        }
        let offset = bb.offset();
        let ghost d = self@;
        let ghost off = box_offset(bb);
        let mut out: Vec<(Vec2d, Vec2d)> = Vec::new();
        let mut i: usize = 0;
        assert(d.take(0) =~= Seq::<PenMove>::empty());
        assert(lines_view(out@) =~= Seq::<Segment>::empty());
        while i < self.paths.len()
            invariant
                d == self@,
                is_box_of(d, bb),
                box_fits(bb),
                offset@ == off,
                off == box_offset(bb),
                i <= d.len(),
                lines_view(out@) == segments(d.take(i as int), off),
            decreases d.len() - i,
        {
            assert(d[i as int] == self.paths@[i as int]@);
            assert(d.take(i + 1).drop_last() =~= d.take(i as int));
            assert(d.take(i + 1).last() == d[i as int]);
            match &self.paths[i] {
                PenPath::PenUp(_) => {
                    assert(segments(d.take(i + 1), off) =~= segments(d.take(i as int), off));
                },
                PenPath::PenDown(path) => {
                    let pts = path.points();
                    let ghost pv = path@;
                    let ghost base = segments(d.take(i as int), off);
                    let mut k: usize = 0;
                    assert(base + path_segments(pv, off).take(0) =~= base);
                    while k < pts.len() && k + 1 < pts.len()
                        invariant
                            is_box_of(d, bb),
                            box_fits(bb),
                            offset@ == off,
                            off == box_offset(bb),
                            i < d.len(),
                            d[i as int] == PenMove::Stroke(pv),
                            pts@.map_values(|q: Vec2d| q@) == pv,
                            k <= pts@.len(),
                            k + 1 <= pts@.len() || k == 0,
                            lines_view(out@) == base + path_segments(pv, off).take(k as int),
                        decreases pts@.len() - k,
                    {
                        let a = pts[k];
                        let b = pts[k + 1];
                        assert(pts@.map_values(|q: Vec2d| q@)[k as int] == a@);
                        assert(pts@.map_values(|q: Vec2d| q@)[k + 1] == b@);
                        assert(move_points(d[i as int])[k as int] == a@);
                        assert(move_points(d[i as int])[k + 1] == b@);
                        assert(valid_at(d, i as int, k as int));
                        assert(valid_at(d, i as int, k + 1));
                        assert(bb.left <= a.x <= bb.right && bb.top <= a.y <= bb.bottom);
                        assert(bb.left <= b.x <= bb.right && bb.top <= b.y <= bb.bottom);
                        let sa = a.add(&offset);
                        let sb = b.add(&offset);
                        let ghost before = lines_view(out@);
                        out.push((sa, sb));
                        assert(lines_view(out@) =~= before.push((sa@, sb@)));
                        assert(path_segments(pv, off).take(k + 1) =~= path_segments(pv, off).take(
                            k as int,
                        ).push((sa@, sb@)));
                        k = k + 1;
                    }
                    assert(path_segments(pv, off).take(k as int) =~= path_segments(pv, off));
                },
            }
            i = i + 1;
        }
        assert(d.take(i as int) =~= d);
        Some(out)
    }
}

/// A drawing has one bounding box.
pub proof fn lemma_box_unique(d: Seq<PenMove>, b: BoundingBox)
    requires
        is_box_of(d, b),
    ensures
        forall|c: BoundingBox| #[trigger] is_box_of(d, c) ==> c == b,
{
    assert forall|c: BoundingBox| #[trigger] is_box_of(d, c) implies c == b by {
        let (i1, j1) = choose|i: int, j: int| valid_at(d, i, j) && (#[trigger] move_points(d[i])[j]).0 == b.left;
        let (i2, j2) = choose|i: int, j: int| valid_at(d, i, j) && (#[trigger] move_points(d[i])[j]).0 == c.left;
        let (i3, j3) = choose|i: int, j: int| valid_at(d, i, j) && (#[trigger] move_points(d[i])[j]).0 == b.right;
        let (i4, j4) = choose|i: int, j: int| valid_at(d, i, j) && (#[trigger] move_points(d[i])[j]).0 == c.right;
        let (i5, j5) = choose|i: int, j: int| valid_at(d, i, j) && (#[trigger] move_points(d[i])[j]).1 == b.top;
        let (i6, j6) = choose|i: int, j: int| valid_at(d, i, j) && (#[trigger] move_points(d[i])[j]).1 == c.top;
        let (i7, j7) = choose|i: int, j: int| valid_at(d, i, j) && (#[trigger] move_points(d[i])[j]).1 == b.bottom;
        let (i8, j8) = choose|i: int, j: int| valid_at(d, i, j) && (#[trigger] move_points(d[i])[j]).1 == c.bottom;
        assert(c.left == b.left);
        assert(c.right == b.right);
        assert(c.top == b.top);
        assert(c.bottom == b.bottom);
    }
}

/// How many of the paths have a point.
pub open spec fn nonempty_count(paths: Seq<Seq<Point>>) -> nat
    decreases paths.len(),
{
    if paths.len() == 0 {
        0
    } else {
        (if paths[0].len() > 0 { 1nat } else { 0nat }) + nonempty_count(paths.drop_first())
    }
}

proof fn lemma_build_from_shape(paths: Seq<Seq<Point>>, prev: Point)
    ensures
        build_from(paths, prev).len() == 2 * nonempty_count(paths),
        forall|i: int|
            0 <= i < build_from(paths, prev).len() ==> ((#[trigger] build_from(paths, prev)[i]) is Travel
                <==> i % 2 == 0),
    decreases paths.len(),
{
    if paths.len() > 0 {
        if paths[0].len() == 0 {
            lemma_build_from_shape(paths.drop_first(), prev);
        } else {
            let rest = build_from(paths.drop_first(), paths[0].last());
            lemma_build_from_shape(paths.drop_first(), paths[0].last());
            let head = seq![PenMove::Travel(seq![prev, paths[0][0]]), PenMove::Stroke(paths[0])];
            assert forall|i: int| 0 <= i < (head + rest).len() implies ((#[trigger] (head
                + rest)[i]) is Travel <==> i % 2 == 0) by {
                if i >= 2 {
                    assert((head + rest)[i] == rest[i - 2]);
                }
            }
        }
    }
}

/// The pen program for `N` non-empty paths has `2 * N` moves: travel and
/// stroke in turn, starting with a travel; each travel has two points
/// and leads to the next stroke's first point.
pub proof fn lemma_build_shape(paths: Seq<Seq<Point>>)
    ensures
        build(paths).len() == 2 * nonempty_count(paths),
        forall|i: int|
            0 <= i < build(paths).len() ==> ((#[trigger] build(paths)[i]) is Travel <==> i % 2
                == 0),
{
    lemma_build_from_shape(paths, (0, 0));
}

/// With no point in any path there is nothing to draw.
pub proof fn lemma_build_empty(paths: Seq<Seq<Point>>)
    requires
        forall|i: int| 0 <= i < paths.len() ==> (#[trigger] paths[i]).len() == 0,
    ensures
        build(paths).len() == 0,
        !any_nonempty(paths),
{
    lemma_build_moves_nonempty(paths, (0, 0));
}

/// Moved by the box's offset, every point of the drawing lies between the
/// origin and the box's size, and the size is reached on each axis.
pub proof fn lemma_offset_normalizes(d: Seq<PenMove>, b: BoundingBox)
    requires
        is_box_of(d, b),
    ensures
        forall|i: int, j: int|
            valid_at(d, i, j) ==> {
                let q = point_add(#[trigger] move_points(d[i])[j], box_offset(b));
                &&& 0 <= q.0 <= box_size(b).0
                &&& 0 <= q.1 <= box_size(b).1
            },
        exists|i: int, j: int|
            valid_at(d, i, j) && point_add(#[trigger] move_points(d[i])[j], box_offset(b)).0
                == box_size(b).0,
        exists|i: int, j: int|
            valid_at(d, i, j) && point_add(#[trigger] move_points(d[i])[j], box_offset(b)).1
                == box_size(b).1,
{
    let (i1, j1) = choose|i: int, j: int| valid_at(d, i, j) && (#[trigger] move_points(d[i])[j]).0 == b.right;
    let (i2, j2) = choose|i: int, j: int| valid_at(d, i, j) && (#[trigger] move_points(d[i])[j]).1 == b.bottom;
    assert(point_add(move_points(d[i1])[j1], box_offset(b)).0 == box_size(b).0);
    assert(point_add(move_points(d[i2])[j2], box_offset(b)).1 == box_size(b).1);
}

/// The drawing passes through the point.
pub open spec fn has_point(d: Seq<PenMove>, q: Point) -> bool {
    exists|i: int, j: int| valid_at(d, i, j) && #[trigger] move_points(d[i])[j] == q
}

/// Every point of the drawing can be stored as a `Vec2d`.
pub open spec fn points_fit(d: Seq<PenMove>) -> bool {
    forall|i: int, j: int| valid_at(d, i, j) ==> fits(#[trigger] move_points(d[i])[j])
}

/// The box grown just enough to hold the point.
pub open spec fn grow(b: BoundingBox, p: Point) -> BoundingBox {
    BoundingBox {
        left: if p.0 < b.left { p.0 as i64 } else { b.left },
        right: if p.0 > b.right { p.0 as i64 } else { b.right },
        top: if p.1 < b.top { p.1 as i64 } else { b.top },
        bottom: if p.1 > b.bottom { p.1 as i64 } else { b.bottom },
    }
}

/// The box of the single point.
pub open spec fn point_box(p: Point) -> BoundingBox {
    BoundingBox { left: p.0 as i64, right: p.0 as i64, top: p.1 as i64, bottom: p.1 as i64 }
}

proof fn lemma_box_grow(e: Seq<PenMove>, b: BoundingBox, e2: Seq<PenMove>, p: Point)
    requires
        is_box_of(e, b),
        fits(p),
        has_point(e2, p),
        forall|i: int, j: int|
            valid_at(e2, i, j) ==> (#[trigger] move_points(e2[i])[j] == p || has_point(
                e,
                move_points(e2[i])[j],
            )),
        forall|i: int, j: int| valid_at(e, i, j) ==> has_point(e2, #[trigger] move_points(e[i])[j]),
    ensures
        is_box_of(e2, grow(b, p)),
{
    let g = grow(b, p);
    assert forall|i: int, j: int| valid_at(e2, i, j) implies {
        &&& g.left <= (#[trigger] move_points(e2[i])[j]).0 <= g.right
        &&& g.top <= move_points(e2[i])[j].1 <= g.bottom
    } by {
        let q = move_points(e2[i])[j];
        if q != p {
            let (i1, j1) = choose|i1: int, j1: int| valid_at(e, i1, j1) && #[trigger] move_points(e[i1])[j1] == q;
        }
    }
    let (a1, b1) = choose|i: int, j: int| valid_at(e, i, j) && (#[trigger] move_points(e[i])[j]).0 == b.left;
    let (a2, b2) = choose|i: int, j: int| valid_at(e, i, j) && (#[trigger] move_points(e[i])[j]).0 == b.right;
    let (a3, b3) = choose|i: int, j: int| valid_at(e, i, j) && (#[trigger] move_points(e[i])[j]).1 == b.top;
    let (a4, b4) = choose|i: int, j: int| valid_at(e, i, j) && (#[trigger] move_points(e[i])[j]).1 == b.bottom;
    assert(has_point(e2, move_points(e[a1])[b1]));
    assert(has_point(e2, move_points(e[a2])[b2]));
    assert(has_point(e2, move_points(e[a3])[b3]));
    assert(has_point(e2, move_points(e[a4])[b4]));
}

proof fn lemma_box_single(p: Point)
    requires
        fits(p),
    ensures
        is_box_of(seq![PenMove::Travel(seq![p])], point_box(p)),
{
    let d = seq![PenMove::Travel(seq![p])];
    assert(move_points(d[0])[0] == p);
    assert(valid_at(d, 0, 0));
}

/// The drawing `d` followed by the first `m` points of move `mv`.
pub open spec fn with_prefix(d: Seq<PenMove>, mv: PenMove, m: int) -> Seq<PenMove> {
    d.push(PenMove::Travel(move_points(mv).take(m)))
}

proof fn lemma_box_exists_prefix(d: Seq<PenMove>, mv: PenMove, m: int) -> (b: BoundingBox)
    requires
        1 <= m <= move_points(mv).len(),
        d.len() == 0 || exists|b0: BoundingBox| is_box_of(d, b0),
        forall|j: int| 0 <= j < move_points(mv).len() ==> fits(#[trigger] move_points(mv)[j]),
    ensures
        is_box_of(with_prefix(d, mv, m), b),
    decreases m,
{
    let pts = move_points(mv);
    let e2 = with_prefix(d, mv, m);
    let n = d.len() as int;
    assert(move_points(e2[n]) == pts.take(m));
    assert(move_points(e2[n])[m - 1] == pts[m - 1]);
    assert(valid_at(e2, n, m - 1));
    if m == 1 && d.len() == 0 {
        lemma_box_single(pts[0]);
        assert(pts.take(1) =~= seq![pts[0]]);
        assert(e2 =~= seq![PenMove::Travel(seq![pts[0]])]);
        point_box(pts[0])
    } else {
        let e: Seq<PenMove>;
        let b: BoundingBox;
        if m == 1 {
            b = choose|b0: BoundingBox| is_box_of(d, b0);
            e = d;
            assert forall|i: int, j: int| valid_at(e2, i, j) implies (#[trigger] move_points(e2[i])[j] == pts[0]
                || has_point(e, move_points(e2[i])[j])) by {
                if i < n {
                    assert(e2[i] == e[i]);
                }
            }
            assert forall|i: int, j: int| valid_at(e, i, j) implies has_point(e2, #[trigger] move_points(e[i])[j]) by {
                assert(e2[i] == e[i]);
                assert(valid_at(e2, i, j));
            }
        } else {
            b = lemma_box_exists_prefix(d, mv, m - 1);
            e = with_prefix(d, mv, m - 1);
            assert(move_points(e[n]) == pts.take(m - 1));
            assert forall|i: int, j: int| valid_at(e2, i, j) implies (#[trigger] move_points(e2[i])[j] == pts[m - 1]
                || has_point(e, move_points(e2[i])[j])) by {
                if i < n {
                    assert(e2[i] == e[i]);
                    assert(valid_at(e, i, j));
                } else if j < m - 1 {
                    assert(move_points(e[n])[j] == move_points(e2[n])[j]);
                    assert(valid_at(e, n, j));
                }
            }
            assert forall|i: int, j: int| valid_at(e, i, j) implies has_point(e2, #[trigger] move_points(e[i])[j]) by {
                if i < n {
                    assert(e2[i] == e[i]);
                } else {
                    assert(move_points(e[n])[j] == move_points(e2[n])[j]);
                }
                assert(valid_at(e2, i, j));
            }
        }
        lemma_box_grow(e, b, e2, pts[m - 1]);
        grow(b, pts[m - 1])
    }
}

/// Every well-formed drawing whose points fit `i64` has a bounding box.
pub proof fn lemma_box_exists(d: Seq<PenMove>)
    requires
        drawing_wf(d),
        points_fit(d),
    ensures
        exists|b: BoundingBox| is_box_of(d, b),
    decreases d.len(),
{
    let n = d.len() - 1;
    let front = d.drop_last();
    let mv = d.last();
    if n > 0 {
        assert(drawing_wf(front)) by {
            assert forall|i: int| 0 <= i < front.len() implies move_points(#[trigger] front[i]).len() > 0 by {
                assert(front[i] == d[i]);
            }
        }
        assert(points_fit(front)) by {
            assert forall|i: int, j: int| valid_at(front, i, j) implies fits(#[trigger] move_points(front[i])[j]) by {
                assert(front[i] == d[i]);
                assert(valid_at(d, i, j));
            }
        }
        lemma_box_exists(front);
    }
    assert forall|j: int| 0 <= j < move_points(mv).len() implies fits(#[trigger] move_points(mv)[j]) by {
        assert(valid_at(d, n, j));
    }
    let m = move_points(mv).len() as int;
    let b = lemma_box_exists_prefix(front, mv, m);
    let e = with_prefix(front, mv, m);
    assert(move_points(mv).take(m) =~= move_points(mv));
    assert forall|i: int, j: int| valid_at(d, i, j) implies {
        &&& b.left <= (#[trigger] move_points(d[i])[j]).0 <= b.right
        &&& b.top <= move_points(d[i])[j].1 <= b.bottom
    } by {
        assert(move_points(e[i]) == move_points(d[i]));
        assert(valid_at(e, i, j));
    }
    let (a1, b1) = choose|i: int, j: int| valid_at(e, i, j) && (#[trigger] move_points(e[i])[j]).0 == b.left;
    let (a2, b2) = choose|i: int, j: int| valid_at(e, i, j) && (#[trigger] move_points(e[i])[j]).0 == b.right;
    let (a3, b3) = choose|i: int, j: int| valid_at(e, i, j) && (#[trigger] move_points(e[i])[j]).1 == b.top;
    let (a4, b4) = choose|i: int, j: int| valid_at(e, i, j) && (#[trigger] move_points(e[i])[j]).1 == b.bottom;
    assert(move_points(e[a1]) == move_points(d[a1]));
    assert(move_points(e[a2]) == move_points(d[a2]));
    assert(move_points(e[a3]) == move_points(d[a3]));
    assert(move_points(e[a4]) == move_points(d[a4]));
    assert(valid_at(d, a1, b1) && valid_at(d, a2, b2) && valid_at(d, a3, b3) && valid_at(d, a4, b4));
    assert(is_box_of(d, b));
}

impl Drawing {
    /// Every point of the drawing is a stored `Vec2d`.
    pub proof fn lemma_points_fit(&self)
        ensures
            points_fit(self@),
    {
        assert forall|i: int, j: int| valid_at(self@, i, j) implies fits(
            #[trigger] move_points(self@[i])[j],
        ) by {
            assert(self@[i] == self.paths@[i]@);
            self.paths@[i].lemma_path_fits();
        }
    }
}

impl PenPath {
    /// Every point of the move is a stored `Vec2d`.
    pub proof fn lemma_path_fits(&self)
        ensures
            forall|j: int| 0 <= j < move_points(self@).len() ==> fits(#[trigger] move_points(self@)[j]),
    {
        match self {
            PenPath::PenUp(p) => p.lemma_fits(),
            PenPath::PenDown(p) => p.lemma_fits(),
        }
    }
}

/// Rendering is repeatable: a drawing renders as one thing only, so two
/// renderings of it issue the same segments in the same order.
pub proof fn lemma_render_repeatable(
    d: &Drawing,
    r1: Option<Seq<Segment>>,
    r2: Option<Seq<Segment>>,
)
    requires
        drawing_wf(d@),
        renders_as(d@, r1),
        renders_as(d@, r2),
    ensures
        r1 == r2,
{
    d.lemma_points_fit();
    lemma_box_exists(d@);
    let b = choose|b: BoundingBox| is_box_of(d@, b);
    assert(is_box_of(d@, b));
}

} // verus!
