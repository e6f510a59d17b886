//! Placement of glyphs along a horizontal cursor.
use vstd::prelude::*;

use crate::font::{font_wf, glyph_wf, coord_ok, Font, Glyph};
use crate::vector::{paths_view, Path, Point, Vec2d};
use crate::PlotError;

verus! {

/// Extra gap added after every glyph, beyond the font's own metrics.
pub const SPACING: i64 = 0;

/// The code point drawn by glyph 0 of a font.
pub const FIRST_CODE_POINT: u32 = 32;

/// Longest text, in characters, that `text_to_paths` lays out.
pub const MAX_TEXT_CHARS: usize = 2147483647;

/// How far the cursor moves after the glyph.
pub open spec fn advance(g: Glyph) -> int {
    g.right - g.left + SPACING
}

/// The position in a font of the glyph for `c`.
pub open spec fn glyph_index(c: char) -> int {
    (c as u32) as int - FIRST_CODE_POINT
}

/// The font has a glyph for `c`.
pub open spec fn has_glyph(font: Seq<Glyph>, c: char) -> bool {
    0 <= glyph_index(c) < font.len()
}

/// The font has a glyph for every character of the text.
pub open spec fn all_have_glyphs(font: Seq<Glyph>, text: Seq<char>) -> bool {
    forall|i: int| 0 <= i < text.len() ==> has_glyph(font, #[trigger] text[i])
}

/// The glyph for `c`.
pub open spec fn glyph_of(font: Seq<Glyph>, c: char) -> Glyph {
    font[glyph_index(c)]
}

/// The cursor once the whole text has been placed, starting from 0.
pub open spec fn cursor_after(font: Seq<Glyph>, text: Seq<char>) -> int
    decreases text.len(),
{
    if text.len() == 0 {
        0
    } else {
        cursor_after(font, text.drop_last()) + advance(glyph_of(font, text.last()))
    }
}

/// A glyph-local polyline moved so that the glyph's left edge is at `x`.
pub open spec fn place_path(p: Seq<Point>, x: int, left: int) -> Seq<Point> {
    p.map_values(|q: Point| (x + q.0 - left, q.1))
}

/// The strokes of the glyph with its left edge at `x`.
pub open spec fn place_glyph(g: Glyph, x: int) -> Seq<Seq<Point>> {
    g.paths@.map_values(|p: Path| place_path(p@, x, g.left as int))
}

/// The laid-out text: each character's strokes, in order, with the
/// character's left edge at the cursor left by the characters before it.
pub open spec fn layout(font: Seq<Glyph>, text: Seq<char>) -> Seq<Seq<Point>>
    decreases text.len(),
{
    if text.len() == 0 {
        Seq::empty()
    } else {
        layout(font, text.drop_last()) + place_glyph(
            glyph_of(font, text.last()),
            cursor_after(font, text.drop_last()),
        )
    }
}

/// The paths that draw `input` in font `ft`, in one coordinate space.
/// A character without a glyph makes the whole call fail with
/// `GlyphIndexOutOfRange`.
pub fn text_to_paths(input: &str, ft: &Font) -> (r: Result<Vec<Path>, PlotError>)
    requires
        font_wf(ft@),
        input@.len() <= MAX_TEXT_CHARS,
    ensures
        r is Ok <==> all_have_glyphs(ft@, input@),
        r matches Ok(v) ==> paths_view(v@) == layout(ft@, input@),
        r matches Err(e) ==> e == PlotError::GlyphIndexOutOfRange,
{
    let n = input.unicode_len();
    let mut x: i64 = 0;
    let mut out: Vec<Path> = Vec::new();
    let mut i: usize = 0;
    while i < n
        invariant
            n == input@.len(),
            n <= MAX_TEXT_CHARS,
            i <= n,
            font_wf(ft@),
            all_have_glyphs(ft@, input@.take(i as int)),
            x == cursor_after(ft@, input@.take(i as int)),
            -(i * 4294967295) <= x <= i * 4294967295,
            paths_view(out@) == layout(ft@, input@.take(i as int)),
        decreases n - i,
    {
        let ch = input.get_char(i);
        let code = ch as u32;
        if code < FIRST_CODE_POINT || (code - FIRST_CODE_POINT) as usize >= ft.len() {
            assert(!has_glyph(ft@, input@[i as int]));
            return Err(PlotError::GlyphIndexOutOfRange);
        }
        let index = (code - FIRST_CODE_POINT) as usize;
        let glyph = &ft[index];
        assert(glyph_wf(*glyph));
        let ghost prefix = input@.take(i as int);
        let ghost placed = place_glyph(*glyph, x as int);
        let mut k: usize = 0;
        while k < glyph.paths.len()
            invariant
                glyph_wf(*glyph),
                -(i * 4294967295) <= x <= i * 4294967295,
                i < n <= MAX_TEXT_CHARS,
                k <= glyph.paths@.len(),
                placed == place_glyph(*glyph, x as int),
                paths_view(out@) == layout(ft@, prefix) + placed.take(k as int),
            decreases glyph.paths@.len() - k,
        {
            let gp = glyph.paths[k].points();
            let mut np = Path::empty();
            let mut m: usize = 0;
            while m < gp.len()
                invariant
                    glyph_wf(*glyph),
                    -(i * 4294967295) <= x <= i * 4294967295,
                    i < n <= MAX_TEXT_CHARS,
                    k < glyph.paths@.len(),
                    gp@.map_values(|q: Vec2d| q@) == glyph.paths@[k as int]@,
                    m <= gp@.len(),
                    np@ == place_path(glyph.paths@[k as int]@.take(m as int), x as int, glyph.left as int),
                decreases gp@.len() - m,
            {
                let p = gp[m];
                assert(glyph.paths@[k as int]@[m as int] == p@);
                assert(coord_ok(glyph.paths@[k as int]@[m as int].0));
                np.push(Vec2d { x: x + p.x - glyph.left, y: p.y });
                proof {
                    assert(glyph.paths@[k as int]@.take(m + 1) =~= glyph.paths@[k as int]@.take(m as int).push(p@));
                    assert(np@ =~= place_path(glyph.paths@[k as int]@.take(m + 1), x as int, glyph.left as int));
                }
                m = m + 1;
            }
            proof {
                assert(glyph.paths@[k as int]@.take(m as int) =~= glyph.paths@[k as int]@);
                assert(placed.take(k + 1) =~= placed.take(k as int).push(np@));
                assert(placed[k as int] == np@);
            }
            let ghost before = out@;
            let ghost npv = np@;
            out.push(np);
            assert(paths_view(out@) =~= paths_view(before).push(npv));
            k = k + 1;
        }
        x = x + glyph.right - glyph.left + SPACING;
        proof {
            assert(placed.take(k as int) =~= placed);
            assert(input@.take(i + 1).drop_last() =~= prefix);
            assert(input@.take(i + 1).last() == ch);
        }
        i = i + 1;
    }
    assert(input@.take(n as int) =~= input@);
    Ok(out)
}

/// Every path moved right by `dx`.
pub open spec fn shift_paths(ps: Seq<Seq<Point>>, dx: int) -> Seq<Seq<Point>> {
    ps.map_values(|p: Seq<Point>| p.map_values(|q: Point| (q.0 + dx, q.1)))
}

proof fn lemma_shift_place(g: Glyph, x: int, dx: int)
    ensures
        shift_paths(place_glyph(g, x), dx) == place_glyph(g, x + dx),
{
    let l = shift_paths(place_glyph(g, x), dx);
    let r = place_glyph(g, x + dx);
    assert forall|k: int| 0 <= k < l.len() implies l[k] == r[k] by {
        assert(l[k] =~= r[k]);
    }
    assert(l =~= r);
}

/// Laying out `a` then `b` is laying out `b` alone and moving it right by
/// the cursor that `a` leaves: the cursor advances by the sum of the
/// advances, and the order of characters and of their strokes is kept.
pub proof fn lemma_layout_concat(font: Seq<Glyph>, a: Seq<char>, b: Seq<char>)
    ensures
        cursor_after(font, a + b) == cursor_after(font, a) + cursor_after(font, b),
        layout(font, a + b) == layout(font, a) + shift_paths(
            layout(font, b),
            cursor_after(font, a),
        ),
    decreases b.len(),
{
    if b.len() == 0 {
        assert(a + b =~= a);
        assert(shift_paths(layout(font, b), cursor_after(font, a)) =~= Seq::<Seq<Point>>::empty());
        assert(layout(font, a) + Seq::<Seq<Point>>::empty() =~= layout(font, a));
    } else {
        let b1 = b.drop_last();
        let c = b.last();
        let g = glyph_of(font, c);
        let ca = cursor_after(font, a);
        lemma_layout_concat(font, a, b1);
        assert((a + b).drop_last() =~= a + b1);
        assert((a + b).last() == c);
        lemma_shift_place(g, cursor_after(font, b1), ca);
        assert(shift_paths(layout(font, b), ca) =~= shift_paths(layout(font, b1), ca) + shift_paths(
            place_glyph(g, cursor_after(font, b1)),
            ca,
        ));
        assert(layout(font, a + b) =~= layout(font, a) + shift_paths(layout(font, b), ca));
    }
}

/// Laying out one character: its glyph's strokes, left edge at 0.
pub proof fn lemma_layout_single(font: Seq<Glyph>, c: char)
    ensures
        layout(font, seq![c]) == place_glyph(glyph_of(font, c), 0),
        cursor_after(font, seq![c]) == advance(glyph_of(font, c)),
{
    assert(seq![c].drop_last() =~= Seq::<char>::empty());
    assert(seq![c].last() == c);
    assert(cursor_after(font, Seq::<char>::empty()) == 0);
    assert(layout(font, Seq::<char>::empty()) == Seq::<Seq<Point>>::empty());
    assert(Seq::<Seq<Point>>::empty() + place_glyph(glyph_of(font, c), 0) =~= place_glyph(
        glyph_of(font, c),
        0,
    ));
}

/// Character `i` of the text is drawn by its glyph's strokes, in order,
/// right after the strokes of the characters before it, each point moved
/// so that its X less the cursor is its glyph-local X less the glyph's
/// left edge: a glyph whose points lie right of its left edge is drawn
/// at or right of the cursor.
pub proof fn lemma_glyph_placement(font: Seq<Glyph>, text: Seq<char>, i: int)
    requires
        0 <= i < text.len(),
    ensures
        ({
            let g = glyph_of(font, text[i]);
            let x = cursor_after(font, text.take(i));
            let start = layout(font, text.take(i)).len() as int;
            &&& layout(font, text).subrange(start, start + g.paths@.len()) == place_glyph(g, x)
            &&& forall|k: int, j: int|
                0 <= k < g.paths@.len() && 0 <= j < g.paths@[k]@.len() ==> (
                #[trigger] place_glyph(g, x)[k][j]).0 - x == g.paths@[k]@[j].0 - g.left
            &&& (forall|k: int, j: int|
                0 <= k < g.paths@.len() && 0 <= j < g.paths@[k]@.len() ==> (
                #[trigger] g.paths@[k]@[j]).0 >= g.left) ==> forall|k: int, j: int|
                0 <= k < g.paths@.len() && 0 <= j < g.paths@[k]@.len() ==> (
                #[trigger] place_glyph(g, x)[k][j]).0 >= x
        }),
{
    let g = glyph_of(font, text[i]);
    let x = cursor_after(font, text.take(i));
    let head = text.take(i + 1);
    let tail = text.skip(i + 1);
    assert(text =~= head + tail);
    lemma_layout_concat(font, head, tail);
    assert(head.drop_last() =~= text.take(i));
    assert(head.last() == text[i]);
    let start = layout(font, text.take(i)).len() as int;
    assert(layout(font, text).subrange(start, start + g.paths@.len()) =~= place_glyph(g, x));
    assert forall|k: int, j: int|
        0 <= k < g.paths@.len() && 0 <= j < g.paths@[k]@.len() implies (
        #[trigger] place_glyph(g, x)[k][j]).0 - x == g.paths@[k]@[j].0 - g.left by {
        assert(place_glyph(g, x)[k] == place_path(g.paths@[k]@, x, g.left as int));
    }
    if forall|k: int, j: int|
        0 <= k < g.paths@.len() && 0 <= j < g.paths@[k]@.len() ==> (
        #[trigger] g.paths@[k]@[j]).0 >= g.left {
        assert forall|k: int, j: int|
            0 <= k < g.paths@.len() && 0 <= j < g.paths@[k]@.len() implies (
            #[trigger] place_glyph(g, x)[k][j]).0 >= x by {
            assert(place_glyph(g, x)[k] == place_path(g.paths@[k]@, x, g.left as int));
            assert(g.paths@[k]@[j].0 >= g.left);
        }
    }
}

} // verus!
