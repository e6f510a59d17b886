//! The whole pipeline: from a text and a font name to the segments to
//! stroke on a surface of the drawing's size.
use vstd::prelude::*;

use crate::drawing::{
    any_nonempty, box_fits, box_offset, box_size, build, is_box_of, lines_view, segments,
    BoundingBox, Drawing,
};
use crate::font::{first_named, font_wf, has_name, FontTable};
use crate::layout::{all_have_glyphs, layout, text_to_paths, MAX_TEXT_CHARS};
use crate::vector::{paths_view, Vec2d};
use crate::PlotError;

verus! {

/// What a surface is asked to draw for one text.
pub struct Rendering {
    /// Width (x) and height (y) of the drawing.
    pub size: Vec2d,
    /// The segments to stroke, in order, with the drawing's top-left
    /// corner at the origin.
    pub lines: Vec<(Vec2d, Vec2d)>,
}

/// Every font of the table is well formed.
pub open spec fn table_wf(t: FontTable) -> bool {
    forall|i: int| 0 <= i < t.entries@.len() ==> font_wf(#[trigger] t.entries@[i].1@)
}

/// Lays out `text` in the font called `font_name`, builds its pen program
/// and gives what a surface draws: the size of the drawing and its
/// strokes moved to the origin.
pub fn render_text(table: &FontTable, text: &str, font_name: &str) -> (r: Result<
    Rendering,
    PlotError,
>)
    requires
        table_wf(*table),
        text@.len() <= MAX_TEXT_CHARS,
    ensures
        !has_name(table.entries@, font_name@) ==> r == Err::<Rendering, PlotError>(
            PlotError::UnknownFont,
        ),
        forall|i: int| #[trigger]
            first_named(table.entries@, font_name@, i) ==> {
                let font = table.entries@[i].1@;
                let d = build(layout(font, text@));
                &&& !all_have_glyphs(font, text@) ==> r == Err::<Rendering, PlotError>(
                    PlotError::GlyphIndexOutOfRange,
                )
                &&& all_have_glyphs(font, text@) && !any_nonempty(layout(font, text@)) ==> r
                    == Err::<Rendering, PlotError>(PlotError::EmptyDrawing)
                &&& all_have_glyphs(font, text@) && any_nonempty(layout(font, text@)) ==> forall|
                    b: BoundingBox,
                | #[trigger] is_box_of(d, b) ==> {
                    &&& !box_fits(b) ==> r == Err::<Rendering, PlotError>(
                        PlotError::ExtentOverflow,
                    )
                    &&& box_fits(b) ==> (r matches Ok(out) && out.size@ == box_size(b)
                        && lines_view(out.lines@) == segments(d, box_offset(b)))
                }
            },
{
    let font = match table.get_by_name(font_name) {
        Ok(f) => f,
        Err(e) => {
            return Err(e);
        },
    };
    let ghost i = choose|i: int| first_named(table.entries@, font_name@, i) && *font == #[trigger] table.entries@[i].1;
    assert(forall|j: int| #[trigger] first_named(table.entries@, font_name@, j) ==> j == i) by {
        assert forall|j: int| #[trigger] first_named(table.entries@, font_name@, j) implies j == i by {
            if j < i {
                assert(table.entries@[j].0@ == font_name@);
            }
            if i < j {
                assert(table.entries@[i].0@ == font_name@);
            }
        }
    }
    assert(font_wf(table.entries@[i].1@));
    let paths = match text_to_paths(text, font) {
        Ok(p) => p,
        Err(e) => {
            return Err(e);
        },
    };
    let drawing = match Drawing::new(paths) {
        Ok(d) => d,
        Err(e) => {
            return Err(e);
        },
    };
    let bb = drawing.bounding_box();
    proof {
        crate::drawing::lemma_box_unique(drawing@, bb);
    }
    let lines = match drawing.strokes() {
        Some(l) => l,
        None => {
            return Err(PlotError::ExtentOverflow);
        },
    };
    let size = bb.size();
    Ok(Rendering { size, lines })
}

} // verus!
