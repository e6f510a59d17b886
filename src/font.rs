//! Glyphs, fonts and the table of fonts by name.
use vstd::prelude::*;

use crate::vector::Path;
use crate::PlotError;

verus! {

/// The stroke paths and advance metrics of one character.
#[derive(Clone, Debug)]
pub struct Glyph {
    /// Left edge of the advance box, in glyph-local X units.
    pub left: i64,
    /// Right edge of the advance box, in glyph-local X units.
    pub right: i64,
    /// The strokes of the glyph, in glyph-local coordinates.
    pub paths: Vec<Path>,
}

/// A font: glyph `i` draws the character with code point `i + 32`.
pub type Font = Vec<Glyph>;

/// Font source data is 32-bit: every coordinate and metric fits an `i32`.
pub open spec fn coord_ok(v: int) -> bool {
    i32::MIN <= v <= i32::MAX
}

/// Every metric and every point of the glyph is a 32-bit value.
pub open spec fn glyph_wf(g: Glyph) -> bool {
    &&& coord_ok(g.left as int)
    &&& coord_ok(g.right as int)
    &&& forall|k: int, j: int|
        0 <= k < g.paths@.len() && 0 <= j < g.paths@[k]@.len() ==> {
            &&& coord_ok(#[trigger] g.paths@[k]@[j].0)
            &&& coord_ok(g.paths@[k]@[j].1)
        }
}

/// Every glyph of the font is well formed.
pub open spec fn font_wf(font: Seq<Glyph>) -> bool {
    forall|i: int| 0 <= i < font.len() ==> glyph_wf(#[trigger] font[i])
}

/// Fonts by name; names are compared case-sensitively.
pub struct FontTable {
    pub entries: Vec<(String, Font)>,
}

/// Entry `i` is the first one named `name`.
pub open spec fn first_named(entries: Seq<(String, Font)>, name: Seq<char>, i: int) -> bool {
    &&& 0 <= i < entries.len()
    &&& entries[i].0@ == name
    &&& forall|j: int| 0 <= j < i ==> (#[trigger] entries[j].0)@ != name
}

/// Some entry is named `name`.
pub open spec fn has_name(entries: Seq<(String, Font)>, name: Seq<char>) -> bool {
    exists|i: int| 0 <= i < entries.len() && (#[trigger] entries[i].0)@ == name
}

impl FontTable {
    /// The font called `name`: the first entry of that name, or
    /// `UnknownFont` when there is none.
    pub fn get_by_name(&self, name: &str) -> (r: Result<&Font, PlotError>)
        ensures
            r is Ok <==> has_name(self.entries@, name@),
            r matches Ok(f) ==> exists|i: int|
                first_named(self.entries@, name@, i) && *f == #[trigger] self.entries@[i].1,
            r matches Err(e) ==> e == PlotError::UnknownFont,
    {
        let key = name.to_owned();
        let mut i: usize = 0;
        while i < self.entries.len()
            invariant
                key@ == name@,
                i <= self.entries@.len(),
                forall|j: int| 0 <= j < i ==> (#[trigger] self.entries@[j].0)@ != name@,
            decreases self.entries@.len() - i,
        {
            if self.entries[i].0 == key {
                assert(first_named(self.entries@, name@, i as int));
                return Ok(&self.entries[i].1);
            }
            i = i + 1;
        }
        Err(PlotError::UnknownFont)
    }
}

} // verus!
