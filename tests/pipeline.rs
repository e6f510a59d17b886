use plotter::device::{Clear, ConfigParam, EBBDevice, EnableMotor1Setting, EnableMotor2Setting, PenSetting};
use plotter::drawing::{BoundingBox, Drawing, PenPath};
use plotter::font::{Font, FontTable, Glyph};
use plotter::layout::text_to_paths;
use plotter::plot::render_text;
use plotter::vector::{Path, Vec2d};
use plotter::PlotError;

fn pt(x: i64, y: i64) -> Vec2d {
    Vec2d { x, y }
}

fn path(points: &[(i64, i64)]) -> Path {
    Path::new(points.iter().map(|&(x, y)| pt(x, y)).collect())
}

fn coords(p: &Path) -> Vec<(i64, i64)> {
    p.points().iter().map(|q| q.tuple()).collect()
}

fn empty_glyph() -> Glyph {
    Glyph { left: 0, right: 0, paths: vec![] }
}

/// A font whose 'A' is a caret 10 wide and whose 'B' is a bar 8 wide.
fn test_font() -> Font {
    let mut font: Font = (0..40).map(|_| empty_glyph()).collect();
    font[33] = Glyph { left: 0, right: 10, paths: vec![path(&[(0, 0), (5, 10), (10, 0)])] };
    font[34] = Glyph { left: 0, right: 8, paths: vec![path(&[(0, 0), (0, 10)])] };
    // 'C': two strokes, left edge at -3.
    font[35] = Glyph {
        left: -3,
        right: 4,
        paths: vec![path(&[(-3, 0), (4, 0)]), path(&[(0, -2), (0, 5)])],
    };
    font
}

fn pen_coords(d: &Drawing) -> Vec<(bool, Vec<(i64, i64)>)> {
    d.paths
        .iter()
        .map(|p| (matches!(p, PenPath::PenDown(_)), coords(p.path())))
        .collect()
}

#[test]
fn layout_single_glyph() {
    let out = text_to_paths("A", &test_font()).unwrap();
    assert_eq!(out.len(), 1);
    assert_eq!(coords(&out[0]), vec![(0, 0), (5, 10), (10, 0)]);
}

#[test]
fn layout_cursor_ends_at_advance() {
    // The second 'A' starts where the first one's advance ends.
    let out = text_to_paths("AA", &test_font()).unwrap();
    assert_eq!(out.len(), 2);
    assert_eq!(coords(&out[1]), vec![(10, 0), (15, 10), (20, 0)]);
}

#[test]
fn layout_second_glyph_shifted() {
    let out = text_to_paths("AB", &test_font()).unwrap();
    assert_eq!(out.len(), 2);
    assert_eq!(coords(&out[0]), vec![(0, 0), (5, 10), (10, 0)]);
    assert_eq!(coords(&out[1]), vec![(10, 0), (10, 10)]);
}

#[test]
fn layout_is_additive() {
    let font = test_font();
    let ab = text_to_paths("AB", &font).unwrap();
    let a = text_to_paths("A", &font).unwrap();
    let b = text_to_paths("B", &font).unwrap();
    assert_eq!(coords(&ab[0]), coords(&a[0]));
    let shifted: Vec<(i64, i64)> = coords(&b[0]).iter().map(|&(x, y)| (x + 10, y)).collect();
    assert_eq!(coords(&ab[1]), shifted);
    // "ABA": the last 'A' starts at 10 + 8.
    let aba = text_to_paths("ABA", &font).unwrap();
    assert_eq!(coords(&aba[2]), vec![(18, 0), (23, 10), (28, 0)]);
}

#[test]
fn layout_shifts_by_left_edge() {
    // 'C' has left = -3: its points land at or right of the cursor.
    let out = text_to_paths("AC", &test_font()).unwrap();
    assert_eq!(out.len(), 3);
    assert_eq!(coords(&out[1]), vec![(10, 0), (17, 0)]);
    assert_eq!(coords(&out[2]), vec![(13, -2), (13, 5)]);
    assert!(out[1..].iter().all(|p| p.points().iter().all(|q| q.x >= 10)));
}

#[test]
fn layout_space_has_no_paths() {
    let out = text_to_paths(" A ", &test_font()).unwrap();
    assert_eq!(out.len(), 1);
}

#[test]
fn layout_rejects_control_character() {
    let err = text_to_paths("A\n", &test_font()).err();
    assert_eq!(err, Some(PlotError::GlyphIndexOutOfRange));
}

#[test]
fn layout_rejects_character_past_font() {
    // Code point 72 is index 40, one past the font's last glyph.
    assert_eq!(text_to_paths("H", &test_font()).err(), Some(PlotError::GlyphIndexOutOfRange));
    assert!(text_to_paths("G", &test_font()).is_ok());
    assert_eq!(text_to_paths("é", &test_font()).err(), Some(PlotError::GlyphIndexOutOfRange));
}

#[test]
fn layout_empty_text() {
    assert_eq!(text_to_paths("", &test_font()).unwrap().len(), 0);
}

#[test]
fn build_single_path() {
    let d = Drawing::new(vec![path(&[(0, 0), (5, 10), (10, 0)])]).unwrap();
    assert_eq!(
        pen_coords(&d),
        vec![(false, vec![(0, 0), (0, 0)]), (true, vec![(0, 0), (5, 10), (10, 0)])]
    );
}

#[test]
fn build_alternates_and_drops_empty_paths() {
    let d = Drawing::new(vec![
        path(&[]),
        path(&[(1, 2), (3, 4)]),
        path(&[]),
        path(&[(5, 6)]),
        path(&[(7, 8), (9, 9), (0, 1)]),
    ])
    .unwrap();
    let pens = pen_coords(&d);
    assert_eq!(pens.len(), 6);
    for (i, (down, _)) in pens.iter().enumerate() {
        assert_eq!(*down, i % 2 == 1);
    }
    assert_eq!(pens[0].1, vec![(0, 0), (1, 2)]);
    assert_eq!(pens[2].1, vec![(3, 4), (5, 6)]);
    assert_eq!(pens[4].1, vec![(5, 6), (7, 8)]);
    assert_eq!(pens[5].1, vec![(7, 8), (9, 9), (0, 1)]);
}

#[test]
fn build_all_empty_fails() {
    assert_eq!(Drawing::new(vec![path(&[]), path(&[])]).err(), Some(PlotError::EmptyDrawing));
    assert_eq!(Drawing::new(vec![]).err(), Some(PlotError::EmptyDrawing));
}

#[test]
fn bounding_box_counts_travel() {
    let d = Drawing::new(vec![path(&[(3, -4), (8, 2)])]).unwrap();
    let bb = d.bounding_box();
    // The travel from the origin counts.
    assert_eq!(bb, BoundingBox { left: 0, right: 8, top: -4, bottom: 2 });
    assert_eq!(bb.size(), pt(8, 6));
    assert_eq!(bb.offset(), pt(0, 4));
}

#[test]
fn offset_normalizes_points() {
    let d = Drawing::new(vec![path(&[(-5, 3), (2, -7)]), path(&[(4, 9)])]).unwrap();
    let bb = d.bounding_box();
    let off = bb.offset();
    let size = bb.size();
    let mut max = (i64::MIN, i64::MIN);
    for p in &d.paths {
        for q in p.path().points() {
            let s = q.add(&off);
            assert!(s.x >= 0 && s.y >= 0);
            max = (max.0.max(s.x), max.1.max(s.y));
        }
    }
    assert_eq!(max, size.tuple());
    assert_eq!(size, pt(9, 16));
}

#[test]
fn strokes_skip_travel() {
    let d = Drawing::new(vec![path(&[(0, 0), (5, 10), (10, 0)])]).unwrap();
    let lines = d.strokes().unwrap();
    assert_eq!(lines, vec![(pt(0, 0), pt(5, 10)), (pt(5, 10), pt(10, 0))]);
}

#[test]
fn strokes_apply_offset() {
    let d = Drawing::new(vec![path(&[(-2, -3), (4, 1)]), path(&[(6, 6)])]).unwrap();
    let lines = d.strokes().unwrap();
    // A single-point stroke draws no segment.
    assert_eq!(lines, vec![(pt(0, 0), pt(6, 4))]);
}

#[test]
fn strokes_repeatable() {
    let d = Drawing::new(vec![path(&[(1, 1), (2, 5)]), path(&[(-1, 0), (3, 3), (0, 0)])]).unwrap();
    assert_eq!(d.strokes(), d.strokes());
}

#[test]
fn strokes_extent_too_large() {
    let d = Drawing::new(vec![path(&[(i64::MIN + 1, 0), (i64::MAX, 0)])]).unwrap();
    assert_eq!(d.strokes(), None);
}

fn table() -> FontTable {
    FontTable {
        entries: vec![("simplex".to_string(), test_font()), ("empty".to_string(), vec![])],
    }
}

#[test]
fn lookup_by_name() {
    let t = table();
    assert_eq!(t.get_by_name("simplex").unwrap().len(), 40);
    assert_eq!(t.get_by_name("empty").unwrap().len(), 0);
    assert_eq!(t.get_by_name("Simplex").err(), Some(PlotError::UnknownFont));
}

#[test]
fn render_text_scenario() {
    let r = render_text(&table(), "AB", "simplex").unwrap();
    assert_eq!(r.size, pt(10, 10));
    assert_eq!(
        r.lines,
        vec![(pt(0, 0), pt(5, 10)), (pt(5, 10), pt(10, 0)), (pt(10, 0), pt(10, 10))]
    );
}

#[test]
fn render_text_errors() {
    let t = table();
    assert_eq!(render_text(&t, "A", "nope").err(), Some(PlotError::UnknownFont));
    assert_eq!(render_text(&t, "A", "empty").err(), Some(PlotError::GlyphIndexOutOfRange));
    assert_eq!(render_text(&t, "", "simplex").err(), Some(PlotError::EmptyDrawing));
    assert_eq!(render_text(&t, "  ", "simplex").err(), Some(PlotError::EmptyDrawing));
}

#[test]
fn render_text_wide_glyph() {
    let wide = Glyph { left: 0, right: 0, paths: vec![path(&[(-2147483648, 0), (2147483647, 0)])] };
    let mut font: Font = (0..2).map(|_| empty_glyph()).collect();
    font[1] = wide;
    let t = FontTable { entries: vec![("w".to_string(), font)] };
    // Within range: one segment across the whole glyph.
    let r = render_text(&t, "!", "w").unwrap();
    assert_eq!(r.lines, vec![(pt(0, 0), pt(4294967295, 0))]);
}

#[test]
fn vector_ops() {
    assert_eq!(pt(1, -2).add(&pt(3, 4)), pt(4, 2));
    assert_eq!(pt(1, -2).neg(), pt(-1, 2));
    assert_eq!(pt(7, 8).tuple(), (7, 8));
    let mut p = Path::empty();
    p.push(pt(1, 1));
    p.push(pt(2, 3));
    assert_eq!(coords(&p), vec![(1, 1), (2, 3)]);
}

#[test]
fn bounding_box_update() {
    let mut bb = BoundingBox::new(&pt(2, 3));
    bb.update(&pt(-1, 5));
    bb.update(&pt(4, 0));
    assert_eq!(bb, BoundingBox { left: -1, right: 4, top: 0, bottom: 5 });
}

#[test]
fn device_commands() {
    assert_eq!(EBBDevice::xm(100, 2, 30, Clear::Both), b"XM,100,2,30,3\r".to_vec());
    assert_eq!(EBBDevice::sc(ConfigParam::ServoRateUp, 7), b"SC,11,7\r".to_vec());
    assert_eq!(EBBDevice::cs(), b"CS\r".to_vec());
    assert_eq!(EBBDevice::v(), b"V\r".to_vec());
    assert_eq!(
        EBBDevice::em(EnableMotor1Setting::EnableMotor1_8, EnableMotor2Setting::EnableMotor2),
        b"EM,2,1\r".to_vec()
    );
    assert_eq!(EBBDevice::es(true), b"ES,1\r".to_vec());
    assert_eq!(EBBDevice::qm(), b"QM\r".to_vec());
    assert_eq!(EBBDevice::qs(), b"QS\r".to_vec());
    assert_eq!(EBBDevice::sp(PenSetting::QueueMoveToMin, 250), b"SP,1,250\r".to_vec());
    assert_eq!(EBBDevice::xm(4294967295, 0, 10, Clear::Neither), b"XM,4294967295,0,10,0\r".to_vec());
}
