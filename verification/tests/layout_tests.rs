use fim::glyph::{Contour, GlyphMetrics, GlyphStore, Outline, OutlinePoint, Segment};
use fim::layout::draw_text;

fn letter_outline() -> Outline {
    Outline {
        contours: vec![Contour {
            start: OutlinePoint { x: 0, y: 0 },
            segments: vec![Segment::LineTo(OutlinePoint { x: 100, y: 0 })],
        }],
        reverse_fill: true,
    }
}

fn empty_outline() -> Outline {
    Outline { contours: Vec::new(), reverse_fill: true }
}

fn metrics() -> GlyphMetrics {
    GlyphMetrics {
        width: 600,
        height: 700,
        bearing_x: 50,
        bearing_y: 650,
        advance: 600,
        em_size: 1000,
    }
}

/// A store with the missing-glyph placeholder, a space without
/// geometry, and simple letter glyphs.
fn test_store() -> GlyphStore {
    let mut store = GlyphStore::new();
    store.insert_glyph(0, &letter_outline(), metrics());
    store.insert_glyph(' ' as u32, &empty_outline(), metrics());
    for c in "abcdefgh".chars() {
        store.insert_glyph(c as u32, &letter_outline(), metrics());
    }
    store.set_metrics(600, 1200, 1000);
    store
}

// The end-to-end cursor scenario: in "ab\ncd" the coordinate (2, 1)
// is the cell of the `d` on the second line — one advance across, one
// line height down.
#[test]
fn cursor_cell_of_second_line_second_char() {
    let store = test_store();
    let (quads, cursor) = draw_text(&store, "ab\ncd", usize::MAX, Some((2, 1)));
    assert_eq!(cursor, (1, 1));
    assert_eq!(quads.len(), 4);
}

#[test]
fn quads_carry_cells_and_ranges() {
    let store = test_store();
    let (quads, _) = draw_text(&store, "ab\ncd", usize::MAX, None);
    assert_eq!(quads.len(), 4);
    assert_eq!((quads[0].col, quads[0].row), (0, 0));
    assert_eq!((quads[1].col, quads[1].row), (1, 0));
    assert_eq!((quads[2].col, quads[2].row), (0, 1));
    assert_eq!((quads[3].col, quads[3].row), (1, 1));
    let a = *store.get_glyph('a' as u32).unwrap();
    assert_eq!(quads[0].start, a.start);
    assert_eq!(quads[0].count, a.count);
    // UV box: lower-left (bearing_x, bearing_y - height), upper-right
    // (bearing_x + width, bearing_y).
    assert_eq!((quads[0].uv0x, quads[0].uv0y), (50, -50));
    assert_eq!((quads[0].uv1x, quads[0].uv1y), (650, 650));
}

#[test]
fn spaces_advance_without_quads() {
    let store = test_store();
    let (quads, _) = draw_text(&store, "a b", usize::MAX, None);
    assert_eq!(quads.len(), 2);
    assert_eq!((quads[0].col, quads[0].row), (0, 0));
    assert_eq!((quads[1].col, quads[1].row), (2, 0));
}

#[test]
fn unknown_codepoints_draw_the_placeholder() {
    let store = test_store();
    let (quads, _) = draw_text(&store, "z", usize::MAX, None);
    let fallback = *store.get_glyph(0).unwrap();
    assert_eq!(quads.len(), 1);
    assert_eq!(quads[0].start, fallback.start);
}

#[test]
fn carriage_returns_are_skipped() {
    let store = test_store();
    let (quads, _) = draw_text(&store, "a\r\nb", usize::MAX, None);
    assert_eq!(quads.len(), 2);
    assert_eq!((quads[1].col, quads[1].row), (0, 1));
}

// Past the wrap column, a glyph without geometry wraps softly instead
// of being drawn.
#[test]
fn soft_wrap_at_space_past_limit() {
    let store = test_store();
    let (quads, _) = draw_text(&store, "abcd efgh", 2, None);
    // "abcd" exceeds the limit, so the following space wraps.
    assert_eq!((quads[0].col, quads[0].row), (0, 0));
    assert_eq!((quads[3].col, quads[3].row), (3, 0));
    assert_eq!((quads[4].col, quads[4].row), (0, 1));
    assert_eq!(quads.len(), 8);
}

// Letters themselves never wrap: only a glyph without geometry does.
#[test]
fn letters_do_not_wrap() {
    let store = test_store();
    let (quads, _) = draw_text(&store, "abcdefgh", 2, None);
    assert_eq!(quads.len(), 8);
    assert_eq!((quads[7].col, quads[7].row), (7, 0));
}

#[test]
fn cursor_at_line_start() {
    let store = test_store();
    let (_, cursor) = draw_text(&store, "ab\ncd", usize::MAX, Some((1, 0)));
    assert_eq!(cursor, (0, 0));
}

// A cursor column past its line's end resolves where the next line
// begins its walk: at column 0 under the line the target line ended
// on.
#[test]
fn cursor_past_line_end_falls_back() {
    let store = test_store();
    let (_, cursor) = draw_text(&store, "ab\ncd", usize::MAX, Some((1, 5)));
    assert_eq!(cursor, (0, 0));
}

// A cursor never matched at all resolves to the final pen position.
#[test]
fn unmatched_cursor_resolves_to_final_pen() {
    let store = test_store();
    let (_, cursor) = draw_text(&store, "ab\ncd", usize::MAX, Some((9, 9)));
    assert_eq!(cursor, (2, 1));
    let (_, end) = draw_text(&store, "ab\ncd", usize::MAX, None);
    assert_eq!(end, (2, 1));
}

#[test]
fn cursor_at_insertion_point_past_text() {
    let store = test_store();
    let (_, cursor) = draw_text(&store, "ab", usize::MAX, Some((1, 2)));
    assert_eq!(cursor, (2, 0));
}

#[test]
fn empty_text_reports_origin() {
    let store = test_store();
    let (quads, cursor) = draw_text(&store, "", usize::MAX, Some((1, 0)));
    assert!(quads.is_empty());
    assert_eq!(cursor, (0, 0));
}
