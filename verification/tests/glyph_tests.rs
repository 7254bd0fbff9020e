use fim::glyph::{
    Contour, Curve, GlyphMetrics, GlyphStore, Outline, OutlinePoint, Segment, process_contour,
};

fn pt(x: i32, y: i32) -> OutlinePoint {
    OutlinePoint { x, y }
}

fn metrics(advance: i32) -> GlyphMetrics {
    GlyphMetrics {
        width: 600,
        height: 700,
        bearing_x: 50,
        bearing_y: 650,
        advance,
        em_size: 1000,
    }
}

fn square_outline(reverse_fill: bool) -> Outline {
    Outline {
        contours: vec![Contour {
            start: pt(0, 0),
            segments: vec![
                Segment::LineTo(pt(10, 0)),
                Segment::LineTo(pt(10, 10)),
                Segment::LineTo(pt(0, 10)),
                Segment::LineTo(pt(0, 0)),
            ],
        }],
        reverse_fill,
    }
}

// A straight segment becomes one quadratic whose control point is the
// segment's midpoint; coordinates carry the fixed scale factor 8.
#[test]
fn line_segment_becomes_midpoint_quadratic() {
    let outline = Outline {
        contours: vec![Contour {
            start: pt(0, 0),
            segments: vec![Segment::LineTo(pt(10, 4))],
        }],
        reverse_fill: true,
    };
    let mut pool: Vec<Curve> = Vec::new();
    process_contour(&mut pool, &outline);
    assert_eq!(pool.len(), 1);
    let c = pool[0];
    assert_eq!((c.x1, c.y1), (0, 0));
    assert_eq!((c.x2, c.y2), (40, 16));
    assert_eq!((c.x3, c.y3), (80, 32));
}

// A native quadratic is copied (scaled).
#[test]
fn quadratic_segment_is_copied() {
    let outline = Outline {
        contours: vec![Contour {
            start: pt(1, 2),
            segments: vec![Segment::QuadTo(pt(3, 4), pt(5, 6))],
        }],
        reverse_fill: true,
    };
    let mut pool: Vec<Curve> = Vec::new();
    process_contour(&mut pool, &outline);
    assert_eq!(pool.len(), 1);
    let c = pool[0];
    assert_eq!((c.x1, c.y1, c.x2, c.y2, c.x3, c.y3), (8, 16, 24, 32, 40, 48));
}

// A cubic becomes two quadratics: control points three quarters along
// the hull edges, joined at their midpoint.
#[test]
fn cubic_segment_becomes_two_quadratics() {
    let outline = Outline {
        contours: vec![Contour {
            start: pt(0, 0),
            segments: vec![Segment::CubicTo(pt(4, 0), pt(8, 0), pt(12, 0))],
        }],
        reverse_fill: true,
    };
    let mut pool: Vec<Curve> = Vec::new();
    process_contour(&mut pool, &outline);
    assert_eq!(pool.len(), 2);
    // First: from 8*0 over 2*0+6*4 = 24 to the join 0+12+24+12 = 48.
    assert_eq!((pool[0].x1, pool[0].x2, pool[0].x3), (0, 24, 48));
    // Second: from the join over 2*12+6*8 = 72 to 8*12 = 96.
    assert_eq!((pool[1].x1, pool[1].x2, pool[1].x3), (48, 72, 96));
    assert_eq!((pool[0].y1, pool[0].y2, pool[0].y3), (0, 0, 0));
}

// Without the reverse-fill flag every primitive's endpoints are
// swapped, normalizing the winding; the control point stays.
#[test]
fn winding_normalization_swaps_endpoints() {
    let outline = Outline {
        contours: vec![Contour {
            start: pt(0, 0),
            segments: vec![Segment::LineTo(pt(10, 4))],
        }],
        reverse_fill: false,
    };
    let mut pool: Vec<Curve> = Vec::new();
    process_contour(&mut pool, &outline);
    assert_eq!(pool.len(), 1);
    let c = pool[0];
    assert_eq!((c.x1, c.y1), (80, 32));
    assert_eq!((c.x2, c.y2), (40, 16));
    assert_eq!((c.x3, c.y3), (0, 0));
}

// Decomposing the same outline twice produces bit-identical primitive
// sequences.
#[test]
fn decomposition_is_deterministic() {
    let outline = square_outline(false);
    let mut first: Vec<Curve> = Vec::new();
    process_contour(&mut first, &outline);
    let mut second: Vec<Curve> = Vec::new();
    process_contour(&mut second, &outline);
    assert_eq!(first.len(), second.len());
    for i in 0..first.len() {
        assert_eq!(first[i], second[i]);
    }
}

#[test]
fn multiple_contours_concatenate() {
    let outline = Outline {
        contours: vec![
            Contour { start: pt(0, 0), segments: vec![Segment::LineTo(pt(1, 0))] },
            Contour { start: pt(5, 5), segments: vec![Segment::LineTo(pt(6, 5))] },
        ],
        reverse_fill: true,
    };
    let mut pool: Vec<Curve> = Vec::new();
    process_contour(&mut pool, &outline);
    assert_eq!(pool.len(), 2);
    assert_eq!((pool[0].x1, pool[0].y1), (0, 0));
    assert_eq!((pool[1].x1, pool[1].y1), (40, 40));
}

#[test]
fn insert_glyph_records_pool_range() {
    let mut store = GlyphStore::new();
    store.insert_glyph(0, &square_outline(true), metrics(500));
    store.insert_glyph(97, &square_outline(true), metrics(500));
    let g0 = *store.get_glyph(0).unwrap();
    let ga = *store.get_glyph(97).unwrap();
    assert_eq!(g0.start, 0);
    assert_eq!(g0.count, 4);
    assert_eq!(ga.start, 4);
    assert_eq!(ga.count, 4);
    assert_eq!(store.pool_len(), 8);
    assert_eq!(ga.advance, 500);
    assert_eq!(ga.em_size, 1000);
}

// The pool is append-only: growing it never moves what an earlier
// glyph's range points at.
#[test]
fn pool_growth_preserves_earlier_ranges() {
    let mut store = GlyphStore::new();
    store.insert_glyph(0, &square_outline(true), metrics(500));
    let before: Vec<Curve> = (0..store.pool_len()).map(|i| store.pool_at(i)).collect();
    store.insert_glyph(98, &square_outline(false), metrics(500));
    store.insert_glyph(99, &square_outline(true), metrics(500));
    let g0 = *store.get_glyph(0).unwrap();
    for i in 0..before.len() {
        assert_eq!(store.pool_at(g0.start + i), before[i]);
    }
}

#[test]
fn glyph_fallback_is_codepoint_zero() {
    let mut store = GlyphStore::new();
    store.insert_glyph(0, &square_outline(true), metrics(123));
    let g = store.glyph_or_fallback(55555);
    assert_eq!(g.advance, 123);
}

#[test]
fn main_advance_prefers_space() {
    let mut store = GlyphStore::new();
    store.insert_glyph(0, &square_outline(true), metrics(111));
    assert_eq!(store.main_advance(), 111);
    store.insert_glyph(32, &square_outline(true), metrics(222));
    assert_eq!(store.main_advance(), 222);
    store.set_metrics(store.main_advance(), 1200, 1000);
    assert_eq!(store.advance, 222);
    assert_eq!(store.height, 1200);
}

#[test]
fn missing_codepoints_lists_each_once_in_order() {
    let mut store = GlyphStore::new();
    store.insert_glyph(0, &square_outline(true), metrics(1));
    store.insert_glyph('a' as u32, &square_outline(true), metrics(1));
    let missing = store.missing_codepoints("ba\r\ncab");
    assert_eq!(missing, vec!['b' as u32, 'c' as u32]);
}

// Loading the same text twice: after the first pass has recorded every
// missing codepoint, a second walk reports nothing to load.
#[test]
fn second_load_finds_nothing() {
    let mut store = GlyphStore::new();
    store.insert_glyph(0, &square_outline(true), metrics(1));
    let text = "hello\nworld";
    let missing = store.missing_codepoints(text);
    assert!(!missing.is_empty());
    for code in missing {
        store.insert_glyph(code, &square_outline(true), metrics(1));
    }
    let again = store.missing_codepoints(text);
    assert!(again.is_empty());
    assert_eq!(store.needs_glyph('h'), false);
    assert_eq!(store.needs_glyph('\n'), false);
    assert_eq!(store.needs_glyph('z'), true);
}
