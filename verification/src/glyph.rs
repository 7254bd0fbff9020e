//! Glyph geometry: outlines, curve decomposition and the glyph store.
//!
//! A font face describes each glyph as closed contours of line,
//! quadratic and cubic segments over an integer grid of font units.
//! The renderer only ever evaluates quadratic Bezier curves, so every
//! contour is decomposed into [`Curve`] primitives: a straight segment
//! becomes a degenerate quadratic whose control point is the segment's
//! midpoint, a quadratic is copied, and a cubic is approximated by two
//! quadratics joined at their midpoint (control points at three
//! quarters of the way along the cubic's hull edges).  To keep those
//! constructions exact, curve coordinates are font units scaled by 8:
//! midpoints contribute a factor 2 and the three-quarter points a
//! factor 8, so every coordinate stays an integer and the
//! decomposition is exactly reproducible.  Scaling to em space happens
//! only at the GPU boundary.
//!
//! After decomposition, unless the outline's fill direction is already
//! reversed, every primitive's endpoints are swapped; fill-rule
//! evaluation is then orientation-independent across fonts.
//!
//! The [`GlyphStore`] owns the shared curve pool — a flat, append-only
//! array — and the codepoint-to-glyph map.  Each glyph references a
//! contiguous pool range `[start, start + count)`; the pool only ever
//! grows at its end, so ranges stay valid forever.

use vstd::prelude::*;

use std::collections::HashMap;

verus! {

broadcast use vstd::std_specs::hash::group_hash_axioms;

/// A point of a font outline, in integer font units.
#[derive(Clone, Copy, PartialEq, Eq, Structural, Debug)]
pub struct OutlinePoint {
    pub x: i32,
    pub y: i32,
}

/// One segment of a closed contour, each holding its absolute
/// endpoint (and control points where it has them).
#[derive(Clone, Copy, PartialEq, Eq, Structural, Debug)]
pub enum Segment {
    /// A straight line to the endpoint.
    LineTo(OutlinePoint),
    /// A quadratic Bezier: control point, endpoint.
    QuadTo(OutlinePoint, OutlinePoint),
    /// A cubic Bezier: two control points, endpoint.
    CubicTo(OutlinePoint, OutlinePoint, OutlinePoint),
}

/// A closed contour: where it starts and the segments that walk it.
pub struct Contour {
    pub start: OutlinePoint,
    pub segments: Vec<Segment>,
}

/// The contours of one glyph, plus the outline's fill-direction flag:
/// when the fill is *not* reversed, decomposition swaps every
/// primitive's endpoints to normalize the winding.
pub struct Outline {
    pub contours: Vec<Contour>,
    pub reverse_fill: bool,
}

/// One quadratic Bezier curve primitive of the pool: start point
/// `(x1, y1)`, control point `(x2, y2)`, end point `(x3, y3)`, all in
/// font units scaled by 8.
#[derive(Clone, Copy, PartialEq, Eq, Structural, Debug)]
pub struct Curve {
    pub x1: i64,
    pub y1: i64,
    pub x2: i64,
    pub y2: i64,
    pub x3: i64,
    pub y3: i64,
}

/// The mathematical content of a contour.
pub struct ContourView {
    pub start: OutlinePoint,
    pub segments: Seq<Segment>,
}

impl View for Contour {
    type V = ContourView;

    open spec fn view(&self) -> ContourView {
        ContourView { start: self.start, segments: self.segments@ }
    }
}

/// The mathematical content of an outline.
pub struct OutlineView {
    pub contours: Seq<ContourView>,
    pub reverse_fill: bool,
}

impl View for Outline {
    type V = OutlineView;

    open spec fn view(&self) -> OutlineView {
        OutlineView {
            contours: self.contours@.map_values(|c: Contour| c@),
            reverse_fill: self.reverse_fill,
        }
    }
}

/// The degenerate quadratic standing for the straight segment from
/// `p1` to `p2`: its control point is the segment's midpoint.
pub open spec fn line_curve(p1: OutlinePoint, p2: OutlinePoint) -> Curve {
    Curve {
        x1: (8 * p1.x) as i64,
        y1: (8 * p1.y) as i64,
        x2: (4 * (p1.x + p2.x)) as i64,
        y2: (4 * (p1.y + p2.y)) as i64,
        x3: (8 * p2.x) as i64,
        y3: (8 * p2.y) as i64,
    }
}

/// The quadratic from `p1` over control point `p2` to `p3`, scaled.
pub open spec fn quad_curve(p1: OutlinePoint, p2: OutlinePoint, p3: OutlinePoint) -> Curve {
    Curve {
        x1: (8 * p1.x) as i64,
        y1: (8 * p1.y) as i64,
        x2: (8 * p2.x) as i64,
        y2: (8 * p2.y) as i64,
        x3: (8 * p3.x) as i64,
        y3: (8 * p3.y) as i64,
    }
}

/// The two quadratics approximating the cubic `p1 p2 p3 p4`: control
/// points three quarters of the way from each endpoint towards its
/// neighbouring cubic control point (scaled by 8: `2*p1 + 6*p2` and
/// `2*p4 + 6*p3`), joined at the midpoint of those two.
pub open spec fn cubic_curves(
    p1: OutlinePoint,
    p2: OutlinePoint,
    p3: OutlinePoint,
    p4: OutlinePoint,
) -> Seq<Curve> {
    let c0x = 2 * p1.x + 6 * p2.x;
    let c0y = 2 * p1.y + 6 * p2.y;
    let c1x = 2 * p4.x + 6 * p3.x;
    let c1y = 2 * p4.y + 6 * p3.y;
    let dx = p1.x + 3 * p2.x + 3 * p3.x + p4.x;
    let dy = p1.y + 3 * p2.y + 3 * p3.y + p4.y;
    seq![
        Curve {
            x1: (8 * p1.x) as i64,
            y1: (8 * p1.y) as i64,
            x2: c0x as i64,
            y2: c0y as i64,
            x3: dx as i64,
            y3: dy as i64,
        },
        Curve {
            x1: dx as i64,
            y1: dy as i64,
            x2: c1x as i64,
            y2: c1y as i64,
            x3: (8 * p4.x) as i64,
            y3: (8 * p4.y) as i64,
        },
    ]
}

/// The endpoint of a segment, where the pen rests afterwards.
pub open spec fn seg_end(seg: Segment) -> OutlinePoint {
    match seg {
        Segment::LineTo(p) => p,
        Segment::QuadTo(_, p) => p,
        Segment::CubicTo(_, _, p) => p,
    }
}

/// The primitives one segment contributes, starting from pen point
/// `p`.
pub open spec fn seg_curves(p: OutlinePoint, seg: Segment) -> Seq<Curve> {
    match seg {
        Segment::LineTo(q) => seq![line_curve(p, q)],
        Segment::QuadTo(c, q) => seq![quad_curve(p, c, q)],
        Segment::CubicTo(c1, c2, q) => cubic_curves(p, c1, c2, q),
    }
}

/// The pen point before segment `i` of a contour: the contour's start,
/// or the previous segment's endpoint.
pub open spec fn point_before(start: OutlinePoint, segments: Seq<Segment>, i: int) -> OutlinePoint {
    if i <= 0 {
        start
    } else {
        seg_end(segments[i - 1])
    }
}

/// The primitives of the first `n` segments of a contour.
pub open spec fn contour_curves_prefix(
    start: OutlinePoint,
    segments: Seq<Segment>,
    n: int,
) -> Seq<Curve>
    decreases n,
{
    if n <= 0 {
        Seq::empty()
    } else {
        contour_curves_prefix(start, segments, n - 1) + seg_curves(
            point_before(start, segments, n - 1),
            segments[n - 1],
        )
    }
}

/// The primitives of one whole contour.
pub open spec fn contour_curves(c: ContourView) -> Seq<Curve> {
    contour_curves_prefix(c.start, c.segments, c.segments.len() as int)
}

/// The primitives of the first `n` contours of an outline.
pub open spec fn contours_curves_prefix(contours: Seq<ContourView>, n: int) -> Seq<Curve>
    decreases n,
{
    if n <= 0 {
        Seq::empty()
    } else {
        contours_curves_prefix(contours, n - 1) + contour_curves(contours[n - 1])
    }
}

/// The curve with its endpoints swapped (control point kept).
pub open spec fn swap_ends(c: Curve) -> Curve {
    Curve { x1: c.x3, y1: c.y3, x2: c.x2, y2: c.y2, x3: c.x1, y3: c.y1 }
}

/// The decomposition of a whole outline: the primitives of its
/// contours in order, every primitive's endpoints swapped unless the
/// outline's fill direction is already reversed.  This is a pure
/// function of the outline, so decomposing the same outline twice
/// yields identical primitive sequences.
pub open spec fn outline_curves(o: OutlineView) -> Seq<Curve> {
    let raw = contours_curves_prefix(o.contours, o.contours.len() as int);
    if o.reverse_fill {
        raw
    } else {
        raw.map_values(|c: Curve| swap_ends(c))
    }
}

/// Decomposes every contour of `outline` into quadratic primitives and
/// appends them to the pool, winding-normalized.  Everything already in
/// the pool stays exactly where it was.
pub fn process_contour(curve_data: &mut Vec<Curve>, outline: &Outline)
    ensures
        final(curve_data)@ == old(curve_data)@ + outline_curves(outline@),
{
    let start_idx = curve_data.len();
    let ncontours = outline.contours.len();
    let mut ci: usize = 0;
    while ci < ncontours
        invariant
            ncontours == outline.contours@.len(),
            ci <= ncontours,
            curve_data@ =~= old(curve_data)@ + contours_curves_prefix(
                outline@.contours,
                ci as int,
            ),
            start_idx == old(curve_data)@.len(),
        decreases ncontours - ci,
    {
        let contour = &outline.contours[ci];
        let nsegs = contour.segments.len();
        let mut p1 = contour.start;
        let mut si: usize = 0;
        while si < nsegs
            invariant
                ncontours == outline.contours@.len(),
                ci < ncontours,
                contour@ == outline@.contours[ci as int],
                nsegs == contour.segments@.len(),
                si <= nsegs,
                p1 == point_before(contour@.start, contour@.segments, si as int),
                curve_data@ =~= old(curve_data)@ + contours_curves_prefix(
                    outline@.contours,
                    ci as int,
                ) + contour_curves_prefix(contour@.start, contour@.segments, si as int),
            decreases nsegs - si,
        {
            let seg = contour.segments[si];
            match seg {
                Segment::LineTo(p2) => {
                    curve_data.push(
                        Curve {
                            x1: 8 * (p1.x as i64),
                            y1: 8 * (p1.y as i64),
                            x2: 4 * (p1.x as i64 + p2.x as i64),
                            y2: 4 * (p1.y as i64 + p2.y as i64),
                            x3: 8 * (p2.x as i64),
                            y3: 8 * (p2.y as i64),
                        },
                    );
                    p1 = p2;
                },
                Segment::QuadTo(p2, p3) => {
                    curve_data.push(
                        Curve {
                            x1: 8 * (p1.x as i64),
                            y1: 8 * (p1.y as i64),
                            x2: 8 * (p2.x as i64),
                            y2: 8 * (p2.y as i64),
                            x3: 8 * (p3.x as i64),
                            y3: 8 * (p3.y as i64),
                        },
                    );
                    p1 = p3;
                },
                Segment::CubicTo(p2, p3, p4) => {
                    let c0x = 2 * (p1.x as i64) + 6 * (p2.x as i64);
                    let c0y = 2 * (p1.y as i64) + 6 * (p2.y as i64);
                    let c1x = 2 * (p4.x as i64) + 6 * (p3.x as i64);
                    let c1y = 2 * (p4.y as i64) + 6 * (p3.y as i64);
                    let dx = p1.x as i64 + 3 * (p2.x as i64) + 3 * (p3.x as i64) + p4.x as i64;
                    let dy = p1.y as i64 + 3 * (p2.y as i64) + 3 * (p3.y as i64) + p4.y as i64;
                    curve_data.push(
                        Curve {
                            x1: 8 * (p1.x as i64),
                            y1: 8 * (p1.y as i64),
                            x2: c0x,
                            y2: c0y,
                            x3: dx,
                            y3: dy,
                        },
                    );
                    curve_data.push(
                        Curve { x1: dx, y1: dy, x2: c1x, y2: c1y, x3: 8 * (p4.x as i64), y3: 8 * (
                        p4.y as i64) },
                    );
                    p1 = p4;
                },
            }
            si = si + 1;
        }
        ci = ci + 1;
        proof {
            assert(curve_data@ =~= old(curve_data)@ + contours_curves_prefix(
                outline@.contours,
                ci as int,
            ));
        }
    }
    if !outline.reverse_fill {
        let total = curve_data.len();
        let mut i: usize = start_idx;
        proof {
            assert(curve_data@.subrange(start_idx as int, start_idx as int) =~= Seq::<
                Curve,
            >::empty());
        }
        while i < total
            invariant
                start_idx <= i <= total,
                total == curve_data@.len(),
                curve_data@.subrange(0, start_idx as int) == old(curve_data)@,
                curve_data@.subrange(start_idx as int, total as int).len() == total - start_idx,
                forall|q: int| start_idx <= q < i ==> curve_data@[q] == swap_ends(
                    #[trigger] contours_curves_prefix(
                        outline@.contours,
                        outline@.contours.len() as int,
                    )[q - start_idx],
                ),
                forall|q: int| i <= q < total ==> curve_data@[q]
                    == #[trigger] contours_curves_prefix(
                    outline@.contours,
                    outline@.contours.len() as int,
                )[q - start_idx],
            decreases total - i,
        {
            let c = curve_data[i];
            curve_data[i] = Curve { x1: c.x3, y1: c.y3, x2: c.x2, y2: c.y2, x3: c.x1, y3: c.y1 };
            i = i + 1;
        }
        proof {
            let raw = contours_curves_prefix(outline@.contours, outline@.contours.len() as int);
            assert(curve_data@ =~= old(curve_data)@ + raw.map_values(|c: Curve| swap_ends(c)));
        }
    }
}

/// The per-codepoint record of the glyph map: the glyph's range in the
/// shared curve pool and its metrics, all in font units of the face it
/// came from (whose em size it carries).  `count == 0` marks a glyph
/// with no geometry (a space): no quad is emitted for it, but the pen
/// still advances.
#[derive(Clone, Copy, PartialEq, Eq, Structural, Debug)]
pub struct GlyphData {
    pub start: usize,
    pub count: usize,
    pub width: i32,
    pub height: i32,
    pub bearing_x: i32,
    pub bearing_y: i32,
    pub advance: i32,
    pub em_size: i32,
}

/// A glyph's metrics as read from a font face, in font units, together
/// with the face's em size.
#[derive(Clone, Copy, PartialEq, Eq, Structural, Debug)]
pub struct GlyphMetrics {
    pub width: i32,
    pub height: i32,
    pub bearing_x: i32,
    pub bearing_y: i32,
    pub advance: i32,
    pub em_size: i32,
}

/// The glyph record inserted for an outline decomposed at pool
/// position `start`.
pub open spec fn glyph_record(start: int, o: OutlineView, m: GlyphMetrics) -> GlyphData {
    GlyphData {
        start: start as usize,
        count: outline_curves(o).len() as usize,
        width: m.width,
        height: m.height,
        bearing_x: m.bearing_x,
        bearing_y: m.bearing_y,
        advance: m.advance,
        em_size: m.em_size,
    }
}

/// The glyph store: the shared append-only curve pool, the
/// codepoint-to-glyph map, and the main font's global metrics (its
/// fixed advance, line height and em size, all in font units — the
/// layout is monospace, so this advance spaces every glyph).
pub struct GlyphStore {
    curves: Vec<Curve>,
    map: HashMap<u32, GlyphData>,
    pub advance: i32,
    pub height: i32,
    pub em_size: i32,
}

impl GlyphStore {
    /// The curve pool.
    pub closed spec fn pool(self) -> Seq<Curve> {
        self.curves@
    }

    /// The codepoint-to-glyph map.
    pub closed spec fn glyphs(self) -> Map<u32, GlyphData> {
        self.map@
    }

    /// The main font's fixed advance, in font units.
    pub closed spec fn advance_spec(self) -> i32 {
        self.advance
    }

    /// The main font's line height, in font units.
    pub closed spec fn height_spec(self) -> i32 {
        self.height
    }

    /// The main font's em size, in font units.
    pub closed spec fn em_size_spec(self) -> i32 {
        self.em_size
    }

    /// Every glyph's range lies inside the pool.  The pool is
    /// append-only, so growth never invalidates a range.
    pub open spec fn wf(self) -> bool {
        forall|c: u32| self.glyphs().contains_key(c) ==> (#[trigger] self.glyphs()[c]).start + (
        self.glyphs()[c]).count <= self.pool().len()
    }

    /// An empty store.
    pub fn new() -> (r: GlyphStore)
        ensures
            r.wf(),
            r.pool() == Seq::<Curve>::empty(),
            r.glyphs() == Map::<u32, GlyphData>::empty(),
            r.advance_spec() == 0,
            r.height_spec() == 0,
            r.em_size_spec() == 0,
    {
        GlyphStore {
            curves: Vec::new(),
            map: HashMap::new(),
            advance: 0,
            height: 0,
            em_size: 0,
        }
    }

    /// The number of primitives in the pool.
    pub fn pool_len(&self) -> (r: usize)
        ensures
            r == self.pool().len(),
    {
        self.curves.len()
    }

    /// The primitive at pool index `i`.
    pub fn pool_at(&self, i: usize) -> (r: Curve)
        requires
            i < self.pool().len(),
        ensures
            r == self.pool()[i as int],
    {
        self.curves[i]
    }

    /// Whether the store already has a glyph for the codepoint.
    pub fn contains_glyph(&self, code: u32) -> (r: bool)
        ensures
            r == self.glyphs().contains_key(code),
    {
        self.map.contains_key(&code)
    }

    /// The glyph for the codepoint.
    pub fn get_glyph(&self, code: u32) -> (r: Option<&GlyphData>)
        ensures
            self.glyphs().contains_key(code) ==> (r matches Some(g) && *g == self.glyphs()[code]),
            !self.glyphs().contains_key(code) ==> r is None,
    {
        self.map.get(&code)
    }

    /// The glyph for the codepoint, falling back to the missing-glyph
    /// placeholder at codepoint 0 (always loaded first, so lookups
    /// never fail).
    pub fn glyph_or_fallback(&self, code: u32) -> (r: &GlyphData)
        requires
            self.glyphs().contains_key(0),
        ensures
            self.glyphs().contains_key(code) ==> *r == self.glyphs()[code],
            !self.glyphs().contains_key(code) ==> *r == self.glyphs()[0],
    {
        match self.map.get(&code) {
            Some(g) => g,
            None => self.map.get(&0).unwrap(),
        }
    }

    /// Whether the codepoint of `c` still needs loading: carriage
    /// returns and line feeds never do, nor does anything already in
    /// the map.
    pub fn needs_glyph(&self, c: char) -> (r: bool)
        ensures
            r == (c != '\r' && c != '\n' && !self.glyphs().contains_key(c as u32)),
    {
        c != '\r' && c != '\n' && !self.map.contains_key(&(c as u32))
    }

    /// Decomposes `outline` into the pool and records the glyph for
    /// `char_code` with the given metrics.  The pool only grows at the
    /// end: every existing glyph's range is untouched.
    pub fn insert_glyph(&mut self, char_code: u32, outline: &Outline, metrics: GlyphMetrics)
        requires
            old(self).wf(),
        ensures
            final(self).wf(),
            final(self).pool() == old(self).pool() + outline_curves(outline@),
            final(self).glyphs() == old(self).glyphs().insert(
                char_code,
                glyph_record(old(self).pool().len() as int, outline@, metrics),
            ),
            final(self).advance_spec() == old(self).advance_spec(),
            final(self).height_spec() == old(self).height_spec(),
            final(self).em_size_spec() == old(self).em_size_spec(),
    {
        let start = self.curves.len();
        process_contour(&mut self.curves, outline);
        let count = self.curves.len() - start;
        let g = GlyphData {
            start,
            count,
            width: metrics.width,
            height: metrics.height,
            bearing_x: metrics.bearing_x,
            bearing_y: metrics.bearing_y,
            advance: metrics.advance,
            em_size: metrics.em_size,
        };
        self.map.insert(char_code, g);
        proof {
            let newg = glyph_record(old(self).pool().len() as int, outline@, metrics);
            assert(g == newg);
            assert forall|c: u32| self.glyphs().contains_key(c) implies (
            #[trigger] self.glyphs()[c]).start + (self.glyphs()[c]).count <= self.pool().len() by {
                if c != char_code {
                    assert(old(self).glyphs().contains_key(c));
                    assert(self.glyphs()[c] == old(self).glyphs()[c]);
                }
            };
        }
    }

    /// The main font's advance: the space glyph's, or the missing
    /// glyph's where the face has no space.
    pub fn main_advance(&self) -> (r: i32)
        requires
            self.glyphs().contains_key(0),
        ensures
            self.glyphs().contains_key(32) ==> r == self.glyphs()[32].advance,
            !self.glyphs().contains_key(32) ==> r == self.glyphs()[0].advance,
    {
        match self.map.get(&32) {
            Some(g) => g.advance,
            None => self.map.get(&0).unwrap().advance,
        }
    }

    /// Sets the main font's global metrics.
    pub fn set_metrics(&mut self, advance: i32, height: i32, em_size: i32)
        ensures
            final(self).pool() == old(self).pool(),
            final(self).glyphs() == old(self).glyphs(),
            final(self).advance_spec() == advance,
            final(self).height_spec() == height,
            final(self).em_size_spec() == em_size,
            old(self).wf() ==> final(self).wf(),
    {
        self.advance = advance;
        self.height = height;
        self.em_size = em_size;
    }
}

/// Winding normalization is deterministic: the decomposition is a pure
/// function of the outline, so decomposing equal outlines — the same
/// outline twice included — yields identical primitive sequences.
/// [`process_contour`] appends exactly this function of its outline.
pub proof fn lemma_decomposition_deterministic(o1: OutlineView, o2: OutlineView)
    requires
        o1 == o2,
    ensures
        outline_curves(o1) == outline_curves(o2),
{
}

/// The codepoints of `s` that still need loading against the map `m`,
/// in order of first appearance and each listed once: carriage returns
/// and line feeds are skipped, as is anything already mapped or
/// already listed (`seen` carries what is listed so far).
pub open spec fn missing_acc(m: Map<u32, GlyphData>, s: Seq<char>, seen: Set<u32>) -> Seq<u32>
    decreases s.len(),
{
    if s.len() == 0 {
        Seq::empty()
    } else {
        let c = s[0] as u32;
        if s[0] == '\r' || s[0] == '\n' || m.contains_key(c) || seen.contains(c) {
            missing_acc(m, s.drop_first(), seen)
        } else {
            seq![c] + missing_acc(m, s.drop_first(), seen.insert(c))
        }
    }
}

/// The codepoints of `s` that still need loading against the map `m`.
pub open spec fn missing_codepoints_spec(m: Map<u32, GlyphData>, s: Seq<char>) -> Seq<u32> {
    missing_acc(m, s, Set::empty())
}

/// Completeness: every codepoint of `s` that needs loading (and is not
/// already accounted for by `seen`) is listed.
pub proof fn lemma_missing_complete(m: Map<u32, GlyphData>, s: Seq<char>, seen: Set<u32>)
    ensures
        forall|i: int|
            0 <= i < s.len() && s[i] != '\r' && s[i] != '\n' && !m.contains_key(s[i] as u32)
                && !seen.contains(s[i] as u32) ==> missing_acc(m, s, seen).contains(
                #[trigger] s[i] as u32,
            ),
    decreases s.len(),
{
    if s.len() > 0 {
        let c = s[0] as u32;
        let rest = s.drop_first();
        if s[0] == '\r' || s[0] == '\n' || m.contains_key(c) || seen.contains(c) {
            lemma_missing_complete(m, rest, seen);
            assert forall|i: int|
                0 <= i < s.len() && s[i] != '\r' && s[i] != '\n' && !m.contains_key(s[i] as u32)
                    && !seen.contains(s[i] as u32) implies missing_acc(m, s, seen).contains(
                #[trigger] s[i] as u32,
            ) by {
                if i > 0 {
                    assert(rest[i - 1] == s[i]);
                    assert(missing_acc(m, rest, seen).contains(s[i] as u32));
                }
            };
        } else {
            lemma_missing_complete(m, rest, seen.insert(c));
            assert forall|i: int|
                0 <= i < s.len() && s[i] != '\r' && s[i] != '\n' && !m.contains_key(s[i] as u32)
                    && !seen.contains(s[i] as u32) implies missing_acc(m, s, seen).contains(
                #[trigger] s[i] as u32,
            ) by {
                let listed = missing_acc(m, s, seen);
                if i == 0 {
                    assert(listed[0] == c);
                } else {
                    assert(rest[i - 1] == s[i]);
                    if s[i] as u32 == c {
                        assert(listed[0] == c);
                    } else {
                        assert(!seen.insert(c).contains(s[i] as u32));
                        let tail = missing_acc(m, rest, seen.insert(c));
                        assert(tail.contains(s[i] as u32));
                        let k = choose|k: int| 0 <= k < tail.len() && tail[k] == s[i] as u32;
                        assert(listed[k + 1] == s[i] as u32);
                    }
                }
            };
        }
    }
}

/// When every codepoint of `s` is a line break or already mapped,
/// nothing is listed as missing.
pub proof fn lemma_missing_all_loaded(m: Map<u32, GlyphData>, s: Seq<char>, seen: Set<u32>)
    requires
        forall|i: int| 0 <= i < s.len() ==> (s[i] == '\r' || s[i] == '\n' || m.contains_key(
            #[trigger] s[i] as u32,
        )),
    ensures
        missing_acc(m, s, seen) == Seq::<u32>::empty(),
    decreases s.len(),
{
    if s.len() > 0 {
        let rest = s.drop_first();
        assert forall|i: int| 0 <= i < rest.len() implies (rest[i] == '\r' || rest[i] == '\n'
            || m.contains_key(#[trigger] rest[i] as u32)) by {
            assert(rest[i] == s[i + 1]);
        };
        lemma_missing_all_loaded(m, rest, seen);
    }
}

/// Loading is idempotent: a map `m1` that keeps everything `m0` had
/// and has gained every codepoint the first walk over `s` listed as
/// missing has nothing left to load for `s` — a second walk over the
/// same text lists nothing, so it adds no entry to the glyph map and
/// no primitive to the pool.
pub proof fn lemma_reload_finds_nothing(m0: Map<u32, GlyphData>, m1: Map<u32, GlyphData>, s: Seq<
    char,
>)
    requires
        forall|c: u32| m0.contains_key(c) ==> m1.contains_key(c),
        forall|c: u32| missing_codepoints_spec(m0, s).contains(c) ==> m1.contains_key(c),
    ensures
        missing_codepoints_spec(m1, s) == Seq::<u32>::empty(),
{
    lemma_missing_complete(m0, s, Set::empty());
    assert forall|i: int| 0 <= i < s.len() implies (s[i] == '\r' || s[i] == '\n'
        || m1.contains_key(#[trigger] s[i] as u32)) by {
        if s[i] != '\r' && s[i] != '\n' && !m0.contains_key(s[i] as u32) {
            assert(missing_codepoints_spec(m0, s).contains(s[i] as u32));
        }
    };
    lemma_missing_all_loaded(m1, s, Set::empty());
}

/// Whether `v` holds `x`.
fn vec_contains(v: &Vec<u32>, x: u32) -> (r: bool)
    ensures
        r == v@.contains(x),
{
    let n = v.len();
    let mut i: usize = 0;
    while i < n
        invariant
            n == v@.len(),
            i <= n,
            forall|q: int| 0 <= q < i ==> v@[q] != x,
        decreases n - i,
    {
        if v[i] == x {
            return true;
        }
        i = i + 1;
    }
    false
}

impl GlyphStore {
    /// The codepoints of `s` that are not yet in the glyph map, in
    /// order of first appearance and each listed once; carriage
    /// returns and line feeds are skipped.  The caller resolves each
    /// against the available font faces and records what it finds with
    /// [`GlyphStore::insert_glyph`]; an empty answer means a walk over
    /// `s` has nothing to load.
    pub fn missing_codepoints(&self, s: &str) -> (r: Vec<u32>)
        ensures
            r@ == missing_codepoints_spec(self.glyphs(), s@),
    {
        let n = s.unicode_len();
        let mut result: Vec<u32> = Vec::new();
        let mut j: usize = 0;
        proof {
            assert(s@.subrange(0, n as int) =~= s@);
            assert(result@.to_set() =~= Set::<u32>::empty());
            assert(result@ + missing_acc(self.glyphs(), s@, result@.to_set()) =~= missing_acc(
                self.glyphs(),
                s@,
                result@.to_set(),
            ));
        }
        while j < n
            invariant
                n == s@.len(),
                j <= n,
                missing_codepoints_spec(self.glyphs(), s@) == result@ + missing_acc(
                    self.glyphs(),
                    s@.subrange(j as int, n as int),
                    result@.to_set(),
                ),
            decreases n - j,
        {
            let c = s.get_char(j);
            let code = c as u32;
            let ghost remaining = s@.subrange(j as int, n as int);
            let needed = c != '\r' && c != '\n' && !self.map.contains_key(&code)
                && !vec_contains(&result, code);
            let ghost before = result@;
            if needed {
                result.push(code);
            }
            j = j + 1;
            proof {
                assert(remaining[0] == s@[j - 1]);
                assert(remaining.drop_first() =~= s@.subrange(j as int, n as int));
                if needed {
                    assert forall|x: u32| #[trigger] before.push(code).contains(x) <==> (
                    before.contains(x) || x == code) by {
                        if before.contains(x) {
                            let q = choose|q: int| 0 <= q < before.len() && before[q] == x;
                            assert(before.push(code)[q] == x);
                        }
                        if x == code {
                            assert(before.push(code)[before.len() as int] == x);
                        }
                        if before.push(code).contains(x) {
                            let q = choose|q: int|
                                0 <= q < before.push(code).len() && before.push(code)[q] == x;
                            if q < before.len() {
                                assert(before[q] == x);
                            }
                        }
                    };
                    assert(before.push(code).to_set() =~= before.to_set().insert(code));
                    assert(result@ =~= before + seq![code]);
                    assert((before + seq![code]) + missing_acc(
                        self.glyphs(),
                        s@.subrange(j as int, n as int),
                        before.to_set().insert(code),
                    ) =~= before + (seq![code] + missing_acc(
                        self.glyphs(),
                        s@.subrange(j as int, n as int),
                        before.to_set().insert(code),
                    )));
                }
            }
        }
        proof {
            assert(s@.subrange(n as int, n as int) =~= Seq::<char>::empty());
            assert(missing_codepoints_spec(self.glyphs(), s@) =~= result@);
        }
        result
    }
}

} // verus!
