//! Text layout: from a string to per-glyph screen-cell quads.
//!
//! The layout is monospace: the pen advances one column per codepoint
//! and drops one row per line break, so positions are whole cells
//! `(column, row)`.  The renderer multiplies them by the font's fixed
//! advance and line height when it builds vertex data; reporting cells
//! keeps the layout itself exact.
//!
//! Walking the text: a line feed returns the pen to column 0 one row
//! down, a carriage return is skipped, and when the pen is past the
//! wrap limit a glyph without geometry (a space) soft-wraps instead of
//! being drawn.  Every glyph with geometry emits one [`Quad`] carrying
//! its cell, its UV box (from the glyph's bearing, width and height)
//! and its range in the shared curve pool.
//!
//! While walking, the layout also locates the screen cell of a given
//! `(line, char)` cursor coordinate, with the fallback rules: a column
//! never reached on its line resolves to the position where the line
//! ended, and a cursor never matched at all resolves to the final pen
//! position.

use vstd::prelude::*;

use crate::glyph::{GlyphData, GlyphStore};

verus! {

/// One glyph to draw: its screen cell, its UV box in font units (the
/// em size tells the renderer how to normalize it), and its range in
/// the shared curve pool.
#[derive(Clone, Copy, PartialEq, Eq, Structural, Debug)]
pub struct Quad {
    pub col: usize,
    pub row: usize,
    pub uv0x: i64,
    pub uv0y: i64,
    pub uv1x: i64,
    pub uv1y: i64,
    pub start: usize,
    pub count: usize,
    pub em_size: i32,
}

/// The state of the layout walk: the pen cell, the row before the last
/// line drop, the logical `(line, char)` counters, whether the cursor
/// coordinate has been located (and where), and the quads emitted so
/// far.
pub struct LayoutState {
    pub col: int,
    pub row: int,
    pub last_row: int,
    pub line: int,
    pub ch: int,
    pub found: bool,
    pub cur_col: int,
    pub cur_row: int,
    pub quads: Seq<Quad>,
}

/// The glyph a codepoint resolves to: its own map entry, or the
/// missing-glyph placeholder at codepoint 0.
pub open spec fn glyph_for(m: Map<u32, GlyphData>, c: char) -> GlyphData {
    if m.contains_key(c as u32) {
        m[c as u32]
    } else {
        m[0]
    }
}

/// The quad a glyph emits at a pen cell: the UV box runs from
/// `(bearing_x, bearing_y - height)` to `(bearing_x + width,
/// bearing_y)`, so glyphs reaching below the baseline keep their
/// descender.
pub open spec fn quad_for(g: GlyphData, col: int, row: int) -> Quad {
    Quad {
        col: col as usize,
        row: row as usize,
        uv0x: g.bearing_x as i64,
        uv0y: (g.bearing_y as i64 - g.height as i64) as i64,
        uv1x: (g.bearing_x as i64 + g.width as i64) as i64,
        uv1y: g.bearing_y as i64,
        start: g.start,
        count: g.count,
        em_size: g.em_size,
    }
}

/// The layout walk's starting state: pen at the origin, on logical
/// line 1 before its first codepoint.
pub open spec fn layout_init() -> LayoutState {
    LayoutState {
        col: 0,
        row: 0,
        last_row: 0,
        line: 1,
        ch: 0,
        found: false,
        cur_col: 0,
        cur_row: 0,
        quads: Seq::empty(),
    }
}

/// One step of the layout walk over codepoint `c`.  The cursor
/// coordinate is matched first (a cursor column never reached on its
/// line resolves at the start of the next line, to the position where
/// its line ended); then line feeds drop the pen, carriage returns are
/// skipped, an overlong pen position soft-wraps at a glyph without
/// geometry, and any glyph with geometry emits its quad before the pen
/// advances one column.
pub open spec fn layout_step(
    m: Map<u32, GlyphData>,
    wrap: int,
    cursor_line: int,
    cursor_char: int,
    s: LayoutState,
    c: char,
) -> LayoutState {
    let g = glyph_for(m, c);
    let s1 = if !s.found && s.line == cursor_line && s.ch == cursor_char {
        LayoutState { found: true, cur_col: s.col, cur_row: s.row, ..s }
    } else {
        s
    };
    let s2 = if !s1.found && s1.line == cursor_line + 1 {
        LayoutState { found: true, cur_col: 0, cur_row: s1.last_row, ..s1 }
    } else {
        s1
    };
    if c == '\r' {
        s2
    } else if c == '\n' {
        LayoutState {
            col: 0,
            last_row: s2.row,
            row: s2.row + 1,
            ch: 0,
            line: s2.line + 1,
            ..s2
        }
    } else {
        let s3 = LayoutState { ch: s2.ch + 1, ..s2 };
        if s3.col > wrap && g.count == 0 {
            LayoutState { col: 0, last_row: s3.row, row: s3.row + 1, ..s3 }
        } else {
            let s4 = if g.count != 0 {
                LayoutState { quads: s3.quads.push(quad_for(g, s3.col, s3.row)), ..s3 }
            } else {
                s3
            };
            LayoutState { col: s4.col + 1, ..s4 }
        }
    }
}

/// The layout state after walking the first `n` codepoints of `t`.
pub open spec fn layout_prefix(
    m: Map<u32, GlyphData>,
    wrap: int,
    cursor_line: int,
    cursor_char: int,
    t: Seq<char>,
    n: int,
) -> LayoutState
    decreases n,
{
    if n <= 0 {
        layout_init()
    } else {
        layout_step(
            m,
            wrap,
            cursor_line,
            cursor_char,
            layout_prefix(m, wrap, cursor_line, cursor_char, t, n - 1),
            t[n - 1],
        )
    }
}

/// The layout of a whole text: when the cursor coordinate was never
/// matched, it resolves to the final pen position.
pub open spec fn layout_result(
    m: Map<u32, GlyphData>,
    wrap: int,
    cursor_line: int,
    cursor_char: int,
    t: Seq<char>,
) -> LayoutState {
    let s = layout_prefix(m, wrap, cursor_line, cursor_char, t, t.len() as int);
    if !s.found {
        LayoutState { cur_col: s.col, cur_row: s.row, ..s }
    } else {
        s
    }
}

/// The `(line, char)` coordinate the layout looks for: the given
/// cursor, or an unreachable coordinate when none was given.
pub open spec fn cursor_target(cursor_pos: Option<(u32, u32)>) -> (int, int) {
    match cursor_pos {
        Some(c) => (c.0 as int, c.1 as int),
        None => (u32::MAX as int, u32::MAX as int),
    }
}

/// Walks `text` codepoint by codepoint and emits one quad per
/// renderable glyph, wrapping softly past column `wrap`; also reports
/// the screen cell of the `cursor_pos` coordinate (see the module
/// documentation for the fallback rules).  Every emitted quad
/// references a valid range of the store's curve pool.
pub fn draw_text(store: &GlyphStore, text: &str, wrap: usize, cursor_pos: Option<(u32, u32)>) -> (r:
    (Vec<Quad>, (usize, usize)))
    requires
        store.wf(),
        store.glyphs().contains_key(0),
        text@.len() < usize::MAX,
    ensures
        ({
            let res = layout_result(
                store.glyphs(),
                wrap as int,
                cursor_target(cursor_pos).0,
                cursor_target(cursor_pos).1,
                text@,
            );
            &&& r.0@ == res.quads
            &&& r.1.0 == res.cur_col
            &&& r.1.1 == res.cur_row
        }),
        forall|i: int| 0 <= i < r.0@.len() ==> (#[trigger] r.0@[i]).start + r.0@[i].count
            <= store.pool().len(),
{
    let ghost m = store.glyphs();
    let ghost cl: int = cursor_target(cursor_pos).0;
    let ghost cc: int = cursor_target(cursor_pos).1;
    let n = text.unicode_len();
    let cursor_line: u32 = match cursor_pos {
        Some(c) => c.0,
        None => u32::MAX,
    };
    let cursor_char: u32 = match cursor_pos {
        Some(c) => c.1,
        None => u32::MAX,
    };
    let mut col: usize = 0;
    let mut row: usize = 0;
    let mut last_row: usize = 0;
    let mut line: usize = 1;
    let mut ch: usize = 0;
    let mut found = false;
    let mut cur_col: usize = 0;
    let mut cur_row: usize = 0;
    let mut quads: Vec<Quad> = Vec::new();
    let mut j: usize = 0;
    while j < n
        invariant
            store.wf(),
            store.glyphs().contains_key(0),
            m == store.glyphs(),
            cl == cursor_target(cursor_pos).0,
            cc == cursor_target(cursor_pos).1,
            cursor_line as int == cl,
            cursor_char as int == cc,
            n == text@.len(),
            n < usize::MAX,
            j <= n,
            col <= j,
            row <= j,
            last_row <= j,
            1 <= line <= j + 1,
            ch <= j,
            ({
                let s = layout_prefix(m, wrap as int, cl, cc, text@, j as int);
                &&& col == s.col
                &&& row == s.row
                &&& last_row == s.last_row
                &&& line == s.line
                &&& ch == s.ch
                &&& found == s.found
                &&& (found ==> cur_col == s.cur_col && cur_row == s.cur_row)
                &&& quads@ == s.quads
            }),
            forall|i: int| 0 <= i < quads@.len() ==> (#[trigger] quads@[i]).start + quads@[i].count
                <= store.pool().len(),
        decreases n - j,
    {
        let c = text.get_char(j);
        let g: GlyphData = *store.glyph_or_fallback(c as u32);
        if !found && line == cursor_line as usize && ch == cursor_char as usize {
            found = true;
            cur_col = col;
            cur_row = row;
        }
        if !found && line - 1 == cursor_line as usize {
            found = true;
            cur_col = 0;
            cur_row = last_row;
        }
        if c == '\r' {
        } else if c == '\n' {
            col = 0;
            last_row = row;
            row = row + 1;
            ch = 0;
            line = line + 1;
        } else {
            ch = ch + 1;
            if col > wrap && g.count == 0 {
                col = 0;
                last_row = row;
                row = row + 1;
            } else {
                if g.count != 0 {
                    quads.push(
                        Quad {
                            col,
                            row,
                            uv0x: g.bearing_x as i64,
                            uv0y: g.bearing_y as i64 - g.height as i64,
                            uv1x: g.bearing_x as i64 + g.width as i64,
                            uv1y: g.bearing_y as i64,
                            start: g.start,
                            count: g.count,
                            em_size: g.em_size,
                        },
                    );
                }
                col = col + 1;
            }
        }
        j = j + 1;
        proof {
            let prev = layout_prefix(m, wrap as int, cl, cc, text@, j - 1);
            let s = layout_prefix(m, wrap as int, cl, cc, text@, j as int);
            assert(s == layout_step(m, wrap as int, cl, cc, prev, text@[j - 1]));
        }
    }
    if !found {
        cur_col = col;
        cur_row = row;
    }
    (quads, (cur_col, cur_row))
}

} // verus!
