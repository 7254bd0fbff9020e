//! Lines, cursors and text buffers.
//!
//! A [`Line`] stores one line of text; every positional operation on it
//! counts Unicode codepoints, never bytes.  A [`Buffer`] owns a non-empty
//! sequence of lines together with a [`Cursor`] whose column is clamped
//! differently depending on the editing mode: in Insert mode the cursor
//! may sit just past the last character (the insertion point), in every
//! other mode it sits on a character.  Vertical cursor movement remembers
//! the last explicitly requested column (`want_cursor`), so that moving
//! through a short line and back restores the original column.

use vstd::prelude::*;

use core::ops::Range;

use crate::editor::Mode;

verus! {

/// A deletion range over codepoint positions of a single line.
///
/// The start position is always included.  The end is either excluded,
/// included, or absent (the range then runs to the end of the line).
/// Ends past the end of the line are clamped to it.
#[derive(Clone, Copy, PartialEq, Eq, Structural, Debug)]
pub enum CharRange {
    /// Delete positions `start..end` (end excluded).
    HalfOpen(usize, usize),
    /// Delete positions `start..=end` (end included).
    Inclusive(usize, usize),
    /// Delete positions `start..` through the end of the line.
    ToEnd(usize),
}

impl CharRange {
    /// The first codepoint position the range removes.
    pub open spec fn start(self) -> int {
        match self {
            CharRange::HalfOpen(s, _) => s as int,
            CharRange::Inclusive(s, _) => s as int,
            CharRange::ToEnd(s) => s as int,
        }
    }

    /// The position one past the last removed codepoint, for a line of
    /// `len` codepoints; ends beyond the line are clamped to `len`.
    pub open spec fn end(self, len: int) -> int {
        match self {
            CharRange::HalfOpen(_, e) => if e as int <= len { e as int } else { len },
            CharRange::Inclusive(_, e) => if e as int + 1 <= len { e as int + 1 } else { len },
            CharRange::ToEnd(_) => len,
        }
    }

    /// A range is applicable to a line when its start does not run past
    /// its (clamped) end.
    pub open spec fn valid_for(self, len: int) -> bool {
        0 <= self.start() <= self.end(len)
    }
}

/// One line of text.  The content is stored as a string, but the
/// interface is purely in codepoint positions: position `p` refers to
/// the `p`-th Unicode scalar value of the line.
#[derive(Clone)]
pub struct Line {
    pub content: String,
}

impl View for Line {
    type V = Seq<char>;

    open spec fn view(&self) -> Seq<char> {
        self.content@
    }
}

/// The result of inserting `text` into `line` at codepoint position
/// `pos`; positions past the end append instead.
pub open spec fn line_inserted(line: Seq<char>, pos: int, text: Seq<char>) -> Seq<char> {
    let p = if pos <= line.len() { pos } else { line.len() as int };
    line.subrange(0, p) + text + line.subrange(p, line.len() as int)
}

/// The result of removing codepoint positions `from..to` from `line`.
pub open spec fn line_removed(line: Seq<char>, from: int, to: int) -> Seq<char> {
    line.subrange(0, from) + line.subrange(to, line.len() as int)
}

impl Line {
    /// An empty line.
    pub fn new() -> (r: Line)
        ensures
            r@ == Seq::<char>::empty(),
    {
        Line { content: String::new() }
    }

    /// A line owning the given content.
    pub fn from_string(content: String) -> (r: Line)
        ensures
            r@ == content@,
    {
        Line { content }
    }

    /// The number of codepoints in the line (not the storage length).
    pub fn len(&self) -> (r: usize)
        ensures
            r == self@.len(),
    {
        self.content.as_str().unicode_len()
    }

    /// Inserts `text` at codepoint position `pos`; if `pos` is past the
    /// end of the line the text is appended instead.
    pub fn insert(&mut self, pos: usize, text: &str)
        ensures
            final(self)@ == line_inserted(old(self)@, pos as int, text@),
    {
        let len = self.content.as_str().unicode_len();
        let p = if pos < len { pos } else { len };
        let head = String::from_str(self.content.as_str().substring_char(0, p));
        let tail = String::from_str(self.content.as_str().substring_char(p, len));
        let mut built = head;
        built.append(text);
        built.append(tail.as_str());
        self.content = built;
    }

    /// Removes the codepoint at position `pos`; does nothing when `pos`
    /// is past the end of the line (or the line is empty).
    pub fn delete_char(&mut self, pos: usize)
        ensures
            pos < old(self)@.len() ==> final(self)@ == line_removed(old(self)@, pos as int, pos as int + 1),
            pos >= old(self)@.len() ==> final(self)@ == old(self)@,
    {
        let len = self.content.as_str().unicode_len();
        if pos < len {
            let head = String::from_str(self.content.as_str().substring_char(0, pos));
            let tail = String::from_str(self.content.as_str().substring_char(pos + 1, len));
            let mut built = head;
            built.append(tail.as_str());
            self.content = built;
        }
    }

    /// Deletes a codepoint range from the line.  Ends past the end of
    /// the line are clamped to it; an absent end deletes through the end
    /// of the line.
    pub fn delete_range(&mut self, range: CharRange)
        requires
            range.valid_for(old(self)@.len() as int),
        ensures
            final(self)@ == line_removed(
                old(self)@,
                range.start(),
                range.end(old(self)@.len() as int),
            ),
    {
        let len = self.content.as_str().unicode_len();
        let from = match range {
            CharRange::HalfOpen(s, _) => s,
            CharRange::Inclusive(s, _) => s,
            CharRange::ToEnd(s) => s,
        };
        let to = match range {
            CharRange::HalfOpen(_, e) => if e <= len { e } else { len },
            CharRange::Inclusive(_, e) => if e < len { e + 1 } else { len },
            CharRange::ToEnd(_) => len,
        };
        let head = String::from_str(self.content.as_str().substring_char(0, from));
        let tail = String::from_str(self.content.as_str().substring_char(to, len));
        let mut built = head;
        built.append(tail.as_str());
        self.content = built;
    }
}

/// A cursor position inside a buffer: a 1-indexed line number and a
/// 0-indexed codepoint offset into that line.
#[derive(Clone, Copy, PartialEq, Eq, Structural, Debug)]
pub struct Cursor {
    pub line_pos: usize,
    pub char_pos: usize,
}

impl Cursor {
    /// The initial cursor: first line, first column.
    pub fn new() -> (r: Cursor)
        ensures
            r.line_pos == 1,
            r.char_pos == 0,
    {
        Cursor { line_pos: 1, char_pos: 0 }
    }
}

/// The character sequences of a sequence of lines.
pub open spec fn lines_views(lines: Seq<Line>) -> Seq<Seq<char>> {
    lines.map_values(|l: Line| l@)
}

/// Pointwise characterization of [`lines_views`].
pub proof fn lemma_lines_views(lines: Seq<Line>)
    ensures
        lines_views(lines).len() == lines.len(),
        forall|i: int| 0 <= i < lines.len() ==> #[trigger] lines_views(lines)[i] == lines[i]@,
{
}

/// The mathematical state of a [`Buffer`]: line contents as character
/// sequences, the cursor, the remembered column, the mode that governs
/// clamping, and the modification flag.
pub struct BufferView {
    pub lines: Seq<Seq<char>>,
    pub line_pos: int,
    pub char_pos: int,
    pub want: int,
    pub mode: Mode,
    pub modified: bool,
}

/// Clamps `x` into the interval `[lo, hi]`.
pub open spec fn clamp_int(x: int, lo: int, hi: int) -> int {
    if x < lo {
        lo
    } else if x > hi {
        hi
    } else {
        x
    }
}

/// Holds when no character of `line` is a line feed.
pub open spec fn no_newline(line: Seq<char>) -> bool {
    forall|j: int| 0 <= j < line.len() ==> line[j] != '\n'
}

impl BufferView {
    /// The content of the line the cursor is on.
    pub open spec fn cur_line(self) -> Seq<char> {
        self.lines[self.line_pos - 1]
    }

    /// The largest column the cursor may occupy on the current line:
    /// the line length in Insert mode (the cursor may sit past the last
    /// character, at the insertion point), one less than that in every
    /// other mode (the cursor sits on a character; an empty line still
    /// admits column 0).
    pub open spec fn char_limit(self) -> int {
        let len = self.cur_line().len() as int;
        if self.mode is Insert {
            len
        } else if len == 0 {
            0
        } else {
            len - 1
        }
    }

    /// The buffer has at least one line and the cursor is on one of them.
    pub open spec fn lines_ok(self) -> bool {
        &&& self.lines.len() >= 1
        &&& 1 <= self.line_pos <= self.lines.len()
    }

    /// No line contains a line feed; line breaks exist only between
    /// lines.
    pub open spec fn no_newlines(self) -> bool {
        forall|i: int| 0 <= i < self.lines.len() ==> no_newline(#[trigger] self.lines[i])
    }

    /// Well-formedness: the cursor is on a line, its column respects the
    /// mode-dependent clamp, the remembered column is non-negative, and
    /// no line contains a line feed.
    pub open spec fn wf(self) -> bool {
        &&& self.lines_ok()
        &&& 0 <= self.char_pos <= self.char_limit()
        &&& 0 <= self.want
        &&& self.no_newlines()
    }

    /// Re-derives the cursor column from the remembered column, clamped
    /// to the current line's mode-dependent limit.
    pub open spec fn move_to_want_model(self) -> BufferView {
        BufferView {
            char_pos: if self.want <= self.char_limit() {
                self.want
            } else {
                self.char_limit()
            },
            ..self
        }
    }

    /// The state after `move_cursor_by(d_char, d_line, sync)`: the line
    /// position moves by `d_line` (clamped to the valid line range); a
    /// non-zero `d_char` shifts the remembered column (clamped to be
    /// non-negative, saturating above); the column is then re-derived
    /// from the remembered column, and `sync` resets the remembered
    /// column to the resulting column.
    pub open spec fn move_cursor_by_model(self, d_char: int, d_line: int, sync: bool) -> BufferView {
        let b1 = BufferView {
            line_pos: clamp_int(self.line_pos + d_line, 1, self.lines.len() as int),
            ..self
        };
        let b2 = if d_char != 0 {
            BufferView { want: clamp_int(self.char_pos + d_char, 0, usize::MAX as int), ..b1 }
        } else {
            b1
        };
        let b3 = b2.move_to_want_model();
        if sync {
            BufferView { want: b3.char_pos, ..b3 }
        } else {
            b3
        }
    }

    /// The state after `move_cursor_line_to(dest)`: the line position
    /// is clamped to the valid line range and the column is re-derived
    /// from the remembered column against the new line's mode bound,
    /// the same clamp-and-reapply logic as every other absolute move.
    pub open spec fn move_cursor_line_to_model(self, dest: int) -> BufferView {
        (BufferView { line_pos: clamp_int(dest, 1, self.lines.len() as int), ..self })
            .move_to_want_model()
    }

    /// The state after `move_cursor_char_to(dest)`: the remembered
    /// column becomes `dest` and the column is re-derived from it.
    pub open spec fn move_cursor_char_to_model(self, dest: int) -> BufferView {
        BufferView { want: dest, ..self }.move_to_want_model()
    }

    /// The state after `move_cursor_to_last_line()`: the cursor jumps to
    /// the final line and the column is re-derived.
    pub open spec fn move_cursor_to_last_line_model(self) -> BufferView {
        BufferView { line_pos: self.lines.len() as int, ..self }.move_to_want_model()
    }

    /// The state after `move_cursor_to_last_char()`: the remembered
    /// column saturates high, so the re-derived column lands on the
    /// line's last admissible column.
    pub open spec fn move_cursor_to_last_char_model(self) -> BufferView {
        BufferView { want: usize::MAX as int, ..self }.move_to_want_model()
    }
}

/// A text buffer: a non-empty sequence of lines, a cursor with a
/// remembered column, a modification flag, and a copy of the editing
/// mode that governs how the cursor column is clamped.
pub struct Buffer {
    pub lines: Vec<Line>,
    cursor: Cursor,
    pub want_cursor: usize,
    is_modified: bool,
    pub editor_mode: Mode,
}

impl View for Buffer {
    type V = BufferView;

    closed spec fn view(&self) -> BufferView {
        BufferView {
            lines: lines_views(self.lines@),
            line_pos: self.cursor.line_pos as int,
            char_pos: self.cursor.char_pos as int,
            want: self.want_cursor as int,
            mode: self.editor_mode,
            modified: self.is_modified,
        }
    }
}

impl Buffer {
    /// An empty buffer: one empty line, cursor at line 1 column 0, in
    /// Insert mode, unmodified.
    pub fn new() -> (r: Buffer)
        ensures
            r@.lines =~= seq![Seq::<char>::empty()],
            r@.line_pos == 1,
            r@.char_pos == 0,
            r@.want == 0,
            r@.mode is Insert,
            !r@.modified,
            r@.wf(),
    {
        let lines = vec![Line::new()];
        Buffer {
            lines,
            cursor: Cursor::new(),
            want_cursor: 0,
            is_modified: false,
            editor_mode: Mode::Insert,
        }
    }

    /// A buffer over existing line contents (an empty list becomes one
    /// empty line, so the buffer is never without a line).  The lines
    /// must not contain line feeds; line breaks exist only between
    /// lines.
    pub fn from_lines(lines: Vec<Line>) -> (r: Buffer)
        requires
            forall|i: int| 0 <= i < lines@.len() ==> no_newline(#[trigger] lines@[i]@),
        ensures
            lines@.len() > 0 ==> r@.lines =~= lines@.map_values(|l: Line| l@),
            lines@.len() == 0 ==> r@.lines =~= seq![Seq::<char>::empty()],
            r@.line_pos == 1,
            r@.char_pos == 0,
            r@.want == 0,
            r@.mode is Insert,
            !r@.modified,
            r@.wf(),
    {
        let mut lines = lines;
        if lines.len() == 0 {
            lines.push(Line::new());
        }
        Buffer {
            lines,
            cursor: Cursor::new(),
            want_cursor: 0,
            is_modified: false,
            editor_mode: Mode::Insert,
        }
    }

    /// The number of lines in the buffer.
    pub fn line_count(&self) -> (r: usize)
        ensures
            r == self@.lines.len(),
    {
        self.lines.len()
    }

    /// The cursor.
    pub fn cursor(&self) -> (r: &Cursor)
        ensures
            r.line_pos == self@.line_pos,
            r.char_pos == self@.char_pos,
    {
        &self.cursor
    }

    /// The cursor's codepoint column.
    pub fn char_pos(&self) -> (r: usize)
        ensures
            r == self@.char_pos,
    {
        self.cursor.char_pos
    }

    /// The cursor's 1-indexed line number.
    pub fn line_pos(&self) -> (r: usize)
        ensures
            r == self@.line_pos,
    {
        self.cursor.line_pos
    }

    /// Sets the buffer's copy of the editing mode.  The cursor column
    /// is not re-clamped; callers that tighten the clamp follow up with
    /// a cursor move, as the editor does when leaving Insert mode.
    pub fn set_mode(&mut self, mode: Mode)
        ensures
            final(self)@ == (BufferView { mode: mode, ..old(self)@ }),
    {
        self.editor_mode = mode;
    }

    /// Whether the buffer has been modified since it was created.
    pub fn is_modified(&self) -> (r: bool)
        ensures
            r == self@.modified,
    {
        self.is_modified
    }

    /// The line the cursor is on.
    pub fn curr_line(&self) -> (r: &Line)
        requires
            self@.lines_ok(),
        ensures
            r@ == self@.cur_line(),
    {
        &self.lines[self.cursor.line_pos - 1]
    }

    /// A mutable borrow of the line the cursor is on.
    pub fn curr_line_mut(&mut self) -> (r: &mut Line)
        requires
            old(self)@.lines_ok(),
        ensures
            r@ == old(self)@.cur_line(),
            final(self)@.lines =~= old(self)@.lines.update(
                old(self)@.line_pos - 1,
                final(r)@,
            ),
            final(self)@.line_pos == old(self)@.line_pos,
            final(self)@.char_pos == old(self)@.char_pos,
            final(self)@.want == old(self)@.want,
            final(self)@.mode == old(self)@.mode,
            final(self)@.modified == old(self)@.modified,
    {
        let idx = self.cursor.line_pos - 1;
        &mut self.lines[idx]
    }

    /// The line at 0-based index `i`.
    pub fn get_line(&self, i: usize) -> (r: &Line)
        requires
            i < self@.lines.len(),
        ensures
            r@ == self@.lines[i as int],
    {
        &self.lines[i]
    }

    /// A mutable borrow of the line at 0-based index `i`.
    pub fn get_line_mut(&mut self, i: usize) -> (r: &mut Line)
        requires
            i < old(self)@.lines.len(),
        ensures
            r@ == old(self)@.lines[i as int],
            final(self)@.lines =~= old(self)@.lines.update(i as int, final(r)@),
            final(self)@.line_pos == old(self)@.line_pos,
            final(self)@.char_pos == old(self)@.char_pos,
            final(self)@.want == old(self)@.want,
            final(self)@.mode == old(self)@.mode,
            final(self)@.modified == old(self)@.modified,
    {
        &mut self.lines[i]
    }

    /// A mutable borrow of the line `offset` lines away from the
    /// cursor's line: `None` when the offset points above the first
    /// line; the offset must not point past the last line.
    pub fn curr_line_offset_mut(&mut self, offset: isize) -> (r: Option<&mut Line>)
        requires
            old(self)@.lines_ok(),
            old(self)@.line_pos + offset - 1 < old(self)@.lines.len(),
        ensures
            old(self)@.line_pos + offset - 1 < 0 <==> r is None,
            r is None ==> final(self)@ == old(self)@,
            old(self)@.line_pos + offset - 1 >= 0 ==> (r matches Some(l) && l@ == old(self)@.lines[
                old(self)@.line_pos + offset - 1
            ] && final(self)@.lines =~= old(self)@.lines.update(
                old(self)@.line_pos + offset - 1,
                final(l)@,
            )),
            final(self)@.line_pos == old(self)@.line_pos,
            final(self)@.char_pos == old(self)@.char_pos,
            final(self)@.want == old(self)@.want,
            final(self)@.mode == old(self)@.mode,
            final(self)@.modified == old(self)@.modified,
    {
        let adj: i128 = self.cursor.line_pos as i128 + offset as i128 - 1;
        if adj >= 0 {
            let n = self.lines.len();
            proof {
                assert(adj == self@.line_pos + offset - 1);
                assert(0 <= adj < n as i128);
            }
            let idx: usize = adj as usize;
            Some(&mut self.lines[idx])
        } else {
            None
        }
    }

    /// The line `offset` lines away from the cursor's line: `None` when
    /// the offset points above the first line; the offset must not point
    /// past the last line.
    pub fn curr_line_offset(&self, offset: isize) -> (r: Option<&Line>)
        requires
            self@.lines_ok(),
            self@.line_pos + offset - 1 < self@.lines.len(),
        ensures
            self@.line_pos + offset - 1 < 0 <==> r is None,
            self@.line_pos + offset - 1 >= 0 ==> (r matches Some(l) && l@ == self@.lines[
                self@.line_pos + offset - 1
            ]),
    {
        let adj: i128 = self.cursor.line_pos as i128 + offset as i128 - 1;
        if adj >= 0 {
            let n = self.lines.len();
            proof {
                assert(adj == self@.line_pos + offset - 1);
                assert(0 <= adj < n as i128);
            }
            let idx: usize = adj as usize;
            Some(&self.lines[idx])
        } else {
            None
        }
    }
}

impl BufferView {
    /// The state after `delete_char_cursor()`: the codepoint under the
    /// cursor is removed from the current line (a cursor past the end of
    /// the line removes nothing) and the buffer is marked modified.
    pub open spec fn delete_char_cursor_model(self) -> BufferView {
        let cur = self.cur_line();
        let line = if self.char_pos < cur.len() {
            line_removed(cur, self.char_pos, self.char_pos + 1)
        } else {
            cur
        };
        BufferView {
            lines: self.lines.update(self.line_pos - 1, line),
            modified: true,
            ..self
        }
    }

    /// The state after `delete_text(range)`: the codepoint range is
    /// removed from the current line and the buffer is marked modified.
    pub open spec fn delete_text_model(self, range: CharRange) -> BufferView {
        let cur = self.cur_line();
        BufferView {
            lines: self.lines.update(
                self.line_pos - 1,
                line_removed(cur, range.start(), range.end(cur.len() as int)),
            ),
            modified: true,
            ..self
        }
    }
}

// Cursor movement.
impl Buffer {
    /// The mode-dependent column limit of the current line.
    fn char_limit_exec(&self) -> (r: usize)
        requires
            self@.lines_ok(),
        ensures
            r == self@.char_limit(),
    {
        let len = self.lines[self.cursor.line_pos - 1].len();
        if self.editor_mode == Mode::Insert {
            len
        } else if len == 0 {
            0
        } else {
            len - 1
        }
    }

    /// Re-derives the cursor column from the remembered column.
    fn move_to_want(&mut self)
        requires
            old(self)@.lines_ok(),
        ensures
            final(self)@ == old(self)@.move_to_want_model(),
    {
        let limit = self.char_limit_exec();
        let w = self.want_cursor;
        self.cursor.char_pos = if w <= limit {
            w
        } else {
            limit
        };
    }

    /// Moves the cursor by `offset_line` lines (clamped to the valid
    /// line range) and shifts the remembered column by a non-zero
    /// `offset_char` (clamped to be non-negative); the cursor column is
    /// then re-derived from the remembered column against the new
    /// current line, and `sync` resets the remembered column to the
    /// resulting column.  Horizontal moves therefore redefine the
    /// sticky column while vertical moves leave it untouched.
    pub fn move_cursor_by(&mut self, offset_char: isize, offset_line: isize, sync: bool)
        requires
            old(self)@.lines_ok(),
        ensures
            final(self)@ == old(self)@.move_cursor_by_model(
                offset_char as int,
                offset_line as int,
                sync,
            ),
            final(self)@.lines_ok(),
            0 <= final(self)@.char_pos <= final(self)@.char_limit(),
            old(self)@.no_newlines() ==> final(self)@.wf(),
    {
        let n = self.lines.len();
        let t: i128 = self.cursor.line_pos as i128 + offset_line as i128;
        self.cursor.line_pos = if t < 1 {
            1
        } else if t > n as i128 {
            n
        } else {
            t as usize
        };
        if offset_char != 0 {
            let w: i128 = self.cursor.char_pos as i128 + offset_char as i128;
            self.want_cursor = if w < 0 {
                0
            } else if w > usize::MAX as i128 {
                usize::MAX
            } else {
                w as usize
            };
        }
        self.move_to_want();
        if sync {
            self.want_cursor = self.cursor.char_pos;
        }
    }

    /// Moves the cursor to the given 1-indexed line, clamped to the
    /// valid line range; the column is then re-derived from the
    /// remembered column against the new line's mode bound.
    pub fn move_cursor_line_to(&mut self, dest_line: usize)
        requires
            old(self)@.lines_ok(),
        ensures
            final(self)@ == old(self)@.move_cursor_line_to_model(dest_line as int),
            final(self)@.lines_ok(),
            0 <= final(self)@.char_pos <= final(self)@.char_limit(),
            old(self)@.no_newlines() ==> final(self)@.wf(),
    {
        let n = self.lines.len();
        self.cursor.line_pos = if dest_line < 1 {
            1
        } else if dest_line > n {
            n
        } else {
            dest_line
        };
        self.move_to_want();
    }

    /// Sets the remembered column to `dest_char` and re-derives the
    /// cursor column from it.
    pub fn move_cursor_char_to(&mut self, dest_char: usize)
        requires
            old(self)@.lines_ok(),
        ensures
            final(self)@ == old(self)@.move_cursor_char_to_model(dest_char as int),
            final(self)@.lines_ok(),
            0 <= final(self)@.char_pos <= final(self)@.char_limit(),
            old(self)@.no_newlines() ==> final(self)@.wf(),
    {
        self.want_cursor = dest_char;
        self.move_to_want();
    }

    /// Word-wise movement; not implemented, the cursor is unchanged.
    pub fn move_cursor_char_w(&mut self)
        ensures
            *final(self) == *old(self),
    {
    }

    /// Word-wise movement; not implemented, the cursor is unchanged.
    pub fn move_cursor_char_b(&mut self)
        ensures
            *final(self) == *old(self),
    {
    }

    /// Word-wise movement; not implemented, the cursor is unchanged.
    pub fn move_cursor_char_bigw(&mut self)
        ensures
            *final(self) == *old(self),
    {
    }

    /// Word-wise movement; not implemented, the cursor is unchanged.
    pub fn move_cursor_char_bigb(&mut self)
        ensures
            *final(self) == *old(self),
    {
    }

    /// Jumps to the last line of the buffer and re-derives the column.
    pub fn move_cursor_to_last_line(&mut self)
        requires
            old(self)@.lines_ok(),
        ensures
            final(self)@ == old(self)@.move_cursor_to_last_line_model(),
            final(self)@.lines_ok(),
            0 <= final(self)@.char_pos <= final(self)@.char_limit(),
            old(self)@.no_newlines() ==> final(self)@.wf(),
    {
        self.cursor.line_pos = self.lines.len();
        self.move_to_want();
    }

    /// Jumps to the last admissible column of the current line by
    /// saturating the remembered column high and re-deriving from it.
    pub fn move_cursor_to_last_char(&mut self)
        requires
            old(self)@.lines_ok(),
        ensures
            final(self)@ == old(self)@.move_cursor_to_last_char_model(),
            final(self)@.lines_ok(),
            0 <= final(self)@.char_pos <= final(self)@.char_limit(),
            old(self)@.no_newlines() ==> final(self)@.wf(),
    {
        self.want_cursor = usize::MAX;
        self.move_to_want();
    }
}

// Text mutation through the cursor.
impl Buffer {
    /// Deletes the codepoint under the cursor on the current line; a
    /// cursor past the end of the line deletes nothing.  Marks the
    /// buffer modified.
    pub fn delete_char_cursor(&mut self)
        requires
            old(self)@.lines_ok(),
        ensures
            final(self)@ == old(self)@.delete_char_cursor_model(),
    {
        let char_pos = self.cursor.char_pos;
        let line = self.curr_line_mut();
        line.delete_char(char_pos);
        self.is_modified = true;
    }

    /// Deletes a codepoint range from the current line and marks the
    /// buffer modified.
    pub fn delete_text(&mut self, range: CharRange)
        requires
            old(self)@.lines_ok(),
            range.valid_for(old(self)@.cur_line().len() as int),
        ensures
            final(self)@ == old(self)@.delete_text_model(range),
    {
        let line = self.curr_line_mut();
        line.delete_range(range);
        self.is_modified = true;
    }
}

/// A sequence of `n` empty lines.
pub open spec fn empty_lines(n: int) -> Seq<Seq<char>> {
    Seq::new(n as nat, |i: int| Seq::<char>::empty())
}

/// The 0-based index one past the last line removed by
/// `delete_lines(start..end)` on a buffer of `count` lines: the
/// exclusive 1-indexed `end` translates to `end - 1`, clamped to the
/// line count.
pub open spec fn delete_lines_end(end: int, count: int) -> int {
    if end - 1 <= count {
        end - 1
    } else {
        count
    }
}

impl BufferView {
    /// The state after `insert_lines(amount, move_cursor)`: `amount`
    /// empty lines are spliced in directly after the current line;
    /// `move_cursor` then advances the cursor down by `amount` (landing
    /// on the last inserted line) and re-derives the column.
    pub open spec fn insert_lines_model(self, amount: int, move_cursor: bool) -> BufferView {
        let b1 = BufferView {
            lines: self.lines.subrange(0, self.line_pos) + empty_lines(amount)
                + self.lines.subrange(self.line_pos, self.lines.len() as int),
            ..self
        };
        if move_cursor {
            b1.move_cursor_by_model(0, amount, true)
        } else {
            b1
        }
    }

    /// The state after `insert_lines_above(amount, move_cursor)`:
    /// `amount` empty lines are spliced in directly before the current
    /// line.  With `move_cursor` the cursor stays at its line number and
    /// so lands on the first inserted line; without it the cursor
    /// follows its original line down.  The column is re-derived either
    /// way.
    pub open spec fn insert_lines_above_model(self, amount: int, move_cursor: bool) -> BufferView {
        let b1 = BufferView {
            lines: self.lines.subrange(0, self.line_pos - 1) + empty_lines(amount)
                + self.lines.subrange(self.line_pos - 1, self.lines.len() as int),
            ..self
        };
        let b2 = if !move_cursor {
            b1.move_cursor_by_model(0, amount, true)
        } else {
            b1
        };
        b2.move_cursor_by_model(0, 0, true)
    }

    /// The state after `delete_line_curr()`: the current line is removed
    /// when another line remains; the last remaining line is cleared
    /// instead, so the buffer never loses its last line.  The cursor is
    /// re-clamped afterwards.
    pub open spec fn delete_line_curr_model(self) -> BufferView {
        let b1 = if self.lines.len() >= 2 {
            BufferView { lines: self.lines.remove(self.line_pos - 1), ..self }
        } else {
            BufferView { lines: self.lines.update(self.line_pos - 1, Seq::empty()), ..self }
        };
        b1.move_cursor_by_model(0, 0, true)
    }

    /// The state after `delete_lines(start..end)`: the 1-indexed,
    /// end-exclusive line range is removed, the end clamped to the
    /// buffer; the cursor is left untouched and the buffer is marked
    /// modified.
    pub open spec fn delete_lines_model(self, start: int, end: int) -> BufferView {
        let s = start - 1;
        let e = delete_lines_end(end, self.lines.len() as int);
        BufferView {
            lines: self.lines.subrange(0, s) + self.lines.subrange(e, self.lines.len() as int),
            modified: true,
            ..self
        }
    }
}

// Line insertion and removal.
impl Buffer {
    /// Splices `amount` empty lines in directly after the current line;
    /// with `move_cursor` the cursor then moves down onto the last
    /// inserted line.
    pub fn insert_lines(&mut self, amount: usize, move_cursor: bool)
        requires
            old(self)@.lines_ok(),
            old(self)@.lines.len() + amount <= usize::MAX,
        ensures
            final(self)@ == old(self)@.insert_lines_model(amount as int, move_cursor),
            final(self)@.lines_ok(),
            old(self)@.wf() ==> final(self)@.wf(),
    {
        let lp = self.cursor.line_pos;
        let ghost orig = self@;
        let mut k: usize = 0;
        while k < amount
            invariant
                orig.lines_ok(),
                lp == orig.line_pos,
                k <= amount,
                orig.lines.len() + amount <= usize::MAX,
                self.lines@.len() == orig.lines.len() + k,
                self@.lines =~= orig.lines.subrange(0, lp as int) + empty_lines(k as int)
                    + orig.lines.subrange(lp as int, orig.lines.len() as int),
                self.cursor == old(self).cursor,
                self.want_cursor == old(self).want_cursor,
                self.is_modified == old(self).is_modified,
                self.editor_mode == old(self).editor_mode,
            decreases amount - k,
        {
            let ghost before: Seq<Line> = self.lines@;
            let newline = Line::new();
            let ghost nl = newline;
            self.lines.insert(lp, newline);
            k = k + 1;
            proof {
                before.insert_ensures(lp as int, nl);
                lemma_lines_views(before);
                lemma_lines_views(self.lines@);
                let target = orig.lines.subrange(0, lp as int) + empty_lines(k as int)
                    + orig.lines.subrange(lp as int, orig.lines.len() as int);
                assert(self.lines@ == before.insert(lp as int, nl));
                assert(lines_views(before) =~= orig.lines.subrange(0, lp as int)
                    + empty_lines(k as int - 1)
                    + orig.lines.subrange(lp as int, orig.lines.len() as int));
                assert(self@.lines.len() == target.len());
                assert forall|i: int| 0 <= i < self@.lines.len() implies self@.lines[i]
                    == target[i] by {
                    assert(self@.lines[i] == self.lines@[i]@);
                    if i < lp as int {
                        assert(self.lines@[i] == before[i]);
                        assert(lines_views(before)[i] == before[i]@);
                    } else if i == lp as int {
                        assert(self.lines@[i] == nl);
                    } else {
                        assert(self.lines@[i] == before[i - 1]);
                        assert(lines_views(before)[i - 1] == before[i - 1]@);
                    }
                };
                assert(self@.lines =~= target);
            }
        }
        if move_cursor {
            self.cursor.line_pos = lp + amount;
            self.move_to_want();
            self.want_cursor = self.cursor.char_pos;
        }
        proof {
            assert(self@ == old(self)@.insert_lines_model(amount as int, move_cursor));
        }
    }

    /// Splices `amount` empty lines in directly before the current
    /// line.  With `move_cursor` the cursor stays at its line number,
    /// landing on the first inserted line; without it the cursor
    /// follows its original line down.
    pub fn insert_lines_above(&mut self, amount: usize, move_cursor: bool)
        requires
            old(self)@.lines_ok(),
            old(self)@.lines.len() + amount <= usize::MAX,
        ensures
            final(self)@ == old(self)@.insert_lines_above_model(amount as int, move_cursor),
            final(self)@.lines_ok(),
            old(self)@.wf() ==> final(self)@.wf(),
    {
        let lp = self.cursor.line_pos;
        let ghost orig = self@;
        let mut k: usize = 0;
        while k < amount
            invariant
                orig.lines_ok(),
                lp == orig.line_pos,
                k <= amount,
                orig.lines.len() + amount <= usize::MAX,
                self.lines@.len() == orig.lines.len() + k,
                self@.lines =~= orig.lines.subrange(0, lp as int - 1) + empty_lines(k as int)
                    + orig.lines.subrange(lp as int - 1, orig.lines.len() as int),
                self.cursor == old(self).cursor,
                self.want_cursor == old(self).want_cursor,
                self.is_modified == old(self).is_modified,
                self.editor_mode == old(self).editor_mode,
            decreases amount - k,
        {
            let ghost before: Seq<Line> = self.lines@;
            let newline = Line::new();
            let ghost nl = newline;
            self.lines.insert(lp - 1, newline);
            k = k + 1;
            proof {
                before.insert_ensures(lp as int - 1, nl);
                lemma_lines_views(before);
                lemma_lines_views(self.lines@);
                let target = orig.lines.subrange(0, lp as int - 1) + empty_lines(k as int)
                    + orig.lines.subrange(lp as int - 1, orig.lines.len() as int);
                assert(self.lines@ == before.insert(lp as int - 1, nl));
                assert(lines_views(before) =~= orig.lines.subrange(0, lp as int - 1)
                    + empty_lines(k as int - 1)
                    + orig.lines.subrange(lp as int - 1, orig.lines.len() as int));
                assert(self@.lines.len() == target.len());
                assert forall|i: int| 0 <= i < self@.lines.len() implies self@.lines[i]
                    == target[i] by {
                    assert(self@.lines[i] == self.lines@[i]@);
                    if i < lp as int - 1 {
                        assert(self.lines@[i] == before[i]);
                        assert(lines_views(before)[i] == before[i]@);
                    } else if i == lp as int - 1 {
                        assert(self.lines@[i] == nl);
                    } else {
                        assert(self.lines@[i] == before[i - 1]);
                        assert(lines_views(before)[i - 1] == before[i - 1]@);
                    }
                };
                assert(self@.lines =~= target);
            }
        }
        if !move_cursor {
            self.cursor.line_pos = lp + amount;
            self.move_to_want();
            self.want_cursor = self.cursor.char_pos;
        }
        self.move_to_want();
        self.want_cursor = self.cursor.char_pos;
        proof {
            assert(self@ == old(self)@.insert_lines_above_model(amount as int, move_cursor));
        }
    }

    /// Removes the current line when another line remains; clears the
    /// last remaining line instead, so the buffer never loses its last
    /// line.  The cursor is re-clamped afterwards.
    pub fn delete_line_curr(&mut self)
        requires
            old(self)@.lines_ok(),
        ensures
            final(self)@ == old(self)@.delete_line_curr_model(),
            final(self)@.lines_ok(),
            old(self)@.no_newlines() ==> final(self)@.wf(),
    {
        if self.lines.len() >= 2 {
            let idx = self.cursor.line_pos - 1;
            self.lines.remove(idx);
            let n = self.lines.len();
            if self.cursor.line_pos > n {
                self.cursor.line_pos = n;
            }
        } else {
            let line = self.curr_line_mut();
            let len = line.len();
            line.delete_range(CharRange::ToEnd(0));
            proof {
                assert(line@ =~= Seq::<char>::empty());
            }
        }
        self.move_to_want();
        self.want_cursor = self.cursor.char_pos;
        proof {
            assert(self@.lines =~= old(self)@.delete_line_curr_model().lines);
        }
    }

    /// Removes the 1-indexed, end-exclusive line range `range`, the end
    /// clamped to the buffer.  The cursor is left untouched and the
    /// buffer is marked modified; callers re-clamp the cursor when they
    /// may have removed the line it sat on.
    pub fn delete_lines(&mut self, range: Range<usize>)
        requires
            range.start >= 1,
            range.end >= 1,
            range.start - 1 <= delete_lines_end(range.end as int, old(self)@.lines.len() as int),
        ensures
            final(self)@ == old(self)@.delete_lines_model(range.start as int, range.end as int),
    {
        let s = range.start - 1;
        let e = range.end - 1;
        let count = self.lines.len();
        let e_eff = if e > count {
            count
        } else {
            e
        };
        let ghost orig = self@;
        let mut k: usize = 0;
        while k < e_eff - s
            invariant
                s <= e_eff <= orig.lines.len(),
                k <= e_eff - s,
                self.lines@.len() == orig.lines.len() - k,
                self@.lines =~= orig.lines.subrange(0, s as int) + orig.lines.subrange(
                    s as int + k,
                    orig.lines.len() as int,
                ),
                self.cursor == old(self).cursor,
                self.want_cursor == old(self).want_cursor,
                self.is_modified == old(self).is_modified,
                self.editor_mode == old(self).editor_mode,
            decreases e_eff - s - k,
        {
            let ghost before: Seq<Line> = self.lines@;
            self.lines.remove(s);
            k = k + 1;
            proof {
                before.remove_ensures(s as int);
                lemma_lines_views(before);
                lemma_lines_views(self.lines@);
                let target = orig.lines.subrange(0, s as int) + orig.lines.subrange(
                    s as int + k,
                    orig.lines.len() as int,
                );
                assert(self.lines@ == before.remove(s as int));
                assert(lines_views(before) =~= orig.lines.subrange(0, s as int)
                    + orig.lines.subrange(s as int + k - 1, orig.lines.len() as int));
                assert(self@.lines.len() == target.len());
                assert forall|i: int| 0 <= i < self@.lines.len() implies self@.lines[i]
                    == target[i] by {
                    assert(self@.lines[i] == self.lines@[i]@);
                    if i < s as int {
                        assert(self.lines@[i] == before[i]);
                        assert(lines_views(before)[i] == before[i]@);
                    } else {
                        assert(self.lines@[i] == before[i + 1]);
                        assert(lines_views(before)[i + 1] == before[i + 1]@);
                    }
                };
                assert(self@.lines =~= target);
            }
        }
        self.is_modified = true;
        proof {
            assert(self@.lines =~= old(self)@.delete_lines_model(
                range.start as int,
                range.end as int,
            ).lines);
        }
    }
}

/// The index of the first line feed in `t`, or `t.len()` when `t` has
/// none.
pub open spec fn first_newline(t: Seq<char>) -> int
    decreases t.len(),
{
    if t.len() == 0 {
        0
    } else if t[0] == '\n' {
        0
    } else {
        1 + first_newline(t.subrange(1, t.len() as int))
    }
}

/// [`first_newline`] is in bounds, points at a line feed when one
/// exists, and nothing before it is a line feed.
pub proof fn lemma_first_newline(t: Seq<char>)
    ensures
        0 <= first_newline(t) <= t.len(),
        first_newline(t) < t.len() ==> t[first_newline(t)] == '\n',
        forall|j: int| 0 <= j < first_newline(t) ==> t[j] != '\n',
    decreases t.len(),
{
    if t.len() == 0 {
    } else if t[0] == '\n' {
    } else {
        let rest = t.subrange(1, t.len() as int);
        lemma_first_newline(rest);
        if first_newline(t) < t.len() {
            assert(t[first_newline(t)] == rest[first_newline(rest)]);
        }
        assert forall|j: int| 0 <= j < first_newline(t) implies t[j] != '\n' by {
            if j > 0 {
                assert(rest[j - 1] == t[j]);
            }
        };
    }
}

/// When nothing before position `k` is a line feed and `k` is one (or
/// the end), `k` is the first line feed position.
pub proof fn lemma_first_newline_at(t: Seq<char>, k: int)
    requires
        0 <= k <= t.len(),
        forall|j: int| 0 <= j < k ==> t[j] != '\n',
        k < t.len() ==> t[k] == '\n',
    ensures
        first_newline(t) == k,
    decreases t.len(),
{
    if t.len() == 0 {
    } else if t[0] == '\n' {
        assert(k == 0);
    } else {
        assert(k >= 1);
        let rest = t.subrange(1, t.len() as int);
        assert forall|j: int| 0 <= j < k - 1 implies rest[j] != '\n' by {
            assert(rest[j] == t[j + 1]);
        };
        assert(k - 1 < rest.len() ==> rest[k - 1] == t[k]);
        lemma_first_newline_at(rest, k - 1);
    }
}

/// The segments of `t` between line feeds: splitting on `'\n'` in the
/// manner of `str::split`, so a text of `m` line feeds yields `m + 1`
/// segments (empty ones included).
pub open spec fn split_text(t: Seq<char>) -> Seq<Seq<char>>
    decreases t.len(),
{
    let i = first_newline(t);
    if 0 <= i < t.len() {
        seq![t.subrange(0, i)] + split_text(t.subrange(i + 1, t.len() as int))
    } else {
        seq![t]
    }
}

/// Splitting yields at least one segment, at most one more segment than
/// there are characters, and no segment contains a line feed.
pub proof fn lemma_split_text_props(t: Seq<char>)
    ensures
        1 <= split_text(t).len() <= t.len() + 1,
        forall|i: int| 0 <= i < split_text(t).len() ==> no_newline(#[trigger] split_text(t)[i]),
    decreases t.len(),
{
    lemma_first_newline(t);
    let i = first_newline(t);
    if 0 <= i < t.len() {
        let head = t.subrange(0, i);
        let tail = t.subrange(i + 1, t.len() as int);
        lemma_split_text_props(tail);
        assert(no_newline(head));
        assert forall|q: int| 0 <= q < split_text(t).len() implies no_newline(
            #[trigger] split_text(t)[q],
        ) by {
            if q > 0 {
                assert(split_text(t)[q] == split_text(tail)[q - 1]);
            }
        };
    } else {
        assert(no_newline(t));
    }
}

/// Unfolds one splitting step at a known first line feed position: when
/// nothing before `k` is a line feed, the first segment is `t[..k]` and
/// the rest is the splitting of `t[k + 1..]`; a line-feed-free text is
/// its own single segment.
pub proof fn lemma_split_text_at(t: Seq<char>, k: int)
    requires
        0 <= k <= t.len(),
        forall|j: int| 0 <= j < k ==> t[j] != '\n',
        k < t.len() ==> t[k] == '\n',
    ensures
        k < t.len() ==> split_text(t) == seq![t.subrange(0, k)] + split_text(
            t.subrange(k + 1, t.len() as int),
        ),
        k == t.len() ==> split_text(t) == seq![t],
{
    lemma_first_newline_at(t, k);
}

/// The character sequences of a sequence of strings.
pub open spec fn strings_views(strings: Seq<String>) -> Seq<Seq<char>> {
    strings.map_values(|s: String| s@)
}

/// Pointwise characterization of [`strings_views`].
pub proof fn lemma_strings_views(strings: Seq<String>)
    ensures
        strings_views(strings).len() == strings.len(),
        forall|i: int| 0 <= i < strings.len() ==> #[trigger] strings_views(strings)[i]
            == strings[i]@,
{
}

/// Splits `text` into its segments between line feeds.
pub(crate) fn split_lines(text: &str) -> (segs: Vec<String>)
    ensures
        strings_views(segs@) == split_text(text@),
        segs@.len() >= 1,
{
    let n = text.unicode_len();
    let mut segs: Vec<String> = Vec::new();
    let mut seg_start: usize = 0;
    let mut j: usize = 0;
    proof {
        lemma_strings_views(segs@);
        assert(text@.subrange(0, n as int) =~= text@);
    }
    while j < n
        invariant
            n == text@.len(),
            seg_start <= j <= n,
            forall|q: int| seg_start <= q < j ==> text@[q] != '\n',
            split_text(text@) == strings_views(segs@) + split_text(
                text@.subrange(seg_start as int, n as int),
            ),
        decreases n - j,
    {
        let c = text.get_char(j);
        if c == '\n' {
            let piece = String::from_str(text.substring_char(seg_start, j));
            let ghost before: Seq<String> = segs@;
            segs.push(piece);
            proof {
                let remaining = text@.subrange(seg_start as int, n as int);
                let k = j - seg_start;
                assert forall|q: int| 0 <= q < k implies remaining[q] != '\n' by {
                    assert(remaining[q] == text@[seg_start + q]);
                };
                assert(remaining[k as int] == text@[j as int]);
                lemma_split_text_at(remaining, k as int);
                assert(remaining.subrange(0, k as int) =~= text@.subrange(
                    seg_start as int,
                    j as int,
                ));
                assert(remaining.subrange(k as int + 1, remaining.len() as int) =~= text@.subrange(
                    j as int + 1,
                    n as int,
                ));
                lemma_strings_views(before);
                lemma_strings_views(segs@);
                assert(strings_views(segs@) =~= strings_views(before) + seq![piece@]);
                assert(split_text(text@) == strings_views(segs@) + split_text(
                    text@.subrange(j as int + 1, n as int),
                ));
            }
            seg_start = j + 1;
        }
        j = j + 1;
    }
    let piece = String::from_str(text.substring_char(seg_start, n));
    let ghost before: Seq<String> = segs@;
    segs.push(piece);
    proof {
        let remaining = text@.subrange(seg_start as int, n as int);
        assert forall|q: int| 0 <= q < remaining.len() implies remaining[q] != '\n' by {
            assert(remaining[q] == text@[seg_start + q]);
        };
        lemma_split_text_at(remaining, remaining.len() as int);
        lemma_strings_views(before);
        lemma_strings_views(segs@);
        assert(strings_views(segs@) =~= strings_views(before) + seq![piece@]);
        assert(strings_views(segs@) =~= split_text(text@));
    }
    segs
}

impl BufferView {
    /// The state after inserting one line-feed-free segment at the
    /// cursor: the segment enters the current line at the cursor column
    /// and the cursor advances over it (re-synchronizing the remembered
    /// column).
    pub open spec fn insert_seg_model(self, seg: Seq<char>) -> BufferView {
        let b1 = BufferView {
            lines: self.lines.update(
                self.line_pos - 1,
                line_inserted(self.cur_line(), self.char_pos, seg),
            ),
            ..self
        };
        b1.move_cursor_by_model(seg.len() as int, 0, true)
    }

    /// The state after inserting the first `n` of the segments `segs`:
    /// the first segment enters at the cursor, and each further segment
    /// first opens a fresh line below the cursor.
    pub open spec fn insert_segments_model(self, segs: Seq<Seq<char>>, n: int) -> BufferView
        decreases n,
    {
        if n <= 0 {
            self
        } else {
            let prev = self.insert_segments_model(segs, n - 1);
            let b = if n == 1 {
                prev
            } else {
                prev.insert_lines_model(1, true)
            };
            b.insert_seg_model(segs[n - 1])
        }
    }

    /// The state after `insert_text(t, move_cursor)`: `t` is split on
    /// line feeds, the segments are inserted (each after the first on a
    /// fresh line below), the buffer is marked modified, and without
    /// `move_cursor` the cursor and remembered column are restored to
    /// their values before the call.
    pub open spec fn insert_text_model(self, t: Seq<char>, move_cursor: bool) -> BufferView {
        let segs = split_text(t);
        let b1 = self.insert_segments_model(segs, segs.len() as int);
        let b2 = BufferView { modified: true, ..b1 };
        if move_cursor {
            b2
        } else {
            BufferView { line_pos: self.line_pos, char_pos: self.char_pos, want: self.want, ..b2 }
        }
    }

    /// The state after `split_line_below()`: a fresh line opens below
    /// the cursor and receives everything from the cursor column onward;
    /// the current line is truncated at the cursor.  The cursor stays
    /// on its line, its column re-clamped against the truncated line's
    /// mode bound (which moves it only where that bound tightened, in
    /// the block-cursor modes).
    pub open spec fn split_line_below_model(self) -> BufferView {
        let b1 = self.insert_lines_model(1, false);
        let b2 = if self.char_pos < self.cur_line().len() {
            let cur = self.cur_line();
            BufferView {
                lines: b1.lines.update(
                    self.line_pos,
                    cur.subrange(self.char_pos, cur.len() as int),
                ).update(self.line_pos - 1, cur.subrange(0, self.char_pos)),
                ..b1
            }
        } else {
            b1
        };
        b2.move_cursor_by_model(0, 0, true)
    }

    /// The state after `join_line_below()`: the content of the line
    /// below the cursor is inserted at the cursor (without moving it)
    /// and that line is removed.
    pub open spec fn join_line_below_model(self) -> BufferView {
        let below = self.lines[self.line_pos];
        let b1 = self.insert_text_model(below, false);
        b1.delete_lines_model(self.line_pos + 1, self.line_pos + 2)
    }
}

/// Inserting line-feed-free text into a line free of line feeds leaves
/// no line feed in it.
pub proof fn lemma_line_inserted_no_newline(line: Seq<char>, pos: int, text: Seq<char>)
    requires
        0 <= pos,
        no_newline(line),
        no_newline(text),
    ensures
        no_newline(line_inserted(line, pos, text)),
{
    let r = line_inserted(line, pos, text);
    let p = if pos <= line.len() {
        pos
    } else {
        line.len() as int
    };
    assert forall|j: int| 0 <= j < r.len() implies r[j] != '\n' by {
        if j < p {
            assert(r[j] == line[j]);
        } else if j < p + text.len() {
            assert(r[j] == text[j - p]);
        } else {
            assert(r[j] == line[j - text.len()]);
        }
    };
}

/// `move_cursor_by` leaves the lines, mode and modification flag alone
/// and restores well-formedness by re-clamping the cursor.
pub proof fn lemma_move_model_wf(v: BufferView, d_char: int, d_line: int, sync: bool)
    requires
        v.lines_ok(),
        v.no_newlines(),
        0 <= v.want,
    ensures
        ({
            let r = v.move_cursor_by_model(d_char, d_line, sync);
            &&& r.wf()
            &&& r.lines == v.lines
            &&& r.mode == v.mode
            &&& r.modified == v.modified
        }),
{
}

/// What inserting one line-feed-free segment does to a well-formed
/// buffer: the current line receives the segment at the cursor column,
/// nothing else changes shape, and well-formedness is preserved.
pub proof fn lemma_insert_seg_props(v: BufferView, seg: Seq<char>)
    requires
        v.wf(),
        no_newline(seg),
    ensures
        ({
            let r = v.insert_seg_model(seg);
            &&& r.wf()
            &&& r.lines == v.lines.update(
                v.line_pos - 1,
                line_inserted(v.cur_line(), v.char_pos, seg),
            )
            &&& r.line_pos == v.line_pos
            &&& r.mode == v.mode
            &&& r.modified == v.modified
        }),
{
    let b1 = BufferView {
        lines: v.lines.update(v.line_pos - 1, line_inserted(v.cur_line(), v.char_pos, seg)),
        ..v
    };
    assert forall|i: int| 0 <= i < b1.lines.len() implies no_newline(#[trigger] b1.lines[i]) by {
        if i == v.line_pos - 1 {
            lemma_line_inserted_no_newline(v.cur_line(), v.char_pos, seg);
        }
    };
    lemma_move_model_wf(b1, seg.len() as int, 0, true);
}

/// What inserting empty lines does to a well-formed buffer: the line
/// count grows by `amount`, the lines before the insertion point (the
/// current line among them) are untouched, the cursor line advances by
/// `amount` exactly when `move_cursor` is set, and well-formedness is
/// preserved.
pub proof fn lemma_insert_lines_props(v: BufferView, amount: int, move_cursor: bool)
    requires
        v.wf(),
        amount >= 0,
    ensures
        ({
            let r = v.insert_lines_model(amount, move_cursor);
            &&& r.wf()
            &&& r.lines.len() == v.lines.len() + amount
            &&& (forall|i: int| 0 <= i < v.line_pos ==> r.lines[i] == v.lines[i])
            &&& r.line_pos == if move_cursor {
                v.line_pos + amount
            } else {
                v.line_pos
            }
            &&& r.mode == v.mode
            &&& r.modified == v.modified
        }),
{
    let b1 = BufferView {
        lines: v.lines.subrange(0, v.line_pos) + empty_lines(amount) + v.lines.subrange(
            v.line_pos,
            v.lines.len() as int,
        ),
        ..v
    };
    assert forall|i: int| 0 <= i < b1.lines.len() implies no_newline(#[trigger] b1.lines[i]) by {
        if i >= v.line_pos + amount {
            assert(b1.lines[i] == v.lines[i - amount]);
        }
    };
    assert(b1.cur_line() == v.cur_line());
    if move_cursor {
        lemma_move_model_wf(b1, 0, amount, true);
    }
}

/// What inserting a prefix of the segments does to a well-formed
/// buffer, by induction over the prefix: each segment after the first
/// adds one line, the first segment enters the original current line at
/// the original cursor column and that line is never touched again, the
/// cursor only ever moves down, and well-formedness is preserved.
pub proof fn lemma_insert_segments_props(v: BufferView, segs: Seq<Seq<char>>, n: int)
    requires
        v.wf(),
        0 <= n <= segs.len(),
        forall|i: int| 0 <= i < segs.len() ==> no_newline(#[trigger] segs[i]),
    ensures
        ({
            let r = v.insert_segments_model(segs, n);
            &&& r.wf()
            &&& r.mode == v.mode
            &&& r.modified == v.modified
            &&& r.lines.len() == v.lines.len() + (if n <= 1 {
                0int
            } else {
                n - 1
            })
            &&& r.line_pos >= v.line_pos
            &&& (n > 0 ==> r.lines[v.line_pos - 1] == line_inserted(
                v.cur_line(),
                v.char_pos,
                segs[0],
            ))
            &&& (n == 0 ==> r == v)
        }),
    decreases n,
{
    if n > 0 {
        lemma_insert_segments_props(v, segs, n - 1);
        let prev = v.insert_segments_model(segs, n - 1);
        let b = if n == 1 {
            prev
        } else {
            prev.insert_lines_model(1, true)
        };
        if n > 1 {
            lemma_insert_lines_props(prev, 1, true);
            assert(b.lines[v.line_pos - 1] == prev.lines[v.line_pos - 1]);
        }
        lemma_insert_seg_props(b, segs[n - 1]);
        let r = b.insert_seg_model(segs[n - 1]);
        if n == 1 {
            assert(r.lines[v.line_pos - 1] == line_inserted(v.cur_line(), v.char_pos, segs[0]));
        } else {
            assert(b.line_pos - 1 >= v.line_pos);
            assert(r.lines[v.line_pos - 1] == b.lines[v.line_pos - 1]);
        }
    }
}

// Text insertion and line splitting/joining.
impl Buffer {
    /// Inserts `text` at the cursor.  The text is split on line feeds:
    /// the first segment enters the current line at the cursor column,
    /// and every further segment first opens a fresh line below the
    /// cursor.  The cursor advances over each inserted segment; with
    /// `move_cursor` false its position (and the remembered column) is
    /// restored afterwards, the insertion itself still happening.  Marks
    /// the buffer modified.
    pub fn insert_text(&mut self, text: &str, move_cursor: bool)
        requires
            old(self)@.wf(),
            old(self)@.lines.len() + split_text(text@).len() - 1 <= usize::MAX,
        ensures
            final(self)@ == old(self)@.insert_text_model(text@, move_cursor),
            final(self)@.wf(),
    {
        let ghost orig = self@;
        let old_cursor = self.cursor;
        let old_want = self.want_cursor;
        let segs = split_lines(text);
        proof {
            lemma_split_text_props(text@);
            lemma_strings_views(segs@);
        }
        let ghost gsegs = split_text(text@);
        let n = segs.len();
        let mut i: usize = 0;
        while i < n
            invariant
                orig.wf(),
                orig.lines.len() + n - 1 <= usize::MAX,
                n == segs@.len(),
                strings_views(segs@) == gsegs,
                gsegs == split_text(text@),
                1 <= n <= text@.len() + 1,
                forall|q: int| 0 <= q < gsegs.len() ==> no_newline(#[trigger] gsegs[q]),
                i <= n,
                self@ == orig.insert_segments_model(gsegs, i as int),
                self@.wf(),
                self@.lines.len() == orig.lines.len() + (if i <= 1 {
                    0int
                } else {
                    i - 1
                }),
            decreases n - i,
        {
            let ghost at_entry = self@;
            if i != 0 {
                self.insert_lines(1, true);
            }
            let cnt = segs[i].as_str().unicode_len();
            let cp = self.cursor.char_pos;
            let lp = self.cursor.line_pos;
            proof {
                if i != 0 {
                    lemma_insert_lines_props(at_entry, 1, true);
                }
                lemma_strings_views(segs@);
                assert(segs@[i as int]@ == gsegs[i as int]);
            }
            let line = &mut self.lines[lp - 1];
            line.insert(cp, segs[i].as_str());
            let new_len = line.len();
            proof {
                lemma_lines_views(old(self).lines@);
                assert(cp + cnt <= new_len);
            }
            if cnt != 0 {
                self.want_cursor = cp + cnt;
            }
            self.move_to_want();
            self.want_cursor = self.cursor.char_pos;
            i = i + 1;
            proof {
                let b = if i - 1 == 0 {
                    at_entry
                } else {
                    at_entry.insert_lines_model(1, true)
                };
                assert(self@.lines =~= b.lines.update(
                    b.line_pos - 1,
                    line_inserted(b.cur_line(), b.char_pos, gsegs[i - 1]),
                ));
                assert(self@ == b.insert_seg_model(gsegs[i - 1]));
                assert(self@ == orig.insert_segments_model(gsegs, i as int));
                lemma_insert_segments_props(orig, gsegs, i as int);
            }
        }
        self.is_modified = true;
        proof {
            lemma_insert_segments_props(orig, gsegs, n as int);
        }
        if !move_cursor {
            self.cursor = old_cursor;
            self.want_cursor = old_want;
            proof {
                let r = orig.insert_segments_model(gsegs, n as int);
                assert(self@.cur_line() == r.lines[orig.line_pos - 1]);
            }
        }
        proof {
            assert(self@ == orig.insert_text_model(text@, move_cursor));
        }
    }

    /// Opens a fresh line below the cursor, moves everything from the
    /// cursor column onward down into it, and truncates the current
    /// line at the cursor.  The cursor stays on its line, its column
    /// re-clamped against the truncated line's mode bound.
    pub fn split_line_below(&mut self)
        requires
            old(self)@.wf(),
            old(self)@.lines.len() < usize::MAX,
        ensures
            final(self)@ == old(self)@.split_line_below_model(),
            final(self)@.wf(),
    {
        let ghost orig = self@;
        self.insert_lines(1, false);
        proof {
            lemma_insert_lines_props(orig, 1, false);
        }
        let cp = self.cursor.char_pos;
        let lp = self.cursor.line_pos;
        let cur_len = self.lines[lp - 1].len();
        if cp < cur_len {
            let tail = String::from_str(
                self.lines[lp - 1].content.as_str().substring_char(cp, cur_len),
            );
            let below = &mut self.lines[lp];
            below.insert(0, tail.as_str());
            proof {
                assert(below@ =~= orig.cur_line().subrange(cp as int, orig.cur_line().len() as int));
            }
            let line = &mut self.lines[lp - 1];
            line.delete_range(CharRange::ToEnd(cp));
            proof {
                assert(line@ =~= orig.cur_line().subrange(0, cp as int));
            }
        }
        proof {
            let b1 = orig.insert_lines_model(1, false);
            let b2 = if orig.char_pos < orig.cur_line().len() {
                BufferView {
                    lines: b1.lines.update(
                        orig.line_pos,
                        orig.cur_line().subrange(orig.char_pos, orig.cur_line().len() as int),
                    ).update(orig.line_pos - 1, orig.cur_line().subrange(0, orig.char_pos)),
                    ..b1
                }
            } else {
                b1
            };
            assert(self@.lines =~= b2.lines);
            assert(self@ == b2);
            assert forall|q: int| 0 <= q < self@.lines.len() implies no_newline(
                #[trigger] self@.lines[q],
            ) by {
                let b1lines = orig.lines.subrange(0, orig.line_pos) + empty_lines(1)
                    + orig.lines.subrange(orig.line_pos, orig.lines.len() as int);
                if q >= orig.line_pos + 1 {
                    assert(b1lines[q] == orig.lines[q - 1]);
                }
            };
            lemma_move_model_wf(b2, 0, 0, true);
        }
        self.move_to_want();
        self.want_cursor = self.cursor.char_pos;
        proof {
            assert(self@ == orig.split_line_below_model());
        }
    }

    /// Inserts the content of the line below the cursor at the cursor
    /// (without moving it) and removes that line.
    pub fn join_line_below(&mut self)
        requires
            old(self)@.wf(),
            old(self)@.line_pos < old(self)@.lines.len(),
            old(self)@.lines.len() < usize::MAX,
        ensures
            final(self)@ == old(self)@.join_line_below_model(),
            final(self)@.wf(),
    {
        let ghost orig = self@;
        let next_idx = self.cursor.line_pos;
        let s = self.lines[next_idx].content.clone();
        proof {
            lemma_split_text_at(s@, s@.len() as int);
        }
        self.insert_text(s.as_str(), false);
        let lp = self.cursor.line_pos;
        self.delete_lines(Range { start: lp + 1, end: lp + 2 });
        proof {
            let below = orig.lines[orig.line_pos];
            lemma_split_text_props(below);
            lemma_insert_segments_props(orig, split_text(below), split_text(below).len() as int);
            assert(self@ == orig.join_line_below_model());
            let b1 = orig.insert_text_model(below, false);
            assert(self@.lines =~= b1.lines.remove(orig.line_pos));
            assert forall|q: int| 0 <= q < self@.lines.len() implies no_newline(
                #[trigger] self@.lines[q],
            ) by {
                assert(b1.lines.remove(orig.line_pos)[q] == if q < orig.line_pos {
                    b1.lines[q]
                } else {
                    b1.lines[q + 1]
                });
            };
            assert(self@.cur_line() == b1.lines[orig.line_pos - 1]);
        }
    }
}

/// Inserting `text` at a valid position and deleting the same codepoint
/// range again restores the original line content: `insert` and
/// `delete_range` are inverse on that range.
pub proof fn lemma_insert_delete_inverse(line: Seq<char>, pos: int, text: Seq<char>)
    requires
        0 <= pos <= line.len(),
    ensures
        line_removed(
            line_inserted(line, pos, text),
            pos,
            pos + text.len(),
        ) == line,
{
    let inserted = line_inserted(line, pos, text);
    assert(line_removed(inserted, pos, pos + text.len()) =~= line);
}

/// The state after a whole sequence of `move_cursor_by` calls, given as
/// `(d_char, d_line, sync)` triples applied left to right.
pub open spec fn apply_moves(v: BufferView, moves: Seq<(int, int, bool)>) -> BufferView
    decreases moves.len(),
{
    if moves.len() == 0 {
        v
    } else {
        apply_moves(
            v.move_cursor_by_model(moves[0].0, moves[0].1, moves[0].2),
            moves.drop_first(),
        )
    }
}

/// Any sequence of `move_cursor_by` calls keeps a well-formed buffer
/// well-formed: the cursor line stays within `1..=line_count` and the
/// cursor column within the mode-dependent clamp (`0..=len` in Insert
/// mode, `0..=max(len, 1) - 1` otherwise).  The lines themselves, the
/// mode and the modification flag never change.
pub proof fn lemma_moves_preserve_wf(v: BufferView, moves: Seq<(int, int, bool)>)
    requires
        v.wf(),
    ensures
        ({
            let r = apply_moves(v, moves);
            &&& r.wf()
            &&& r.lines == v.lines
            &&& r.mode == v.mode
            &&& r.modified == v.modified
        }),
    decreases moves.len(),
{
    if moves.len() > 0 {
        lemma_move_model_wf(v, moves[0].0, moves[0].1, moves[0].2);
        lemma_moves_preserve_wf(
            v.move_cursor_by_model(moves[0].0, moves[0].1, moves[0].2),
            moves.drop_first(),
        );
    }
}

/// The state after a sequence of purely vertical cursor moves
/// (`move_cursor_by(0, d_line, false)` for each offset in `ds`).
pub open spec fn apply_vertical_moves(v: BufferView, ds: Seq<int>) -> BufferView
    decreases ds.len(),
{
    if ds.len() == 0 {
        v
    } else {
        apply_vertical_moves(v.move_cursor_by_model(0, ds[0], false), ds.drop_first())
    }
}

/// The sticky column law.  Starting from a well-formed buffer whose
/// cursor column agrees with the remembered column (the state a
/// horizontal move leaves behind), any sequence of vertical moves keeps
/// the remembered column: whenever such moves land on a line long
/// enough for it, the cursor column is the remembered one again — in
/// particular, moving down through shorter lines and back to the
/// original line restores the original column exactly.
pub proof fn lemma_sticky_column(v: BufferView, ds: Seq<int>)
    requires
        v.wf(),
        v.char_pos == v.want,
    ensures
        ({
            let r = apply_vertical_moves(v, ds);
            &&& r.wf()
            &&& r.want == v.want
            &&& r.lines == v.lines
            &&& r.mode == v.mode
            &&& (v.want <= r.char_limit() ==> r.char_pos == v.want)
            &&& (r.line_pos == v.line_pos ==> r.char_pos == v.char_pos)
        }),
{
    lemma_sticky_column_aux(v, ds);
}

/// Induction step behind [`lemma_sticky_column`]: between vertical
/// moves the cursor column is always the remembered column clamped to
/// the current line's limit.
proof fn lemma_sticky_column_aux(v: BufferView, ds: Seq<int>)
    requires
        v.wf(),
        v.char_pos == (if v.want <= v.char_limit() {
            v.want
        } else {
            v.char_limit()
        }),
    ensures
        ({
            let r = apply_vertical_moves(v, ds);
            &&& r.wf()
            &&& r.want == v.want
            &&& r.lines == v.lines
            &&& r.mode == v.mode
            &&& r.char_pos == (if v.want <= r.char_limit() {
                v.want
            } else {
                r.char_limit()
            })
        }),
    decreases ds.len(),
{
    if ds.len() > 0 {
        let v1 = v.move_cursor_by_model(0, ds[0], false);
        lemma_move_model_wf(v, 0, ds[0], false);
        lemma_sticky_column_aux(v1, ds.drop_first());
    }
}

/// Splitting the current line at the cursor and immediately joining the
/// line below from the resulting cursor position reconstructs the
/// original lines and cursor (only the modification flag may change,
/// and the remembered column rests on the cursor column, as after any
/// synchronizing move).  The law asks that the split not move the
/// cursor, so it covers the states where the split's re-clamp is a
/// no-op: the cursor column within the remembered column, in Insert
/// mode (where Return performs this split) or at column 0.  In a
/// block-cursor mode a mid-line split tightens the column bound below
/// the cursor, the re-clamp pulls the cursor left, and the join
/// re-inserts the tail at that earlier column.
pub proof fn lemma_split_then_join(v: BufferView)
    requires
        v.wf(),
        v.char_pos <= v.want,
        v.mode is Insert || v.char_pos == 0,
    ensures
        ({
            let r = v.split_line_below_model().join_line_below_model();
            &&& r.lines =~= v.lines
            &&& r.line_pos == v.line_pos
            &&& r.char_pos == v.char_pos
            &&& r.want == v.char_pos
            &&& r.mode == v.mode
        }),
{
    let s = v.split_line_below_model();
    let lp = v.line_pos;
    let cp = v.char_pos;
    let cur = v.cur_line();
    lemma_insert_lines_props(v, 1, false);
    // The split state: lines rearranged, cursor still at (lp, cp).
    let b1m = v.insert_lines_model(1, false);
    let b2 = if cp < cur.len() {
        BufferView {
            lines: b1m.lines.update(lp, cur.subrange(cp, cur.len() as int)).update(
                lp - 1,
                cur.subrange(0, cp),
            ),
            ..b1m
        }
    } else {
        b1m
    };
    assert(s == b2.move_cursor_by_model(0, 0, true));
    assert(b2.line_pos == lp && b2.char_pos == cp && b2.want == v.want);
    // The re-clamp is a no-op on the admitted states: the truncated
    // line's bound is exactly the cursor column.
    assert(s.line_pos == lp);
    assert(s.char_pos == cp && s.want == cp) by {
        if cp < cur.len() {
            assert(b2.cur_line() == cur.subrange(0, cp));
            assert(b2.cur_line().len() == cp);
        } else {
            assert(b2.cur_line() == cur);
        }
    };
    let below = s.lines[lp];
    // The line below the cursor after the split holds no line feed.
    assert(no_newline(below)) by {
        if cp < cur.len() {
            assert(below =~= cur.subrange(cp, cur.len() as int));
            assert(forall|j: int| 0 <= j < below.len() ==> below[j] == cur[cp + j]);
        } else {
            assert(below =~= Seq::<char>::empty());
        }
    };
    lemma_split_text_at(below, below.len() as int);
    // The join inserts that single segment back at the cursor.
    let b1 = s.insert_text_model(below, false);
    let inserted = s.insert_seg_model(below);
    assert(seq![below][0] == below);
    assert(s.insert_segments_model(seq![below], 0) == s);
    assert(s.insert_segments_model(seq![below], 1) == inserted);
    assert(b1.lines == inserted.lines);
    assert(b1.line_pos == s.line_pos && b1.char_pos == s.char_pos && b1.want == s.want);
    let r = b1.delete_lines_model(lp + 1, lp + 2);
    // The current line of the split state, with the split-off tail
    // re-inserted at the cursor, is the original current line.
    assert(line_inserted(s.cur_line(), cp, below) =~= cur);
    // Removing the re-joined line below restores the original lines.
    assert(r.lines =~= v.lines);
}

/// The open buffers: a non-empty collection with one current buffer.
pub struct Buffers {
    buffers: Vec<Buffer>,
    current_buffer: usize,
}

impl Buffers {
    /// The states of the open buffers.
    pub closed spec fn bufs(self) -> Seq<BufferView> {
        self.buffers@.map_values(|b: Buffer| b@)
    }

    /// The index of the current buffer.
    pub closed spec fn cur_idx(self) -> int {
        self.current_buffer as int
    }

    /// The state of the current buffer.
    pub open spec fn cur(self) -> BufferView {
        self.bufs()[self.cur_idx()]
    }

    /// The current index is valid and every open buffer is well-formed.
    pub open spec fn wf(self) -> bool {
        &&& 0 <= self.cur_idx() < self.bufs().len()
        &&& forall|i: int| 0 <= i < self.bufs().len() ==> (#[trigger] self.bufs()[i]).wf()
    }

    /// One empty buffer, current.
    pub fn new() -> (r: Buffers)
        ensures
            r.wf(),
            r.bufs().len() == 1,
            r.cur_idx() == 0,
            r.cur().lines =~= seq![Seq::<char>::empty()],
            r.cur().line_pos == 1,
            r.cur().char_pos == 0,
            r.cur().want == 0,
            r.cur().mode is Insert,
            !r.cur().modified,
    {
        let buffer = Buffer::new();
        Buffers { buffers: vec![buffer], current_buffer: 0 }
    }

    /// A collection holding the given buffer, current.
    pub fn from_buffer(buffer: Buffer) -> (r: Buffers)
        ensures
            r.bufs() =~= seq![buffer@],
            r.cur_idx() == 0,
            buffer@.wf() ==> r.wf(),
    {
        Buffers { buffers: vec![buffer], current_buffer: 0 }
    }

    /// The current buffer.
    pub fn curr_buffer(&self) -> (r: &Buffer)
        requires
            self.wf(),
        ensures
            r@ == self.cur(),
    {
        &self.buffers[self.current_buffer]
    }

    /// A mutable borrow of the current buffer.
    pub fn curr_buffer_mut(&mut self) -> (r: &mut Buffer)
        requires
            old(self).wf(),
        ensures
            r@ == old(self).cur(),
            final(self).bufs() =~= old(self).bufs().update(old(self).cur_idx(), final(r)@),
            final(self).cur_idx() == old(self).cur_idx(),
    {
        let idx = self.current_buffer;
        &mut self.buffers[idx]
    }
}

} // verus!
