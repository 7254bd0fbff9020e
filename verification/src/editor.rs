//! The editor: modal state machine and input routing.
//!
//! The editor owns the open buffers and the current [`Mode`], and routes
//! key and text input to buffer operations.  Each recognized key maps to
//! exactly one buffer operation sequence; unrecognized keys do nothing.
//! Every buffer carries its own copy of the mode (synchronized on every
//! transition), so that cursor clamping can be decided locally by the
//! buffer.

use vstd::prelude::*;

use crate::buffer::{BufferView, Buffers, CharRange};

verus! {

/// The editing modes.  Only `Normal` and `Insert` have key handlers;
/// the remaining modes are declared states with no behavior wired to
/// them.
#[derive(Clone, Copy, PartialEq, Eq, Structural, Debug)]
pub enum Mode {
    Normal,
    Insert,
    Visual,
    VisualLine,
    Replace,
    Command,
}

/// The symbolic keys the editor reacts to; anything else arrives as
/// `Other` and does nothing.
#[derive(Clone, Copy, PartialEq, Eq, Structural, Debug)]
pub enum Key {
    Return,
    Escape,
    Backspace,
    Tab,
    Up,
    Down,
    Left,
    Right,
    A,
    D,
    H,
    I,
    J,
    K,
    L,
    O,
    X,
    Num0,
    Num4,
    Other,
}

/// Modifier bitmask: no modifier held.
pub const MOD_NONE: u16 = 0;

/// Modifier bitmask: left shift.
pub const MOD_LSHIFT: u16 = 0x0001;

/// Modifier bitmask: right shift.
pub const MOD_RSHIFT: u16 = 0x0002;

/// Modifier bitmask: left control.
pub const MOD_LCTRL: u16 = 0x0040;

/// Modifier bitmask: right control.
pub const MOD_RCTRL: u16 = 0x0080;

/// Modifier bitmask: left alt.
pub const MOD_LALT: u16 = 0x0100;

/// Modifier bitmask: right alt.
pub const MOD_RALT: u16 = 0x0200;

/// Modifier bitmask: caps lock.
pub const MOD_CAPS: u16 = 0x2000;

/// Exactly the shift keys are held (either or both), nothing else.
pub open spec fn spec_is_shift(keymod: u16) -> bool {
    keymod == MOD_LSHIFT || keymod == MOD_RSHIFT || keymod == (MOD_LSHIFT | MOD_RSHIFT)
}

/// The modifiers spell an uppercase letter: shift alone, or caps lock
/// alone.  (False does not mean lowercase.)
pub open spec fn spec_is_upper(keymod: u16) -> bool {
    spec_is_shift(keymod) || keymod == MOD_CAPS
}

/// The modifiers spell a lowercase letter: no modifier at all, or caps
/// lock cancelled by shift.  (False does not mean uppercase.)
pub open spec fn spec_is_lower(keymod: u16) -> bool {
    ((keymod & MOD_CAPS) != 0 && spec_is_shift(keymod & 0xDFFF)) || keymod == MOD_NONE
}

/// No modifier combination spells both an uppercase and a lowercase
/// letter.
pub proof fn lemma_upper_lower_disjoint(keymod: u16)
    ensures
        !(spec_is_upper(keymod) && spec_is_lower(keymod)),
{
    assert((1u16 | 2u16) == 3u16) by (bit_vector);
    assert((0x2000u16 & 0xDFFFu16) == 0u16) by (bit_vector);
    assert((1u16 & 0x2000u16) == 0u16) by (bit_vector);
    assert((2u16 & 0x2000u16) == 0u16) by (bit_vector);
    assert((3u16 & 0x2000u16) == 0u16) by (bit_vector);
}

/// Exactly the shift keys are held (either or both), nothing else.
pub fn is_shift(keymod: u16) -> (r: bool)
    ensures
        r == spec_is_shift(keymod),
{
    keymod == MOD_LSHIFT || keymod == MOD_RSHIFT || keymod == (MOD_LSHIFT | MOD_RSHIFT)
}

/// The modifiers spell an uppercase letter: shift alone, or caps lock
/// alone.
pub fn is_upper(keymod: u16) -> (r: bool)
    ensures
        r == spec_is_upper(keymod),
{
    is_shift(keymod) || keymod == MOD_CAPS
}

/// The modifiers spell a lowercase letter: no modifier at all, or caps
/// lock cancelled by shift.
pub fn is_lower(keymod: u16) -> (r: bool)
    ensures
        r == spec_is_lower(keymod),
{
    ((keymod & MOD_CAPS) != 0 && is_shift(keymod & 0xDFFF)) || keymod == MOD_NONE
}

/// The buffer state a Normal-mode key press leaves behind.  The
/// dispatch table: Return opens a line below; the arrow keys and
/// `h`/`j`/`k`/`l` move (vertical moves leave the sticky column alone,
/// horizontal ones redefine it); `a`/`i`/`o`/`O` enter Insert mode
/// (`a` stepping right, `o`/`O` opening a line below/above); `d`
/// deletes the current line, or clears it when it is the only one; `x`
/// deletes the character under the cursor; `0` and shift-`4` jump to
/// the first and last column.
pub open spec fn normal_step_buf(v: BufferView, key: Key, keymod: u16) -> BufferView {
    match key {
        Key::Return => v.insert_lines_model(1, true),
        Key::Up => v.move_cursor_by_model(0, -1, false),
        Key::Down => v.move_cursor_by_model(0, 1, false),
        Key::Right => v.move_cursor_by_model(1, 0, true),
        Key::Left => v.move_cursor_by_model(-1, 0, true),
        Key::A => (BufferView { mode: Mode::Insert, ..v }).move_cursor_by_model(1, 0, true),
        Key::D => if v.lines.len() == 1 {
            v.delete_text_model(CharRange::ToEnd(0)).move_cursor_by_model(0, 0, true)
        } else {
            v.delete_line_curr_model()
        },
        Key::H => v.move_cursor_by_model(-1, 0, true),
        Key::I => (BufferView { mode: Mode::Insert, ..v }),
        Key::J => v.move_cursor_by_model(0, 1, false),
        Key::K => v.move_cursor_by_model(0, -1, false),
        Key::L => v.move_cursor_by_model(1, 0, true),
        Key::O => {
            let v1 = if spec_is_upper(keymod) {
                (BufferView { mode: Mode::Insert, ..v }).insert_lines_above_model(1, true)
            } else {
                v
            };
            if spec_is_lower(keymod) {
                (BufferView { mode: Mode::Insert, ..v1 }).insert_lines_model(1, true)
            } else {
                v1
            }
        },
        Key::X => v.delete_char_cursor_model().move_cursor_by_model(0, 0, true),
        Key::Num0 => v.move_cursor_char_to_model(0),
        Key::Num4 => if keymod & (MOD_LSHIFT | MOD_RSHIFT) != 0 {
            v.move_cursor_to_last_char_model()
        } else {
            v
        },
        _ => v,
    }
}

/// The editor mode a Normal-mode key press leaves behind: `a`, `i` and
/// a cased `o` enter Insert mode.
pub open spec fn normal_step_mode(key: Key, keymod: u16) -> Mode {
    match key {
        Key::A => Mode::Insert,
        Key::I => Mode::Insert,
        Key::O => if spec_is_upper(keymod) || spec_is_lower(keymod) {
            Mode::Insert
        } else {
            Mode::Normal
        },
        _ => Mode::Normal,
    }
}

/// Whether a Normal-mode key press asks the caller to skip the
/// remaining input events of this batch (set when entering Insert
/// mode, so the triggering key stroke does not also type text).
pub open spec fn normal_step_skip(key: Key, keymod: u16) -> bool {
    match key {
        Key::A => true,
        Key::I => true,
        Key::O => spec_is_upper(keymod) || spec_is_lower(keymod),
        _ => false,
    }
}

/// The buffer state an Insert-mode key press leaves behind.  Escape
/// returns to Normal mode, stepping the cursor one column left;
/// Backspace deletes leftward, merging with the line above at column
/// 0; Return splits the line at the cursor and puts the cursor at
/// column 0 of the new line; Tab inserts four spaces; the arrow keys
/// move as in Normal mode.
pub open spec fn insert_step_buf(v: BufferView, key: Key) -> BufferView {
    match key {
        Key::Escape => (BufferView { mode: Mode::Normal, ..v }).move_cursor_by_model(-1, 0, true),
        Key::Backspace => if v.char_pos == 0 {
            if v.line_pos >= 2 {
                v.move_cursor_by_model(0, -1, true).move_cursor_to_last_char_model()
                    .move_cursor_by_model(0, 0, true).join_line_below_model()
            } else {
                v
            }
        } else {
            v.move_cursor_by_model(-1, 0, true).delete_char_cursor_model()
        },
        Key::Return => v.split_line_below_model().move_cursor_by_model(
            0,
            1,
            true,
        ).move_cursor_char_to_model(0),
        Key::Up => v.move_cursor_by_model(0, -1, false),
        Key::Down => v.move_cursor_by_model(0, 1, false),
        Key::Right => v.move_cursor_by_model(1, 0, true),
        Key::Left => v.move_cursor_by_model(-1, 0, true),
        Key::Tab => v.insert_text_model(seq![' ', ' ', ' ', ' '], true),
        _ => v,
    }
}

/// The editor mode an Insert-mode key press leaves behind: only Escape
/// leaves Insert mode.
pub open spec fn insert_step_mode(key: Key) -> Mode {
    match key {
        Key::Escape => Mode::Normal,
        _ => Mode::Insert,
    }
}

/// The buffer state any key press leaves behind, by editor mode.
/// Modes without handlers ignore every key.
pub open spec fn step_buf(mode: Mode, v: BufferView, key: Key, keymod: u16) -> BufferView {
    match mode {
        Mode::Normal => normal_step_buf(v, key, keymod),
        Mode::Insert => insert_step_buf(v, key),
        _ => v,
    }
}

/// The editor mode any key press leaves behind, by editor mode.
pub open spec fn step_mode(mode: Mode, key: Key, keymod: u16) -> Mode {
    match mode {
        Mode::Normal => normal_step_mode(key, keymod),
        Mode::Insert => insert_step_mode(key),
        _ => mode,
    }
}

/// Whether any key press asks the caller to skip the remaining input
/// events of this batch.
pub open spec fn step_skip(mode: Mode, key: Key, keymod: u16) -> bool {
    match mode {
        Mode::Normal => normal_step_skip(key, keymod),
        _ => false,
    }
}

/// The lines of a buffer joined by line feeds, the form the layout
/// consumes.
pub open spec fn joined_text(lines: Seq<Seq<char>>) -> Seq<char>
    decreases lines.len(),
{
    if lines.len() == 0 {
        Seq::empty()
    } else if lines.len() == 1 {
        lines[0]
    } else {
        lines[0] + seq!['\n'] + joined_text(lines.drop_first())
    }
}

/// Appending one more line to a joined text appends a line feed and
/// that line (except to an empty text).
pub proof fn lemma_joined_push(lines: Seq<Seq<char>>, line: Seq<char>)
    ensures
        lines.len() == 0 ==> joined_text(lines.push(line)) == line,
        lines.len() > 0 ==> joined_text(lines.push(line)) == joined_text(lines) + seq!['\n']
            + line,
    decreases lines.len(),
{
    if lines.len() == 0 {
        assert(lines.push(line)[0] == line);
        assert(joined_text(lines.push(line)) == line);
    } else {
        let rest = lines.drop_first();
        lemma_joined_push(rest, line);
        assert(lines.push(line).drop_first() =~= rest.push(line));
        if lines.len() == 1 {
            assert(joined_text(lines.push(line)) == lines[0] + seq!['\n'] + joined_text(
                rest.push(line),
            ));
            assert(joined_text(rest.push(line)) == line);
        } else {
            assert(joined_text(lines.push(line)) == lines[0] + seq!['\n'] + joined_text(
                rest.push(line),
            ));
            assert((lines[0] + seq!['\n'] + (joined_text(rest) + seq!['\n'] + line)) =~= (lines[0]
                + seq!['\n'] + joined_text(rest)) + seq!['\n'] + line);
        }
    }
}

/// The editor: the open buffers and the current editing mode.
pub struct Editor {
    pub mode: Mode,
    pub buffers: Buffers,
}

impl Editor {
    /// The current editing mode.
    pub open spec fn edit_mode(self) -> Mode {
        self.mode
    }

    /// The state of the current buffer.
    pub open spec fn cur(self) -> BufferView {
        self.buffers.cur()
    }

    /// The buffer collection is well-formed.
    pub open spec fn wf(self) -> bool {
        self.buffers.wf()
    }

    /// A fresh editor: one empty buffer, in Normal mode.
    pub fn new() -> (r: Editor)
        ensures
            r.wf(),
            r.edit_mode() is Normal,
            r.buffers.bufs().len() == 1,
            r.buffers.cur_idx() == 0,
            r.cur().lines =~= seq![Seq::<char>::empty()],
            r.cur().line_pos == 1,
            r.cur().char_pos == 0,
    {
        Editor { mode: Mode::Normal, buffers: Buffers::new() }
    }

    /// An editor over existing buffers, in Normal mode.
    pub fn with_buffers(buffers: Buffers) -> (r: Editor)
        ensures
            r.edit_mode() is Normal,
            r.buffers == buffers,
    {
        Editor { mode: Mode::Normal, buffers }
    }

    /// Handles one Normal-mode key press.
    fn handle_keypress_normal(&mut self, key: Key, keymod: u16, skip_events: &mut bool)
        requires
            old(self).wf(),
            old(self).edit_mode() is Normal,
            old(self).cur().lines.len() < usize::MAX,
        ensures
            final(self).wf(),
            final(self).buffers.bufs() =~= old(self).buffers.bufs().update(
                old(self).buffers.cur_idx(),
                normal_step_buf(old(self).cur(), key, keymod),
            ),
            final(self).buffers.cur_idx() == old(self).buffers.cur_idx(),
            final(self).edit_mode() == normal_step_mode(key, keymod),
            *final(skip_events) == (*old(skip_events) || normal_step_skip(key, keymod)),
    {
        let buf = self.buffers.curr_buffer_mut();
        match key {
            Key::Return => {
                buf.insert_lines(1, true);
            },
            Key::Up => {
                buf.move_cursor_by(0, -1, false);
            },
            Key::Down => {
                buf.move_cursor_by(0, 1, false);
            },
            Key::Right => {
                buf.move_cursor_by(1, 0, true);
            },
            Key::Left => {
                buf.move_cursor_by(-1, 0, true);
            },
            Key::A => {
                self.mode = Mode::Insert;
                buf.set_mode(Mode::Insert);
                *skip_events = true;
                buf.move_cursor_by(1, 0, true);
            },
            Key::D => {
                if buf.line_count() == 1 {
                    buf.delete_text(CharRange::ToEnd(0));
                    buf.move_cursor_by(0, 0, true);
                } else {
                    buf.delete_line_curr();
                }
            },
            Key::H => {
                buf.move_cursor_by(-1, 0, true);
            },
            Key::I => {
                self.mode = Mode::Insert;
                buf.set_mode(Mode::Insert);
                *skip_events = true;
            },
            Key::J => {
                buf.move_cursor_by(0, 1, false);
            },
            Key::K => {
                buf.move_cursor_by(0, -1, false);
            },
            Key::L => {
                buf.move_cursor_by(1, 0, true);
            },
            Key::O => {
                if is_upper(keymod) {
                    self.mode = Mode::Insert;
                    buf.set_mode(Mode::Insert);
                    *skip_events = true;
                    buf.insert_lines_above(1, true);
                }
                proof {
                    lemma_upper_lower_disjoint(keymod);
                }
                if is_lower(keymod) {
                    self.mode = Mode::Insert;
                    buf.set_mode(Mode::Insert);
                    *skip_events = true;
                    buf.insert_lines(1, true);
                }
            },
            Key::X => {
                buf.delete_char_cursor();
                buf.move_cursor_by(0, 0, true);
            },
            Key::Num0 => {
                buf.move_cursor_char_to(0);
            },
            Key::Num4 => {
                if keymod & (MOD_LSHIFT | MOD_RSHIFT) != 0 {
                    buf.move_cursor_to_last_char();
                }
            },
            _ => {},
        }
    }

    /// Handles one Insert-mode key press.
    fn handle_keypress_insert(&mut self, key: Key, skip_events: &mut bool)
        requires
            old(self).wf(),
            old(self).edit_mode() is Insert,
            old(self).cur().mode is Insert,
            old(self).cur().lines.len() < usize::MAX,
        ensures
            final(self).wf(),
            final(self).buffers.bufs() =~= old(self).buffers.bufs().update(
                old(self).buffers.cur_idx(),
                insert_step_buf(old(self).cur(), key),
            ),
            final(self).buffers.cur_idx() == old(self).buffers.cur_idx(),
            final(self).edit_mode() == insert_step_mode(key),
            *final(skip_events) == *old(skip_events),
    {
        let buf = self.buffers.curr_buffer_mut();
        match key {
            Key::Escape => {
                self.mode = Mode::Normal;
                buf.set_mode(Mode::Normal);
                buf.move_cursor_by(-1, 0, true);
            },
            Key::Backspace => {
                if buf.char_pos() == 0 {
                    if buf.line_pos() >= 2 {
                        buf.move_cursor_by(0, -1, true);
                        buf.move_cursor_to_last_char();
                        buf.move_cursor_by(0, 0, true);
                        buf.join_line_below();
                    }
                } else {
                    buf.move_cursor_by(-1, 0, true);
                    buf.delete_char_cursor();
                }
            },
            Key::Return => {
                buf.split_line_below();
                buf.move_cursor_by(0, 1, true);
                buf.move_cursor_char_to(0);
            },
            Key::Up => {
                buf.move_cursor_by(0, -1, false);
            },
            Key::Down => {
                buf.move_cursor_by(0, 1, false);
            },
            Key::Right => {
                buf.move_cursor_by(1, 0, true);
            },
            Key::Left => {
                buf.move_cursor_by(-1, 0, true);
            },
            Key::Tab => {
                proof {
                    reveal_strlit("    ");
                    assert("    "@ =~= seq![' ', ' ', ' ', ' ']);
                    crate::buffer::lemma_split_text_at("    "@, 4);
                }
                buf.insert_text("    ", true);
            },
            _ => {},
        }
    }

    /// Routes one key press to the current mode's handler; modes
    /// without a handler ignore it.
    pub fn handle_keypress(&mut self, key: Key, keymod: u16, skip_events: &mut bool)
        requires
            old(self).wf(),
            old(self).edit_mode() is Insert ==> old(self).cur().mode is Insert,
            old(self).cur().lines.len() < usize::MAX,
        ensures
            final(self).wf(),
            final(self).buffers.bufs() =~= old(self).buffers.bufs().update(
                old(self).buffers.cur_idx(),
                step_buf(old(self).edit_mode(), old(self).cur(), key, keymod),
            ),
            final(self).buffers.cur_idx() == old(self).buffers.cur_idx(),
            final(self).edit_mode() == step_mode(old(self).edit_mode(), key, keymod),
            *final(skip_events) == (*old(skip_events) || step_skip(
                old(self).edit_mode(),
                key,
                keymod,
            )),
    {
        match self.mode {
            Mode::Normal => self.handle_keypress_normal(key, keymod, skip_events),
            Mode::Insert => self.handle_keypress_insert(key, skip_events),
            _ => {
                proof {
                    assert(final(self).buffers.bufs() =~= old(self).buffers.bufs().update(
                        old(self).buffers.cur_idx(),
                        old(self).cur(),
                    ));
                }
            },
        }
    }

    /// Routes completed text input: in Insert mode it is inserted at
    /// the cursor; every other mode ignores it.
    pub fn handle_text_input(&mut self, text: &str)
        requires
            old(self).wf(),
            old(self).cur().lines.len() + text@.len() <= usize::MAX,
        ensures
            final(self).wf(),
            old(self).edit_mode() is Insert ==> final(self).buffers.bufs() =~= old(
                self,
            ).buffers.bufs().update(
                old(self).buffers.cur_idx(),
                old(self).cur().insert_text_model(text@, true),
            ),
            !(old(self).edit_mode() is Insert) ==> final(self).buffers == old(self).buffers,
            final(self).edit_mode() == old(self).edit_mode(),
    {
        if self.mode == Mode::Insert {
            proof {
                crate::buffer::lemma_split_text_props(text@);
            }
            let buf = self.buffers.curr_buffer_mut();
            buf.insert_text(text, true);
        }
    }

    /// The current buffer's full text: its lines joined by line feeds.
    pub fn get_text(&self) -> (r: String)
        requires
            self.wf(),
        ensures
            r@ == joined_text(self.cur().lines),
    {
        let mut result = String::new();
        let buf = self.buffers.curr_buffer();
        let n = buf.line_count();
        let mut i: usize = 0;
        while i < n
            invariant
                self.wf(),
                buf@ == self.cur(),
                n == buf@.lines.len(),
                i <= n,
                result@ == joined_text(buf@.lines.subrange(0, i as int)),
            decreases n - i,
        {
            let ghost prefix = buf@.lines.subrange(0, i as int);
            if i > 0 {
                result.append("\n");
            }
            let line = buf.get_line(i);
            result.append(line.content.as_str());
            i = i + 1;
            proof {
                reveal_strlit("\n");
                lemma_joined_push(prefix, buf@.lines[i - 1]);
                assert(buf@.lines.subrange(0, i as int) =~= prefix.push(buf@.lines[i - 1]));
                if prefix.len() == 0 {
                    assert(result@ =~= joined_text(buf@.lines.subrange(0, i as int)));
                } else {
                    assert(result@ =~= joined_text(buf@.lines.subrange(0, i as int)));
                }
            }
        }
        proof {
            assert(buf@.lines.subrange(0, n as int) =~= buf@.lines);
        }
        result
    }

    /// The current buffer's cursor as a 1-indexed line and 0-indexed
    /// column pair.
    pub fn get_cursor(&self) -> (r: (u32, u32))
        requires
            self.wf(),
        ensures
            self.cur().line_pos <= u32::MAX ==> r.0 == self.cur().line_pos,
            self.cur().char_pos <= u32::MAX ==> r.1 == self.cur().char_pos,
    {
        let c = self.buffers.curr_buffer().cursor();
        (#[verifier::truncate] (c.line_pos as u32), #[verifier::truncate] (c.char_pos as u32))
    }
}

} // verus!
