use fim::buffer::{Buffer, Buffers, CharRange, Cursor, Line};
use fim::editor::Mode;

fn buffer_of(lines: &[&str]) -> Buffer {
    let mut v: Vec<Line> = Vec::new();
    for s in lines {
        v.push(Line::from_string(String::from(*s)));
    }
    Buffer::from_lines(v)
}

#[test]
fn line_new_is_empty() {
    let l = Line::new();
    assert_eq!(l.content, "");
    assert_eq!(l.len(), 0);
}

#[test]
fn line_len_counts_codepoints_not_bytes() {
    let l = Line::from_string(String::from("héllo"));
    assert_eq!(l.len(), 5);
    assert!(l.content.len() > 5);
}

#[test]
fn line_insert_at_codepoint_position() {
    let mut l = Line::from_string(String::from("héllo"));
    l.insert(2, "xy");
    assert_eq!(l.content, "héxyllo");
}

#[test]
fn line_insert_past_end_appends() {
    let mut l = Line::from_string(String::from("ab"));
    l.insert(99, "c");
    assert_eq!(l.content, "abc");
}

#[test]
fn line_delete_char_removes_codepoint() {
    let mut l = Line::from_string(String::from("héllo"));
    l.delete_char(1);
    assert_eq!(l.content, "hllo");
}

#[test]
fn line_delete_char_past_end_does_nothing() {
    let mut l = Line::from_string(String::from("ab"));
    l.delete_char(5);
    assert_eq!(l.content, "ab");
    let mut e = Line::new();
    e.delete_char(0);
    assert_eq!(e.content, "");
}

#[test]
fn line_delete_range_half_open() {
    let mut l = Line::from_string(String::from("abcdef"));
    l.delete_range(CharRange::HalfOpen(1, 3));
    assert_eq!(l.content, "adef");
}

#[test]
fn line_delete_range_inclusive() {
    let mut l = Line::from_string(String::from("abcdef"));
    l.delete_range(CharRange::Inclusive(1, 3));
    assert_eq!(l.content, "aef");
}

#[test]
fn line_delete_range_to_end() {
    let mut l = Line::from_string(String::from("abcdef"));
    l.delete_range(CharRange::ToEnd(2));
    assert_eq!(l.content, "ab");
}

#[test]
fn line_delete_range_end_clamped() {
    let mut l = Line::from_string(String::from("abc"));
    l.delete_range(CharRange::HalfOpen(1, 99));
    assert_eq!(l.content, "a");
}

// Inserting at a position and deleting the same codepoint range again
// restores the original content.
#[test]
fn line_insert_then_delete_range_restores() {
    let mut l = Line::from_string(String::from("héllo"));
    l.insert(2, "äb");
    assert_eq!(l.content, "héäbllo");
    l.delete_range(CharRange::HalfOpen(2, 4));
    assert_eq!(l.content, "héllo");
}

#[test]
fn cursor_new_starts_at_origin() {
    let c = Cursor::new();
    assert_eq!(c.line_pos, 1);
    assert_eq!(c.char_pos, 0);
}

#[test]
fn buffer_new_has_one_empty_line() {
    let b = Buffer::new();
    assert_eq!(b.line_count(), 1);
    assert_eq!(b.curr_line().content, "");
    assert_eq!(b.line_pos(), 1);
    assert_eq!(b.char_pos(), 0);
    assert!(!b.is_modified());
}

#[test]
fn buffer_from_empty_lines_gets_one_line() {
    let b = Buffer::from_lines(Vec::new());
    assert_eq!(b.line_count(), 1);
    assert_eq!(b.curr_line().content, "");
}

#[test]
fn buffer_accessors() {
    let b = buffer_of(&["one", "two"]);
    assert_eq!(b.line_count(), 2);
    assert_eq!(b.get_line(1).content, "two");
    assert_eq!(b.curr_line_offset(1).unwrap().content, "two");
    assert!(b.curr_line_offset(-1).is_none());
}

#[test]
fn buffer_mutable_line_access() {
    let mut b = buffer_of(&["one", "two"]);
    b.get_line_mut(0).insert(3, "!");
    assert_eq!(b.get_line(0).content, "one!");
    b.curr_line_mut().delete_char(3);
    assert_eq!(b.get_line(0).content, "one");
}

// After arbitrary move_cursor_by calls the cursor stays on a valid
// line and within the mode-dependent column clamp.
#[test]
fn cursor_moves_stay_in_bounds() {
    let mut b = buffer_of(&["abcdef", "ab", "", "abcdefgh"]);
    let moves: [(isize, isize, bool); 8] = [
        (100, 0, true),
        (0, 100, false),
        (-100, -100, true),
        (3, 2, false),
        (0, -1, false),
        (5, 3, true),
        (-2, 0, true),
        (0, 0, true),
    ];
    for mode in [Mode::Insert, Mode::Normal] {
        b.set_mode(mode);
        b.move_cursor_by(0, 0, true);
        for (dc, dl, sync) in moves {
            b.move_cursor_by(dc, dl, sync);
            let lp = b.line_pos();
            let cp = b.char_pos();
            assert!(1 <= lp && lp <= b.line_count());
            let len = b.curr_line().len();
            if mode == Mode::Insert {
                assert!(cp <= len);
            } else {
                assert!(cp <= len.max(1) - 1);
            }
        }
    }
}

// The sticky column: a column set on a long line survives vertical
// movement through shorter lines and is restored on the way back.
#[test]
fn sticky_column_restored() {
    let mut b = buffer_of(&["abcdef", "ab", "", "abcdefgh"]);
    b.move_cursor_by(4, 0, true);
    assert_eq!(b.char_pos(), 4);
    b.move_cursor_by(0, 1, false);
    assert_eq!(b.line_pos(), 2);
    assert_eq!(b.char_pos(), 2);
    b.move_cursor_by(0, 1, false);
    assert_eq!(b.char_pos(), 0);
    b.move_cursor_by(0, -2, false);
    assert_eq!(b.line_pos(), 1);
    assert_eq!(b.char_pos(), 4);
    b.move_cursor_by(0, 3, false);
    assert_eq!(b.line_pos(), 4);
    assert_eq!(b.char_pos(), 4);
}

// Absolute moves use the same clamp-and-reapply logic as relative
// ones: the line target is clamped and the column is re-derived from
// the remembered column against the new line's mode bound.
#[test]
fn move_cursor_line_and_char_to() {
    let mut b = buffer_of(&["abc", "defgh"]);
    b.move_cursor_line_to(99);
    assert_eq!(b.line_pos(), 2);
    assert_eq!(b.char_pos(), 0);
    b.move_cursor_char_to(4);
    assert_eq!(b.char_pos(), 4);
    b.move_cursor_line_to(0);
    assert_eq!(b.line_pos(), 1);
    // "abc" admits at most the insertion point, column 3: re-clamped.
    assert_eq!(b.char_pos(), 3);
    // The remembered column survives the absolute move, so a longer
    // line restores it.
    b.move_cursor_line_to(2);
    assert_eq!(b.char_pos(), 4);
    // The block-cursor bound is one tighter.
    b.set_mode(Mode::Normal);
    b.move_cursor_line_to(1);
    assert_eq!(b.char_pos(), 2);
}

#[test]
fn move_cursor_to_extremes() {
    let mut b = buffer_of(&["abc", "defgh"]);
    b.move_cursor_to_last_line();
    assert_eq!(b.line_pos(), 2);
    b.move_cursor_to_last_char();
    assert_eq!(b.char_pos(), 5);
    b.set_mode(Mode::Normal);
    b.move_cursor_to_last_char();
    assert_eq!(b.char_pos(), 4);
}

#[test]
fn insert_text_single_segment_at_cursor() {
    let mut b = buffer_of(&["helloworld"]);
    b.move_cursor_by(5, 0, true);
    b.insert_text(", ", true);
    assert_eq!(b.curr_line().content, "hello, world");
    assert_eq!(b.char_pos(), 7);
    assert!(b.is_modified());
}

#[test]
fn insert_text_splits_on_newlines() {
    let mut b = Buffer::new();
    b.insert_text("ab\ncd", true);
    assert_eq!(b.line_count(), 2);
    assert_eq!(b.get_line(0).content, "ab");
    assert_eq!(b.get_line(1).content, "cd");
    assert_eq!(b.line_pos(), 2);
    assert_eq!(b.char_pos(), 2);
}

#[test]
fn insert_text_keeps_tail_on_first_line() {
    let mut b = buffer_of(&["xyz"]);
    b.move_cursor_by(1, 0, true);
    b.insert_text("a\nb", true);
    assert_eq!(b.get_line(0).content, "xayz");
    assert_eq!(b.get_line(1).content, "b");
}

#[test]
fn insert_text_without_moving_cursor() {
    let mut b = buffer_of(&["abc"]);
    b.move_cursor_by(1, 0, true);
    b.insert_text("ZZ", false);
    assert_eq!(b.curr_line().content, "aZZbc");
    assert_eq!(b.char_pos(), 1);
    assert_eq!(b.want_cursor, 1);
}

#[test]
fn delete_char_cursor_under_cursor() {
    let mut b = buffer_of(&["abc"]);
    b.move_cursor_by(1, 0, true);
    b.delete_char_cursor();
    assert_eq!(b.curr_line().content, "ac");
    assert!(b.is_modified());
}

#[test]
fn delete_text_range_on_current_line() {
    let mut b = buffer_of(&["abcdef"]);
    b.delete_text(CharRange::HalfOpen(1, 4));
    assert_eq!(b.curr_line().content, "aef");
}

#[test]
fn insert_lines_below_and_cursor() {
    let mut b = buffer_of(&["a", "b"]);
    b.insert_lines(2, true);
    assert_eq!(b.line_count(), 4);
    assert_eq!(b.get_line(0).content, "a");
    assert_eq!(b.get_line(1).content, "");
    assert_eq!(b.get_line(2).content, "");
    assert_eq!(b.get_line(3).content, "b");
    assert_eq!(b.line_pos(), 3);
}

#[test]
fn insert_lines_above_follows_content_without_move() {
    let mut b = buffer_of(&["a", "b"]);
    b.move_cursor_by(0, 1, false);
    b.insert_lines_above(1, false);
    assert_eq!(b.line_count(), 3);
    assert_eq!(b.get_line(1).content, "");
    // The cursor followed its original line down.
    assert_eq!(b.line_pos(), 3);
    assert_eq!(b.curr_line().content, "b");
}

#[test]
fn insert_lines_above_lands_on_new_line_with_move() {
    let mut b = buffer_of(&["a", "b"]);
    b.move_cursor_by(0, 1, false);
    b.insert_lines_above(1, true);
    assert_eq!(b.line_pos(), 2);
    assert_eq!(b.curr_line().content, "");
}

#[test]
fn delete_line_curr_removes_line() {
    let mut b = buffer_of(&["a", "b", "c"]);
    b.move_cursor_by(0, 1, false);
    b.delete_line_curr();
    assert_eq!(b.line_count(), 2);
    assert_eq!(b.get_line(0).content, "a");
    assert_eq!(b.get_line(1).content, "c");
}

#[test]
fn delete_line_curr_clears_last_line() {
    let mut b = buffer_of(&["only"]);
    b.delete_line_curr();
    assert_eq!(b.line_count(), 1);
    assert_eq!(b.curr_line().content, "");
}

#[test]
fn delete_lines_range_is_one_indexed_end_exclusive() {
    let mut b = buffer_of(&["a", "b", "c", "d"]);
    b.delete_lines(2..4);
    assert_eq!(b.line_count(), 2);
    assert_eq!(b.get_line(0).content, "a");
    assert_eq!(b.get_line(1).content, "d");
}

#[test]
fn split_line_below_moves_tail() {
    let mut b = buffer_of(&["hello world"]);
    b.move_cursor_by(5, 0, true);
    b.split_line_below();
    assert_eq!(b.line_count(), 2);
    assert_eq!(b.get_line(0).content, "hello");
    assert_eq!(b.get_line(1).content, " world");
    assert_eq!(b.line_pos(), 1);
    assert_eq!(b.char_pos(), 5);
}

// In a block-cursor mode a mid-line split tightens the column bound
// below the cursor, and the split's final re-clamp respects it.  The
// split/join round trip therefore holds in Insert mode (and at column
// 0), but not here: the join re-inserts the tail at the re-clamped
// column.
#[test]
fn split_line_below_reclamps_in_normal_mode() {
    let mut b = buffer_of(&["hello"]);
    b.set_mode(Mode::Normal);
    b.move_cursor_by(3, 0, true);
    b.split_line_below();
    assert_eq!(b.get_line(0).content, "hel");
    assert_eq!(b.get_line(1).content, "lo");
    assert_eq!(b.char_pos(), 2);
    b.join_line_below();
    assert_eq!(b.line_count(), 1);
    assert_eq!(b.curr_line().content, "helol");
}

#[test]
fn split_line_below_at_end_opens_empty_line() {
    let mut b = buffer_of(&["abc"]);
    b.move_cursor_by(3, 0, true);
    b.split_line_below();
    assert_eq!(b.get_line(0).content, "abc");
    assert_eq!(b.get_line(1).content, "");
}

#[test]
fn join_line_below_merges() {
    let mut b = buffer_of(&["hello", " world"]);
    b.move_cursor_by(5, 0, true);
    b.join_line_below();
    assert_eq!(b.line_count(), 1);
    assert_eq!(b.curr_line().content, "hello world");
    assert_eq!(b.char_pos(), 5);
}

// Splitting at the cursor and joining right back reconstructs the
// original line, cursor included.
#[test]
fn split_then_join_roundtrip() {
    let mut b = buffer_of(&["hello world"]);
    b.move_cursor_by(5, 0, true);
    b.split_line_below();
    b.join_line_below();
    assert_eq!(b.line_count(), 1);
    assert_eq!(b.curr_line().content, "hello world");
    assert_eq!(b.line_pos(), 1);
    assert_eq!(b.char_pos(), 5);
}

#[test]
fn word_moves_are_stubs() {
    let mut b = buffer_of(&["some words here"]);
    b.move_cursor_by(3, 0, true);
    b.move_cursor_char_w();
    b.move_cursor_char_b();
    b.move_cursor_char_bigw();
    b.move_cursor_char_bigb();
    assert_eq!(b.char_pos(), 3);
}

#[test]
fn buffers_track_current_buffer() {
    let mut bs = Buffers::new();
    assert_eq!(bs.curr_buffer().line_count(), 1);
    bs.curr_buffer_mut().insert_text("hi", true);
    assert_eq!(bs.curr_buffer().curr_line().content, "hi");
    let b2 = Buffers::from_buffer(buffer_of(&["x"]));
    assert_eq!(b2.curr_buffer().curr_line().content, "x");
}
