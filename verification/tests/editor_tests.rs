use fim::buffer::{Buffer, Buffers, Line};
use fim::editor::{
    is_lower, is_shift, is_upper, Editor, Key, Mode, MOD_CAPS, MOD_LCTRL, MOD_LSHIFT, MOD_NONE,
    MOD_RSHIFT,
};

fn editor_of(lines: &[&str], mode: Mode) -> Editor {
    let mut v: Vec<Line> = Vec::new();
    for s in lines {
        v.push(Line::from_string(String::from(*s)));
    }
    let mut b = Buffer::from_lines(v);
    b.set_mode(mode);
    b.move_cursor_by(0, 0, true);
    let mut e = Editor::with_buffers(Buffers::from_buffer(b));
    if mode == Mode::Insert {
        let mut skip = false;
        e.handle_keypress(Key::I, MOD_NONE, &mut skip);
    }
    e
}

fn press(e: &mut Editor, key: Key) {
    let mut skip = false;
    e.handle_keypress(key, MOD_NONE, &mut skip);
}

#[test]
fn modifier_predicates() {
    assert!(is_shift(MOD_LSHIFT));
    assert!(is_shift(MOD_RSHIFT));
    assert!(is_shift(MOD_LSHIFT | MOD_RSHIFT));
    assert!(!is_shift(MOD_NONE));
    assert!(!is_shift(MOD_LSHIFT | MOD_LCTRL));
    assert!(is_upper(MOD_LSHIFT));
    assert!(is_upper(MOD_CAPS));
    assert!(!is_upper(MOD_NONE));
    assert!(is_lower(MOD_NONE));
    assert!(is_lower(MOD_CAPS | MOD_LSHIFT));
    assert!(!is_lower(MOD_CAPS));
    assert!(!is_lower(MOD_LSHIFT));
}

#[test]
fn new_editor_is_empty_normal() {
    let e = Editor::new();
    assert_eq!(e.get_text(), "");
    assert_eq!(e.get_cursor(), (1, 0));
}

#[test]
fn get_text_joins_lines_with_newlines() {
    let e = editor_of(&["ab", "", "cd"], Mode::Normal);
    assert_eq!(e.get_text(), "ab\n\ncd");
}

// Normal mode: five presses of `x` on "hello" empty the line and the
// cursor clamps to column 0.
#[test]
fn normal_x_five_times_empties_line() {
    let mut e = editor_of(&["hello"], Mode::Normal);
    for _ in 0..5 {
        press(&mut e, Key::X);
    }
    assert_eq!(e.buffers.curr_buffer().line_count(), 1);
    assert_eq!(e.get_text(), "");
    assert_eq!(e.get_cursor(), (1, 0));
}

// Insert mode: typing "foo", Enter, "bar", Escape leaves two lines and
// the cursor at (2, 2) under the Normal-mode clamp.
#[test]
fn insert_typing_scenario() {
    let mut e = Editor::new();
    let mut skip = false;
    e.handle_keypress(Key::I, MOD_NONE, &mut skip);
    e.handle_text_input("foo");
    press(&mut e, Key::Return);
    e.handle_text_input("bar");
    press(&mut e, Key::Escape);
    assert_eq!(e.get_text(), "foo\nbar");
    assert_eq!(e.get_cursor(), (2, 2));
}

#[test]
fn text_input_ignored_outside_insert_mode() {
    let mut e = editor_of(&["abc"], Mode::Normal);
    e.handle_text_input("zzz");
    assert_eq!(e.get_text(), "abc");
}

#[test]
fn normal_navigation_keys() {
    let mut e = editor_of(&["abcdef", "ab"], Mode::Normal);
    press(&mut e, Key::L);
    press(&mut e, Key::L);
    assert_eq!(e.get_cursor(), (1, 2));
    press(&mut e, Key::J);
    assert_eq!(e.get_cursor(), (2, 1));
    press(&mut e, Key::K);
    assert_eq!(e.get_cursor(), (1, 2));
    press(&mut e, Key::H);
    assert_eq!(e.get_cursor(), (1, 1));
    press(&mut e, Key::Right);
    assert_eq!(e.get_cursor(), (1, 2));
    press(&mut e, Key::Left);
    press(&mut e, Key::Up);
    press(&mut e, Key::Down);
    assert_eq!(e.get_cursor(), (2, 1));
}

#[test]
fn normal_arrows_keep_sticky_column() {
    let mut e = editor_of(&["abcdef", "ab", "abcdef"], Mode::Normal);
    for _ in 0..4 {
        press(&mut e, Key::Right);
    }
    assert_eq!(e.get_cursor(), (1, 4));
    press(&mut e, Key::Down);
    assert_eq!(e.get_cursor(), (2, 1));
    press(&mut e, Key::Down);
    assert_eq!(e.get_cursor(), (3, 4));
}

#[test]
fn normal_line_jumps() {
    let mut e = editor_of(&["abcdef"], Mode::Normal);
    let mut skip = false;
    e.handle_keypress(Key::Num4, MOD_LSHIFT, &mut skip);
    assert_eq!(e.get_cursor(), (1, 5));
    press(&mut e, Key::Num0);
    assert_eq!(e.get_cursor(), (1, 0));
    // An uncased `4` does nothing.
    e.handle_keypress(Key::Num4, MOD_NONE, &mut skip);
    assert_eq!(e.get_cursor(), (1, 0));
}

#[test]
fn normal_i_enters_insert_and_skips_events() {
    let mut e = editor_of(&["abc"], Mode::Normal);
    let mut skip = false;
    e.handle_keypress(Key::I, MOD_NONE, &mut skip);
    assert!(skip);
    e.handle_text_input("x");
    assert_eq!(e.get_text(), "xabc");
}

#[test]
fn normal_a_enters_insert_one_right() {
    let mut e = editor_of(&["abc"], Mode::Normal);
    let mut skip = false;
    e.handle_keypress(Key::A, MOD_NONE, &mut skip);
    assert!(skip);
    assert_eq!(e.get_cursor(), (1, 1));
    e.handle_text_input("x");
    assert_eq!(e.get_text(), "axbc");
}

#[test]
fn normal_o_opens_line_below() {
    let mut e = editor_of(&["abc", "def"], Mode::Normal);
    let mut skip = false;
    e.handle_keypress(Key::O, MOD_NONE, &mut skip);
    assert!(skip);
    assert_eq!(e.get_text(), "abc\n\ndef");
    assert_eq!(e.get_cursor(), (2, 0));
    e.handle_text_input("new");
    assert_eq!(e.get_text(), "abc\nnew\ndef");
}

#[test]
fn normal_shift_o_opens_line_above() {
    let mut e = editor_of(&["abc", "def"], Mode::Normal);
    let mut skip = false;
    e.handle_keypress(Key::O, MOD_LSHIFT, &mut skip);
    assert!(skip);
    assert_eq!(e.get_text(), "\nabc\ndef");
    assert_eq!(e.get_cursor(), (1, 0));
}

#[test]
fn normal_o_with_ctrl_does_nothing() {
    let mut e = editor_of(&["abc"], Mode::Normal);
    let mut skip = false;
    e.handle_keypress(Key::O, MOD_LCTRL, &mut skip);
    assert!(!skip);
    assert_eq!(e.get_text(), "abc");
}

#[test]
fn normal_d_deletes_line_or_clears_last() {
    let mut e = editor_of(&["abc", "def"], Mode::Normal);
    press(&mut e, Key::D);
    assert_eq!(e.get_text(), "def");
    press(&mut e, Key::D);
    assert_eq!(e.get_text(), "");
    assert_eq!(e.buffers.curr_buffer().line_count(), 1);
}

#[test]
fn normal_return_opens_line_below() {
    let mut e = editor_of(&["abc"], Mode::Normal);
    press(&mut e, Key::Return);
    assert_eq!(e.get_text(), "abc\n");
    assert_eq!(e.get_cursor(), (2, 0));
}

#[test]
fn normal_unknown_key_is_noop() {
    let mut e = editor_of(&["abc"], Mode::Normal);
    press(&mut e, Key::Other);
    assert_eq!(e.get_text(), "abc");
    assert_eq!(e.get_cursor(), (1, 0));
}

#[test]
fn insert_escape_steps_left() {
    let mut e = editor_of(&["abc"], Mode::Insert);
    let mut skip = false;
    e.handle_keypress(Key::Right, MOD_NONE, &mut skip);
    e.handle_keypress(Key::Right, MOD_NONE, &mut skip);
    assert_eq!(e.get_cursor(), (1, 2));
    e.handle_keypress(Key::Escape, MOD_NONE, &mut skip);
    assert_eq!(e.get_cursor(), (1, 1));
    // Back in Normal mode, text input is ignored.
    e.handle_text_input("x");
    assert_eq!(e.get_text(), "abc");
}

#[test]
fn insert_backspace_deletes_left() {
    let mut e = editor_of(&["abc"], Mode::Insert);
    let mut skip = false;
    e.handle_keypress(Key::Right, MOD_NONE, &mut skip);
    e.handle_keypress(Key::Right, MOD_NONE, &mut skip);
    e.handle_keypress(Key::Backspace, MOD_NONE, &mut skip);
    assert_eq!(e.get_text(), "ac");
    assert_eq!(e.get_cursor(), (1, 1));
}

#[test]
fn insert_backspace_at_column_zero_joins_lines() {
    let mut e = editor_of(&["ab", "cd"], Mode::Insert);
    let mut skip = false;
    e.handle_keypress(Key::Down, MOD_NONE, &mut skip);
    assert_eq!(e.get_cursor(), (2, 0));
    e.handle_keypress(Key::Backspace, MOD_NONE, &mut skip);
    assert_eq!(e.get_text(), "abcd");
    assert_eq!(e.get_cursor(), (1, 2));
}

#[test]
fn insert_backspace_on_first_line_column_zero_is_noop() {
    let mut e = editor_of(&["ab"], Mode::Insert);
    let mut skip = false;
    e.handle_keypress(Key::Backspace, MOD_NONE, &mut skip);
    assert_eq!(e.get_text(), "ab");
    assert_eq!(e.get_cursor(), (1, 0));
}

#[test]
fn insert_return_splits_at_cursor() {
    let mut e = editor_of(&["hello world"], Mode::Insert);
    let mut skip = false;
    for _ in 0..5 {
        e.handle_keypress(Key::Right, MOD_NONE, &mut skip);
    }
    e.handle_keypress(Key::Return, MOD_NONE, &mut skip);
    assert_eq!(e.get_text(), "hello\n world");
    assert_eq!(e.get_cursor(), (2, 0));
}

#[test]
fn insert_tab_inserts_four_spaces() {
    let mut e = editor_of(&["ab"], Mode::Insert);
    let mut skip = false;
    e.handle_keypress(Key::Tab, MOD_NONE, &mut skip);
    assert_eq!(e.get_text(), "    ab");
    assert_eq!(e.get_cursor(), (1, 4));
}

#[test]
fn multiline_text_input() {
    let mut e = Editor::new();
    let mut skip = false;
    e.handle_keypress(Key::I, MOD_NONE, &mut skip);
    e.handle_text_input("ab\ncd");
    assert_eq!(e.get_text(), "ab\ncd");
    assert_eq!(e.get_cursor(), (2, 2));
}
