use bexa_ui::keys::{Key, KeyEvent, Modifiers, NamedKey};
use bexa_ui::text_input::{EditKeyOutcome, TextInput};

const PLAIN: Modifiers = Modifiers { ctrl: false, shift: false };
const SHIFT: Modifiers = Modifiers { ctrl: false, shift: true };
const CTRL: Modifiers = Modifiers { ctrl: true, shift: false };

fn ch(s: &str) -> KeyEvent {
    KeyEvent { key: Key::Character(s.to_string()), pressed: true }
}

fn named(k: NamedKey) -> KeyEvent {
    KeyEvent { key: Key::Named(k), pressed: true }
}

fn field(text: &str) -> TextInput {
    TextInput::new().with_initial_value(text)
}

#[test]
fn typing_inserts_at_the_caret_and_reports_the_text() {
    let mut t = TextInput::new();
    for (c, after) in [("h", "h"), ("i", "hi"), ("!", "hi!")] {
        let r = t.handle_key_event(&ch(c), PLAIN);
        assert!(matches!(r.outcome, EditKeyOutcome::Handled));
        assert_eq!(r.changed.as_deref(), Some(after));
    }
    assert_eq!(t.text(), "hi!");
    assert_eq!(t.cursor(), 3);
    let r = t.handle_key_event(&named(NamedKey::ArrowLeft), PLAIN);
    assert_eq!(r.changed, None);
    let r = t.handle_key_event(&ch("x"), PLAIN);
    assert_eq!(t.text(), "hix!");
    assert_eq!(r.changed.as_deref(), Some("hix!"));
}

#[test]
fn edits_are_reported_and_other_keys_are_not() {
    let mut t = field("é");
    let r = t.handle_key_event(&named(NamedKey::Backspace), PLAIN);
    assert_eq!((t.text(), t.cursor()), ("", 0));
    assert_eq!(r.changed.as_deref(), Some(""));
    let r = t.handle_key_event(&named(NamedKey::Backspace), PLAIN);
    assert_eq!(r.changed, None);
    let r = t.handle_key_event(&named(NamedKey::Delete), PLAIN);
    assert_eq!(r.changed, None);

    let mut t = field("xy");
    t.handle_key_event(&named(NamedKey::ArrowLeft), PLAIN);
    let r = t.handle_key_event(&ch("a"), PLAIN);
    assert_eq!((t.text(), t.cursor()), ("xay", 2));
    assert_eq!(r.changed.as_deref(), Some("xay"));

    let mut t = field("hello");
    let r = t.handle_key_event(&ch("a"), CTRL);
    assert_eq!(r.changed, None);
    let r = t.handle_key_event(&ch("X"), PLAIN);
    assert_eq!((t.text(), t.cursor()), ("X", 1));
    assert_eq!(r.changed.as_deref(), Some("X"));

    for (e, m) in [(named(NamedKey::Tab), PLAIN), (named(NamedKey::Enter), SHIFT), (ch("q"), CTRL)] {
        let r = t.handle_key_event(&e, m);
        assert!(matches!(r.outcome, EditKeyOutcome::Ignored));
        assert_eq!(r.changed, None);
        assert_eq!((t.text(), t.cursor()), ("X", 1));
    }

    let r = t.handle_key_event(&ch("x"), CTRL);
    assert!(matches!(r.outcome, EditKeyOutcome::Handled));
    assert_eq!(r.changed, None);
    t.handle_key_event(&ch("a"), CTRL);
    let r = t.handle_key_event(&ch("x"), CTRL);
    assert_eq!(r.changed.as_deref(), Some(""));
    assert_eq!(t.paste_text("ok"), "ok");
}

#[test]
fn initial_value_puts_the_caret_at_the_end() {
    let t = field("héllo");
    assert_eq!(t.text(), "héllo");
    assert_eq!(t.cursor(), 5);
    assert_eq!(t.selection(), None);
}

#[test]
fn backspace_and_delete() {
    let mut t = field("abc");
    t.handle_key_event(&named(NamedKey::Backspace), PLAIN);
    assert_eq!(t.text(), "ab");
    assert_eq!(t.cursor(), 2);
    t.handle_key_event(&named(NamedKey::Home), PLAIN);
    t.handle_key_event(&named(NamedKey::Backspace), PLAIN);
    assert_eq!(t.text(), "ab");
    t.handle_key_event(&named(NamedKey::Delete), PLAIN);
    assert_eq!(t.text(), "b");
    assert_eq!(t.cursor(), 0);
    t.handle_key_event(&named(NamedKey::End), PLAIN);
    t.handle_key_event(&named(NamedKey::Delete), PLAIN);
    assert_eq!(t.text(), "b");
}

#[test]
fn type_then_backspace_gives_back_the_text() {
    let mut t = field("abc");
    t.handle_key_event(&named(NamedKey::ArrowLeft), PLAIN);
    t.handle_key_event(&ch("z"), PLAIN);
    assert_eq!(t.text(), "abzc");
    t.handle_key_event(&named(NamedKey::Backspace), PLAIN);
    assert_eq!(t.text(), "abc");
    assert_eq!(t.cursor(), 2);
}

#[test]
fn arrows_stop_at_the_ends() {
    let mut t = field("ab");
    t.handle_key_event(&named(NamedKey::ArrowRight), PLAIN);
    assert_eq!(t.cursor(), 2);
    for _ in 0..3 {
        t.handle_key_event(&named(NamedKey::ArrowLeft), PLAIN);
    }
    assert_eq!(t.cursor(), 0);
}

#[test]
fn shift_arrows_extend_the_selection() {
    let mut t = field("hello");
    t.handle_key_event(&named(NamedKey::ArrowLeft), SHIFT);
    t.handle_key_event(&named(NamedKey::ArrowLeft), SHIFT);
    assert_eq!(t.selection(), Some((5, 3)));
    assert_eq!(t.selected_text(), Some("lo".to_string()));
    t.handle_key_event(&ch("p"), PLAIN);
    assert_eq!(t.text(), "help");
    assert_eq!(t.selection(), None);
    t.handle_key_event(&named(NamedKey::Home), SHIFT);
    assert_eq!(t.selected_text(), Some("help".to_string()));
    t.handle_key_event(&named(NamedKey::ArrowRight), PLAIN);
    assert_eq!(t.selection(), None);
}

#[test]
fn select_all_copy_cut_and_paste() {
    let mut t = field("abc");
    assert!(matches!(t.handle_key_event(&ch("c"), CTRL).outcome, EditKeyOutcome::Handled));
    assert!(matches!(t.handle_key_event(&ch("a"), CTRL).outcome, EditKeyOutcome::Handled));
    assert_eq!(t.selection(), Some((0, 3)));
    match t.handle_key_event(&ch("c"), CTRL).outcome {
        EditKeyOutcome::Copy(s) => assert_eq!(s, "abc"),
        _ => panic!("expected a copy"),
    }
    assert_eq!(t.text(), "abc");
    match t.handle_key_event(&ch("x"), CTRL).outcome {
        EditKeyOutcome::Copy(s) => assert_eq!(s, "abc"),
        _ => panic!("expected a cut"),
    }
    assert_eq!(t.text(), "");
    assert!(matches!(t.handle_key_event(&ch("v"), CTRL).outcome, EditKeyOutcome::Paste));
    assert_eq!(t.paste_text("abc"), "abc");
    assert_eq!(t.text(), "abc");
    assert_eq!(t.cursor(), 3);
    assert!(matches!(t.handle_key_event(&ch("q"), CTRL).outcome, EditKeyOutcome::Ignored));
    assert!(matches!(t.handle_key_event(&named(NamedKey::Tab), PLAIN).outcome, EditKeyOutcome::Ignored));
}

#[test]
fn paste_replaces_the_selection() {
    let mut t = field("hello world");
    for _ in 0..5 {
        t.handle_key_event(&named(NamedKey::ArrowLeft), SHIFT);
    }
    assert_eq!(t.paste_text("there"), "hello there");
    assert_eq!(t.text(), "hello there");
    assert_eq!(t.cursor(), 11);
}

#[test]
fn mouse_press_drag_and_release_select_text() {
    let mut t = field("abcdef");
    t.set_focus(true);
    assert!(!t.press(false, 2));
    assert!(t.press(true, 1));
    assert_eq!(t.cursor(), 1);
    assert!(t.drag_to(4));
    assert_eq!(t.selection(), Some((1, 4)));
    assert_eq!(t.selected_text(), Some("bcd".to_string()));
    assert!(!t.drag_to(4));
    assert!(t.drag_to(1));
    assert_eq!(t.selection(), None);
    t.release();
    assert!(!t.drag_to(3));
    assert_eq!(t.cursor(), 1);
}

#[test]
fn placeholder_and_focus() {
    let mut t = TextInput::new().with_placeholder("Type here");
    assert_eq!(t.placeholder(), "Type here");
    assert!(!t.is_focused());
    t.set_focus(true);
    assert!(t.is_focused());
    assert_eq!(t.text_before_cursor(), "");
}
