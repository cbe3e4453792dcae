use bexa_ui::focus::{slices_equal, FocusRing, WindowKeyAction};
use bexa_ui::keys::{Key, Modifiers, NamedKey};
use bexa_ui::tree::{collect_focus_paths, widget_mut_at_path, WidgetNode};

const PLAIN: Modifiers = Modifiers { ctrl: false, shift: false };
const SHIFT: Modifiers = Modifiers { ctrl: false, shift: true };

fn leaf(name: &'static str, focusable: bool) -> WidgetNode<&'static str> {
    WidgetNode::new(name, focusable, vec![])
}

fn sample() -> WidgetNode<&'static str> {
    WidgetNode::new(
        "root",
        false,
        vec![
            WidgetNode::new("row", false, vec![leaf("ok", true), leaf("label", false), leaf("cancel", true)]),
            leaf("input", true),
            WidgetNode::new("panel", true, vec![leaf("check", true)]),
        ],
    )
}

#[test]
fn focus_paths_are_in_tab_order() {
    let root = sample();
    let mut path = vec![];
    let mut out = vec![];
    collect_focus_paths(&root, &mut path, &mut out);
    assert!(path.is_empty());
    assert_eq!(out, vec![vec![0, 0], vec![0, 2], vec![1], vec![2], vec![2, 0]]);
}

#[test]
fn widgets_are_found_by_path() {
    let mut root = sample();
    assert_eq!(widget_mut_at_path(&mut root, &[0, 2]).map(|w| *w), Some("cancel"));
    assert_eq!(widget_mut_at_path(&mut root, &[]).map(|w| *w), Some("root"));
    assert!(widget_mut_at_path(&mut root, &[3]).is_none());
    assert!(widget_mut_at_path(&mut root, &[0, 0, 0]).is_none());
    if let Some(w) = widget_mut_at_path(&mut root, &[2, 0]) {
        *w = "checked";
    }
    assert_eq!(root.children[2].children[0].widget, "checked");
}

#[test]
fn ring_starts_on_the_first_focusable_widget() {
    let ring = FocusRing::new(&sample());
    assert_eq!(ring.len(), 5);
    assert_eq!(ring.focused_index(), Some(0));
    assert_eq!(ring.focused_path(), Some(&vec![0, 0]));
    assert!(ring.is_focused(0) && !ring.is_focused(1));
    let none = FocusRing::new(&leaf("label", false));
    assert_eq!(none.focused_index(), None);
    assert_eq!(none.focused_path(), None);
}

#[test]
fn tab_and_shift_tab_cycle() {
    let mut ring = FocusRing::new(&sample());
    ring.focus_next(true);
    assert_eq!(ring.focused_index(), Some(4));
    ring.focus_next(false);
    assert_eq!(ring.focused_index(), Some(0));
    for _ in 0..5 {
        ring.focus_next(false);
    }
    assert_eq!(ring.focused_index(), Some(0));
    ring.focus_next(false);
    ring.focus_next(true);
    assert_eq!(ring.focused_index(), Some(0));
}

#[test]
fn click_focuses_a_focusable_widget() {
    let mut ring = FocusRing::new(&sample());
    ring.set_focus_by_path(&[1]);
    assert_eq!(ring.focused_index(), Some(2));
    ring.set_focus_by_path(&[0, 1]);
    assert_eq!(ring.focused_index(), Some(2));
    assert_eq!(ring.position(&[2, 0]), Some(4));
    assert_eq!(ring.position(&[9]), None);
    assert_eq!(ring.path(3), &vec![2]);
}

#[test]
fn unconsumed_keys() {
    let mut ring = FocusRing::new(&sample());
    assert_eq!(ring.handle_unconsumed_key(&Key::Named(NamedKey::Tab), PLAIN), WindowKeyAction::FocusMoved);
    assert_eq!(ring.focused_index(), Some(1));
    assert_eq!(ring.handle_unconsumed_key(&Key::Named(NamedKey::Tab), SHIFT), WindowKeyAction::FocusMoved);
    assert_eq!(ring.focused_index(), Some(0));
    assert_eq!(ring.handle_unconsumed_key(&Key::Named(NamedKey::Enter), PLAIN), WindowKeyAction::Activate);
    assert_eq!(ring.handle_unconsumed_key(&Key::Named(NamedKey::Space), PLAIN), WindowKeyAction::Activate);
    assert_eq!(ring.handle_unconsumed_key(&Key::Named(NamedKey::Escape), PLAIN), WindowKeyAction::ClearActive);
    assert_eq!(ring.handle_unconsumed_key(&Key::Character("a".to_string()), PLAIN), WindowKeyAction::Ignore);
    assert_eq!(ring.focused_index(), Some(0));
}

#[test]
fn path_equality() {
    assert!(slices_equal(&[1, 2], &[1, 2]));
    assert!(!slices_equal(&[1, 2], &[1]));
    assert!(!slices_equal(&[1, 3], &[1, 2]));
}
