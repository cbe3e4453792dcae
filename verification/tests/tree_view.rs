use bexa_ui::keys::{Key, KeyEvent, NamedKey};
use bexa_ui::tree_view::{TreeNode, TreeView};

fn press(k: NamedKey) -> KeyEvent {
    KeyEvent { key: Key::Named(k), pressed: true }
}

fn sample() -> TreeView {
    TreeView::new(vec![
        TreeNode::branch(
            "src",
            vec![TreeNode::leaf("main.rs").with_icon("R"), TreeNode::branch("util", vec![TreeNode::leaf("a.rs")])],
        ),
        TreeNode::branch("docs", vec![TreeNode::leaf("readme.md")]).with_expanded(false),
        TreeNode::leaf("Cargo.toml"),
    ])
}

fn visible_labels(t: &TreeView) -> Vec<String> {
    t.visible_rows().iter().map(|&i| t.row(i).label.clone()).collect()
}

#[test]
fn rows_are_in_pre_order_with_depths() {
    let t = sample();
    let depths: Vec<usize> = (0..7).map(|i| t.row(i).depth).collect();
    assert_eq!(depths, vec![0, 1, 1, 2, 0, 1, 0]);
    assert_eq!(t.row(1).icon, Some("R"));
    assert!(t.row(0).is_branch && !t.row(1).is_branch);
}

#[test]
fn collapsed_branches_hide_their_children() {
    let t = sample();
    assert_eq!(visible_labels(&t), vec!["src", "main.rs", "util", "a.rs", "docs", "Cargo.toml"]);
    assert_eq!(t.visible_count(), 6);
}

#[test]
fn toggling_expands_and_collapses() {
    let mut t = sample();
    t.toggle(0);
    assert_eq!(visible_labels(&t), vec!["src", "docs", "Cargo.toml"]);
    t.toggle(1);
    assert_eq!(visible_labels(&t), vec!["src", "docs", "readme.md", "Cargo.toml"]);
    t.toggle(3);
    assert_eq!(t.visible_count(), 4);
    t.toggle(0);
    t.toggle(0);
    assert_eq!(visible_labels(&t), vec!["src", "docs", "readme.md", "Cargo.toml"]);
}

#[test]
fn keyboard_moves_and_expands() {
    let mut t = sample();
    assert!(t.handle_key_event(&press(NamedKey::ArrowDown)));
    assert_eq!(t.selected(), Some(1));
    assert!(t.handle_key_event(&press(NamedKey::ArrowUp)));
    assert!(t.handle_key_event(&press(NamedKey::ArrowUp)));
    assert_eq!(t.selected(), Some(0));
    assert!(t.handle_key_event(&press(NamedKey::ArrowLeft)));
    assert_eq!(t.visible_count(), 3);
    assert!(!t.handle_key_event(&press(NamedKey::ArrowLeft)));
    assert!(t.handle_key_event(&press(NamedKey::ArrowRight)));
    assert_eq!(t.visible_count(), 6);
    for _ in 0..10 {
        t.handle_key_event(&press(NamedKey::ArrowDown));
    }
    assert_eq!(t.selected(), Some(5));
    assert!(!t.handle_key_event(&press(NamedKey::ArrowRight)));
    assert!(t.handle_key_event(&press(NamedKey::Enter)));
    assert!(!t.handle_key_event(&press(NamedKey::Tab)));
    assert!(!t.handle_key_event(&KeyEvent { key: Key::Named(NamedKey::ArrowDown), pressed: false }));
}

#[test]
fn space_without_selection_is_not_taken() {
    let mut t = sample();
    assert!(!t.handle_key_event(&press(NamedKey::Space)));
    let mut empty = TreeView::new(vec![]);
    assert!(!empty.handle_key_event(&press(NamedKey::ArrowDown)));
}

#[test]
fn pointer_hover_and_click() {
    let mut t = sample();
    assert!(t.pointer_moved(true, 4));
    assert_eq!(t.hovered(), Some(4));
    assert!(!t.pointer_moved(true, 4));
    assert!(t.click());
    assert_eq!(t.selected(), Some(4));
    assert_eq!(t.visible_count(), 7);
    assert!(t.pointer_moved(true, 9));
    assert_eq!(t.hovered(), None);
    assert!(!t.click());
    assert!(!t.pointer_moved(false, 0));
    t.set_focus(true);
    assert!(t.has_focus());
}
