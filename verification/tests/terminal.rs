use bexa_ui::keys::{Key, KeyEvent, Modifiers, NamedKey};
use bexa_ui::terminal::{ansi_256_to_rgb, color_index_in_range, key_to_bytes, TermGrid};

fn row_text(g: &TermGrid, r: usize) -> String {
    g.cells[r].iter().map(|c| c.ch).collect()
}

fn feed(g: &mut TermGrid, s: &str) {
    for c in s.chars() {
        g.print(c);
    }
}

fn csi(g: &mut TermGrid, params: &[u16], action: char) -> Option<Vec<u8>> {
    let ps: Vec<Vec<u16>> = params.iter().map(|p| vec![*p]).collect();
    g.csi_dispatch(&ps, &[], false, action)
}

fn press(key: Key) -> KeyEvent {
    KeyEvent { key, pressed: true }
}

const NONE: Modifiers = Modifiers { ctrl: false, shift: false };

#[test]
fn new_grid_is_blank_with_cursor_at_origin() {
    let g = TermGrid::new(3, 4);
    assert_eq!(g.cells.len(), 3);
    for r in 0..3 {
        assert_eq!(row_text(&g, r), "    ");
        assert!(g.cells[r].iter().all(|c| c.fg == [204, 204, 204] && c.bg.is_none() && !c.bold));
    }
    assert_eq!((g.cursor_row, g.cursor_col), (0, 0));
    assert_eq!((g.scroll_top, g.scroll_bottom), (0, 2));
}

#[test]
fn printing_advances_and_wraps() {
    let mut g = TermGrid::new(2, 3);
    feed(&mut g, "abcd");
    assert_eq!(row_text(&g, 0), "abc");
    assert_eq!(row_text(&g, 1), "d  ");
    assert_eq!((g.cursor_row, g.cursor_col), (1, 1));
}

#[test]
fn newline_at_bottom_scrolls_the_screen() {
    let mut g = TermGrid::new(2, 3);
    feed(&mut g, "ab");
    g.execute(b'\r');
    g.execute(b'\n');
    feed(&mut g, "cd");
    g.execute(b'\r');
    g.execute(b'\n');
    assert_eq!(row_text(&g, 0), "cd ");
    assert_eq!(row_text(&g, 1), "   ");
    assert_eq!((g.cursor_row, g.cursor_col), (1, 0));
}

#[test]
fn backspace_and_tab_move_the_cursor() {
    let mut g = TermGrid::new(1, 20);
    g.execute(0x08);
    assert_eq!(g.cursor_col, 0);
    feed(&mut g, "ab");
    g.execute(0x08);
    assert_eq!(g.cursor_col, 1);
    g.execute(b'\t');
    assert_eq!(g.cursor_col, 8);
    g.execute(b'\t');
    assert_eq!(g.cursor_col, 16);
    g.execute(b'\t');
    assert_eq!(g.cursor_col, 19);
}

#[test]
fn cursor_movement_sequences_clamp_to_the_screen() {
    let mut g = TermGrid::new(5, 10);
    csi(&mut g, &[3, 4], 'H');
    assert_eq!((g.cursor_row, g.cursor_col), (2, 3));
    csi(&mut g, &[10], 'A');
    assert_eq!(g.cursor_row, 0);
    csi(&mut g, &[2], 'B');
    assert_eq!(g.cursor_row, 2);
    csi(&mut g, &[100], 'C');
    assert_eq!(g.cursor_col, 9);
    csi(&mut g, &[], 'D');
    assert_eq!(g.cursor_col, 8);
    csi(&mut g, &[4], 'G');
    assert_eq!(g.cursor_col, 3);
    csi(&mut g, &[5], 'd');
    assert_eq!(g.cursor_row, 4);
    csi(&mut g, &[0, 0], 'f');
    assert_eq!((g.cursor_row, g.cursor_col), (0, 0));
}

#[test]
fn cursor_position_report_is_one_based() {
    let mut g = TermGrid::new(24, 80);
    csi(&mut g, &[12, 40], 'H');
    let reply = csi(&mut g, &[6], 'n');
    assert_eq!(reply, Some(b"\x1b[12;40R".to_vec()));
    assert_eq!(csi(&mut g, &[5], 'n'), None);
}

#[test]
fn private_mode_sequences_are_ignored() {
    let mut g = TermGrid::new(3, 3);
    let reply = g.csi_dispatch(&vec![vec![2]], b"?", false, 'J');
    assert_eq!(reply, None);
    let ps: Vec<Vec<u16>> = vec![vec![3], vec![3]];
    g.csi_dispatch(&ps, b"?", false, 'H');
    assert_eq!((g.cursor_row, g.cursor_col), (0, 0));
}

#[test]
fn erase_in_display_modes() {
    let mut g = TermGrid::new(3, 3);
    feed(&mut g, "abcdefghi");
    csi(&mut g, &[2, 2], 'H');
    csi(&mut g, &[0], 'J');
    assert_eq!(row_text(&g, 0), "abc");
    assert_eq!(row_text(&g, 1), "d  ");
    assert_eq!(row_text(&g, 2), "   ");

    let mut g = TermGrid::new(3, 3);
    feed(&mut g, "abcdefghi");
    csi(&mut g, &[2, 2], 'H');
    csi(&mut g, &[1], 'J');
    assert_eq!(row_text(&g, 0), "   ");
    assert_eq!(row_text(&g, 1), "  f");
    assert_eq!(row_text(&g, 2), "ghi");

    csi(&mut g, &[2], 'J');
    for r in 0..3 {
        assert_eq!(row_text(&g, r), "   ");
    }
}

#[test]
fn erase_in_line_modes() {
    let mut g = TermGrid::new(1, 5);
    feed(&mut g, "abcde");
    csi(&mut g, &[1, 3], 'H');
    csi(&mut g, &[], 'K');
    assert_eq!(row_text(&g, 0), "ab   ");
    feed(&mut g, "xyz");
    csi(&mut g, &[1, 2], 'H');
    csi(&mut g, &[1], 'K');
    assert_eq!(row_text(&g, 0), "  xyz");
    csi(&mut g, &[2], 'K');
    assert_eq!(row_text(&g, 0), "     ");
}

#[test]
fn insert_and_delete_characters() {
    let mut g = TermGrid::new(1, 5);
    feed(&mut g, "abcde");
    csi(&mut g, &[1, 2], 'H');
    csi(&mut g, &[2], 'P');
    assert_eq!(row_text(&g, 0), "ade  ");
    csi(&mut g, &[1], '@');
    assert_eq!(row_text(&g, 0), "a de ");
}

#[test]
fn insert_and_delete_lines_within_the_scroll_region() {
    let mut g = TermGrid::new(3, 2);
    feed(&mut g, "aabbcc");
    csi(&mut g, &[2, 1], 'H');
    csi(&mut g, &[1], 'L');
    assert_eq!(row_text(&g, 0), "aa");
    assert_eq!(row_text(&g, 1), "  ");
    assert_eq!(row_text(&g, 2), "bb");
    csi(&mut g, &[1], 'M');
    assert_eq!(row_text(&g, 1), "bb");
    assert_eq!(row_text(&g, 2), "  ");
}

#[test]
fn scroll_region_limits_scrolling() {
    let mut g = TermGrid::new(4, 1);
    feed(&mut g, "abcd");
    csi(&mut g, &[2, 3], 'r');
    assert_eq!((g.scroll_top, g.scroll_bottom), (1, 2));
    csi(&mut g, &[3, 1], 'H');
    g.execute(b'\n');
    assert_eq!(row_text(&g, 0), "a");
    assert_eq!(row_text(&g, 1), "c");
    assert_eq!(row_text(&g, 2), " ");
    assert_eq!(row_text(&g, 3), "d");
}

#[test]
fn reverse_index_at_the_top_inserts_a_line() {
    let mut g = TermGrid::new(3, 1);
    feed(&mut g, "abc");
    csi(&mut g, &[1, 1], 'H');
    g.esc_dispatch(&[], false, b'M');
    assert_eq!(row_text(&g, 0), " ");
    assert_eq!(row_text(&g, 1), "a");
    assert_eq!(row_text(&g, 2), "b");
    csi(&mut g, &[3, 1], 'H');
    g.esc_dispatch(&[], false, b'M');
    assert_eq!(g.cursor_row, 1);
}

#[test]
fn sgr_sets_colours_and_weight() {
    let mut g = TermGrid::new(1, 6);
    let ps: Vec<Vec<u16>> = vec![vec![1], vec![31], vec![44]];
    g.csi_dispatch(&ps, &[], false, 'm');
    g.print('a');
    let c = g.cells[0][0];
    assert!(c.bold);
    assert_eq!(c.fg, [205, 49, 49]);
    assert_eq!(c.bg, Some([36, 114, 200]));

    let ps: Vec<Vec<u16>> = vec![vec![38], vec![5], vec![196], vec![48], vec![2], vec![1], vec![2], vec![3]];
    g.csi_dispatch(&ps, &[], false, 'm');
    g.print('b');
    let c = g.cells[0][1];
    assert_eq!(c.fg, [255, 0, 0]);
    // `48;2` is no 256-colour selector: the background stays, the rest are plain codes
    assert_eq!(c.bg, Some([36, 114, 200]));
    assert!(c.bold);

    let ps: Vec<Vec<u16>> = vec![vec![92], vec![22], vec![49]];
    g.csi_dispatch(&ps, &[], false, 'm');
    g.print('c');
    let c = g.cells[0][2];
    assert_eq!(c.fg, [0, 255, 0]);
    assert_eq!(c.bg, None);
    assert!(!c.bold);

    g.csi_dispatch(&vec![], &[], false, 'm');
    g.print('d');
    let c = g.cells[0][3];
    assert_eq!(c.fg, [204, 204, 204]);
    assert_eq!(c.bg, None);
}

#[test]
fn resize_keeps_content_and_clamps_the_cursor() {
    let mut g = TermGrid::new(2, 3);
    feed(&mut g, "abcde");
    g.resize(3, 2);
    assert_eq!(g.cells.len(), 3);
    assert_eq!(row_text(&g, 0), "ab");
    assert_eq!(row_text(&g, 1), "de");
    assert_eq!(row_text(&g, 2), "  ");
    assert_eq!((g.cursor_row, g.cursor_col), (1, 1));
    assert_eq!((g.scroll_top, g.scroll_bottom), (0, 2));
}

#[test]
fn palette_lookup() {
    assert_eq!(ansi_256_to_rgb(0), [0, 0, 0]);
    assert_eq!(ansi_256_to_rgb(9), [255, 0, 0]);
    assert_eq!(ansi_256_to_rgb(16), [0, 0, 0]);
    assert_eq!(ansi_256_to_rgb(21), [0, 0, 255]);
    assert_eq!(ansi_256_to_rgb(231), [255, 255, 255]);
    assert_eq!(ansi_256_to_rgb(232), [8, 8, 8]);
    assert_eq!(ansi_256_to_rgb(255), [238, 238, 238]);
}

#[test]
fn keys_become_terminal_bytes() {
    assert_eq!(key_to_bytes(&press(Key::Named(NamedKey::Enter)), NONE), Some(vec![0x0d]));
    assert_eq!(key_to_bytes(&press(Key::Named(NamedKey::Backspace)), NONE), Some(vec![0x7f]));
    assert_eq!(key_to_bytes(&press(Key::Named(NamedKey::ArrowUp)), NONE), Some(b"\x1b[A".to_vec()));
    assert_eq!(key_to_bytes(&press(Key::Named(NamedKey::Delete)), NONE), Some(b"\x1b[3~".to_vec()));
    assert_eq!(key_to_bytes(&press(Key::Character("x".to_string())), NONE), Some(b"x".to_vec()));
    assert_eq!(key_to_bytes(&press(Key::Character("é".to_string())), NONE), Some("é".as_bytes().to_vec()));
    let ctrl = Modifiers { ctrl: true, shift: false };
    assert_eq!(key_to_bytes(&press(Key::Character("c".to_string())), ctrl), Some(vec![0x03]));
    assert_eq!(key_to_bytes(&press(Key::Named(NamedKey::Other)), NONE), None);
    assert_eq!(key_to_bytes(&KeyEvent { key: Key::Named(NamedKey::Enter), pressed: false }, NONE), None);
}

#[test]
fn sequences_that_cannot_apply_are_recognised() {
    let g = TermGrid::new(2, 2);
    assert!(g.csi_is_defined(&vec![vec![3], vec![4]], &[], 'H'));
    assert!(!g.csi_is_defined(&vec![vec![]], &[], 'A'));
    assert!(!g.csi_is_defined(&vec![vec![1], vec![]], &[], 'H'));
    assert!(g.csi_is_defined(&vec![vec![38], vec![5], vec![255]], &[], 'm'));
    assert!(!g.csi_is_defined(&vec![vec![38], vec![5], vec![300]], &[], 'm'));
    assert!(g.csi_is_defined(&vec![vec![48], vec![2], vec![300]], &[], 'm'));
    assert!(g.csi_is_defined(&vec![vec![]], b"?", 'h'));
    let empty = TermGrid::new(0, 0);
    assert!(!empty.csi_is_defined(&vec![vec![1]], &[], 'J'));
    assert!(empty.csi_is_defined(&vec![vec![2]], &[], 'J'));
    assert!(!empty.csi_is_defined(&vec![], &[], 'P'));
    assert!(color_index_in_range(255));
    assert!(color_index_in_range(256));
    assert!(!color_index_in_range(257));
}

#[test]
fn resize_to_the_same_size_keeps_the_screen() {
    let mut g = TermGrid::new(2, 3);
    feed(&mut g, "abcd");
    csi(&mut g, &[1, 2], 'r');
    g.resize(2, 3);
    assert_eq!(row_text(&g, 0), "abc");
    assert_eq!(row_text(&g, 1), "d  ");
    assert_eq!((g.cursor_row, g.cursor_col), (1, 1));
    assert_eq!((g.scroll_top, g.scroll_bottom), (0, 1));
}
