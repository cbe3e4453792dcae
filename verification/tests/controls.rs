use bexa_ui::controls::{
    modal_event, modal_key, radio_click, radio_key, selected_text, slider_key, table_click, table_key,
    tabs_click, tabs_key, toggle_click, toggle_key, ButtonLook, ButtonState, SelectState, SliderKey,
};
use bexa_ui::keys::{Key, KeyEvent, NamedKey};

fn press(k: NamedKey) -> KeyEvent {
    KeyEvent { key: Key::Named(k), pressed: true }
}

fn release(k: NamedKey) -> KeyEvent {
    KeyEvent { key: Key::Named(k), pressed: false }
}

#[test]
fn select_opens_moves_and_commits() {
    let mut s = SelectState::new();
    assert!(!s.open);
    let h = s.handle_key_event(&press(NamedKey::Enter), 1, 4);
    assert!(h.consumed && h.write.is_none() && s.open);
    let h = s.handle_key_event(&press(NamedKey::ArrowDown), 1, 4);
    assert!(h.consumed && h.write.is_none());
    assert_eq!(s.hover_index, Some(2));
    s.handle_key_event(&press(NamedKey::ArrowDown), 1, 4);
    s.handle_key_event(&press(NamedKey::ArrowDown), 1, 4);
    assert_eq!(s.hover_index, Some(3));
    let h = s.handle_key_event(&press(NamedKey::Space), 1, 4);
    assert!(h.consumed);
    assert_eq!(h.write, Some(3));
    assert!(!s.open);
}

#[test]
fn select_closed_arrows_change_the_value() {
    let mut s = SelectState::new();
    let h = s.handle_key_event(&press(NamedKey::ArrowUp), 0, 3);
    assert_eq!(h.write, Some(0));
    let h = s.handle_key_event(&press(NamedKey::ArrowDown), 2, 3);
    assert_eq!(h.write, Some(2));
    let h = s.handle_key_event(&press(NamedKey::ArrowDown), 0, 3);
    assert_eq!(h.write, Some(1));
    let h = s.handle_key_event(&release(NamedKey::ArrowDown), 0, 3);
    assert!(!h.consumed && h.write.is_none());
}

#[test]
fn select_escape_closes_without_choosing() {
    let mut s = SelectState::new();
    let h = s.handle_key_event(&press(NamedKey::Escape), 0, 3);
    assert!(!h.consumed);
    s.activate();
    assert!(s.open);
    let h = s.handle_key_event(&press(NamedKey::Escape), 0, 3);
    assert!(h.consumed && h.write.is_none() && !s.open);
}

#[test]
fn select_mouse() {
    let mut s = SelectState::new();
    let h = s.click();
    assert!(!h.consumed && !s.open);
    s.pointer_moved(true, None);
    let h = s.click();
    assert!(h.consumed && s.open);
    s.pointer_moved(false, Some(2));
    assert_eq!(s.hover_index, Some(2));
    let h = s.click();
    assert_eq!(h.write, Some(2));
    assert!(!s.open);
    assert_eq!(s.hover_index, None);
    s.activate();
    s.set_focus(false);
    assert!(!s.open);
}

#[test]
fn selected_option_text() {
    let opts = vec!["Red".to_string(), "Green".to_string()];
    assert_eq!(selected_text(&opts, 1), "Green");
    assert_eq!(selected_text(&opts, 5), "");
}

#[test]
fn tabs_wrap_around() {
    let h = tabs_key(&press(NamedKey::ArrowRight), 2, 3);
    assert_eq!(h.write, Some(0));
    let h = tabs_key(&press(NamedKey::ArrowLeft), 0, 3);
    assert_eq!(h.write, Some(2));
    let h = tabs_key(&press(NamedKey::ArrowRight), 0, 3);
    assert_eq!(h.write, Some(1));
    let back = tabs_key(&press(NamedKey::ArrowLeft), h.write.unwrap(), 3);
    assert_eq!(back.write, Some(0));
    let h = tabs_key(&press(NamedKey::Enter), 0, 3);
    assert!(!h.consumed);
    let h = tabs_key(&press(NamedKey::ArrowRight), 0, 0);
    assert!(!h.consumed);
    assert_eq!(tabs_click(Some(1)).write, Some(1));
    assert!(!tabs_click(None).consumed);
}

#[test]
fn table_keys_and_clicks() {
    assert_eq!(table_key(&press(NamedKey::ArrowDown), None, 5).write, Some(Some(1)));
    assert_eq!(table_key(&press(NamedKey::ArrowDown), Some(4), 5).write, Some(Some(4)));
    assert_eq!(table_key(&press(NamedKey::ArrowUp), Some(0), 5).write, Some(Some(0)));
    assert_eq!(table_key(&press(NamedKey::Home), Some(3), 5).write, Some(Some(0)));
    assert_eq!(table_key(&press(NamedKey::End), None, 5).write, Some(Some(4)));
    assert!(!table_key(&press(NamedKey::End), None, 0).consumed);
    assert!(!table_key(&press(NamedKey::Tab), None, 5).consumed);
    assert_eq!(table_click(Some(2), None).write, Some(Some(2)));
    assert_eq!(table_click(Some(2), Some(2)).write, Some(None));
    assert!(!table_click(None, Some(2)).consumed);
}

#[test]
fn checkbox_toggle_and_radio() {
    assert_eq!(toggle_key(&press(NamedKey::Space), false).write, Some(true));
    assert_eq!(toggle_key(&press(NamedKey::Enter), true).write, Some(false));
    assert!(!toggle_key(&release(NamedKey::Space), true).consumed);
    assert_eq!(toggle_click(true, true).write, Some(false));
    assert!(!toggle_click(false, true).consumed);
    let h = radio_key(&press(NamedKey::Space), 0, 2);
    assert_eq!(h.write, Some(2));
    let h = radio_key(&press(NamedKey::Enter), 2, 2);
    assert!(h.consumed && h.write.is_none());
    assert_eq!(radio_click(true, 0, 1).write, Some(1));
    assert!(!radio_click(true, 1, 1).consumed);
    assert!(!radio_click(false, 0, 1).consumed);
}

#[test]
fn modal_dialog() {
    let h = modal_key(&press(NamedKey::Escape), true);
    assert!(h.consumed);
    assert_eq!(h.write, Some(false));
    let h = modal_key(&press(NamedKey::Enter), true);
    assert!(h.consumed && h.write.is_none());
    assert!(!modal_key(&press(NamedKey::Escape), false).consumed);
    assert_eq!(modal_event(true, true, true).write, Some(false));
    let h = modal_event(true, true, false);
    assert!(h.consumed && h.write.is_none());
    assert!(!modal_event(true, false, true).consumed);
}

#[test]
fn button_states() {
    let mut b = ButtonState::new();
    assert!(!b.press());
    assert!(b.pointer_moved(true));
    assert!(!b.pointer_moved(true));
    assert!(b.press());
    assert!(b.active);
    b.activate();
    assert!(!b.active);
    b.activate();
    b.clear_active();
    assert!(!b.active);
    b.set_focus(true);
    assert!(b.focus);
}

#[test]
fn button_looks() {
    let mut b = ButtonState::new();
    assert_eq!(b.look(), ButtonLook::Normal);
    b.set_focus(true);
    assert_eq!(b.look(), ButtonLook::Focus);
    assert_eq!(b.text_look(), ButtonLook::Normal);
    b.pointer_moved(true);
    assert_eq!(b.look(), ButtonLook::Hover);
    b.activate();
    assert_eq!(b.look(), ButtonLook::Active);
    assert_eq!(b.text_look(), ButtonLook::Active);
}

#[test]
fn slider_keys() {
    assert_eq!(slider_key(&press(NamedKey::ArrowLeft)), Some(SliderKey::Decrease));
    assert_eq!(slider_key(&press(NamedKey::ArrowRight)), Some(SliderKey::Increase));
    assert_eq!(slider_key(&press(NamedKey::Home)), Some(SliderKey::ToMin));
    assert_eq!(slider_key(&press(NamedKey::End)), Some(SliderKey::ToMax));
    assert_eq!(slider_key(&press(NamedKey::ArrowUp)), None);
    assert_eq!(slider_key(&release(NamedKey::Home)), None);
}
