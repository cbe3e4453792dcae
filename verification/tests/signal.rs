use std::cell::RefCell;
use std::rc::Rc;

use bexa_ui::reactive::{create_effect, record_if_changed, signal_changed};
use bexa_ui::signal::{create_signal, IntoSignal};

#[test]
fn get_returns_what_set_wrote() {
    let (count, set_count) = create_signal(0);
    assert_eq!(count.get(), Some(0));
    assert_eq!(set_count.set(42), Ok(()));
    assert_eq!(count.get(), Some(42));
}

#[test]
fn update_mutates_in_place() {
    let (items, set_items) = create_signal(vec![1, 2, 3]);
    assert!(set_items.update(|v| v.push(4)));
    assert_eq!(items.get(), Some(vec![1, 2, 3, 4]));
    assert_eq!(items.with(|v| v.len()), Some(4));
}

#[test]
fn clones_share_the_value() {
    let (text, set_text) = create_signal("Hello, BexaUI!".to_string());
    let reader = text.clone();
    let writer = set_text.clone();
    writer.set("Button clicked!".to_string()).unwrap();
    assert_eq!(text.get().unwrap(), "Button clicked!");
    assert_eq!(reader.into_signal().get().unwrap(), "Button clicked!");
}

#[test]
fn a_shared_cell_becomes_a_signal() {
    let cell = Rc::new(RefCell::new("Status: idle".to_string()));
    let label_text = cell.clone().into_signal();
    *cell.borrow_mut() = "Status: running".to_string();
    assert_eq!(label_text.get().unwrap(), "Status: running");
}

#[test]
fn access_during_a_change_is_refused_not_a_panic() {
    let (count, set_count) = create_signal(1);
    let reader = count.clone();
    let writer = set_count.clone();
    let mut seen = None;
    let mut refused = None;
    assert!(set_count.update(|v| {
        seen = Some(reader.get());
        refused = Some(writer.set(5));
        *v = 2;
    }));
    assert_eq!(seen, Some(None));
    assert_eq!(refused, Some(Err(5)));
    assert_eq!(count.get(), Some(2));
    let inner = count.with(|_| set_count.set(3));
    assert_eq!(inner, Some(Err(3)));
    let nested = count.with(|_| set_count.update(|v| *v = 9));
    assert_eq!(nested, Some(false));
    assert_eq!(count.with(|_| count.get()), Some(Some(2)));
}

#[test]
fn signal_changed_tracks_the_extracted_value() {
    let (items, set_items) = create_signal(vec![1, 2, 3]);
    let mut last_len = items.get().unwrap().len();
    assert_eq!(signal_changed(&items, &mut last_len, |v: &Vec<i32>| v.len()), Some(false));
    set_items.update(|v| v.push(4));
    assert_eq!(signal_changed(&items, &mut last_len, |v: &Vec<i32>| v.len()), Some(true));
    assert_eq!(last_len, 4);
    assert_eq!(signal_changed(&items, &mut last_len, |v: &Vec<i32>| v.len()), Some(false));
    set_items.set(vec![9, 9, 9, 9]).unwrap();
    assert_eq!(signal_changed(&items, &mut last_len, |v: &Vec<i32>| v.len()), Some(false));
}

#[test]
fn signal_changed_during_a_change_reads_nothing() {
    let (items, set_items) = create_signal(vec![1]);
    let mut last_len = 1;
    let mut result = None;
    set_items.update(|v| {
        result = Some(signal_changed(&items, &mut last_len, |v: &Vec<i32>| v.len()));
        v.push(2);
    });
    assert_eq!(result, Some(None));
    assert_eq!(last_len, 1);
}

#[test]
fn record_if_changed_records_new_values_only() {
    let mut last = 3;
    assert!(!record_if_changed(3, &mut last));
    assert!(record_if_changed(5, &mut last));
    assert_eq!(last, 5);
    assert!(!record_if_changed(5, &mut last));
}

#[test]
fn create_effect_runs_once_with_the_current_value() {
    let (count, set_count) = create_signal(7);
    let (seen, set_seen) = create_signal(Vec::<i32>::new());
    assert!(create_effect(count.clone(), move |v| {
        set_seen.update(|s| s.push(v));
    }));
    assert_eq!(seen.get(), Some(vec![7]));
    set_count.set(8).unwrap();
    assert_eq!(seen.get(), Some(vec![7]));
}

#[test]
fn a_signal_converts_into_itself() {
    let (count, set_count) = create_signal(1);
    let same = count.clone().into_signal();
    set_count.set(2).unwrap();
    assert_eq!(same.get(), Some(2));
}
