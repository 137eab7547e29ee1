use std::collections::BTreeSet;
use partydeck::keys::{
    egui_key_to_xkb, keys_for_step, pointer_button_code, pointer_step, update_keys_down, Key, PointerButton,
    PointerStep,
};

#[test]
fn letters_and_digits_have_codes() {
    assert_eq!(egui_key_to_xkb(Key::A), Some(30));
    assert_eq!(egui_key_to_xkb(Key::Escape), Some(1));
    assert_eq!(egui_key_to_xkb(Key::Num1), Some(2));
    assert_eq!(egui_key_to_xkb(Key::Space), Some(57));
    assert_eq!(egui_key_to_xkb(Key::F24), Some(194));
}

#[test]
fn shifted_keys_use_their_base_key() {
    assert_eq!(egui_key_to_xkb(Key::Plus), egui_key_to_xkb(Key::Equals));
    assert_eq!(egui_key_to_xkb(Key::Plus), Some(13));
    assert_eq!(egui_key_to_xkb(Key::Colon), egui_key_to_xkb(Key::Semicolon));
    assert_eq!(egui_key_to_xkb(Key::Copy), egui_key_to_xkb(Key::C));
}

#[test]
fn keys_without_code_give_none() {
    assert_eq!(egui_key_to_xkb(Key::F25), None);
    assert_eq!(egui_key_to_xkb(Key::F35), None);
}

#[test]
fn key_changes_send_presses_then_releases() {
    let current = vec![Key::A, Key::B];
    let last = vec![Key::B, Key::Escape];
    let events = update_keys_down(&current, &last);
    assert_eq!(events, vec![(30, true), (1, false)]);
}

#[test]
fn same_keys_send_nothing() {
    let keys = vec![Key::A, Key::Tab];
    assert!(update_keys_down(&keys, &keys).is_empty());
}

#[test]
fn pointer_steps() {
    assert_eq!(pointer_step(false, true), PointerStep::Enter);
    assert_eq!(pointer_step(true, false), PointerStep::Leave);
    assert_eq!(pointer_step(true, true), PointerStep::Move);
    assert_eq!(pointer_step(false, false), PointerStep::Outside);
}

#[test]
fn keys_sent_per_step() {
    let held = vec![Key::W];
    assert_eq!(keys_for_step(PointerStep::Enter, held.clone()), Some(vec![Key::W]));
    assert_eq!(keys_for_step(PointerStep::Move, held.clone()), Some(vec![Key::W]));
    assert_eq!(keys_for_step(PointerStep::Leave, held.clone()), Some(vec![]));
    assert_eq!(keys_for_step(PointerStep::Outside, held), None);
}

#[test]
fn mouse_button_codes() {
    assert_eq!(pointer_button_code(PointerButton::Primary), 0x110);
    assert_eq!(pointer_button_code(PointerButton::Secondary), 0x111);
    assert_eq!(pointer_button_code(PointerButton::Middle), 0x112);
}

#[test]
fn events_bring_held_keys_to_current() {
    let codes = |keys: &[Key]| keys.iter().filter_map(|k| egui_key_to_xkb(*k)).collect::<BTreeSet<u32>>();
    let last = vec![Key::A, Key::Escape, Key::F35];
    let current = vec![Key::A, Key::B, Key::Tab];
    let mut held = codes(&last);
    for (code, down) in update_keys_down(&current, &last) {
        if down {
            held.insert(code);
        } else {
            held.remove(&code);
        }
    }
    assert_eq!(held, codes(&current));
}
