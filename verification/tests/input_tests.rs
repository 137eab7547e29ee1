use partydeck::input::{
    trim_start_matches_all, DeviceRefrence, DeviceType, InputAction, InputEventSummary, InputStateInner, InternalDevice,
    KeyCaps, PadButton, PadFilterType, BTN_SOUTH, VENDOR_SONY, VENDOR_VALVE,
};

fn pad_caps() -> KeyCaps {
    KeyCaps { has_keys: true, btn_south: true, btn_left: false, key_space: false }
}

fn pad(path: &str, vendor: u16, hash: u64) -> InternalDevice {
    InternalDevice::new(path.to_string(), "Wireless Controller".to_string(), vendor, pad_caps(), hash)
}

#[test]
fn device_kinds_follow_capabilities() {
    let kb = InternalDevice::new("/dev/input/event3".into(), "Keyboard".into(), 1, KeyCaps { has_keys: true, btn_south: false, btn_left: false, key_space: true }, 1);
    assert_eq!(kb.device_type(), DeviceType::Keyboard);
    let mouse = InternalDevice::new("/dev/input/event4".into(), "Mouse".into(), 1, KeyCaps { has_keys: true, btn_south: false, btn_left: true, key_space: true }, 2);
    assert_eq!(mouse.device_type(), DeviceType::Mouse);
    let other = InternalDevice::new("/dev/input/event6".into(), "Lid".into(), 1, KeyCaps { has_keys: false, btn_south: true, btn_left: true, key_space: true }, 3);
    assert_eq!(other.device_type(), DeviceType::Other);
    assert_eq!(other.emoji(), "");
}

#[test]
fn labels_show_vendor_names_and_event_numbers() {
    let d = pad("/dev/input/event5", VENDOR_SONY, 9);
    assert_eq!(d.device_type(), DeviceType::Gamepad);
    assert_eq!(d.fancyname(), "PS Controller");
    assert_eq!(d.label(), "🎮 PS Controller (5)");
    let generic = pad("/dev/input/event12", 0x1234, 9);
    assert_eq!(generic.fancyname(), "Wireless Controller");
}

#[test]
fn pad_filter() {
    let steam = pad("/dev/input/event1", VENDOR_VALVE, 1);
    let sony = pad("/dev/input/event2", VENDOR_SONY, 2);
    assert!(steam.enabled(&PadFilterType::All));
    assert!(!steam.enabled(&PadFilterType::NoSteamInput));
    assert!(steam.enabled(&PadFilterType::OnlySteamInput));
    assert!(sony.enabled(&PadFilterType::NoSteamInput));
    assert!(!sony.enabled(&PadFilterType::OnlySteamInput));
}

#[test]
fn gui_poll_tracks_presses() {
    let mut d = pad("/dev/input/event5", VENDOR_SONY, 9);
    d.gui_poll(vec![InputEventSummary::Key { code: BTN_SOUTH, value: 1 }]);
    assert!(d.has_button_held());
    assert_eq!(d.latest_gui_pad(), Some(PadButton::ABtn));
    d.gui_poll(vec![InputEventSummary::AbsoluteAxis { code: 0x10, value: -1 }, InputEventSummary::Key { code: BTN_SOUTH, value: 0 }]);
    assert!(!d.has_button_held());
    assert_eq!(d.latest_gui_pad(), Some(PadButton::Left));
    d.gui_poll(vec![InputEventSummary::Other]);
    assert_eq!(d.latest_gui_pad(), None);
    assert!(!d.has_button_held());
}

#[test]
fn trim_repeats_prefix() {
    assert_eq!(trim_start_matches_all("/dev/input/event5", "/dev/input/event"), "5");
    assert_eq!(trim_start_matches_all("abab-c", "ab"), "-c");
    assert_eq!(trim_start_matches_all("x", ""), "x");
}

#[test]
fn lease_binds_device_and_release_unbinds() {
    let mut state = InputStateInner::new();
    let actions = state.add_device_obj(pad("/dev/input/event5", VENDOR_SONY, 77));
    assert!(actions.is_empty());
    let (lease, actions) = DeviceRefrence::new(&mut state, "/dev/input/event5");
    let mut lease = lease.expect("device is there");
    assert!(lease.is_alive);
    assert!(lease.device_id >= 1);
    assert_eq!(
        actions,
        vec![
            InputAction::Promote { path: "/dev/input/event5".into(), device_id: lease.device_id },
            InputAction::SetGrab { path: "/dev/input/event5".into(), grab: false },
        ]
    );
    assert_eq!(state.devices[0].device_id, Some(lease.device_id));
    assert_eq!(state.targets.len(), 1);
    assert_eq!(state.targets[0].target_name, "PS Controller");

    let grab = lease.set_grabbed(&mut state, true);
    assert_eq!(
        grab,
        vec![
            InputAction::SetGrab { path: "/dev/input/event5".into(), grab: false },
            InputAction::SetGrab { path: "/dev/input/event5".into(), grab: true },
        ]
    );
    assert!(state.targets[0].grabbed());

    let released = lease.pre_drop(&mut state);
    assert!(released.is_empty());
    assert!(!lease.is_alive);
    assert!(state.targets.is_empty());
    assert_eq!(state.devices[0].device_id, None);
}

#[test]
fn lease_on_missing_device_fails() {
    let mut state = InputStateInner::new();
    let (lease, actions) = DeviceRefrence::new(&mut state, "/dev/input/event9");
    assert!(lease.is_err());
    assert!(actions.is_empty());
}

#[test]
fn unplugged_device_is_demoted_and_replugged_device_promoted() {
    let mut state = InputStateInner::new();
    state.add_device_obj(pad("/dev/input/event5", VENDOR_SONY, 77));
    let (lease, _) = DeviceRefrence::new(&mut state, "/dev/input/event5");
    let lease = lease.unwrap();
    let removed = state.remove_device_obj("/dev/input/event5");
    assert_eq!(removed, vec![InputAction::Demote { path: "/dev/input/event5".into(), device_id: lease.device_id }]);
    assert!(state.devices.is_empty());
    assert_eq!(state.targets.len(), 1);
    let back = state.add_device_obj(pad("/dev/input/event7", VENDOR_SONY, 77));
    assert_eq!(
        back,
        vec![
            InputAction::Promote { path: "/dev/input/event7".into(), device_id: lease.device_id },
            InputAction::SetGrab { path: "/dev/input/event7".into(), grab: false },
        ]
    );
    let other = state.add_device_obj(pad("/dev/input/event8", VENDOR_SONY, 78));
    assert_eq!(other, vec![InputAction::SetGrab { path: "/dev/input/event7".into(), grab: false }]);
    assert_eq!(state.devices[1].device_id, None);
}

#[test]
fn fixing_twice_changes_nothing_more() {
    let mut state = InputStateInner::new();
    state.add_device_obj(pad("/dev/input/event5", VENDOR_SONY, 77));
    let (lease, _) = DeviceRefrence::new(&mut state, "/dev/input/event5");
    let mut lease = lease.unwrap();
    lease.set_grabbed(&mut state, true);
    let again = state.fix_users();
    assert_eq!(again, vec![InputAction::SetGrab { path: "/dev/input/event5".into(), grab: true }]);
    assert_eq!(state.devices[0].device_id, Some(lease.device_id));
}

#[test]
fn orphan_lease_keeps_given_id() {
    let mut state = InputStateInner::new();
    let r = DeviceRefrence::new_orphan_with_ids(&mut state, 5, 9, "Pad".into(), 1);
    assert_eq!((r.device_id, r.user_id, r.is_alive), (5, 9, true));
    let r2 = DeviceRefrence::new_orphan_with_ids(&mut state, 5, 10, "Pad".into(), 1);
    assert_eq!(state.targets.len(), 1);
    assert_eq!(state.targets[0].users.len(), 2);
    let random = DeviceRefrence::new_orphan_nofix(&mut state, None, "Pad".into(), 2);
    assert!(random.device_id >= 1);
    assert!(r2.is_alive);
}
