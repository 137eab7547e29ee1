use partydeck::screens::{edit_handler_header, move_handle_press, steam_app_label, toggle_device, unused_profiles};
use partydeck::input::InputStateInner;
use partydeck::screens::{
    app_can_launch, clamp_monitors, device_assignable, device_hover_text, device_text_color, display_label,
    handler_version_warning, new_instance_profname, play_outcome, profile_name_valid, AppEvent, DeviceRow,
    DeviceTextColor, InstancesScreen, LeftPanel, Mode, PlayOutcome, Route, SettingsScreen, SettingsTab, RELEASES_URL,
};
use partydeck::session::{InstanceAction, InstanceColor, InstanceId, Session};
use partydeck::toasts::{Severity, Toasts};

fn grey() -> InstanceColor {
    InstanceColor { r: 128, g: 128, b: 128, a: 255 }
}

#[test]
fn modes_and_routes() {
    let full: Mode<u32> = Mode::Full { handlers: vec![10, 20], selected: 1 };
    let lite: Mode<u32> = Mode::Lite { handler: 7 };
    assert!(!full.is_lite());
    assert!(lite.is_lite());
    assert!(matches!(full.home_route(), Route::Home));
    assert!(matches!(lite.home_route(), Route::Instances));
    assert_eq!(full.active_handler(), Some(&20));
    assert_eq!(lite.active_handler(), Some(&7));
    let none: Mode<u32> = Mode::Full { handlers: vec![], selected: 0 };
    assert_eq!(none.active_handler(), None);
}

#[test]
fn rescanning_keeps_selection_in_range() {
    let mut m: Mode<u32> = Mode::Full { handlers: vec![1, 2, 3], selected: 2 };
    m.rescan_handlers(vec![5, 6]);
    match &m {
        Mode::Full { handlers, selected } => {
            assert_eq!(handlers, &vec![5, 6]);
            assert_eq!(*selected, 1);
        }
        _ => panic!("stays full"),
    }
    m.rescan_handlers(vec![]);
    assert!(matches!(m, Mode::Full { selected: 0, .. }));
    let mut l: Mode<u32> = Mode::Lite { handler: 3 };
    l.rescan_handlers(vec![9]);
    assert!(matches!(l, Mode::Lite { handler: 3 }));
}

#[test]
fn settings_hints() {
    let mut s = SettingsScreen::new();
    assert_eq!(s.tab, SettingsTab::General);
    assert_eq!(s.info, "");
    s.hint(false, "a");
    assert_eq!(s.info, "");
    s.hint(true, "b");
    assert_eq!(s.info, "b");
    s.begin_frame();
    assert_eq!(s.info, "");
}

#[test]
fn version_warnings() {
    assert_eq!(handler_version_warning(3, 3), None);
    assert_eq!(
        handler_version_warning(2, 3),
        Some(("an older", "Updated handlers are available via the ⮋ button on the top bar."))
    );
    assert_eq!(handler_version_warning(4, 3), Some(("a newer", "Consider updating PartyDeck.")));
}

#[test]
fn play_needs_appid_or_root() {
    assert!(matches!(play_outcome(false, ""), PlayOutcome::NeedGameRoot));
    assert!(matches!(play_outcome(true, ""), PlayOutcome::Instances));
    assert!(matches!(play_outcome(false, "/games/x"), PlayOutcome::Instances));
}

#[test]
fn profile_names() {
    assert!(profile_name_valid("Player2"));
    assert!(profile_name_valid("Jürgen"));
    assert!(!profile_name_valid(""));
    assert!(!profile_name_valid("a b"));
    assert!(!profile_name_valid("x-y"));
}

#[test]
fn removal_confirmation_closes() {
    let mut p: LeftPanel<u32> = LeftPanel::new();
    p.pending_removal = Some(4);
    p.answer_removal(false, false);
    assert_eq!(p.pending_removal, Some(4));
    p.answer_removal(false, true);
    assert_eq!(p.pending_removal, None);
}

#[test]
fn instance_actions() {
    let mut s = Session::new();
    let a = s.add_instance(".A".into(), grey());
    let b = s.add_instance(".B".into(), grey());
    let mut st = InputStateInner::new();
    let mut scr = InstancesScreen::new(false);
    assert!(scr.show_right_panel && scr.show_bottom_panel);
    assert!(!InstancesScreen::new(true).show_right_panel);
    scr.apply_instance_action(&mut s, &mut st, InstanceAction::Edit(a));
    assert_eq!(scr.edit_modal, Some(a));
    scr.apply_instance_action(&mut s, &mut st, InstanceAction::Swap(a, b));
    let order: Vec<u64> = s.displays[0].instances.iter().map(|i| i.id.0).collect();
    assert_eq!(order, vec![1, 0]);
    scr.apply_instance_action(&mut s, &mut st, InstanceAction::Remove(a));
    assert_eq!(scr.edit_modal, None);
    assert_eq!(s.displays[0].instances.len(), 1);
    assert_eq!(s.displays[0].instances[0].id, InstanceId(1));
}

#[test]
fn display_navigation() {
    let mut s = Session::new();
    // The only display is empty: no new display is added.
    InstancesScreen::nav_right(&mut s);
    assert_eq!((s.selected, s.displays.len()), (0, 1));
    s.add_instance(".A".into(), grey());
    InstancesScreen::nav_right(&mut s);
    assert_eq!((s.selected, s.displays.len()), (1, 2));
    InstancesScreen::nav_left(&mut s);
    assert_eq!(s.selected, 0);
    InstancesScreen::nav_left(&mut s);
    assert_eq!(s.selected, 0);
    InstancesScreen::nav_right(&mut s);
    assert_eq!((s.selected, s.displays.len()), (1, 2));
    assert_eq!(display_label(s.selected, s.displays.len()), "Display 2/2");
}

#[test]
fn device_rows() {
    assert!(device_assignable(true, false, false));
    assert!(!device_assignable(true, true, false));
    assert!(device_assignable(true, true, true));
    assert!(!device_assignable(false, false, true));
    let row = DeviceRow { hash: 1, label: "pad".into(), enabled: true, pressed: true, already_used: true };
    assert_eq!(device_text_color(&row, false), DeviceTextColor::LightBlue);
    assert_eq!(device_hover_text(&row, false), "Already used\nInput pressed");
    assert_eq!(device_text_color(&row, true), DeviceTextColor::DarkGray);
    assert_eq!(device_hover_text(&row, true), "Unavailable for this instance");
    let off = DeviceRow { hash: 2, label: "kb".into(), enabled: false, pressed: false, already_used: false };
    assert_eq!(device_text_color(&off, false), DeviceTextColor::Red);
    assert_eq!(device_hover_text(&off, false), "Disabled");
    let free = DeviceRow { hash: 3, label: "m".into(), enabled: true, pressed: false, already_used: false };
    assert_eq!(device_text_color(&free, false), DeviceTextColor::Gray);
    assert_eq!(device_hover_text(&free, false), "Available");
}

#[test]
fn app_events_become_toasts() {
    let mut t = Toasts::new();
    AppEvent::UpdateAvailable("v1.2.0".into()).apply(&mut t, "1.1.0", 100);
    let u = &t.items[0];
    assert_eq!(u.title, "Update available");
    assert_eq!(u.body, "PartyDeck v1.2.0 is available (current: v1.1.0).\nClick to view the release.");
    assert_eq!(u.url.as_deref(), Some(RELEASES_URL));
    assert_eq!(u.expires_at, Some(12100));
    AppEvent::Toast(Severity::Error, "t".into(), "b".into(), Some(InstanceId(2))).apply(&mut t, "1.1.0", 100);
    let e = &t.items[1];
    assert_eq!(e.severity, Severity::Error);
    assert_eq!(e.target, Some(InstanceId(2)));
    assert_eq!(e.expires_at, None);
}

#[test]
fn launching_and_monitors() {
    let mut s = Session::new();
    assert!(!app_can_launch(&s, false));
    s.add_instance(".A".into(), grey());
    assert!(app_can_launch(&s, false));
    assert!(!app_can_launch(&s, true));
    s.displays[0].monitor_idx = 3;
    clamp_monitors(&mut s, 2);
    assert_eq!(s.displays[0].monitor_idx, 1);
    clamp_monitors(&mut s, 0);
    assert_eq!(s.displays[0].monitor_idx, 0);
}

#[test]
fn new_profiles_avoid_used_names() {
    let guests = vec!["Ann".to_string(), "Bob".to_string()];
    let used = vec![".Ann".to_string()];
    assert_eq!(new_instance_profname(&guests, &used), ".Bob");
    let all = vec![".Ann".to_string(), ".Bob".to_string()];
    let n = new_instance_profname(&guests, &all);
    let rest = n.strip_prefix(".Auto profile - ").expect("an automatic profile");
    let num: u32 = rest.parse().unwrap();
    assert!((10000..99999).contains(&num));
}

#[test]
fn editor_profile_lists() {
    let profiles = vec!["Ann".to_string(), "Bob".to_string(), "Cy".to_string()];
    let used = vec!["Bob".to_string(), ".Guest".to_string()];
    assert_eq!(unused_profiles(&profiles, &used), vec!["Ann".to_string(), "Cy".to_string()]);
    assert_eq!(unused_profiles(&profiles, &vec![]), profiles);
    assert!(unused_profiles(&vec![], &used).is_empty());
}

#[test]
fn ticking_devices() {
    let mut devs = vec![3, 5, 3];
    toggle_device(&mut devs, 7, true, false);
    assert_eq!(devs, vec![3, 5, 3, 7]);
    toggle_device(&mut devs, 3, false, true);
    assert_eq!(devs, vec![5, 7]);
    toggle_device(&mut devs, 5, true, true);
    assert_eq!(devs, vec![5, 7]);
    toggle_device(&mut devs, 9, false, false);
    assert_eq!(devs, vec![5, 7]);
}

#[test]
fn move_handles_pick_then_swap() {
    assert_eq!(move_handle_press(None, 2), (Some(2), None));
    assert_eq!(move_handle_press(Some(2), 0), (None, Some((0, 2))));
}

#[test]
fn handler_editor_labels() {
    assert_eq!(edit_handler_header(false, "x"), "Add Game");
    assert_eq!(edit_handler_header(true, "Portal 2"), "Edit Handler: Portal 2");
    let apps = vec![(620u64, "Portal 2".to_string()), (400u64, "Portal".to_string())];
    assert_eq!(steam_app_label(None, &apps), "None");
    assert_eq!(steam_app_label(Some(400), &apps), "(400) Portal");
    assert_eq!(steam_app_label(Some(1), &apps), "⚠ Missing Steam app (1)");
}

#[test]
fn opening_a_new_instance_names_it_and_edits_it() {
    let mut s = Session::new();
    s.add_instance(".Ann".into(), grey());
    let mut scr = InstancesScreen::new(false);
    let guests = vec!["Ann".to_string(), "Bob".to_string()];
    let red = InstanceColor { r: 255, g: 0, b: 0, a: 255 };
    let id = scr.open_new_instance(&mut s, &guests, red);
    assert_eq!(id, InstanceId(1));
    assert_eq!(scr.edit_modal, Some(id));
    assert_eq!(s.displays[0].instances.len(), 2);
    let inst = &s.displays[0].instances[1];
    assert_eq!(inst.id, id);
    assert_eq!(inst.profname, ".Bob");
    assert_eq!(inst.color, red);
    assert!(inst.devices.is_empty());
    // Every guest name is now taken: an automatic name follows.
    let id2 = scr.open_new_instance(&mut s, &guests, red);
    assert_eq!(id2, InstanceId(2));
    let name = &s.displays[0].instances[2].profname;
    let rest = name.strip_prefix(".Auto profile - ").expect("an automatic profile");
    let num: u32 = rest.parse().unwrap();
    assert!((10000..99999).contains(&num));
}

#[test]
fn swapping_twice_restores_the_order() {
    let mut s = Session::new();
    let a = s.add_instance(".A".into(), grey());
    s.add_instance(".B".into(), grey());
    let c = s.add_instance(".C".into(), grey());
    s.swap(a, c);
    let order: Vec<u64> = s.displays[0].instances.iter().map(|i| i.id.0).collect();
    assert_eq!(order, vec![2, 1, 0]);
    s.swap(a, c);
    let order: Vec<u64> = s.displays[0].instances.iter().map(|i| i.id.0).collect();
    assert_eq!(order, vec![0, 1, 2]);
    // An id that is not on the display leaves it as it is.
    s.swap(a, InstanceId(9));
    let order: Vec<u64> = s.displays[0].instances.iter().map(|i| i.id.0).collect();
    assert_eq!(order, vec![0, 1, 2]);
}
