use partydeck::session::{editor_action, tile_action, InstanceAction};
use partydeck::input::{DeviceRefrence, InputAction, InputStateInner, InternalDevice, KeyCaps};
use partydeck::layout::{GameGrid, WindowPosition};
use partydeck::session::{
    gamescope_args, ready_display_name, Display, InstanceColor, InstanceId, InstanceLaunchedStatus, LaunchNext, LaunchProbe,
    Session,
};

fn red() -> InstanceColor {
    InstanceColor { r: 255, g: 0, b: 0, a: 255 }
}

fn ids(s: &Session, d: usize) -> Vec<u64> {
    s.displays[d].instances.iter().map(|i| i.id.0).collect()
}

#[test]
fn new_session_has_one_empty_display() {
    let s = Session::new();
    assert_eq!(s.displays.len(), 1);
    assert_eq!(s.selected, 0);
    assert!(s.displays[0].is_empty());
    assert!(!s.can_launch());
}

#[test]
fn instance_ids_are_fresh() {
    let mut s = Session::new();
    let a = s.add_instance(".Alice".into(), red());
    let b = s.add_instance(".Bob".into(), red());
    assert_eq!((a, b), (InstanceId(0), InstanceId(1)));
    assert_eq!(ids(&s, 0), vec![0, 1]);
    let inst = &s.displays[0].instances[1];
    assert_eq!(inst.profname, ".Bob");
    assert_eq!(inst.handler.pause_between_starts_ms, Some(1000));
    assert!(inst.devices.is_empty() && inst.launch_data.is_none());
    let mut st = InputStateInner::new();
    s.remove_instance(&mut st, a);
    let c = s.add_instance(".Carol".into(), red());
    assert_eq!(c, InstanceId(2));
    assert!(s.can_launch());
}

#[test]
fn used_profile_names_skip_excluded_and_duplicates() {
    let mut s = Session::new();
    let a = s.add_instance("p1".into(), red());
    s.add_instance("p2".into(), red());
    s.add_instance("p1".into(), red());
    assert_eq!(s.used_profile_names(None), vec!["p1".to_string(), "p2".to_string()]);
    assert_eq!(s.used_profile_names(Some(a)), vec!["p2".to_string(), "p1".to_string()]);
}

#[test]
fn swap_exchanges_two_instances() {
    let mut s = Session::new();
    let a = s.add_instance("a".into(), red());
    s.add_instance("b".into(), red());
    let c = s.add_instance("c".into(), red());
    s.swap(a, c);
    assert_eq!(ids(&s, 0), vec![2, 1, 0]);
    s.swap(a, InstanceId(99));
    assert_eq!(ids(&s, 0), vec![2, 1, 0]);
}

#[test]
fn removing_an_instance_drops_empty_displays_but_the_selected() {
    let mut s = Session::new();
    let a = s.add_instance("a".into(), red());
    s.displays.push(Display::new());
    s.selected = 1;
    let b = s.add_instance("b".into(), red());
    s.displays.push(Display::new());
    s.selected = 2;
    let mut st = InputStateInner::new();
    let actions = s.remove_instance(&mut st, a);
    assert!(actions.is_empty());
    assert_eq!(s.displays.len(), 2);
    assert_eq!(s.selected, 1);
    assert_eq!(ids(&s, 0), vec![b.0]);
    assert!(s.displays[1].is_empty());
    assert!(s.find_instance(a).is_none());
    assert_eq!(s.find_instance(b), Some((0, 0)));
}

#[test]
fn removing_an_unknown_instance_only_condenses() {
    let mut s = Session::new();
    s.displays.push(Display::new());
    let mut st = InputStateInner::new();
    s.remove_instance(&mut st, InstanceId(5));
    assert_eq!(s.displays.len(), 1);
    assert_eq!(s.selected, 0);
}

#[test]
fn removing_an_instance_gives_back_its_leases() {
    let mut st = InputStateInner::new();
    st.add_device_obj(InternalDevice::new(
        "/dev/input/event5".into(),
        "Pad".into(),
        0x1234,
        KeyCaps { has_keys: true, btn_south: true, btn_left: false, key_space: false },
        7,
    ));
    let mut s = Session::new();
    let a = s.add_instance("a".into(), red());
    let (lease, _) = DeviceRefrence::new(&mut st, "/dev/input/event5");
    s.instance_mut_by_id(a).unwrap().devices.push(lease.unwrap());
    assert_eq!(st.targets.len(), 1);
    let actions = s.remove_instance(&mut st, a);
    assert!(actions.is_empty());
    assert!(st.targets.is_empty());
    assert_eq!(st.devices[0].device_id, None);
    let _ = InputAction::Demote { path: String::new(), device_id: 1 };
}

#[test]
fn remove_selected_display_moves_selection() {
    let mut s = Session::new();
    s.displays.push(Display::new());
    s.selected = 1;
    s.remove_selected_display();
    assert_eq!(s.displays.len(), 1);
    assert_eq!(s.selected, 0);
}

#[test]
fn window_positions_of_a_display() {
    let mut s = Session::new();
    s.add_instance("a".into(), red());
    s.add_instance("b".into(), red());
    let out = s.displays[0].window_positions(GameGrid { columns: 1, rows: 2 }, 1920, 1080);
    assert_eq!(out, vec![WindowPosition { x: 0, y: 0, w: 1920, h: 540 }, WindowPosition { x: 0, y: 540, w: 1920, h: 540 }]);
}

#[test]
fn starting_a_display_spaces_out_instances() {
    let mut s = Session::new();
    s.add_instance("a".into(), red());
    s.add_instance("b".into(), red());
    s.add_instance("c".into(), red());
    let pos = WindowPosition { x: 0, y: 0, w: 10, h: 10 };
    let mut t = 500u64;
    s.displays[0].start_display(&mut t, &vec![pos, pos]);
    assert_eq!(t, 2500);
    let starts: Vec<Option<u64>> = s.displays[0].instances.iter().map(|i| i.launch_data.map(|l| l.start_at_ms)).collect();
    assert_eq!(starts, vec![Some(500), Some(1500), None]);
    s.displays[0].start_display(&mut t, &vec![pos, pos, pos]);
    assert_eq!(t, 3500);
    assert_eq!(s.displays[0].instances[2].launch_data.unwrap().start_at_ms, 2500);
    assert_eq!(s.displays[0].instances[0].launch_data.unwrap().start_at_ms, 500);
}

#[test]
fn launch_walks_through_its_steps() {
    let mut s = Session::new();
    s.add_instance("a".into(), red());
    let inst = &mut s.displays[0].instances[0];
    assert_eq!(inst.launch_step(0, LaunchProbe::Begin), LaunchNext::Report(InstanceLaunchedStatus::NotStarted));
    let mut t = 3000;
    inst.start_instance(&mut t, WindowPosition { x: 0, y: 0, w: 100, h: 50 });
    assert_eq!(inst.launch_step(500, LaunchProbe::Begin), LaunchNext::Report(InstanceLaunchedStatus::StartTimeout(2)));
    assert_eq!(inst.launch_step(3000, LaunchProbe::Begin), LaunchNext::Spawn);
    assert_eq!(inst.launch_step(3000, LaunchProbe::Spawned(true)), LaunchNext::PollRunning);
    assert_eq!(inst.launch_step(3100, LaunchProbe::Running(true)), LaunchNext::QueryReadyBytes);
    assert_eq!(inst.launch_step(3100, LaunchProbe::ReadyBytes(Some(0))), LaunchNext::Report(InstanceLaunchedStatus::WaitingFD));
    assert_eq!(inst.launch_step(3200, LaunchProbe::Begin), LaunchNext::PollRunning);
    assert_eq!(inst.launch_step(3200, LaunchProbe::ReadyBytes(Some(15))), LaunchNext::ReadReady(15));
    assert_eq!(
        inst.launch_step(3200, LaunchProbe::ReadyMessage(Some(b":1 gamescope-0\n".to_vec()))),
        LaunchNext::Connect("gamescope-0".into())
    );
    assert_eq!(inst.launch_step(3200, LaunchProbe::StreamConnected(true)), LaunchNext::DeliverInput);
    assert_eq!(inst.launch_step(3200, LaunchProbe::InputDelivered(true)), LaunchNext::Report(InstanceLaunchedStatus::Ready));
    assert_eq!(inst.launch_step(3300, LaunchProbe::Running(true)), LaunchNext::DeliverInput);
    assert_eq!(inst.launch_step(3400, LaunchProbe::Running(false)), LaunchNext::Exited);
    assert_eq!(inst.launch_step(3500, LaunchProbe::Begin), LaunchNext::Report(InstanceLaunchedStatus::Exited));
    assert!(!inst.is_alive_or_starting());
}

#[test]
fn launch_fails_for_good() {
    let mut s = Session::new();
    s.add_instance("a".into(), red());
    let inst = &mut s.displays[0].instances[0];
    let mut t = 0;
    inst.start_instance(&mut t, WindowPosition { x: 0, y: 0, w: 1, h: 1 });
    assert_eq!(inst.launch_step(0, LaunchProbe::Spawned(true)), LaunchNext::PollRunning);
    assert_eq!(inst.launch_step(5001, LaunchProbe::Running(true)), LaunchNext::Report(InstanceLaunchedStatus::Failed));
    assert_eq!(inst.launch_step(9000, LaunchProbe::Begin), LaunchNext::Report(InstanceLaunchedStatus::Failed));
    let mut s2 = Session::new();
    s2.add_instance("b".into(), red());
    let i2 = &mut s2.displays[0].instances[0];
    i2.start_instance(&mut t, WindowPosition { x: 0, y: 0, w: 1, h: 1 });
    assert_eq!(i2.launch_step(0, LaunchProbe::ReadyMessage(Some(b"only".to_vec()))), LaunchNext::Report(InstanceLaunchedStatus::Failed));
}

#[test]
fn kill_game_marks_exit() {
    let mut s = Session::new();
    s.add_instance("a".into(), red());
    let inst = &mut s.displays[0].instances[0];
    assert!(!inst.kill_game());
    let mut t = 0;
    inst.start_instance(&mut t, WindowPosition { x: 0, y: 0, w: 1, h: 1 });
    assert!(!inst.kill_game());
    assert_eq!(inst.launch_data.unwrap().last_error_dont_retry, Some(InstanceLaunchedStatus::Exited));
    let mut s2 = Session::new();
    s2.add_instance("b".into(), red());
    let i2 = &mut s2.displays[0].instances[0];
    i2.start_instance(&mut t, WindowPosition { x: 0, y: 0, w: 1, h: 1 });
    i2.launch_step(0, LaunchProbe::Spawned(true));
    assert!(i2.kill_game());
}

#[test]
fn display_alive_checks_until_first_live_instance() {
    let mut s = Session::new();
    s.add_instance("a".into(), red());
    s.add_instance("b".into(), red());
    let mut t = 0;
    for i in 0..2 {
        s.displays[0].instances[i].start_instance(&mut t, WindowPosition { x: 0, y: 0, w: 1, h: 1 });
        s.displays[0].instances[i].launch_step(0, LaunchProbe::StreamConnected(true));
    }
    s.displays[0].instances[0].kill_game();
    assert!(s.displays[0].is_alive());
    s.displays[0].instances[1].kill_game();
    assert!(!s.displays[0].is_alive());
}

#[test]
fn status_texts() {
    assert_eq!(InstanceLaunchedStatus::StartTimeout(12).text(), "Waiting 12s...");
    assert_eq!(InstanceLaunchedStatus::WaitingFD.text(), "Waiting for gamescope to respond");
    assert_eq!(InstanceLaunchedStatus::Ready.text(), "Ready waiting for frames!");
    assert_eq!(InstanceLaunchedStatus::NotStarted.text(), "Not started properly");
    assert_eq!(InstanceLaunchedStatus::Failed.text(), "Failed to start");
    assert_eq!(InstanceLaunchedStatus::Exited.text(), "Exited");
}

#[test]
fn ready_message_names_the_wayland_display() {
    assert_eq!(ready_display_name(":1 gamescope-0\n"), Some("gamescope-0".into()));
    assert_eq!(ready_display_name(":1"), None);
    assert_eq!(ready_display_name("  :2   gamescope-3  extra"), Some("gamescope-3".into()));
}

#[test]
fn gamescope_arguments_for_an_instance() {
    let args = gamescope_args(7, WindowPosition { x: 0, y: 0, w: 960, h: 540 });
    let expected: Vec<String> = [
        "-R", "/proc/self/fd/7", "--composite-cursor", "--force-windows-fullscreen", "--nested-follow-window-scale", "1", "-W",
        "960", "-w", "960", "-H", "540", "-h", "540", "--backend", "headless", "--", "konsole",
    ]
    .iter()
    .map(|s| s.to_string())
    .collect();
    assert_eq!(args, expected);
}

#[test]
fn default_session_is_new_session() {
    let s = Session::default();
    assert_eq!(s.displays.len(), 1);
    assert_eq!(s.selected, 0);
    assert_eq!(s.next_instance_id, 0);
    assert!(s.displays[0].is_empty());
    assert_eq!(s.displays[0].layout, partydeck::layout::Layout::default());
}

#[test]
fn editor_tile_actions() {
    let me = InstanceId(2);
    assert_eq!(tile_action(me, false, false, None), InstanceAction::NoAction);
    assert_eq!(tile_action(me, true, false, None), InstanceAction::Remove(me));
    assert_eq!(tile_action(me, true, true, None), InstanceAction::Edit(me));
    assert_eq!(tile_action(me, true, true, Some(InstanceId(5))), InstanceAction::Swap(InstanceId(5), me));
    assert_eq!(tile_action(me, false, false, Some(me)), InstanceAction::NoAction);
    let acts = vec![InstanceAction::NoAction, InstanceAction::Edit(InstanceId(1)), InstanceAction::Remove(InstanceId(3))];
    assert_eq!(editor_action(&acts), InstanceAction::Edit(InstanceId(1)));
    assert_eq!(editor_action(&vec![]), InstanceAction::NoAction);
}

#[test]
fn namespace_gets_bound_device_files() {
    let mut st = InputStateInner::new();
    st.add_device_obj(InternalDevice::new(
        "/dev/input/event5".into(),
        "Pad".into(),
        0x1234,
        KeyCaps { has_keys: true, btn_south: true, btn_left: false, key_space: false },
        7,
    ));
    st.add_device_obj(InternalDevice::new(
        "/dev/input/event9".into(),
        "Keys".into(),
        0x1,
        KeyCaps { has_keys: true, btn_south: false, btn_left: false, key_space: true },
        8,
    ));
    let mut s = Session::new();
    let a = s.add_instance("a".into(), red());
    let (pad, _) = DeviceRefrence::new(&mut st, "/dev/input/event5");
    let (kb, _) = DeviceRefrence::new(&mut st, "/dev/input/event9");
    let inst = s.instance_mut_by_id(a).unwrap();
    inst.devices.push(pad.unwrap());
    inst.devices.push(kb.unwrap());
    let (names, kbm) = inst.namespace_devices(&st);
    assert_eq!(names, vec!["event5".to_string(), "event9".to_string()]);
    assert_eq!(kbm, vec![false, true]);
    // A device that went away leaves its lease without a file.
    st.remove_device_obj("/dev/input/event9");
    let (names, kbm) = inst.namespace_devices(&st);
    assert_eq!(names, vec!["event5".to_string()]);
    assert_eq!(kbm, vec![false, false]);
}
