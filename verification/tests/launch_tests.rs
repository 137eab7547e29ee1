use partydeck::input::{DeviceType, PadFilterType};
use partydeck::launch::{
    assign_layout, check_for_and_kill_games, check_launch_prerequisites, find_layout_display, fuse_overlayfs_mount_gamedirs,
    display_launch_commands, gamescope_binary, generate_launch_command, launch_gamedir, session_launch_commands, DisplayLaunch, InstanceLaunch, profile_setup, DisplayPoll, GamePoll, LaunchConfig, LaunchFacts,
    LaunchHandler, LaunchPaths, PathKind, RunningInputDevice, RuntimeFacts, SDL2Override, SDL_GAMECONTROLLER_IGNORE_DEVICES,
};
use partydeck::layout_manager::layout_scripts::WindowPostion;

fn strings(v: &[&str]) -> Vec<String> {
    v.iter().map(|s| s.to_string()).collect()
}

fn pairs(v: &[(&str, &str)]) -> Vec<(String, String)> {
    v.iter().map(|(a, b)| (a.to_string(), b.to_string())).collect()
}

fn dev(hash: u64, t: DeviceType, path: &str, enabled: bool) -> RunningInputDevice {
    RunningInputDevice { hash, device_type: t, path: path.to_string(), enabled }
}

fn paths() -> LaunchPaths {
    LaunchPaths { party: "/p".into(), steam: "/s".into(), res: "/r".into(), umu_run: "/u/umu-run".into() }
}

fn plain_cfg() -> LaunchConfig {
    LaunchConfig {
        disable_mount_gamedirs: false,
        profile_unique_dirs: false,
        proton_separate_pfxs: false,
        proton_version: String::new(),
        proton_wow64: false,
        pad_filter_type: PadFilterType::All,
        gamescope_resize_support: false,
        gamescope_force_fullscreen: false,
        gamescope_force_grab_cursor: false,
        gamescope_sdl_backend: false,
        kbm_support: false,
    }
}

fn native_handler() -> LaunchHandler {
    LaunchHandler {
        win: false,
        exec_path: "bin/game".into(),
        runtime: String::new(),
        saved_handler: false,
        sdl2_override: SDL2Override::No,
        env: "FOO=1 BAR".into(),
        use_mangohud: false,
        game_null_paths: vec![],
        use_goldberg: false,
        steam_appid: None,
        args: "$PROFILE -w $WIDTH --res=$RESOLUTION ../x".into(),
        path_handler: "/h".into(),
    }
}

fn facts(kinds: Vec<PathKind>) -> LaunchFacts {
    LaunchFacts {
        exec_exists: true,
        null_path_kinds: kinds,
        sdk32_link: Ok("/s/sdk32real".into()),
        sdk64_link: Ok("/s/sdk64real".into()),
        sniper_exists: false,
        sniper_arm_exists: false,
    }
}

#[test]
fn native_game_command() {
    let h = native_handler();
    let cfg = plain_cfg();
    let inputs = vec![
        dev(1, DeviceType::Gamepad, "/dev/input/event1", true),
        dev(2, DeviceType::Gamepad, "/dev/input/event2", true),
        dev(3, DeviceType::Keyboard, "/dev/input/event3", false),
    ];
    let gamedir = launch_gamedir(&h, &cfg, &paths(), 0, &Ok("/games/g".into())).unwrap();
    assert_eq!(gamedir, "/games/g");
    let plan = generate_launch_command(
        &h, &cfg, &paths(), "gamescope", &inputs, &vec![1], &"P1".to_string(), 0, 2, 0, 0,
        WindowPostion { x: 0, y: 0, w: 960, h: 540 }, &gamedir, &facts(vec![]),
    )
    .unwrap();
    assert_eq!(plan.program, "gamescope");
    assert_eq!(plan.cwd, "/games/g/bin");
    assert_eq!(
        plan.envs,
        pairs(&[
            ("SDL_JOYSTICK_HIDAPI", "0"),
            ("ENABLE_GAMESCOPE_WSI", "0"),
            ("PROTON_DISABLE_HIDRAW", "1"),
            ("SDL_GAMECONTROLLER_ALLOW_STEAM_VIRTUAL_GAMEPAD", "1"),
            ("FOO", "1"),
        ])
    );
    assert_eq!(
        plan.args,
        strings(&[
            "-W", "960", "-H", "540", "--", "bwrap", "--die-with-parent", "--dev-bind", "/", "/", "--tmpfs", "/tmp", "--bind",
            "/dev/null", "/dev/input/event2", "--bind", "/dev/null", "/dev/input/event3", "/games/g/bin/game", "P1", "-w", "960",
            "--res=RESOLUTION", "x",
        ])
    );
}

#[test]
fn windows_game_with_everything_on() {
    let h = LaunchHandler {
        win: true,
        exec_path: "game.exe".into(),
        runtime: String::new(),
        saved_handler: true,
        sdl2_override: SDL2Override::Srt,
        env: String::new(),
        use_mangohud: true,
        game_null_paths: strings(&["data/intro.bik", "logs"]),
        use_goldberg: true,
        steam_appid: Some(480),
        args: "$GAMEDIR $HANDLERDIR $INSTANCECOUNT $INSTANCENUM $FULLCOUNTIDX $HEIGHT".into(),
        path_handler: "/h/x".into(),
    };
    let cfg = LaunchConfig {
        disable_mount_gamedirs: false,
        profile_unique_dirs: true,
        proton_separate_pfxs: true,
        proton_version: String::new(),
        proton_wow64: true,
        pad_filter_type: PadFilterType::OnlySteamInput,
        gamescope_resize_support: true,
        gamescope_force_fullscreen: true,
        gamescope_force_grab_cursor: true,
        gamescope_sdl_backend: true,
        kbm_support: true,
    };
    let inputs = vec![
        dev(1, DeviceType::Keyboard, "/dev/input/event1", true),
        dev(2, DeviceType::Mouse, "/dev/input/event2", true),
        dev(3, DeviceType::Gamepad, "/dev/input/event3", true),
    ];
    let gamedir = launch_gamedir(&h, &cfg, &paths(), 3, &Err("unused".into())).unwrap();
    assert_eq!(gamedir, "/p/tmp/game-3");
    let plan = generate_launch_command(
        &h, &cfg, &paths(), "/opt/gsc-kbm", &inputs, &vec![2, 1], &"P2".to_string(), 1, 4, 2, 3,
        WindowPostion { x: 0, y: 0, w: 1280, h: 720 }, &gamedir, &facts(vec![PathKind::File, PathKind::Dir]),
    )
    .unwrap();
    assert_eq!(plan.program, "/opt/gsc-kbm");
    assert_eq!(plan.cwd, "/p/tmp/game-3");
    assert_eq!(
        plan.envs,
        pairs(&[
            ("SDL_JOYSTICK_HIDAPI", "0"),
            ("ENABLE_GAMESCOPE_WSI", "0"),
            ("PROTON_DISABLE_HIDRAW", "1"),
            ("SDL_DYNAMIC_API", "/s/bin32/steam-runtime/usr/lib/i386-linux-gnu/libSDL2-2.0.so.0"),
            ("WINEPREFIX", "/p/prefixes/4"),
            ("PROTON_VERB", "run"),
            ("PROTONPATH", "GE-Proton"),
            ("PROTON_DISABLE_HIDRAW", "1"),
            ("PROTON_USE_WOW64", "1"),
            ("SDL_GAMECONTROLLER_ALLOW_STEAM_VIRTUAL_GAMEPAD", "1"),
            ("SDL_GAMECONTROLLER_IGNORE_DEVICES", SDL_GAMECONTROLLER_IGNORE_DEVICES),
            ("GseAppPath", "/p/goldberg_data"),
            ("GseSavePath", "/p/profiles/P2/steam"),
            ("SteamAppUser", "P2"),
            ("SteamUser", "P2"),
            ("SteamClientLaunch", "1"),
            ("SteamEnv", "1"),
            ("SteamAppId", "480"),
            ("SteamGameId", "480"),
        ])
    );
    assert_eq!(
        plan.args,
        strings(&[
            "--nested-follow-window-scale", "1", "--force-windows-fullscreen", "--mangoapp", "-W", "1280", "-H", "720",
            "--force-grab-cursor", "--backend=sdl", "--display-index=1", "--backend-disable-keyboard", "--backend-disable-mouse",
            "--libinput-hold-dev=/dev/input/event2,/dev/input/event1,", "--grab", "--", "bwrap", "--die-with-parent",
            "--dev-bind", "/", "/", "--tmpfs", "/tmp", "--bind", "/dev/null", "/dev/input/event3", "--bind",
            "/p/profiles/P2/windata", "/p/prefixes/4/drive_c/users/steamuser", "--bind", "/dev/null",
            "/p/tmp/game-3/data/intro.bik", "--bind", "/p/tmp/null", "/p/tmp/game-3/logs", "--bind", "/r/goldberg/linux32",
            "/s/sdk32real", "--bind", "/r/goldberg/linux64", "/s/sdk64real", "--bind", "/r/goldberg/win",
            "/p/prefixes/4/drive_c/Program Files (x86)/Steam", "/u/umu-run", "/p/tmp/game-3/game.exe", "Z:\\p\\tmp\\game-3",
            "Z:\\h\\x", "4", "2", "3", "720",
        ])
    );
}

#[test]
fn native_runtimes_and_home() {
    let mut h = native_handler();
    h.args = String::new();
    h.env = String::new();
    h.runtime = "sniper".into();
    let mut cfg = plain_cfg();
    cfg.profile_unique_dirs = true;
    cfg.pad_filter_type = PadFilterType::NoSteamInput;
    let mut f = facts(vec![]);
    f.sniper_arm_exists = true;
    let plan = generate_launch_command(
        &h, &cfg, &paths(), "gamescope", &vec![], &vec![], &"P".to_string(), 0, 1, 0, 0,
        WindowPostion { x: 0, y: 0, w: 10, h: 20 }, &"/g".to_string(), &f,
    )
    .unwrap();
    assert_eq!(
        plan.envs,
        pairs(&[("SDL_JOYSTICK_HIDAPI", "0"), ("ENABLE_GAMESCOPE_WSI", "0"), ("PROTON_DISABLE_HIDRAW", "1"), ("HOME", "/p/profiles/P/home")])
    );
    assert_eq!(
        plan.args,
        strings(&[
            "-W", "10", "-H", "20", "--", "bwrap", "--die-with-parent", "--dev-bind", "/", "/", "--tmpfs", "/tmp", "--bind", "/s",
            "/p/profiles/P/home/.steam", "/s/steam/steamapps/common/SteamLinuxRuntime_sniper-arm64/_v2-entry-point", "--",
            "/g/bin/game",
        ])
    );
    h.runtime = "scout".into();
    let scout = generate_launch_command(
        &h, &cfg, &paths(), "gamescope", &vec![], &vec![], &"P".to_string(), 0, 1, 0, 0,
        WindowPostion { x: 0, y: 0, w: 10, h: 20 }, &"/g".to_string(), &f,
    )
    .unwrap();
    assert!(scout.args.contains(&"/s/bin32/steam-runtime/run.sh".to_string()));
}

#[test]
fn launch_command_errors() {
    let h = native_handler();
    let cfg = plain_cfg();
    let mut f = facts(vec![]);
    f.exec_exists = false;
    let err = generate_launch_command(
        &h, &cfg, &paths(), "gamescope", &vec![], &vec![], &"P".to_string(), 0, 1, 0, 0,
        WindowPostion { x: 0, y: 0, w: 1, h: 1 }, &"/games/g".to_string(), &f,
    )
    .err()
    .unwrap();
    assert_eq!(err, "Executable not found: /games/g/bin/game");
    let mut g = native_handler();
    g.use_goldberg = true;
    let mut f2 = facts(vec![]);
    f2.sdk32_link = Err("nope".into());
    let err2 = generate_launch_command(
        &g, &cfg, &paths(), "gamescope", &vec![], &vec![], &"P".to_string(), 0, 1, 0, 0,
        WindowPostion { x: 0, y: 0, w: 1, h: 1 }, &"/games/g".to_string(), &f2,
    )
    .err()
    .unwrap();
    assert_eq!(err2, "Failed to read sdk32 link: nope");
    let mut f3 = facts(vec![]);
    f3.sdk64_link = Err("gone".into());
    let err3 = generate_launch_command(
        &g, &cfg, &paths(), "gamescope", &vec![], &vec![], &"P".to_string(), 0, 1, 0, 0,
        WindowPostion { x: 0, y: 0, w: 1, h: 1 }, &"/games/g".to_string(), &f3,
    )
    .err()
    .unwrap();
    assert_eq!(err3, "Failed to read sdk64 link: gone");
    let h2 = native_handler();
    let e = launch_gamedir(&h2, &cfg, &paths(), 0, &Err("no root".into()));
    assert_eq!(e, Err("no root".to_string()));
}

fn rt() -> RuntimeFacts {
    RuntimeFacts {
        gamescope_kbm_exists: true,
        gamescope_in_path: true,
        scout_exists: true,
        soldier_exists: true,
        sniper_exists: false,
        sniper_arm_exists: false,
        steamrt4_exists: true,
    }
}

#[test]
fn prerequisites_are_checked() {
    assert_eq!(check_launch_prerequisites(false, "", &rt()), Ok(()));
    assert_eq!(check_launch_prerequisites(false, "soldier", &rt()), Ok(()));
    let mut f = rt();
    f.gamescope_kbm_exists = false;
    assert_eq!(
        check_launch_prerequisites(true, "", &f),
        Err("gamescope-kbm is missing. Please reinstall partydeck or disable KBM support.".to_string())
    );
    let mut g = rt();
    g.gamescope_in_path = false;
    assert_eq!(
        check_launch_prerequisites(false, "", &g),
        Err("gamescope not found in PATH. Please install gamescope through your distro's package manager.".to_string())
    );
    assert_eq!(
        check_launch_prerequisites(false, "sniper", &rt()),
        Err("Steam Runtime sniper not found! Runtime must be installed on the same drive that the Steam client is installed on.".to_string())
    );
    assert_eq!(gamescope_binary(true, "/res/gamescope-kbm"), "/res/gamescope-kbm");
    assert_eq!(gamescope_binary(false, "/res/gamescope-kbm"), "gamescope");
}

#[test]
fn dead_compositor_takes_its_games() {
    let polls = vec![
        DisplayPoll { compositor_running: Some(false), games: vec![GamePoll::Running, GamePoll::Exited, GamePoll::Running] },
        DisplayPoll { compositor_running: Some(true), games: vec![GamePoll::Exited, GamePoll::NoProcess] },
        DisplayPoll { compositor_running: None, games: vec![GamePoll::Running] },
    ];
    let plan = check_for_and_kill_games(&polls);
    assert!(plan.has_alive_games);
    assert_eq!(plan.kill_games, vec![vec![0, 2], vec![], vec![]]);
    assert_eq!(plan.kill_compositor, vec![false, true, false]);
    let done = check_for_and_kill_games(&vec![DisplayPoll { compositor_running: None, games: vec![GamePoll::Exited] }]);
    assert!(!done.has_alive_games);
}

#[test]
fn overlay_mounts_per_instance() {
    let m = fuse_overlayfs_mount_gamedirs("/games/g", "/h/x", true, "x", "/p", &strings(&["A", ".B"]));
    assert_eq!(m.len(), 2);
    assert_eq!(m[1].mount_dir, "/p/tmp/game-1");
    assert_eq!(m[1].work_dir, "/p/tmp/work-1");
    assert_eq!(
        m[1].args,
        strings(&[
            "-o", "lowerdir=/h/x/overlay:/games/g", "-o", "upperdir=/p/profiles/.B/gamesaves/x", "-o", "workdir=/p/tmp/work-1",
            "/p/tmp/game-1",
        ])
    );
    let plain = fuse_overlayfs_mount_gamedirs("/games/g", "/h/x", false, "x", "/p", &strings(&["A"]));
    assert_eq!(plain[0].args[1], "lowerdir=/games/g");
}

#[test]
fn profile_setup_steps() {
    assert_eq!(profile_setup(".Guest", false), (true, false));
    assert_eq!(profile_setup("Me", true), (false, true));
    assert_eq!(profile_setup("", true), (false, true));
}

#[test]
fn window_manager_layout_requests() {
    let displays = vec![vec![100, 101], vec![200, 201, 202]];
    assert_eq!(find_layout_display(&vec![7, 201, 202], &displays), Some((1, 2)));
    assert_eq!(find_layout_display(&vec![7, 8], &displays), None);
    let layout = vec![WindowPostion { x: 0, y: 0, w: 5, h: 5 }, WindowPostion { x: 5, y: 0, w: 5, h: 5 }];
    assert_eq!(
        assign_layout(&vec![202, 7, 200], &vec![200, 201, 202], &layout),
        vec![(0, 0, 0, 0), (0, 0, 0, 0), (0, 0, 5, 5)]
    );
    assert_eq!(assign_layout(&vec![201], &vec![200, 201, 201], &layout), vec![(5, 0, 5, 5)]);
}

#[test]
fn display_commands_number_instances_and_add_compositor() {
    let h = native_handler();
    let mut cfg = plain_cfg();
    cfg.proton_separate_pfxs = true;
    let insts = vec![
        InstanceLaunch { devices: vec![], profname: "A".into(), gamedir: "/games/g".into(), facts: facts(vec![]) },
        InstanceLaunch { devices: vec![], profname: "B".into(), gamedir: "/games/g".into(), facts: facts(vec![]) },
    ];
    let layout = vec![WindowPostion { x: 0, y: 0, w: 960, h: 1080 }, WindowPostion { x: 960, y: 0, w: 960, h: 1080 }];
    let plans = display_launch_commands(
        &h, &cfg, &paths(), "gamescope", &vec![], &insts, 1, &layout, 3, &Some("wayland-1".into()), &Some(":5".into()),
    )
    .unwrap();
    assert_eq!(plans.len(), 2);
    for (i, p) in plans.iter().enumerate() {
        let single = generate_launch_command(
            &h, &cfg, &paths(), "gamescope", &vec![], &vec![], &insts[i].profname, 1, 2, i, 3 + i, layout[i],
            &"/games/g".to_string(), &facts(vec![]),
        )
        .unwrap();
        let mut envs = single.envs.clone();
        envs.push(("WAYLAND_DISPLAY".into(), "wayland-1".into()));
        envs.push(("DISPLAY".into(), ":5".into()));
        assert_eq!(p.envs, envs);
        assert_eq!(p.args, single.args);
    }
    let without = display_launch_commands(&h, &cfg, &paths(), "gamescope", &vec![], &insts, 1, &layout, 0, &None, &None).unwrap();
    assert!(without[0].envs.iter().all(|(k, _)| k != "DISPLAY" && k != "WAYLAND_DISPLAY"));
    let mut broken = insts;
    broken[1].facts.exec_exists = false;
    let err = display_launch_commands(&h, &cfg, &paths(), "gamescope", &vec![], &broken, 1, &layout, 0, &None, &None);
    assert_eq!(err.err(), Some("Executable not found: /games/g/bin/game".to_string()));
}

#[test]
fn session_commands_number_instances_across_displays() {
    let mut h = native_handler();
    h.args = "$FULLCOUNTIDX $INSTANCENUM".into();
    let mut cfg = plain_cfg();
    cfg.proton_separate_pfxs = true;
    let inst = |name: &str| InstanceLaunch { devices: vec![], profname: name.into(), gamedir: "/games/g".into(), facts: facts(vec![]) };
    let layout = vec![WindowPostion { x: 0, y: 0, w: 960, h: 1080 }, WindowPostion { x: 960, y: 0, w: 960, h: 1080 }];
    let displays = vec![
        DisplayLaunch { display_index: 0, layout: layout.clone(), instances: vec![inst("A"), inst("B")], wayland: None, x11: None },
        DisplayLaunch {
            display_index: 1,
            layout: layout.clone(),
            instances: vec![inst("C")],
            wayland: Some("wayland-1".into()),
            x11: Some(":2".into()),
        },
    ];
    let plans = session_launch_commands(&h, &cfg, &paths(), "gamescope", &vec![], &displays).unwrap();
    assert_eq!(plans.len(), 2);
    assert_eq!(plans[0].len(), 2);
    assert_eq!(plans[1].len(), 1);
    // The instance of the second display is the third of the session.
    let third = display_launch_commands(
        &h, &cfg, &paths(), "gamescope", &vec![], &vec![inst("C")], 1, &layout, 2, &Some("wayland-1".into()), &Some(":2".into()),
    )
    .unwrap();
    assert_eq!(plans[1][0].args, third[0].args);
    assert_eq!(plans[0][1].args.last().map(|s| s.as_str()), Some("1"));
    assert_eq!(plans[1][0].args[plans[1][0].args.len() - 2], "2");
    assert_eq!(plans[1][0].envs, third[0].envs);
    let mut broken = displays;
    broken[1].instances[0].facts.exec_exists = false;
    assert_eq!(
        session_launch_commands(&h, &cfg, &paths(), "gamescope", &vec![], &broken).err(),
        Some("Executable not found: /games/g/bin/game".to_string())
    );
}
