use partydeck::unshare::{
    container_action, cvt_libc_err, device_mount_paths, from_waitid_siginfo, id_map_line, started_message,
    ContainerAction, ExitTracker, RpcMessage, CLD_CONTINUED, CLD_DUMPED, CLD_EXITED, CLD_KILLED, CLD_STOPPED,
    CLD_TRAPPED,
};

#[test]
fn started_message_numbers_the_streams() {
    match started_message(42, true, false, true) {
        RpcMessage::Started { pid, stdin, stdout, stderr } => {
            assert_eq!(pid, 42);
            assert_eq!(stdin, Some(1));
            assert_eq!(stdout, None);
            assert_eq!(stderr, Some(2));
        }
        _ => panic!("a started message"),
    }
    match started_message(7, true, true, true) {
        RpcMessage::Started { stdin, stdout, stderr, .. } => {
            assert_eq!((stdin, stdout, stderr), (Some(1), Some(2), Some(3)));
        }
        _ => panic!("a started message"),
    }
    match started_message(7, false, false, false) {
        RpcMessage::Started { stdin, stdout, stderr, .. } => {
            assert_eq!((stdin, stdout, stderr), (None, None, None));
        }
        _ => panic!("a started message"),
    }
}

#[test]
fn container_actions() {
    assert!(matches!(container_action(RpcMessage::Closed), ContainerAction::KillAndExit));
    match container_action(RpcMessage::AddInputDev("event3".into())) {
        ContainerAction::Bind(p) => assert_eq!(p, "event3"),
        _ => panic!("adding binds"),
    }
    match container_action(RpcMessage::RemInputDev("event4".into())) {
        ContainerAction::Unbind(p) => assert_eq!(p, "event4"),
        _ => panic!("removing unbinds"),
    }
    match container_action(RpcMessage::LaunchFailed) {
        ContainerAction::Refuse(e) => assert_eq!(e, "Got sent some invalid command to container."),
        _ => panic!("other messages are refused"),
    }
}

#[test]
fn device_paths_inside_and_outside() {
    let (host, inner) = device_mount_paths("event5");
    assert_eq!(host, "/tmp/PARTYDECK_HOST_DEV_INPUT_MOUNT/event5");
    assert_eq!(inner, "/dev/input/event5");
}

#[test]
fn id_map_lines() {
    assert_eq!(id_map_line(1000), "1000 1000 1\n");
    assert_eq!(id_map_line(0), "0 0 1\n");
}

#[test]
fn raw_call_results() {
    assert_eq!(cvt_libc_err(5).unwrap(), 5);
    assert_eq!(cvt_libc_err(0).unwrap(), 0);
    assert!(cvt_libc_err(-1).is_err());
}

#[test]
fn wait_status_words() {
    assert_eq!(from_waitid_siginfo(CLD_EXITED, 3), 0x300);
    assert_eq!(from_waitid_siginfo(CLD_KILLED, 9), 9);
    assert_eq!(from_waitid_siginfo(CLD_DUMPED, 11), 11 | 0x80);
    assert_eq!(from_waitid_siginfo(CLD_CONTINUED, 0), 0xffff);
    assert_eq!(from_waitid_siginfo(CLD_STOPPED, 19), (19 << 8) | 0x7f);
    assert_eq!(from_waitid_siginfo(CLD_TRAPPED, 5), (5 << 8) | 0x7f);
    // The decoding the C library does gives the values back.
    let w = from_waitid_siginfo(CLD_EXITED, 3);
    assert_eq!(w & 0x7f, 0);
    assert_eq!((w >> 8) & 0xff, 3);
}

#[test]
fn exit_code_is_remembered() {
    let mut t = ExitTracker::new();
    assert_eq!(t.after_poll(false, Some(4)), None);
    assert_eq!(t.last_exit_code, None);
    assert_eq!(t.after_poll(true, None), Some(0));
    assert_eq!(t.after_poll(true, Some(9)), Some(0));
    let mut u = ExitTracker::new();
    assert_eq!(u.after_poll(true, Some(4)), Some(4));
    assert_eq!(u.last_exit_code, Some(4));
}
