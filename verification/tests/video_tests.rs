use partydeck::video::StreamFrames;
use partydeck::video::{NodeListeners, Unlisten};
use partydeck::video::{EglError, Error};

#[test]
fn egl_error_messages() {
    assert_eq!(EglError::MissingProc("eglFoo").message(), "missing proc: eglFoo");
    assert_eq!(
        EglError::NoCurrentDisplay.message(),
        "no current EGLDisplay (GL context not current?)"
    );
    assert_eq!(EglError::CreateImage(Some(0x300c)).message(), "eglCreateImageKHR failed (error 0x300c)");
    assert_eq!(EglError::CreateImage(Some(0x1a)).message(), "eglCreateImageKHR failed (error 0x001a)");
    assert_eq!(EglError::CreateImage(None).message(), "eglCreateImageKHR failed");
}

#[test]
fn video_error_messages_and_source() {
    let e: Error = EglError::NoCurrentDisplay.into();
    assert_eq!(e.message(), "EGL error: no current EGLDisplay (GL context not current?)");
    assert!(matches!(e.source(), Some(EglError::NoCurrentDisplay)));
    let g = Error::Gl("bad texture".to_string());
    assert_eq!(g.message(), "GL error: bad texture");
    assert!(g.source().is_none());
}

#[test]
fn node_streams_follow_their_listeners() {
    let mut t = NodeListeners::new();
    let (a, started) = t.listen(42);
    assert_eq!((a, started), (0, true));
    let (b, started) = t.listen(42);
    assert_eq!((b, started), (1, false));
    assert!(t.has_stream(42));
    assert_eq!(t.disconnect(7, a), Unlisten::NoStream);
    assert_eq!(t.disconnect(42, a), Unlisten::Kept);
    assert!(t.has_stream(42));
    assert_eq!(t.disconnect(42, b), Unlisten::Stopped);
    assert!(!t.has_stream(42));
    assert!(t.streams.is_empty());
    // A listener id given by the caller.
    assert!(t.connect(5, 99));
    assert!(!t.connect(5, 99));
    assert_eq!(t.disconnect(5, 99), Unlisten::Stopped);
    assert_eq!(t.fresh_id(), 2);
}

#[test]
fn stream_frames_are_numbered_from_one_after_start() {
    let mut f = StreamFrames::new();
    assert!(!f.streaming && f.latest_frame.is_none());
    f.state_changed(true);
    assert_eq!(f.frame_arrived(7, 640, 480, 0, 2560), 1);
    assert_eq!(f.frame_arrived(8, 640, 480, 0, 2560), 2);
    let l = f.latest_frame.unwrap();
    assert_eq!((l.seq, l.fd, l.width, l.height, l.offset, l.stride), (2, 8, 640, 480, 0, 2560));
    f.state_changed(false);
    assert_eq!(f.latest_frame.unwrap().seq, 2);
    assert_eq!(f.frame_arrived(9, 640, 480, 0, 2560), 3);
    f.state_changed(true);
    assert!(f.latest_frame.is_none());
    assert_eq!(f.frame_arrived(9, 640, 480, 0, 2560), 1);
    f.forget_frame();
    assert!(f.streaming && f.latest_frame.is_none());
}
