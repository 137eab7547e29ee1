use partydeck::remote::status_reply;
use partydeck::layout::WindowPosition;
use partydeck::remote::{select_remote_instance, RemoteSelection};
use partydeck::remote::{
    alive_clients, route_remote_input, status_started, EncoderOptions, HwBackend, InputRoute, RTCServerMessage,
    WebsocketConnectionStatus, WsAction, WsEvent, WsMessage, WsState, EV_ABS, EV_KEY, RELAY_URL,
};
use partydeck::session::{InstanceColor, Session};

#[test]
fn status_lists_instances_with_colors() {
    let mut s = Session::new();
    s.add_instance(".Ann".into(), InstanceColor { r: 255, g: 0, b: 0, a: 255 });
    s.add_instance(".Ben".into(), InstanceColor { r: 0, g: 0, b: 0, a: 0 });
    match status_started(&mut s, true) {
        RTCServerMessage::StatusStarted { instances, has_controller_support } => {
            assert!(has_controller_support);
            assert_eq!(instances.len(), 2);
            assert_eq!(instances[0].id, 0);
            assert_eq!(instances[0].name, ".Ann");
            assert_eq!(instances[0].color, "#ff0000ff");
            // Not launched yet counts as starting.
            assert!(instances[0].alive);
            assert_eq!(instances[1].id, 1);
            assert_eq!(instances[1].color, "#00000000");
        }
        RTCServerMessage::StatusNotStarted => panic!("a running session reports its instances"),
    }
}

#[test]
fn remote_input_routing() {
    assert_eq!(route_remote_input(false, true, EV_KEY, 0x130), InputRoute::Drop);
    assert_eq!(route_remote_input(true, true, EV_KEY, 0x130), InputRoute::VirtualController);
    assert_eq!(route_remote_input(true, true, EV_ABS, 0x04), InputRoute::VirtualController);
    assert_eq!(route_remote_input(true, false, EV_KEY, 0x130), InputRoute::Instance);
    // A keyboard key is not a controller button.
    assert_eq!(route_remote_input(true, true, EV_KEY, 30), InputRoute::Instance);
    // An axis code sent as a key is not an axis.
    assert_eq!(route_remote_input(true, true, EV_KEY, 0x04), InputRoute::Instance);
}

#[test]
fn relay_link_steps() {
    let mut ws = WsState::new();
    assert_eq!(ws.status, WebsocketConnectionStatus::Disconnected);
    match ws.step(WsEvent::ConnectRequested) {
        WsAction::Connect(url) => assert_eq!(url, RELAY_URL),
        _ => panic!("connecting asks for a connection"),
    }
    assert_eq!(ws.status, WebsocketConnectionStatus::Connecting);
    match ws.step(WsEvent::ConnectFinished(Some(true))) {
        WsAction::Notify(t, b) => {
            assert_eq!(t, "Remote connection");
            assert_eq!(b, "WebSocket connection established!");
        }
        _ => panic!("a connection is announced"),
    }
    assert_eq!(ws.status, WebsocketConnectionStatus::Connected);
    assert!(matches!(ws.step(WsEvent::Message(WsMessage::Code { code: "AB12".into() })), WsAction::Nothing));
    assert_eq!(ws.code.as_deref(), Some("AB12"));
    match ws.step(WsEvent::Message(WsMessage::Offer { offer: "sdp".into(), client_id: "c1".into() })) {
        WsAction::NewClient { offer, client_id } => {
            assert_eq!(offer, "sdp");
            assert_eq!(client_id, "c1");
        }
        _ => panic!("an offer makes a client"),
    }
    assert!(matches!(ws.step(WsEvent::OtherMessage), WsAction::Nothing));
    assert_eq!(ws.status, WebsocketConnectionStatus::Connected);
    assert!(matches!(ws.step(WsEvent::StreamEnded), WsAction::Close));
    // The link shows as it was until it is closed.
    assert_eq!(ws.status, WebsocketConnectionStatus::Connected);
    assert_eq!(ws.code.as_deref(), Some("AB12"));
    match ws.step(WsEvent::Closed) {
        WsAction::Notify(t, b) => {
            assert_eq!(t, "Remote disconnected");
            assert_eq!(b, "WebSocket connection closed!");
        }
        _ => panic!("a closed link is announced"),
    }
    assert_eq!(ws.status, WebsocketConnectionStatus::Disconnected);
    assert_eq!(ws.code, None);
}

#[test]
fn relay_disconnect_request_shows_disconnecting() {
    let mut ws = WsState::new();
    ws.step(WsEvent::ConnectRequested);
    ws.step(WsEvent::ConnectFinished(Some(true)));
    ws.step(WsEvent::Message(WsMessage::Code { code: "Q".into() }));
    assert!(matches!(ws.step(WsEvent::DisconnectRequested), WsAction::Close));
    assert_eq!(ws.status, WebsocketConnectionStatus::Disconnecting);
    assert_eq!(ws.code.as_deref(), Some("Q"));
    ws.step(WsEvent::Closed);
    assert_eq!(ws.status, WebsocketConnectionStatus::Disconnected);
    assert_eq!(ws.code, None);
}

#[test]
fn relay_connection_failures() {
    let mut ws = WsState::new();
    ws.step(WsEvent::ConnectRequested);
    match ws.step(WsEvent::ConnectFinished(None)) {
        WsAction::Notify(t, b) => {
            assert_eq!(t, "Remote failed");
            assert_eq!(b, "Connection timed out after 15 seconds");
        }
        _ => panic!("a timeout is announced"),
    }
    assert_eq!(ws.status, WebsocketConnectionStatus::Disconnected);
    ws.step(WsEvent::ConnectRequested);
    match ws.step(WsEvent::ConnectFinished(Some(false))) {
        WsAction::Notify(_, b) => assert_eq!(b, "WebSocket connection error"),
        _ => panic!("an error is announced"),
    }
    ws.step(WsEvent::Message(WsMessage::Code { code: "X".into() }));
    assert!(matches!(ws.step(WsEvent::Message(WsMessage::Error { error: "e".into() })), WsAction::Close));
    ws.step(WsEvent::Closed);
    assert_eq!(ws.code, None);
    assert!(matches!(ws.step(WsEvent::DisconnectRequested), WsAction::Close));
}

#[test]
fn counting_connected_clients() {
    assert_eq!(alive_clients(&vec![]), 0);
    assert_eq!(alive_clients(&vec![true, false, true, true]), 3);
}

#[test]
fn encoder_names() {
    assert_eq!(HwBackend::Vaapi.pix_fmt_name(), "vaapi");
    assert_eq!(HwBackend::Vulkan.pix_fmt_name(), "vulkan");
    assert_eq!(HwBackend::Vaapi.convert_filter(), ("scale_vaapi", "format=nv12"));
    assert_eq!(HwBackend::Vulkan.convert_filter(), ("scale_vulkan", "format=nv12"));
    assert_eq!(HwBackend::Vaapi.encoder_name(), "h264_vaapi");
    assert_eq!(HwBackend::Vulkan.encoder_name(), "h264_vulkan");
    let o = EncoderOptions::new();
    assert_eq!(o.backend, HwBackend::Vaapi);
    assert_eq!(o.device, None);
    assert_eq!(o.bitrate_bps, 0);
}

#[test]
fn remote_instance_selection() {
    assert_eq!(select_remote_instance(None, Some(0)), RemoteSelection::Unchanged);
    let mut s = Session::new();
    let a = s.add_instance(".A".into(), InstanceColor { r: 1, g: 2, b: 3, a: 255 });
    s.add_instance(".B".into(), InstanceColor { r: 1, g: 2, b: 3, a: 255 });
    // Not launched yet.
    assert_eq!(select_remote_instance(Some(&s), Some(a.0)), RemoteSelection::Cleared);
    let mut t = 0u64;
    s.displays[0].instances[0].start_instance(&mut t, WindowPosition { x: 0, y: 0, w: 10, h: 10 });
    assert_eq!(select_remote_instance(Some(&s), Some(a.0)), RemoteSelection::Selected(0));
    assert_eq!(select_remote_instance(Some(&s), Some(7)), RemoteSelection::Cleared);
    assert_eq!(select_remote_instance(Some(&s), None), RemoteSelection::Cleared);
}

#[test]
fn status_without_session() {
    let mut none: Option<Session> = None;
    assert!(matches!(status_reply(&mut none, true), RTCServerMessage::StatusNotStarted));
    let mut s = Session::new();
    s.add_instance(".A".into(), InstanceColor { r: 0, g: 0, b: 255, a: 255 });
    let mut some = Some(s);
    match status_reply(&mut some, false) {
        RTCServerMessage::StatusStarted { instances, has_controller_support } => {
            assert!(!has_controller_support);
            assert_eq!(instances.len(), 1);
            assert_eq!(instances[0].color, "#0000ffff");
        }
        RTCServerMessage::StatusNotStarted => panic!("a running session reports its instances"),
    }
}

#[test]
fn encoder_defaults() {
    assert_eq!(HwBackend::default(), HwBackend::Vaapi);
    for b in [HwBackend::Vaapi, HwBackend::Vulkan] {
        assert_eq!(b.encoder_name(), format!("h264_{}", b.pix_fmt_name()));
        assert_eq!(b.convert_filter().0, format!("scale_{}", b.pix_fmt_name()));
    }
    let o = EncoderOptions::default();
    assert_eq!(o.backend, HwBackend::Vaapi);
    assert_eq!(o.device, None);
    assert_eq!(o.bitrate_bps, 0);
}
