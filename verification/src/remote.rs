use vstd::prelude::*;
use crate::input::{
    ABS_RX, ABS_RY, ABS_X, ABS_Y, BTN_DPAD_DOWN, BTN_DPAD_LEFT, BTN_DPAD_RIGHT, BTN_DPAD_UP, BTN_EAST, BTN_MODE, BTN_NORTH,
    BTN_SELECT, BTN_SOUTH, BTN_START, BTN_THUMBL, BTN_THUMBR, BTN_TL, BTN_TL2, BTN_TR, BTN_TR2, BTN_WEST,
};
use crate::session::{Instance, InstanceColor, InstanceId, Session, after_alive_check, alive, dviews, locate};

verus! {

/// A message from a remote client.
pub enum RTCClientMessage {
    /// Asks for the session's instances.
    Status,
    /// Picks the instance the client plays, or none.
    Select { id: Option<u64> },
    /// An input event for the picked instance.
    RemoteInput { input_type: u16, input_code: u16, input_value: i32 },
}

/// One instance as a remote client sees it.
pub struct ServerInstanceInfo {
    pub id: u64,
    pub name: String,
    /// The instance's colour as `#rrggbbaa`.
    pub color: String,
    pub alive: bool,
}

/// A message to a remote client.
pub enum RTCServerMessage {
    StatusNotStarted,
    StatusStarted { instances: Vec<ServerInstanceInfo>, has_controller_support: bool },
}

/// The state of the link to the relay server.
#[derive(Clone, Copy, PartialEq, Eq, Structural, Debug)]
pub enum WebsocketConnectionStatus {
    Connected,
    Disconnected,
    Connecting,
    Disconnecting,
}

/// Two lowercase hex digits of a byte.
pub open spec fn hex2(b: u8) -> Seq<char> {
    let digits = seq!['0', '1', '2', '3', '4', '5', '6', '7', '8', '9', 'a', 'b', 'c', 'd', 'e', 'f'];
    seq![digits[(b / 16) as int], digits[(b % 16) as int]]
}

/// A colour written as `#rrggbbaa` from its unmultiplied sRGBA bytes.
pub uninterp spec fn color_hex(r: u8, g: u8, b: u8, a: u8) -> Seq<char>;

/// `Color32::to_hex` on the premultiplied colour `c`: `#` and eight
/// lowercase hex digits of the unmultiplied sRGBA bytes, named by
/// `color_hex`. Opaque and fully transparent colours are written as stored.
#[verifier::external_body]
fn color_to_hex(c: InstanceColor) -> (s: String)
    ensures
        s@ == color_hex(c.r, c.g, c.b, c.a),
        c.a == 0 || c.a == 255 ==> s@ == seq!['#'] + hex2(c.r) + hex2(c.g) + hex2(c.b) + hex2(c.a),
{
    egui::Color32::from_rgba_premultiplied(c.r, c.g, c.b, c.a).to_hex()
}

pub open spec fn info_of(inst: Instance) -> (u64, Seq<char>, Seq<char>, bool) {
    (inst.id.0, inst.profname@, color_hex(inst.color.r, inst.color.g, inst.color.b, inst.color.a), alive(inst))
}

/// The instances of the displays in order, as remote clients see them.
pub open spec fn instance_infos(ds: Seq<crate::session::DisplayView>) -> Seq<(u64, Seq<char>, Seq<char>, bool)> {
    ds.map_values(|d: crate::session::DisplayView| d.instances.map_values(|i: Instance| info_of(i))).flatten()
}

pub open spec fn info_view(i: ServerInstanceInfo) -> (u64, Seq<char>, Seq<char>, bool) {
    (i.id, i.name@, i.color@, i.alive)
}

/// An instance as it is after its liveness was checked, which stops the
/// stream of a dead one.
pub open spec fn checked(i0: Instance, i1: Instance) -> bool {
    &&& i1.id == i0.id
    &&& i1.devices@ == i0.devices@
    &&& i1.profname@ == i0.profname@
    &&& i1.color == i0.color
    &&& i1.handler == i0.handler
    &&& i1.launch_data == after_alive_check(i0.launch_data)
}

/// `msg` answers a status request on session `s0`, which became `s1`: the
/// instances in display order, and each instance's liveness checked.
pub open spec fn status_answered(s0: Session, s1: Session, msg: RTCServerMessage, has_controller_support: bool) -> bool {
    &&& msg matches RTCServerMessage::StatusStarted { instances, has_controller_support: c } && c == has_controller_support
        && instances@.map_values(|i: ServerInstanceInfo| info_view(i)) == instance_infos(crate::session::dviews(s0.displays@))
    &&& s1.selected == s0.selected
    &&& s1.next_instance_id == s0.next_instance_id
    &&& s1.displays@.len() == s0.displays@.len()
    &&& forall|e: int| 0 <= e < s0.displays@.len() ==> {
        let d0 = #[trigger] s0.displays@[e];
        let d1 = s1.displays@[e];
        &&& d1.monitor_idx == d0.monitor_idx
        &&& d1.layout == d0.layout
        &&& d1.instances@.len() == d0.instances@.len()
        &&& forall|m: int| 0 <= m < d0.instances@.len() ==> checked(#[trigger] d0.instances@[m], d1.instances@[m])
    }
}

/// The answer to a status request while a session runs: its instances, in
/// display order.
pub fn status_started(s: &mut Session, has_controller_support: bool) -> (msg: RTCServerMessage)
    ensures
        status_answered(*old(s), *final(s), msg, has_controller_support),
{
    let ghost ds_old = old(s).displays@;
    let ghost ds0 = crate::session::dviews(s.displays@);
    let mut infos: Vec<ServerInstanceInfo> = Vec::new();
    let mut d: usize = 0;
    proof {
        assert(ds0.take(0).map_values(
            |d: crate::session::DisplayView| d.instances.map_values(|i: Instance| info_of(i)),
        ) =~= Seq::<Seq<(u64, Seq<char>, Seq<char>, bool)>>::empty());
        assert(infos@.map_values(|i: ServerInstanceInfo| info_view(i)) =~= Seq::<(u64, Seq<char>, Seq<char>, bool)>::empty());
    }
    while d < s.displays.len()
        invariant
            d <= s.displays@.len(),
            s.displays@.len() == ds0.len(),
            ds_old == old(s).displays@,
            ds0 == crate::session::dviews(ds_old),
            s.selected == old(s).selected,
            s.next_instance_id == old(s).next_instance_id,
            forall|e: int| 0 <= e < ds0.len() ==> {
                let d0 = #[trigger] ds_old[e];
                let d1 = s.displays@[e];
                &&& d1.monitor_idx == d0.monitor_idx
                &&& d1.layout == d0.layout
                &&& d1.instances@.len() == d0.instances@.len()
                &&& forall|m: int| 0 <= m < d0.instances@.len() ==> if e < d {
                    checked(#[trigger] d0.instances@[m], d1.instances@[m])
                } else {
                    d1.instances@[m] == d0.instances@[m]
                }
            },
            infos@.map_values(|i: ServerInstanceInfo| info_view(i)) == ds0.take(d as int).map_values(
                |d: crate::session::DisplayView| d.instances.map_values(|i: Instance| info_of(i)),
            ).flatten(),
        decreases s.displays.len() - d,
    {
        let ghost before = infos@.map_values(|i: ServerInstanceInfo| info_view(i));
        let ghost insts0 = ds_old[d as int].instances@;
        proof {
            assert(ds0[d as int].instances == insts0);
        }
        let mut k: usize = 0;
        proof {
            assert(insts0.take(0).map_values(|i: Instance| info_of(i)) =~= Seq::<(u64, Seq<char>, Seq<char>, bool)>::empty());
            assert(before + Seq::<(u64, Seq<char>, Seq<char>, bool)>::empty() =~= before);
        }
        while k < s.displays[d].instances.len()
            invariant
                d < s.displays@.len(),
                s.displays@.len() == ds0.len(),
                ds_old == old(s).displays@,
                ds0 == crate::session::dviews(ds_old),
                s.selected == old(s).selected,
                s.next_instance_id == old(s).next_instance_id,
                insts0 == ds_old[d as int].instances@,
                k <= insts0.len(),
                forall|e: int| 0 <= e < ds0.len() ==> {
                    let d0 = #[trigger] ds_old[e];
                    let d1 = s.displays@[e];
                    &&& d1.monitor_idx == d0.monitor_idx
                    &&& d1.layout == d0.layout
                    &&& d1.instances@.len() == d0.instances@.len()
                    &&& forall|m: int| 0 <= m < d0.instances@.len() ==> if e < d || (e == d && m < k) {
                        checked(#[trigger] d0.instances@[m], d1.instances@[m])
                    } else {
                        d1.instances@[m] == d0.instances@[m]
                    }
                },
                infos@.map_values(|i: ServerInstanceInfo| info_view(i)) == before + insts0.take(k as int).map_values(
                    |i: Instance| info_of(i),
                ),
            decreases insts0.len() - k,
        {
            let ghost i0 = insts0[k as int];
            proof {
                assert(s.displays@[d as int].instances@[k as int] == i0);
            }
            let id = s.displays[d].instances[k].id.0;
            let name = s.displays[d].instances[k].profname.clone();
            let color = color_to_hex(s.displays[d].instances[k].color);
            let alive_now = s.displays[d].instances[k].is_alive_or_starting();
            let ghost prev = infos@.map_values(|i: ServerInstanceInfo| info_view(i));
            infos.push(ServerInstanceInfo { id, name, color, alive: alive_now });
            proof {
                assert(insts0.take(k + 1) =~= insts0.take(k as int).push(i0));
                assert(insts0.take(k + 1).map_values(|i: Instance| info_of(i)) =~= insts0.take(k as int).map_values(
                    |i: Instance| info_of(i),
                ).push(info_of(i0)));
                assert(infos@.map_values(|i: ServerInstanceInfo| info_view(i)) =~= prev.push(info_of(i0)));
            }
            k += 1;
        }
        proof {
            let f = |dv: crate::session::DisplayView| dv.instances.map_values(|i: Instance| info_of(i));
            assert(insts0.take(k as int) =~= insts0);
            assert(ds0.take(d + 1) =~= ds0.take(d as int).push(ds0[d as int]));
            assert(ds0.take(d + 1).map_values(f) =~= ds0.take(d as int).map_values(f).push(f(ds0[d as int])));
            ds0.take(d as int).map_values(f).lemma_flatten_push(f(ds0[d as int]));
        }
        d += 1;
    }
    proof {
        assert(ds0.take(d as int) =~= ds0);
    }
    RTCServerMessage::StatusStarted { instances: infos, has_controller_support }
}

/// The answer to a status request: the running session's instances, or
/// `StatusNotStarted` when no session runs.
pub fn status_reply(session: &mut Option<Session>, has_controller_support: bool) -> (msg: RTCServerMessage)
    ensures
        match (*old(session), *final(session)) {
            (None, None) => msg is StatusNotStarted,
            (Some(s0), Some(s1)) => status_answered(s0, s1, msg, has_controller_support),
            _ => false,
        },
{
    match session {
        Some(s) => status_started(s, has_controller_support),
        None => RTCServerMessage::StatusNotStarted,
    }
}

/// What a remote client's pick of an instance leads to.
#[derive(Clone, Copy, PartialEq, Eq, Structural, Debug)]
pub enum RemoteSelection {
    /// No session runs: the pick changes nothing.
    Unchanged,
    /// The client now watches and controls this instance.
    Selected(u64),
    /// The client has no instance any more.
    Cleared,
}

/// Picks the instance a remote client asked for: the first instance with
/// that id, if it was launched. Asking for none, or for an instance that is
/// missing or not launched, leaves the client without one.
pub fn select_remote_instance(session: Option<&Session>, id: Option<u64>) -> (r: RemoteSelection)
    ensures
        r == match session {
            None => RemoteSelection::Unchanged,
            Some(s) => match id {
                None => RemoteSelection::Cleared,
                Some(i) => match locate(dviews(s.displays@), InstanceId(i)) {
                    Some((d, k)) => if s.displays@[d].instances@[k].launch_data is Some {
                        RemoteSelection::Selected(i)
                    } else {
                        RemoteSelection::Cleared
                    },
                    None => RemoteSelection::Cleared,
                },
            },
        },
{
    match session {
        None => RemoteSelection::Unchanged,
        Some(s) => match id {
            None => RemoteSelection::Cleared,
            Some(i) => match s.find_instance(InstanceId(i)) {
                Some((d, k)) => if s.displays[d].instances[k].launch_data.is_some() {
                    RemoteSelection::Selected(i)
                } else {
                    RemoteSelection::Cleared
                },
                None => RemoteSelection::Cleared,
            },
        },
    }
}

/// The Linux event type of keys and buttons.
pub const EV_KEY: u16 = 0x01;

/// The Linux event type of absolute axes.
pub const EV_ABS: u16 = 0x03;

/// The buttons of the remote controller, in the order of the protocol's
/// bitmask.
pub open spec fn controller_buttons() -> Seq<u16> {
    seq![
        0x130u16, 0x131u16, 0x134u16, 0x133u16, 0x136u16, 0x137u16, 0x138u16, 0x139u16, 0x13au16, 0x13bu16, 0x13du16,
        0x13eu16, 0x220u16, 0x221u16, 0x222u16, 0x223u16, 0x13cu16
    ]
}

/// The sticks of the remote controller: left and right, each x then y.
pub open spec fn controller_axes() -> Seq<u16> {
    seq![0x00u16, 0x01u16, 0x03u16, 0x04u16]
}

/// Where an input event from a remote client goes.
#[derive(Clone, Copy, PartialEq, Eq, Structural, Debug)]
pub enum InputRoute {
    /// No instance is picked: the event is dropped.
    Drop,
    /// A controller event, emitted by the virtual controller.
    VirtualController,
    /// Anything else goes to the picked instance's input queue.
    Instance,
}

pub open spec fn controller_event(input_type: u16, input_code: u16) -> bool {
    (input_type == EV_KEY && controller_buttons().contains(input_code)) || (input_type == EV_ABS
        && controller_axes().contains(input_code))
}

/// The remote controller's buttons are, in bitmask order, the gamepad's
/// Linux buttons A (south), B (east), X (west), Y (north), the bumpers,
/// the triggers, Back, Start, the stick clicks, the D-pad and the guide
/// button; its axes are the two sticks, x then y.
pub proof fn lemma_controller_layout()
    ensures
        controller_buttons() == seq![
            BTN_SOUTH, BTN_EAST, BTN_WEST, BTN_NORTH, BTN_TL, BTN_TR, BTN_TL2, BTN_TR2, BTN_SELECT, BTN_START,
            BTN_THUMBL, BTN_THUMBR, BTN_DPAD_UP, BTN_DPAD_DOWN, BTN_DPAD_LEFT, BTN_DPAD_RIGHT, BTN_MODE
        ],
        controller_axes() == seq![ABS_X, ABS_Y, ABS_RX, ABS_RY],
{
    assert(controller_buttons() =~= seq![
        BTN_SOUTH, BTN_EAST, BTN_WEST, BTN_NORTH, BTN_TL, BTN_TR, BTN_TL2, BTN_TR2, BTN_SELECT, BTN_START,
        BTN_THUMBL, BTN_THUMBR, BTN_DPAD_UP, BTN_DPAD_DOWN, BTN_DPAD_LEFT, BTN_DPAD_RIGHT, BTN_MODE
    ]);
    assert(controller_axes() =~= seq![ABS_X, ABS_Y, ABS_RX, ABS_RY]);
}

/// With an instance picked and a virtual controller present, a remote event
/// goes to the controller exactly when it is one of the gamepad's buttons
/// or stick axes; keyboard keys (codes below the button range) always go to
/// the instance.
pub proof fn lemma_remote_routing(input_type: u16, input_code: u16)
    ensures
        controller_event(input_type, input_code) <==> (input_type == EV_KEY && (input_code == BTN_SOUTH || input_code
            == BTN_EAST || input_code == BTN_WEST || input_code == BTN_NORTH || input_code == BTN_TL || input_code == BTN_TR
            || input_code == BTN_TL2 || input_code == BTN_TR2 || input_code == BTN_SELECT || input_code == BTN_START
            || input_code == BTN_THUMBL || input_code == BTN_THUMBR || input_code == BTN_DPAD_UP || input_code
            == BTN_DPAD_DOWN || input_code == BTN_DPAD_LEFT || input_code == BTN_DPAD_RIGHT || input_code == BTN_MODE))
            || (input_type == EV_ABS && (input_code == ABS_X || input_code == ABS_Y || input_code == ABS_RX || input_code
            == ABS_RY)),
        input_type == EV_KEY && input_code < 0x100 ==> !controller_event(input_type, input_code),
{
    lemma_controller_layout();
    let bs = controller_buttons();
    let axs = controller_axes();
    if bs.contains(input_code) {
        let j = choose|j: int| 0 <= j < bs.len() && bs[j] == input_code;
        assert(0 <= j < 17);
    }
    if axs.contains(input_code) {
        let j = choose|j: int| 0 <= j < axs.len() && axs[j] == input_code;
        assert(0 <= j < 4);
    }
    if input_code == BTN_SOUTH { assert(bs[0] == input_code); }
    if input_code == BTN_EAST { assert(bs[1] == input_code); }
    if input_code == BTN_WEST { assert(bs[2] == input_code); }
    if input_code == BTN_NORTH { assert(bs[3] == input_code); }
    if input_code == BTN_TL { assert(bs[4] == input_code); }
    if input_code == BTN_TR { assert(bs[5] == input_code); }
    if input_code == BTN_TL2 { assert(bs[6] == input_code); }
    if input_code == BTN_TR2 { assert(bs[7] == input_code); }
    if input_code == BTN_SELECT { assert(bs[8] == input_code); }
    if input_code == BTN_START { assert(bs[9] == input_code); }
    if input_code == BTN_THUMBL { assert(bs[10] == input_code); }
    if input_code == BTN_THUMBR { assert(bs[11] == input_code); }
    if input_code == BTN_DPAD_UP { assert(bs[12] == input_code); }
    if input_code == BTN_DPAD_DOWN { assert(bs[13] == input_code); }
    if input_code == BTN_DPAD_LEFT { assert(bs[14] == input_code); }
    if input_code == BTN_DPAD_RIGHT { assert(bs[15] == input_code); }
    if input_code == BTN_MODE { assert(bs[16] == input_code); }
    if input_code == ABS_X { assert(axs[0] == input_code); }
    if input_code == ABS_Y { assert(axs[1] == input_code); }
    if input_code == ABS_RX { assert(axs[2] == input_code); }
    if input_code == ABS_RY { assert(axs[3] == input_code); }
}

/// Routes a remote input event: controller events go to the virtual
/// controller when there is one; other events go to the picked instance.
pub fn route_remote_input(has_selection: bool, has_virtual_device: bool, input_type: u16, input_code: u16) -> (r: InputRoute)
    ensures
        r == if !has_selection {
            InputRoute::Drop
        } else if has_virtual_device && controller_event(input_type, input_code) {
            InputRoute::VirtualController
        } else {
            InputRoute::Instance
        },
{
    if !has_selection {
        return InputRoute::Drop;
    }
    let is_button = input_code == 0x130 || input_code == 0x131 || input_code == 0x134 || input_code == 0x133 || input_code
        == 0x136 || input_code == 0x137 || input_code == 0x138 || input_code == 0x139 || input_code == 0x13a || input_code
        == 0x13b || input_code == 0x13d || input_code == 0x13e || input_code == 0x220 || input_code == 0x221 || input_code
        == 0x222 || input_code == 0x223 || input_code == 0x13c;
    let is_axis = input_code == 0x00 || input_code == 0x01 || input_code == 0x03 || input_code == 0x04;
    proof {
        let bs = controller_buttons();
        if is_button {
            if input_code == 0x130 { assert(bs[0] == input_code); }
            if input_code == 0x131 { assert(bs[1] == input_code); }
            if input_code == 0x134 { assert(bs[2] == input_code); }
            if input_code == 0x133 { assert(bs[3] == input_code); }
            if input_code == 0x136 { assert(bs[4] == input_code); }
            if input_code == 0x137 { assert(bs[5] == input_code); }
            if input_code == 0x138 { assert(bs[6] == input_code); }
            if input_code == 0x139 { assert(bs[7] == input_code); }
            if input_code == 0x13a { assert(bs[8] == input_code); }
            if input_code == 0x13b { assert(bs[9] == input_code); }
            if input_code == 0x13d { assert(bs[10] == input_code); }
            if input_code == 0x13e { assert(bs[11] == input_code); }
            if input_code == 0x220 { assert(bs[12] == input_code); }
            if input_code == 0x221 { assert(bs[13] == input_code); }
            if input_code == 0x222 { assert(bs[14] == input_code); }
            if input_code == 0x223 { assert(bs[15] == input_code); }
            if input_code == 0x13c { assert(bs[16] == input_code); }
        }
        assert(is_button == bs.contains(input_code));
        let axs = controller_axes();
        if is_axis {
            if input_code == 0x00 { assert(axs[0] == input_code); }
            if input_code == 0x01 { assert(axs[1] == input_code); }
            if input_code == 0x03 { assert(axs[2] == input_code); }
            if input_code == 0x04 { assert(axs[3] == input_code); }
        }
        assert(is_axis == axs.contains(input_code));
    }
    if has_virtual_device && ((input_type == EV_KEY && is_button) || (input_type == EV_ABS && is_axis)) {
        InputRoute::VirtualController
    } else {
        InputRoute::Instance
    }
}

/// A message from the relay server.
pub enum WsMessage {
    /// The code remote clients connect with.
    Code { code: String },
    Error { error: String },
    /// A client wants to connect with this WebRTC offer.
    Offer { offer: String, client_id: String },
    ClientError { client_error: String, client_id: String },
}

/// What happened on the link to the relay server.
pub enum WsEvent {
    ConnectRequested,
    /// The connection attempt ended: `Some(true)` connected, `Some(false)`
    /// failed, `None` timed out.
    ConnectFinished(Option<bool>),
    DisconnectRequested,
    /// A text message arrived and was parsed.
    Message(WsMessage),
    /// A message that is not text arrived.
    OtherMessage,
    /// The link failed or was closed by the server.
    StreamEnded,
    /// The caller closed the link, as a `Close` action asked.
    Closed,
}

/// What the caller does after an event.
pub enum WsAction {
    Nothing,
    /// Connect to the relay server at this URL, giving up after 15 seconds.
    Connect(String),
    /// Show an info toast with this title and body.
    Notify(String, String),
    /// Close the link, then report `Closed`.
    Close,
    /// Set up a WebRTC client for this offer.
    NewClient { offer: String, client_id: String },
}

/// Whether an event asks for the link to the relay server to be closed.
pub open spec fn ends_link(e: WsEvent) -> bool {
    match e {
        WsEvent::DisconnectRequested | WsEvent::StreamEnded => true,
        WsEvent::Message(WsMessage::Error { .. }) | WsEvent::Message(WsMessage::ClientError { .. }) => true,
        _ => false,
    }
}

/// The status and code of the link after `e`. A disconnect request shows
/// the link as disconnecting until it is closed; closing it leaves it
/// disconnected without a code.
pub open spec fn ws_next(status: WebsocketConnectionStatus, code: Option<String>, e: WsEvent) -> (
    WebsocketConnectionStatus,
    Option<String>,
) {
    match e {
        WsEvent::ConnectRequested => (WebsocketConnectionStatus::Connecting, code),
        WsEvent::ConnectFinished(r) => (
            if r == Some(true) {
                WebsocketConnectionStatus::Connected
            } else {
                WebsocketConnectionStatus::Disconnected
            },
            code,
        ),
        WsEvent::DisconnectRequested => (WebsocketConnectionStatus::Disconnecting, code),
        WsEvent::Message(WsMessage::Code { code: c }) => (status, Some(c)),
        WsEvent::Closed => (WebsocketConnectionStatus::Disconnected, None),
        _ => (status, code),
    }
}

/// The status and code of the link after the events `evs`, in order.
pub open spec fn ws_run(status: WebsocketConnectionStatus, code: Option<String>, evs: Seq<WsEvent>) -> (
    WebsocketConnectionStatus,
    Option<String>,
)
    decreases evs.len(),
{
    if evs.len() == 0 {
        (status, code)
    } else {
        let p = ws_run(status, code, evs.drop_last());
        ws_next(p.0, p.1, evs.last())
    }
}

/// The code of the last `Code` message that the link was not closed after.
pub open spec fn code_since_close(evs: Seq<WsEvent>) -> Option<String>
    decreases evs.len(),
{
    if evs.len() == 0 {
        None
    } else {
        match evs.last() {
            WsEvent::Message(WsMessage::Code { code }) => Some(code),
            WsEvent::Closed => None,
            _ => code_since_close(evs.drop_last()),
        }
    }
}

/// Over any run of the link from its start, the code shown to users is the
/// one the relay sent last since the link was last closed, if any.
pub proof fn lemma_code_since_close(evs: Seq<WsEvent>)
    ensures
        ws_run(WebsocketConnectionStatus::Disconnected, None, evs).1 == code_since_close(evs),
    decreases evs.len(),
{
    if evs.len() > 0 {
        lemma_code_since_close(evs.drop_last());
    }
}

/// Whatever happened before, a run that ends with the link closed leaves it
/// disconnected without a code.
pub proof fn lemma_run_ends_disconnected(status: WebsocketConnectionStatus, code: Option<String>, evs: Seq<WsEvent>)
    requires
        evs.len() > 0,
        evs.last() is Closed,
    ensures
        ws_run(status, code, evs) == (WebsocketConnectionStatus::Disconnected, None::<String>),
{
}

/// An event that asks for the link to be closed, followed by its closing,
/// leaves the link disconnected without a code, from any state.
pub proof fn lemma_close_request_then_closed(status: WebsocketConnectionStatus, code: Option<String>, e: WsEvent)
    requires
        ends_link(e),
    ensures
        ws_run(status, code, seq![e, WsEvent::Closed]) == (WebsocketConnectionStatus::Disconnected, None::<String>),
{
    reveal_with_fuel(ws_run, 3);
    assert(seq![e, WsEvent::Closed].drop_last() =~= seq![e]);
    assert(seq![e].drop_last() =~= Seq::<WsEvent>::empty());
}

/// A connection attempt shows the link as connecting, and then as connected
/// when the socket opened in time or as disconnected when it did not; the
/// code is untouched.
pub proof fn lemma_connect_attempt(status: WebsocketConnectionStatus, code: Option<String>, r: Option<bool>)
    ensures
        ws_run(status, code, seq![WsEvent::ConnectRequested]) == (WebsocketConnectionStatus::Connecting, code),
        ws_run(status, code, seq![WsEvent::ConnectRequested, WsEvent::ConnectFinished(r)]) == (
            if r == Some(true) {
                WebsocketConnectionStatus::Connected
            } else {
                WebsocketConnectionStatus::Disconnected
            },
            code,
        ),
{
    reveal_with_fuel(ws_run, 3);
    assert(seq![WsEvent::ConnectRequested, WsEvent::ConnectFinished(r)].drop_last() =~= seq![WsEvent::ConnectRequested]);
    assert(seq![WsEvent::ConnectRequested].drop_last() =~= Seq::<WsEvent>::empty());
}

/// The link to the relay server.
pub struct WsState {
    pub status: WebsocketConnectionStatus,
    pub code: Option<String>,
}

/// Where the relay server listens.
pub const RELAY_URL: &'static str = "ws://localhost:8788/websocket";

impl WsState {
    pub fn new() -> (s: Self)
        ensures
            s.status == WebsocketConnectionStatus::Disconnected,
            s.code is None,
    {
        WsState { status: WebsocketConnectionStatus::Disconnected, code: None }
    }

    /// One step of the relay link. An event that ends the link asks for it
    /// to be closed; once it is, the link is disconnected without a code.
    pub fn step(&mut self, event: WsEvent) -> (action: WsAction)
        requires
            !(event matches WsEvent::Message(WsMessage::ClientError { .. })),
        ensures
            (final(self).status, final(self).code) == ws_next(old(self).status, old(self).code, event),
            ends_link(event) ==> action is Close,
            match event {
                WsEvent::ConnectRequested => final(self).status == WebsocketConnectionStatus::Connecting && final(self).code
                    == old(self).code && (action matches WsAction::Connect(u) && u@ == RELAY_URL@),
                WsEvent::ConnectFinished(r) => final(self).code == old(self).code && match r {
                    Some(true) => final(self).status == WebsocketConnectionStatus::Connected && (action matches WsAction::Notify(t, b) && t@ == "Remote connection"@ && b@ == "WebSocket connection established!"@),
                    Some(false) => final(self).status == WebsocketConnectionStatus::Disconnected && (action matches WsAction::Notify(t, b) && t@ == "Remote failed"@ && b@ == "WebSocket connection error"@),
                    None => final(self).status == WebsocketConnectionStatus::Disconnected && (action matches WsAction::Notify(t, b) && t@ == "Remote failed"@ && b@ == "Connection timed out after 15 seconds"@),
                },
                WsEvent::DisconnectRequested => final(self).status == WebsocketConnectionStatus::Disconnecting
                    && final(self).code == old(self).code,
                WsEvent::Message(WsMessage::Code { code }) => final(self).status == old(self).status && (final(self).code matches Some(c) && c@ == code@) && action is Nothing,
                WsEvent::Message(WsMessage::Offer { offer, client_id }) => final(self).status == old(self).status && final(self).code == old(self).code && (action matches WsAction::NewClient { offer: o, client_id: c } && o@ == offer@ && c@
                    == client_id@),
                WsEvent::OtherMessage => final(self).status == old(self).status && final(self).code == old(self).code
                    && action is Nothing,
                WsEvent::Closed => final(self).status == WebsocketConnectionStatus::Disconnected && final(self).code is None
                    && (action matches WsAction::Notify(t, b) && t@ == "Remote disconnected"@ && b@ == "WebSocket connection closed!"@),
                _ => final(self).status == old(self).status && final(self).code == old(self).code,
            },
    {
        match event {
            WsEvent::ConnectRequested => {
                self.status = WebsocketConnectionStatus::Connecting;
                WsAction::Connect(String::from_str(RELAY_URL))
            },
            WsEvent::ConnectFinished(r) => match r {
                Some(true) => {
                    self.status = WebsocketConnectionStatus::Connected;
                    WsAction::Notify(String::from_str("Remote connection"), String::from_str("WebSocket connection established!"))
                },
                Some(false) => {
                    self.status = WebsocketConnectionStatus::Disconnected;
                    WsAction::Notify(String::from_str("Remote failed"), String::from_str("WebSocket connection error"))
                },
                None => {
                    self.status = WebsocketConnectionStatus::Disconnected;
                    WsAction::Notify(String::from_str("Remote failed"), String::from_str("Connection timed out after 15 seconds"))
                },
            },
            WsEvent::DisconnectRequested => {
                self.status = WebsocketConnectionStatus::Disconnecting;
                WsAction::Close
            },
            WsEvent::Message(WsMessage::Code { code }) => {
                self.code = Some(code);
                WsAction::Nothing
            },
            WsEvent::Message(WsMessage::Offer { offer, client_id }) => WsAction::NewClient { offer, client_id },
            WsEvent::OtherMessage => WsAction::Nothing,
            WsEvent::Closed => {
                self.status = WebsocketConnectionStatus::Disconnected;
                self.code = None;
                WsAction::Notify(String::from_str("Remote disconnected"), String::from_str("WebSocket connection closed!"))
            },
            _ => WsAction::Close,
        }
    }
}

/// How many remote clients are connected.
pub fn alive_clients(connected: &Vec<bool>) -> (n: usize)
    ensures
        n == connected@.filter(|c: bool| c).len(),
{
    let ghost p = |c: bool| c;
    let mut n: usize = 0;
    let mut i: usize = 0;
    proof {
        assert(connected@.take(0) =~= Seq::<bool>::empty());
    }
    while i < connected.len()
        invariant
            i <= connected@.len(),
            p == (|c: bool| c),
            n == connected@.take(i as int).filter(p).len(),
            n <= i,
        decreases connected.len() - i,
    {
        proof {
            assert(connected@.take(i + 1) =~= connected@.take(i as int).push(connected@[i as int]));
            connected@.take(i as int).lemma_filter_push(connected@[i as int], p);
        }
        if connected[i] {
            n += 1;
        }
        i += 1;
    }
    proof {
        assert(connected@.take(i as int) =~= connected@);
    }
    n
}

/// The hardware encoder family.
#[derive(Clone, Copy, PartialEq, Eq, Structural, Debug)]
pub enum HwBackend {
    Vaapi,
    Vulkan,
}

impl Default for HwBackend {
    /// VA-API.
    fn default() -> (b: Self)
        ensures
            b == HwBackend::Vaapi,
    {
        HwBackend::Vaapi
    }
}

impl HwBackend {
    /// The ffmpeg pixel format name of the backend's frames.
    pub fn pix_fmt_name(self) -> (s: &'static str)
        ensures
            s@ == match self {
                HwBackend::Vaapi => "vaapi"@,
                HwBackend::Vulkan => "vulkan"@,
            },
    {
        match self {
            HwBackend::Vaapi => "vaapi",
            HwBackend::Vulkan => "vulkan",
        }
    }

    /// The ffmpeg filter that scales frames on the device, and its option.
    pub fn convert_filter(self) -> (f: (&'static str, &'static str))
        ensures
            f.0@ == match self {
                HwBackend::Vaapi => "scale_vaapi"@,
                HwBackend::Vulkan => "scale_vulkan"@,
            },
            f.1@ == "format=nv12"@,
    {
        match self {
            HwBackend::Vaapi => ("scale_vaapi", "format=nv12"),
            HwBackend::Vulkan => ("scale_vulkan", "format=nv12"),
        }
    }

    /// The ffmpeg H.264 encoder of the backend.
    pub fn encoder_name(self) -> (s: &'static str)
        ensures
            s@ == match self {
                HwBackend::Vaapi => "h264_vaapi"@,
                HwBackend::Vulkan => "h264_vulkan"@,
            },
    {
        match self {
            HwBackend::Vaapi => "h264_vaapi",
            HwBackend::Vulkan => "h264_vulkan",
        }
    }
}

/// How a stream is encoded.
pub struct EncoderOptions {
    pub backend: HwBackend,
    /// The render node to encode on; the default one when `None`.
    pub device: Option<String>,
    pub bitrate_bps: u32,
}

impl Default for EncoderOptions {
    /// The same as `EncoderOptions::new`.
    fn default() -> (o: Self)
        ensures
            o.backend == HwBackend::Vaapi,
            o.device is None,
            o.bitrate_bps == 0,
    {
        EncoderOptions::new()
    }
}

impl EncoderOptions {
    /// VA-API on the default device, bitrate unset.
    pub fn new() -> (o: Self)
        ensures
            o.backend == HwBackend::Vaapi,
            o.device is None,
            o.bitrate_bps == 0,
    {
        EncoderOptions { backend: HwBackend::Vaapi, device: None, bitrate_bps: 0 }
    }
}

} // verus!
