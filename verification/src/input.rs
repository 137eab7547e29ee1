use vstd::prelude::*;
use crate::random::random_u64_from;
use crate::seqs::{first_index, lemma_first_index, lemma_first_index_props};

verus! {

/// What kind of device a physical device is, from the keys it reports.
#[derive(Clone, Copy, PartialEq, Eq, Structural, Debug)]
pub enum DeviceType {
    Gamepad,
    Keyboard,
    Mouse,
    Other,
}

/// A navigation press read from a device for the launcher's own menus.
#[derive(Clone, Copy, PartialEq, Eq, Structural, Debug)]
pub enum PadButton {
    Left,
    Right,
    Up,
    Down,
    ABtn,
    BBtn,
    XBtn,
    YBtn,
    StartBtn,
    SelectBtn,
    AKey,
    RKey,
    XKey,
    ZKey,
    RightClick,
}

/// Which controllers the launcher offers to instances.
#[derive(Clone, Copy, PartialEq, Eq, Structural, Debug)]
pub enum PadFilterType {
    All,
    NoSteamInput,
    OnlySteamInput,
}

// Linux input event codes (include/uapi/linux/input-event-codes.h).
pub const BTN_LEFT: u16 = 0x110;
pub const BTN_RIGHT: u16 = 0x111;
pub const BTN_SOUTH: u16 = 0x130;
pub const BTN_EAST: u16 = 0x131;
pub const BTN_NORTH: u16 = 0x133;
pub const BTN_WEST: u16 = 0x134;
pub const BTN_TL: u16 = 0x136;
pub const BTN_TR: u16 = 0x137;
pub const BTN_TL2: u16 = 0x138;
pub const BTN_TR2: u16 = 0x139;
pub const BTN_SELECT: u16 = 0x13a;
pub const BTN_START: u16 = 0x13b;
pub const BTN_MODE: u16 = 0x13c;
pub const BTN_THUMBL: u16 = 0x13d;
pub const BTN_THUMBR: u16 = 0x13e;
pub const BTN_DPAD_UP: u16 = 0x220;
pub const BTN_DPAD_DOWN: u16 = 0x221;
pub const BTN_DPAD_LEFT: u16 = 0x222;
pub const BTN_DPAD_RIGHT: u16 = 0x223;
pub const ABS_X: u16 = 0x00;
pub const ABS_Y: u16 = 0x01;
pub const ABS_RX: u16 = 0x03;
pub const ABS_RY: u16 = 0x04;
pub const KEY_R: u16 = 19;
pub const KEY_A: u16 = 30;
pub const KEY_Z: u16 = 44;
pub const KEY_X: u16 = 45;
pub const KEY_SPACE: u16 = 57;
pub const ABS_HAT0X: u16 = 0x10;
pub const ABS_HAT0Y: u16 = 0x11;

/// Vendor ids that get a fixed display name.
pub const VENDOR_MICROSOFT: u16 = 0x045e;
pub const VENDOR_SONY: u16 = 0x054c;
pub const VENDOR_NINTENDO: u16 = 0x057e;
pub const VENDOR_VALVE: u16 = 0x28de;

/// One input event as the menus read it.
#[derive(Clone, Copy, PartialEq, Eq, Structural, Debug)]
pub enum InputEventSummary {
    Key { code: u16, value: i32 },
    AbsoluteAxis { code: u16, value: i32 },
    Other,
}

/// Which of the distinguishing keys a device reports; `has_keys` is false
/// when it reports no key set at all.
#[derive(Clone, Copy, PartialEq, Eq, Structural, Debug)]
pub struct KeyCaps {
    pub has_keys: bool,
    pub btn_south: bool,
    pub btn_left: bool,
    pub key_space: bool,
}

pub open spec fn spec_device_type(caps: KeyCaps) -> DeviceType {
    if !caps.has_keys {
        DeviceType::Other
    } else if caps.btn_south {
        DeviceType::Gamepad
    } else if caps.btn_left {
        DeviceType::Mouse
    } else if caps.key_space {
        DeviceType::Keyboard
    } else {
        DeviceType::Other
    }
}

pub open spec fn spec_emoji(t: DeviceType) -> Seq<char> {
    match t {
        DeviceType::Gamepad => "🎮"@,
        DeviceType::Keyboard => "🖮"@,
        DeviceType::Mouse => "🖱"@,
        DeviceType::Other => ""@,
    }
}

pub open spec fn spec_fancyname(vendor: u16, name: Seq<char>) -> Seq<char> {
    if vendor == VENDOR_MICROSOFT {
        "Xbox Controller"@
    } else if vendor == VENDOR_SONY {
        "PS Controller"@
    } else if vendor == VENDOR_NINTENDO {
        "NT Pro Controller"@
    } else if vendor == VENDOR_VALVE {
        "Steam Input"@
    } else {
        name
    }
}

pub open spec fn spec_enabled(vendor: u16, filter: PadFilterType) -> bool {
    match filter {
        PadFilterType::All => true,
        PadFilterType::NoSteamInput => vendor != VENDOR_VALVE,
        PadFilterType::OnlySteamInput => vendor == VENDOR_VALVE,
    }
}

/// `s` with every leading copy of `prefix` removed.
pub open spec fn trim_start_all(s: Seq<char>, prefix: Seq<char>) -> Seq<char>
    decreases s.len(),
{
    if prefix.len() > 0 && prefix.len() <= s.len() && s.take(prefix.len() as int) == prefix {
        trim_start_all(s.skip(prefix.len() as int), prefix)
    } else {
        s
    }
}

pub open spec fn event_prefix() -> Seq<char> {
    "/dev/input/event"@
}

/// The menu button an event stands for, if any.
pub open spec fn pad_button_of(e: InputEventSummary) -> Option<PadButton> {
    match e {
        InputEventSummary::Key { code, value } => if value != 1 {
            None
        } else if code == BTN_SOUTH {
            Some(PadButton::ABtn)
        } else if code == BTN_EAST {
            Some(PadButton::BBtn)
        } else if code == BTN_NORTH {
            Some(PadButton::XBtn)
        } else if code == BTN_WEST {
            Some(PadButton::YBtn)
        } else if code == BTN_START {
            Some(PadButton::StartBtn)
        } else if code == BTN_SELECT {
            Some(PadButton::SelectBtn)
        } else if code == KEY_A {
            Some(PadButton::AKey)
        } else if code == KEY_R {
            Some(PadButton::RKey)
        } else if code == KEY_X {
            Some(PadButton::XKey)
        } else if code == KEY_Z {
            Some(PadButton::ZKey)
        } else if code == BTN_RIGHT {
            Some(PadButton::RightClick)
        } else {
            None
        },
        InputEventSummary::AbsoluteAxis { code, value } => if code == ABS_HAT0X && value == -1 {
            Some(PadButton::Left)
        } else if code == ABS_HAT0X && value == 1 {
            Some(PadButton::Right)
        } else if code == ABS_HAT0Y && value == -1 {
            Some(PadButton::Up)
        } else if code == ABS_HAT0Y && value == 1 {
            Some(PadButton::Down)
        } else {
            None
        },
        InputEventSummary::Other => None,
    }
}

/// The D-pad as a hat: Linux counts its x axis rightwards and its y axis
/// downwards, so -1 on the y hat is up and 1 is down, -1 on the x hat is
/// left and 1 is right; other hat values, and every other axis, press
/// nothing. Only a key going down (value 1) is a press.
pub proof fn lemma_dpad_directions(code: u16, value: i32)
    ensures
        pad_button_of(InputEventSummary::AbsoluteAxis { code: ABS_HAT0Y, value: -1i32 }) == Some(PadButton::Up),
        pad_button_of(InputEventSummary::AbsoluteAxis { code: ABS_HAT0Y, value: 1 }) == Some(PadButton::Down),
        pad_button_of(InputEventSummary::AbsoluteAxis { code: ABS_HAT0X, value: -1i32 }) == Some(PadButton::Left),
        pad_button_of(InputEventSummary::AbsoluteAxis { code: ABS_HAT0X, value: 1 }) == Some(PadButton::Right),
        (code != ABS_HAT0X && code != ABS_HAT0Y) || (value != -1 && value != 1) ==> pad_button_of(
            InputEventSummary::AbsoluteAxis { code, value },
        ) is None,
        value != 1 ==> pad_button_of(InputEventSummary::Key { code, value }) is None,
        pad_button_of(InputEventSummary::Key { code: BTN_SOUTH, value: 1 }) == Some(PadButton::ABtn),
        pad_button_of(InputEventSummary::Key { code: BTN_EAST, value: 1 }) == Some(PadButton::BBtn),
        pad_button_of(InputEventSummary::Key { code: BTN_NORTH, value: 1 }) == Some(PadButton::XBtn),
        pad_button_of(InputEventSummary::Key { code: BTN_WEST, value: 1 }) == Some(PadButton::YBtn),
        pad_button_of(InputEventSummary::Key { code: BTN_START, value: 1 }) == Some(PadButton::StartBtn),
        pad_button_of(InputEventSummary::Key { code: BTN_SELECT, value: 1 }) == Some(PadButton::SelectBtn),
        pad_button_of(InputEventSummary::Key { code: KEY_A, value: 1 }) == Some(PadButton::AKey),
        pad_button_of(InputEventSummary::Key { code: KEY_R, value: 1 }) == Some(PadButton::RKey),
        pad_button_of(InputEventSummary::Key { code: KEY_X, value: 1 }) == Some(PadButton::XKey),
        pad_button_of(InputEventSummary::Key { code: KEY_Z, value: 1 }) == Some(PadButton::ZKey),
        pad_button_of(InputEventSummary::Key { code: BTN_RIGHT, value: 1 }) == Some(PadButton::RightClick),
{
}

/// After a batch whose last event is a D-pad press, the menus read that
/// direction, whatever came before: up for -1 on the y hat, down for 1.
pub proof fn lemma_last_dpad_press_wins(events: Seq<InputEventSummary>, start: Option<PadButton>, value: i32)
    requires
        events.len() > 0,
        events.last() == (InputEventSummary::AbsoluteAxis { code: ABS_HAT0Y, value }),
        value == -1 || value == 1,
    ensures
        last_pad_button(events, start) == Some(if value == -1 { PadButton::Up } else { PadButton::Down }),
{
}

/// The last menu press among `events`, or `start` when there is none.
pub open spec fn last_pad_button(events: Seq<InputEventSummary>, start: Option<PadButton>) -> Option<PadButton>
    decreases events.len(),
{
    if events.len() == 0 {
        start
    } else {
        match pad_button_of(events.last()) {
            Some(b) => Some(b),
            None => last_pad_button(events.drop_last(), start),
        }
    }
}

/// Whether a key is held after `events`, starting from `start`: a press sets
/// it and a release clears it.
pub open spec fn held_after(events: Seq<InputEventSummary>, start: bool) -> bool
    decreases events.len(),
{
    if events.len() == 0 {
        start
    } else {
        match events.last() {
            InputEventSummary::Key { value, .. } => if value == 1 {
                true
            } else if value == 0 {
                false
            } else {
                held_after(events.drop_last(), start)
            },
            _ => held_after(events.drop_last(), start),
        }
    }
}

/// A physical device the launcher can read.
pub struct InternalDevice {
    pub hash: u64,
    pub device_id: Option<u64>,
    pub path: String,
    pub name: String,
    pub vendor: u16,
    pub caps: KeyCaps,
    pub has_button_held: bool,
    pub latest_gui_pad: Option<PadButton>,
}

impl InternalDevice {
    pub open spec fn spec_has_button_held(&self) -> bool {
        self.has_button_held
    }

    pub open spec fn spec_latest_gui_pad(&self) -> Option<PadButton> {
        self.latest_gui_pad
    }

    /// A newly seen device, bound to no target yet.
    pub fn new(path: String, name: String, vendor: u16, caps: KeyCaps, hash: u64) -> (d: Self)
        ensures
            d.path == path,
            d.name == name,
            d.vendor == vendor,
            d.caps == caps,
            d.hash == hash,
            d.device_id is None,
            !d.spec_has_button_held(),
            d.spec_latest_gui_pad() is None,
    {
        InternalDevice {
            hash,
            device_id: None,
            path,
            name,
            vendor,
            caps,
            has_button_held: false,
            latest_gui_pad: None,
        }
    }

    pub fn copy(&self) -> (d: Self)
        ensures
            d == *self,
    {
        InternalDevice {
            hash: self.hash,
            device_id: self.device_id,
            path: self.path.clone(),
            name: self.name.clone(),
            vendor: self.vendor,
            caps: self.caps,
            has_button_held: self.has_button_held,
            latest_gui_pad: self.latest_gui_pad,
        }
    }

    pub fn name(&self) -> (res: String)
        ensures
            res@ == self.name@,
    {
        self.name.clone()
    }

    pub fn device_type(&self) -> (res: DeviceType)
        ensures
            res == spec_device_type(self.caps),
    {
        if !self.caps.has_keys {
            DeviceType::Other
        } else if self.caps.btn_south {
            DeviceType::Gamepad
        } else if self.caps.btn_left {
            DeviceType::Mouse
        } else if self.caps.key_space {
            DeviceType::Keyboard
        } else {
            DeviceType::Other
        }
    }

    pub fn emoji(&self) -> (res: String)
        ensures
            res@ == spec_emoji(spec_device_type(self.caps)),
    {
        match self.device_type() {
            DeviceType::Gamepad => String::from_str("🎮"),
            DeviceType::Keyboard => String::from_str("🖮"),
            DeviceType::Mouse => String::from_str("🖱"),
            DeviceType::Other => String::from_str(""),
        }
    }

    pub fn fancyname(&self) -> (res: String)
        ensures
            res@ == spec_fancyname(self.vendor, self.name@),
    {
        if self.vendor == VENDOR_MICROSOFT {
            String::from_str("Xbox Controller")
        } else if self.vendor == VENDOR_SONY {
            String::from_str("PS Controller")
        } else if self.vendor == VENDOR_NINTENDO {
            String::from_str("NT Pro Controller")
        } else if self.vendor == VENDOR_VALVE {
            String::from_str("Steam Input")
        } else {
            self.name.clone()
        }
    }

    pub fn path(&self) -> (res: &str)
        ensures
            res@ == self.path@,
    {
        self.path.as_str()
    }

    /// `"<emoji> <name> (<event number>)"`.
    pub fn label(&self) -> (res: String)
        ensures
            res@ == spec_emoji(spec_device_type(self.caps)) + " "@ + spec_fancyname(self.vendor, self.name@)
                + " ("@ + trim_start_all(self.path@, event_prefix()) + ")"@,
    {
        let mut res = self.emoji();
        res.append(" ");
        let fancy = self.fancyname();
        res.append(fancy.as_str());
        res.append(" (");
        let id = trim_start_matches_all(self.path.as_str(), "/dev/input/event");
        res.append(id.as_str());
        res.append(")");
        res
    }

    pub fn enabled(&self, filter: &PadFilterType) -> (res: bool)
        ensures
            res == spec_enabled(self.vendor, *filter),
    {
        match filter {
            PadFilterType::All => true,
            PadFilterType::NoSteamInput => self.vendor != VENDOR_VALVE,
            PadFilterType::OnlySteamInput => self.vendor == VENDOR_VALVE,
        }
    }

    /// Reads a batch of events for the launcher's menus: a key press marks a
    /// button as held and a release clears it; the last menu press of the
    /// batch is kept, or none when the batch has none.
    pub fn gui_poll(&mut self, events: Vec<InputEventSummary>)
        ensures
            final(self).spec_has_button_held() == held_after(events@, old(self).spec_has_button_held()),
            final(self).spec_latest_gui_pad() == last_pad_button(events@, None),
            final(self).hash == old(self).hash,
            final(self).device_id == old(self).device_id,
            final(self).path == old(self).path,
            final(self).name == old(self).name,
            final(self).vendor == old(self).vendor,
            final(self).caps == old(self).caps,
    {
        let mut btn: Option<PadButton> = None;
        let mut i: usize = 0;
        while i < events.len()
            invariant
                i <= events.len(),
                btn == last_pad_button(events@.take(i as int), None),
                self.has_button_held == held_after(events@.take(i as int), old(self).has_button_held),
                self.hash == old(self).hash,
                self.device_id == old(self).device_id,
                self.path == old(self).path,
                self.name == old(self).name,
                self.vendor == old(self).vendor,
                self.caps == old(self).caps,
            decreases events.len() - i,
        {
            let event = events[i];
            proof {
                assert(events@.take(i + 1).drop_last() =~= events@.take(i as int));
                assert(events@.take(i + 1).last() == event);
            }
            match event {
                InputEventSummary::Key { value, .. } => {
                    if value == 1 {
                        self.has_button_held = true;
                    } else if value == 0 {
                        self.has_button_held = false;
                    }
                },
                _ => {},
            }
            match pad_button(event) {
                Some(b) => {
                    btn = Some(b);
                },
                None => {},
            }
            i += 1;
        }
        proof {
            assert(events@.take(events@.len() as int) =~= events@);
        }
        self.latest_gui_pad = btn;
    }

    pub fn has_button_held(&self) -> (res: bool)
        ensures
            res == self.spec_has_button_held(),
    {
        self.has_button_held
    }

    pub fn latest_gui_pad(&self) -> (res: Option<PadButton>)
        ensures
            res == self.spec_latest_gui_pad(),
    {
        self.latest_gui_pad
    }
}

fn pad_button(e: InputEventSummary) -> (res: Option<PadButton>)
    ensures
        res == pad_button_of(e),
{
    match e {
        InputEventSummary::Key { code, value } => {
            if value != 1 {
                None
            } else if code == BTN_SOUTH {
                Some(PadButton::ABtn)
            } else if code == BTN_EAST {
                Some(PadButton::BBtn)
            } else if code == BTN_NORTH {
                Some(PadButton::XBtn)
            } else if code == BTN_WEST {
                Some(PadButton::YBtn)
            } else if code == BTN_START {
                Some(PadButton::StartBtn)
            } else if code == BTN_SELECT {
                Some(PadButton::SelectBtn)
            } else if code == KEY_A {
                Some(PadButton::AKey)
            } else if code == KEY_R {
                Some(PadButton::RKey)
            } else if code == KEY_X {
                Some(PadButton::XKey)
            } else if code == KEY_Z {
                Some(PadButton::ZKey)
            } else if code == BTN_RIGHT {
                Some(PadButton::RightClick)
            } else {
                None
            }
        },
        InputEventSummary::AbsoluteAxis { code, value } => {
            if code == ABS_HAT0X && value == -1 {
                Some(PadButton::Left)
            } else if code == ABS_HAT0X && value == 1 {
                Some(PadButton::Right)
            } else if code == ABS_HAT0Y && value == -1 {
                Some(PadButton::Up)
            } else if code == ABS_HAT0Y && value == 1 {
                Some(PadButton::Down)
            } else {
                None
            }
        },
        InputEventSummary::Other => None,
    }
}

/// `s` with every leading copy of `prefix` removed.
pub fn trim_start_matches_all(s: &str, prefix: &str) -> (res: String)
    ensures
        res@ == trim_start_all(s@, prefix@),
{
    let s_len = s.unicode_len();
    let p_len = prefix.unicode_len();
    let mut start: usize = 0;
    let ghost s_view = s@;
    let ghost p_view = prefix@;
    proof {
        assert(s_view.skip(0) =~= s_view);
    }
    loop
        invariant
            s_len == s_view.len(),
            p_len == p_view.len(),
            s_view == s@,
            p_view == prefix@,
            start <= s_len,
            trim_start_all(s_view, p_view) == trim_start_all(s_view.skip(start as int), p_view),
        ensures
            start <= s_len,
            trim_start_all(s_view, p_view) == s_view.skip(start as int),
        decreases s_len - start,
    {
        if p_len == 0 || s_len - start < p_len {
            proof {
                let rest = s_view.skip(start as int);
                assert(trim_start_all(rest, p_view) == rest);
            }
            break;
        }
        let mut k: usize = 0;
        let mut same = true;
        while k < p_len
            invariant
                k <= p_len,
                start + p_len <= s_len,
                s_len == s_view.len(),
                p_len == p_view.len(),
                s_view == s@,
                p_view == prefix@,
                same == (forall|m: int| 0 <= m < k ==> s_view[start + m] == p_view[m]),
            decreases p_len - k,
        {
            if s.get_char(start + k) != prefix.get_char(k) {
                same = false;
            }
            k += 1;
        }
        let ghost rest = s_view.skip(start as int);
        proof {
            if same {
                assert(rest.take(p_len as int) =~= p_view);
                assert(rest.skip(p_len as int) =~= s_view.skip(start + p_len));
            } else {
                assert(rest.take(p_len as int) != p_view) by {
                    let m = choose|m: int| 0 <= m < p_len && s_view[start + m] != p_view[m];
                    assert(rest.take(p_len as int)[m] == s_view[start + m]);
                }
            }
        }
        if !same {
            proof {
                assert(trim_start_all(rest, p_view) == rest);
            }
            break;
        }
        start = start + p_len;
    }
    let out = s.substring_char(start, s_len);
    proof {
        assert(out@ =~= s_view.skip(start as int));
    }
    String::from_str(out)
}

/// One lease holder of a target device and whether it wants the device
/// grabbed.
#[derive(Clone, Copy, PartialEq, Eq, Structural, Debug)]
pub struct TargetUser {
    pub user_id: u64,
    pub grabbed: bool,
}

/// A logical device that instances hold leases on; at most one physical
/// device feeds it at a time.
pub struct TargetDevice {
    pub users: Vec<TargetUser>,
    pub target_name: String,
    pub target_hash: u64,
    pub device_id: u64,
    pub grabbed: bool,
}

/// The contents of a target device.
pub struct TargetView {
    pub users: Seq<TargetUser>,
    pub target_name: Seq<char>,
    pub target_hash: u64,
    pub device_id: u64,
    pub grabbed: bool,
}

impl View for TargetDevice {
    type V = TargetView;

    open spec fn view(&self) -> TargetView {
        TargetView {
            users: self.users@,
            target_name: self.target_name@,
            target_hash: self.target_hash,
            device_id: self.device_id,
            grabbed: self.grabbed,
        }
    }
}

pub open spec fn tviews(ts: Seq<TargetDevice>) -> Seq<TargetView> {
    ts.map_values(|t: TargetDevice| t@)
}

impl TargetDevice {
    /// A target with no users that is not grabbed.
    pub fn new(target_name: String, target_hash: u64, device_id: u64) -> (t: Self)
        ensures
            t@ == (TargetView { users: Seq::empty(), target_name: target_name@, target_hash, device_id, grabbed: false }),
    {
        let t = TargetDevice { users: Vec::new(), target_name, target_hash, device_id, grabbed: false };
        proof {
            assert(t.users@ =~= Seq::<TargetUser>::empty());
        }
        t
    }

    pub fn grabbed(&self) -> (res: bool)
        ensures
            res == self.grabbed,
    {
        self.grabbed
    }
}

/// What the caller must do after the device table changed.
#[derive(PartialEq, Eq, Debug)]
pub enum InputAction {
    /// The device at `path` now feeds target `device_id`: tell its users the
    /// device was added.
    Promote { path: String, device_id: u64 },
    /// The device at `path` that fed target `device_id` is gone: tell its
    /// users the device was removed.
    Demote { path: String, device_id: u64 },
    /// Grab or release the device at `path`.
    SetGrab { path: String, grab: bool },
}

pub open spec fn has_target(ts: Seq<TargetView>, id: u64) -> bool {
    exists|k: int| 0 <= k < ts.len() && ts[k].device_id == id
}

pub open spec fn is_bound_id(devs: Seq<InternalDevice>, id: u64) -> bool {
    exists|k: int| 0 <= k < devs.len() && devs[k].device_id == Some(id)
}

pub open spec fn users_pred() -> spec_fn(TargetView) -> bool {
    |t: TargetView| t.users.len() > 0
}

/// Targets that still have users, in order.
pub open spec fn kept_targets(ts: Seq<TargetView>) -> Seq<TargetView> {
    ts.filter(users_pred())
}

pub open spec fn id_is(id: u64) -> spec_fn(TargetView) -> bool {
    |t: TargetView| t.device_id == id
}

pub open spec fn path_is(path: Seq<char>) -> spec_fn(InternalDevice) -> bool {
    |d: InternalDevice| d.path@ == path
}

/// A target the device could be promoted to: one nobody was bound to when the
/// table was fixed, with the device's hash.
pub open spec fn promotable(devs0: Seq<InternalDevice>, hash: u64) -> spec_fn(TargetView) -> bool {
    |t: TargetView| !is_bound_id(devs0, t.device_id) && t.target_hash == hash
}

/// The binding a device keeps: its target if that target still exists.
pub open spec fn kept_binding(d: InternalDevice, ts: Seq<TargetView>) -> Option<u64> {
    match d.device_id {
        Some(id) => if has_target(ts, id) {
            Some(id)
        } else {
            None
        },
        None => None,
    }
}

/// The binding a device has after the table is fixed.
pub open spec fn rebind(d: InternalDevice, ts: Seq<TargetView>, devs0: Seq<InternalDevice>) -> Option<u64> {
    match kept_binding(d, ts) {
        Some(id) => Some(id),
        None => match first_index(ts, promotable(devs0, d.hash)) {
            Some(j) => Some(ts[j].device_id),
            None => None,
        },
    }
}

/// The grab state of the first target with id `id`.
pub open spec fn grabbed_of(ts: Seq<TargetView>, id: u64) -> bool {
    match first_index(ts, id_is(id)) {
        Some(j) => ts[j].grabbed,
        None => false,
    }
}

/// What fixing the table asks of the caller for one device.
pub open spec fn device_actions(d: InternalDevice, ts: Seq<TargetView>, devs0: Seq<InternalDevice>) -> Seq<InputAction> {
    let promoted: Seq<InputAction> = if kept_binding(d, ts) is None && rebind(d, ts, devs0) is Some {
        seq![InputAction::Promote { path: d.path, device_id: rebind(d, ts, devs0)->0 }]
    } else {
        Seq::empty()
    };
    let grab: Seq<InputAction> = match rebind(d, ts, devs0) {
        Some(id) => seq![InputAction::SetGrab { path: d.path, grab: grabbed_of(ts, id) }],
        None => Seq::empty(),
    };
    promoted + grab
}

/// Whether any user of a target wants it grabbed.
pub open spec fn any_user_grabbed(t: TargetView) -> bool {
    exists|k: int| 0 <= k < t.users.len() && t.users[k].grabbed
}

/// What fixing the table asks of the caller for one target: when its grab
/// state changes, every device is grabbed or released to match.
pub open spec fn target_actions(t: TargetView, devs: Seq<InternalDevice>) -> Seq<InputAction> {
    if any_user_grabbed(t) != t.grabbed {
        devs.map_values(|d: InternalDevice| InputAction::SetGrab { path: d.path, grab: any_user_grabbed(t) })
    } else {
        Seq::empty()
    }
}

proof fn lemma_filter_keeps_all<A>(s: Seq<A>, p: spec_fn(A) -> bool)
    requires
        forall|i: int| 0 <= i < s.len() ==> p(#[trigger] s[i]),
    ensures
        s.filter(p) == s,
    decreases s.len(),
{
    reveal(Seq::filter);
    if s.len() > 0 {
        lemma_filter_keeps_all(s.drop_last(), p);
        assert(s.drop_last().push(s.last()) =~= s);
    }
}

/// Fixing a table that was just fixed changes nothing: the targets and the
/// bindings of the devices stay as they are.
pub proof fn lemma_fix_is_idempotent(devs: Seq<InternalDevice>, ts: Seq<TargetView>)
    ensures
        fixed_targets(fixed_targets(ts)) == fixed_targets(ts),
        fixed_devices(fixed_devices(devs, ts), fixed_targets(ts)) == fixed_devices(devs, ts),
{
    broadcast use vstd::seq_lib::group_filter_ensures;

    let kept = kept_targets(ts);
    let ts1 = fixed_targets(ts);
    let devs1 = fixed_devices(devs, ts);
    assert forall|i: int| 0 <= i < ts1.len() implies #[trigger] users_pred()(ts1[i]) by {
        assert(users_pred()(kept[i]));
    }
    lemma_filter_keeps_all(ts1, users_pred());
    assert(kept_targets(ts1) == ts1);
    assert(fixed_targets(ts1) =~= ts1);
    assert forall|id: u64| has_target(kept, id) <==> has_target(ts1, id) by {
        if has_target(kept, id) {
            let j = choose|j: int| 0 <= j < kept.len() && kept[j].device_id == id;
            assert(ts1[j].device_id == id);
        }
        if has_target(ts1, id) {
            let j = choose|j: int| 0 <= j < ts1.len() && ts1[j].device_id == id;
            assert(kept[j].device_id == id);
        }
    }
    assert forall|k: int| 0 <= k < devs1.len() implies rebind(#[trigger] devs1[k], ts1, devs1) == devs1[k].device_id by {
        let d = devs[k];
        let d1 = devs1[k];
        lemma_first_index_props(kept, promotable(devs, d.hash));
        match d1.device_id {
            Some(id) => {
                match kept_binding(d, kept) {
                    Some(_) => {},
                    None => {
                        let j = first_index(kept, promotable(devs, d.hash))->0;
                        assert(kept[j].device_id == id);
                    },
                }
                assert(has_target(kept, id));
            },
            None => {
                lemma_first_index_props(ts1, promotable(devs1, d1.hash));
                assert forall|j: int| 0 <= j < ts1.len() implies !#[trigger] promotable(devs1, d1.hash)(ts1[j]) by {
                    assert(!promotable(devs, d.hash)(kept[j]));
                    if is_bound_id(devs, kept[j].device_id) {
                        let id = kept[j].device_id;
                        let e = choose|e: int| 0 <= e < devs.len() && devs[e].device_id == Some(id);
                        assert(has_target(kept, id));
                        assert(kept_binding(devs[e], kept) == Some(id));
                        assert(devs1[e].device_id == Some(id));
                        assert(is_bound_id(devs1, id));
                    }
                }
            },
        }
    }
    assert(fixed_devices(devs1, ts1) =~= devs1);
}

/// What a fixed table looks like: every target left has a user and is
/// grabbed exactly when one of its users wants it, with its users unchanged;
/// every bound device points at a target left; the devices are the same
/// ones, only their bindings changed.
pub proof fn lemma_fixed_table_invariants(devs: Seq<InternalDevice>, ts: Seq<TargetView>)
    ensures
        fixed_targets(ts).len() == kept_targets(ts).len(),
        forall|j: int| 0 <= j < fixed_targets(ts).len() ==> {
            let t = #[trigger] fixed_targets(ts)[j];
            &&& t.users.len() > 0
            &&& t.grabbed == any_user_grabbed(t)
            &&& t.users == kept_targets(ts)[j].users
            &&& t.device_id == kept_targets(ts)[j].device_id
        },
        fixed_devices(devs, ts).len() == devs.len(),
        forall|k: int| 0 <= k < devs.len() ==> {
            let d = #[trigger] fixed_devices(devs, ts)[k];
            &&& d.path == devs[k].path
            &&& d.hash == devs[k].hash
            &&& (d.device_id matches Some(id) ==> has_target(fixed_targets(ts), id))
        },
{
    broadcast use vstd::seq_lib::group_filter_ensures;

    let kept = kept_targets(ts);
    let ts1 = fixed_targets(ts);
    assert forall|j: int| 0 <= j < ts1.len() implies (#[trigger] ts1[j]).users.len() > 0 by {
        assert(users_pred()(kept[j]));
    }
    assert forall|k: int| 0 <= k < devs.len() implies ((#[trigger] fixed_devices(devs, ts)[k]).device_id matches Some(id)
        ==> has_target(ts1, id)) by {
        let d = devs[k];
        lemma_first_index_props(kept, promotable(devs, d.hash));
        if let Some(id) = fixed_devices(devs, ts)[k].device_id {
            let j = match kept_binding(d, kept) {
                Some(_) => choose|j: int| 0 <= j < kept.len() && kept[j].device_id == id,
                None => first_index(kept, promotable(devs, d.hash))->0,
            };
            assert(ts1[j].device_id == id);
        }
    }
}

/// The device/target table with the lease state of every target.
pub struct InputStateInner {
    pub devices: Vec<InternalDevice>,
    pub targets: Vec<TargetDevice>,
}

/// Device table after fixing: same devices, rebound.
pub open spec fn fixed_devices(devs: Seq<InternalDevice>, ts: Seq<TargetView>) -> Seq<InternalDevice> {
    let kept = kept_targets(ts);
    devs.map_values(|d: InternalDevice| InternalDevice { device_id: rebind(d, kept, devs), ..d })
}

/// Target table after fixing: targets without users dropped, and each grabbed
/// exactly when one of its users wants it.
pub open spec fn fixed_targets(ts: Seq<TargetView>) -> Seq<TargetView> {
    kept_targets(ts).map_values(|t: TargetView| TargetView { grabbed: any_user_grabbed(t), ..t })
}

/// The actions fixing the table produces, in order: per device, then per
/// target.
pub open spec fn fix_actions(devs: Seq<InternalDevice>, ts: Seq<TargetView>) -> Seq<InputAction> {
    let kept = kept_targets(ts);
    let new_devs = fixed_devices(devs, ts);
    Seq::new(devs.len(), |k: int| device_actions(devs[k], kept, devs)).flatten()
        + Seq::new(kept.len(), |j: int| target_actions(kept[j], new_devs)).flatten()
}

/// Position of the device with this path.
pub open spec fn device_position(devs: Seq<InternalDevice>, path: Seq<char>) -> Option<int> {
    first_index(devs, path_is(path))
}

/// The device table after adding `dev`, which replaces a device at the same
/// path.
pub open spec fn devices_with(devs: Seq<InternalDevice>, dev: InternalDevice) -> Seq<InternalDevice> {
    match device_position(devs, dev.path@) {
        Some(k) => devs.update(k, dev),
        None => devs.push(dev),
    }
}

/// The device table after removing the device at `path`.
pub open spec fn devices_without(devs: Seq<InternalDevice>, path: Seq<char>) -> Seq<InternalDevice> {
    match device_position(devs, path) {
        Some(k) => devs.remove(k),
        None => devs,
    }
}

/// What removing the device at `path` asks of the caller before the table is
/// fixed: the users of the target it fed are told it is gone.
pub open spec fn removal_actions(devs: Seq<InternalDevice>, ts: Seq<TargetView>, path: Seq<char>) -> Seq<InputAction> {
    match device_position(devs, path) {
        Some(k) => match devs[k].device_id {
            Some(id) => if has_target(ts, id) {
                seq![InputAction::Demote { path: devs[k].path, device_id: id }]
            } else {
                Seq::empty()
            },
            None => Seq::empty(),
        },
        None => Seq::empty(),
    }
}

impl InputStateInner {
    pub open spec fn targets_view(&self) -> Seq<TargetView> {
        tviews(self.targets@)
    }

    /// Device ids are nonzero, both on devices and on targets.
    pub open spec fn wf(&self) -> bool {
        &&& forall|k: int| 0 <= k < self.devices@.len() ==> ((#[trigger] self.devices@[k]).device_id matches Some(id) ==> id >= 1)
        &&& forall|j: int| 0 <= j < self.targets@.len() ==> (#[trigger] self.targets@[j]).device_id >= 1
    }

    pub fn new() -> (s: Self)
        ensures
            s.wf(),
            s.devices@.len() == 0,
            s.targets_view().len() == 0,
    {
        InputStateInner { devices: Vec::new(), targets: Vec::new() }
    }

    fn find_target(&self, id: u64) -> (res: Option<usize>)
        ensures
            match res {
                Some(j) => first_index(self.targets_view(), id_is(id)) == Some(j as int) && j < self.targets@.len()
                    && self.targets@[j as int].device_id == id,
                None => first_index(self.targets_view(), id_is(id)) is None,
            },
            (res is Some) == has_target(self.targets_view(), id),
    {
        let ghost tv = self.targets_view();
        let ghost p = id_is(id);
        let mut j: usize = 0;
        while j < self.targets.len()
            invariant
                j <= self.targets@.len(),
                tv == self.targets_view(),
                p == id_is(id),
                forall|k: int| 0 <= k < j ==> !p(#[trigger] tv[k]),
            decreases self.targets.len() - j,
        {
            if self.targets[j].device_id == id {
                proof {
                    assert(tv[j as int].device_id == id);
                    lemma_first_index(tv, p, j as int);
                }
                return Some(j);
            }
            j += 1;
        }
        proof {
            lemma_first_index(tv, p, j as int);
        }
        None
    }

    /// Rebinds devices to targets after leases or devices changed: targets
    /// without users are dropped, a device whose target is gone is unbound,
    /// an unbound device is bound to the first target nobody was bound to
    /// with the same hash, and every target is grabbed exactly when one of
    /// its users wants it. Returns what the caller must do, in order.
    pub fn fix_users(&mut self) -> (actions: Vec<InputAction>)
        ensures
            final(self).devices@ == fixed_devices(old(self).devices@, old(self).targets_view()),
            final(self).targets_view() == fixed_targets(old(self).targets_view()),
            actions@ == fix_actions(old(self).devices@, old(self).targets_view()),
            old(self).wf() ==> final(self).wf(),
    {
        let ghost devs0 = self.devices@;
        let ghost ts0 = self.targets_view();
        let mut bound: Vec<Option<u64>> = Vec::new();
        let mut i: usize = 0;
        while i < self.devices.len()
            invariant
                i <= self.devices@.len(),
                self.devices@ == devs0,
                bound@.len() == i,
                forall|k: int| 0 <= k < i ==> #[trigger] bound@[k] == devs0[k].device_id,
            decreases self.devices.len() - i,
        {
            bound.push(self.devices[i].device_id);
            i += 1;
        }
        let ghost was_wf = old(self).wf();
        self.retain_targets_with_users();
        let ghost kept = self.targets_view();
        proof {
            if was_wf {
                assert forall|j: int| 0 <= j < kept.len() implies (#[trigger] kept[j]).device_id >= 1 by {
                    assert(ts0.filter(users_pred()).contains(kept[j]));
                    ts0.lemma_filter_contains_rev(users_pred(), kept[j]);
                    let m = choose|m: int| 0 <= m < ts0.len() && ts0[m] == kept[j];
                    assert(ts0[m] == old(self).targets@[m]@);
                }
            }
        }
        let mut actions: Vec<InputAction> = Vec::new();
        let mut i: usize = 0;
        while i < self.devices.len()
            invariant
                i <= self.devices@.len(),
                self.devices@.len() == devs0.len(),
                self.targets_view() == kept,
                kept == kept_targets(ts0),
                was_wf ==> forall|j: int| 0 <= j < kept.len() ==> (#[trigger] kept[j]).device_id >= 1,
                was_wf ==> forall|k: int| 0 <= k < devs0.len() ==> ((#[trigger] devs0[k]).device_id matches Some(id) ==> id >= 1),
                bound@.len() == devs0.len(),
                forall|k: int| 0 <= k < devs0.len() ==> #[trigger] bound@[k] == devs0[k].device_id,
                forall|k: int| 0 <= k < i ==> #[trigger] self.devices@[k] == (InternalDevice { device_id: rebind(devs0[k], kept, devs0), ..devs0[k] }),
                forall|k: int| i <= k < devs0.len() ==> #[trigger] self.devices@[k] == devs0[k],
                was_wf ==> forall|k: int| 0 <= k < i ==> ((#[trigger] self.devices@[k]).device_id matches Some(id) ==> id >= 1),
                actions@ == Seq::new(i as nat, |k: int| device_actions(devs0[k], kept, devs0)).flatten(),
            decreases self.devices.len() - i,
        {
            let ghost d0 = devs0[i as int];
            let mut new_id: Option<u64> = None;
            match self.devices[i].device_id {
                Some(id) => {
                    if self.find_target(id).is_some() {
                        new_id = Some(id);
                    }
                },
                None => {},
            }
            assert(new_id == kept_binding(d0, kept));
            let mut promoted: Option<u64> = None;
            if new_id.is_none() {
                let hash = self.devices[i].hash;
                let ghost p = promotable(devs0, hash);
                let mut j: usize = 0;
                while j < self.targets.len() && promoted.is_none()
                    invariant
                        j <= self.targets@.len(),
                        self.targets_view() == kept,
                        hash == d0.hash,
                        p == promotable(devs0, hash),
                        bound@.len() == devs0.len(),
                        forall|k: int| 0 <= k < devs0.len() ==> #[trigger] bound@[k] == devs0[k].device_id,
                        forall|k: int| 0 <= k < j ==> !p(#[trigger] kept[k]),
                        promoted is Some ==> j < kept.len() && p(kept[j as int]) && promoted == Some(kept[j as int].device_id),
                    decreases self.targets.len() - j + (if promoted is None { 1int } else { 0int }),
                {
                    let tid = self.targets[j].device_id;
                    let is_bound = bound_contains(&bound, tid);
                    proof {
                        assert(kept[j as int].device_id == tid);
                        if !is_bound && is_bound_id(devs0, tid) {
                            let k = choose|k: int| 0 <= k < devs0.len() && devs0[k].device_id == Some(tid);
                            assert(bound@[k] == Some(tid));
                        }
                        if is_bound {
                            let k = choose|k: int| 0 <= k < bound@.len() && bound@[k] == Some(tid);
                            assert(devs0[k].device_id == Some(tid));
                        }
                    }
                    if !is_bound && self.targets[j].target_hash == hash {
                        promoted = Some(tid);
                    } else {
                        j += 1;
                    }
                }
                proof {
                    lemma_first_index(kept, p, j as int);
                }
                new_id = promoted;
            }
            assert(new_id == rebind(d0, kept, devs0));
            let mut step: Vec<InputAction> = Vec::new();
            match promoted {
                Some(tid) => {
                    step.push(InputAction::Promote { path: self.devices[i].path.clone(), device_id: tid });
                },
                None => {},
            }
            match new_id {
                Some(tid) => {
                    let g = match self.find_target(tid) {
                        Some(j) => self.targets[j].grabbed,
                        None => false,
                    };
                    step.push(InputAction::SetGrab { path: self.devices[i].path.clone(), grab: g });
                },
                None => {},
            }
            proof {
                assert(step@ =~= device_actions(d0, kept, devs0));
                let f = |k: int| device_actions(devs0[k], kept, devs0);
                assert(Seq::new((i + 1) as nat, f) =~= Seq::new(i as nat, f).push(f(i as int)));
                Seq::new(i as nat, f).lemma_flatten_push(f(i as int));
                if was_wf {
                    match new_id {
                        Some(tid) => {
                            if kept_binding(d0, kept) is None {
                                lemma_first_index_props(kept, promotable(devs0, d0.hash));
                            }
                            assert(tid >= 1);
                        },
                        None => {},
                    }
                }
            }
            actions.append(&mut step);
            let mut d = self.devices[i].copy();
            d.device_id = new_id;
            self.devices.set(i, d);
            i += 1;
        }
        proof {
            assert(self.devices@ =~= fixed_devices(devs0, ts0));
        }
        let ghost acts_dev = actions@;
        let ghost new_devs = self.devices@;
        let ghost fixed = fixed_targets(ts0);
        let mut j: usize = 0;
        while j < self.targets.len()
            invariant
                j <= self.targets@.len(),
                self.targets@.len() == kept.len(),
                self.devices@ == new_devs,
                new_devs == fixed_devices(devs0, ts0),
                kept == kept_targets(ts0),
                fixed == fixed_targets(ts0),
                was_wf ==> forall|m: int| 0 <= m < kept.len() ==> (#[trigger] kept[m]).device_id >= 1,
                was_wf ==> forall|k: int| 0 <= k < new_devs.len() ==> ((#[trigger] new_devs[k]).device_id matches Some(id) ==> id >= 1),
                forall|m: int| j <= m < kept.len() ==> #[trigger] self.targets@[m]@ == kept[m],
                forall|m: int| 0 <= m < j ==> #[trigger] self.targets@[m]@ == fixed[m],
                actions@ == acts_dev + Seq::new(j as nat, |m: int| target_actions(kept[m], new_devs)).flatten(),
            decreases self.targets.len() - j,
        {
            let ghost t0 = kept[j as int];
            assert(self.targets@[j as int]@ == t0);
            let holding = any_grabbed(&self.targets[j].users);
            assert(holding == any_user_grabbed(t0));
            let mut step: Vec<InputAction> = Vec::new();
            if holding != self.targets[j].grabbed {
                self.targets[j].grabbed = holding;
                let mut k: usize = 0;
                while k < self.devices.len()
                    invariant
                        k <= self.devices@.len(),
                        self.devices@ == new_devs,
                        step@ =~= new_devs.take(k as int).map_values(
                            |d: InternalDevice| InputAction::SetGrab { path: d.path, grab: holding },
                        ),
                    decreases self.devices.len() - k,
                {
                    step.push(InputAction::SetGrab { path: self.devices[k].path.clone(), grab: holding });
                    proof {
                        assert(new_devs.take(k + 1) =~= new_devs.take(k as int).push(new_devs[k as int]));
                    }
                    k += 1;
                }
                proof {
                    assert(new_devs.take(new_devs.len() as int) =~= new_devs);
                }
            }
            proof {
                assert(holding == any_user_grabbed(t0));
                assert(step@ =~= target_actions(t0, new_devs));
                let f = |m: int| target_actions(kept[m], new_devs);
                assert(Seq::new((j + 1) as nat, f) =~= Seq::new(j as nat, f).push(f(j as int)));
                Seq::new(j as nat, f).lemma_flatten_push(f(j as int));
                assert(self.targets@[j as int]@ == fixed[j as int]);
            }
            actions.append(&mut step);
            j += 1;
        }
        proof {
            assert(actions@ =~= fix_actions(devs0, ts0));
            assert(self.targets_view() =~= fixed);
            if was_wf {
                assert forall|m: int| 0 <= m < self.targets@.len() implies (#[trigger] self.targets@[m]).device_id >= 1 by {
                    assert(self.targets@[m]@ == fixed[m]);
                    assert(fixed[m].device_id == kept[m].device_id);
                }
            }
        }
        actions
    }

    /// Drops targets that have no users, keeping the others in order.
    fn retain_targets_with_users(&mut self)
        ensures
            final(self).targets_view() == kept_targets(old(self).targets_view()),
            final(self).devices@ == old(self).devices@,
    {
        let mut old_targets: Vec<TargetDevice> = Vec::new();
        std::mem::swap(&mut old_targets, &mut self.targets);
        let ghost tds0 = old_targets@;
        let ghost ts0 = tviews(tds0);
        let ghost devs0 = self.devices@;
        let ghost mut taken: int = 0;
        proof {
            assert(ts0.take(0).filter(users_pred()) =~= Seq::<TargetView>::empty());
            assert(tds0.skip(0) =~= tds0);
        }
        while old_targets.len() > 0
            invariant
                0 <= taken <= tds0.len(),
                ts0 == tviews(tds0),
                taken + old_targets@.len() == tds0.len(),
                old_targets@ == tds0.skip(taken),
                tviews(self.targets@) == ts0.take(taken).filter(users_pred()),
                self.devices@ == devs0,
            decreases old_targets@.len(),
        {
            let t = old_targets.remove(0);
            let ghost before = self.targets@;
            proof {
                assert(t == tds0[taken]);
                assert(ts0.take(taken + 1) =~= ts0.take(taken).push(t@));
                ts0.take(taken).lemma_filter_push(t@, users_pred());
                assert(old_targets@ =~= tds0.skip(taken + 1));
            }
            if t.users.len() > 0 {
                self.targets.push(t);
                proof {
                    assert(tviews(self.targets@) =~= tviews(before).push(t@));
                }
            }
            proof {
                taken = taken + 1;
            }
        }
        proof {
            assert(ts0.take(ts0.len() as int) =~= ts0);
        }
    }

    /// Adds a device, or replaces the one at the same path.
    pub fn add_device_obj_nofix(&mut self, dev: InternalDevice)
        ensures
            final(self).targets@ == old(self).targets@,
            final(self).devices@ == devices_with(old(self).devices@, dev),
    {
        match self.device_index(dev.path.as_str()) {
            Some(k) => {
                self.devices.set(k, dev);
            },
            None => {
                self.devices.push(dev);
            },
        }
    }

    /// Adds a device and fixes the table.
    pub fn add_device_obj(&mut self, dev: InternalDevice) -> (actions: Vec<InputAction>)
        ensures
            final(self).devices@ == fixed_devices(devices_with(old(self).devices@, dev), old(self).targets_view()),
            final(self).targets_view() == fixed_targets(old(self).targets_view()),
            actions@ == fix_actions(devices_with(old(self).devices@, dev), old(self).targets_view()),
    {
        self.add_device_obj_nofix(dev);
        self.fix_users()
    }

    fn device_index(&self, path: &str) -> (res: Option<usize>)
        ensures
            match res {
                Some(k) => device_position(self.devices@, path@) == Some(k as int) && k < self.devices@.len(),
                None => device_position(self.devices@, path@) is None,
            },
    {
        let ghost p = path_is(path@);
        let mut k: usize = 0;
        while k < self.devices.len()
            invariant
                k <= self.devices@.len(),
                p == path_is(path@),
                forall|m: int| 0 <= m < k ==> !p(#[trigger] self.devices@[m]),
            decreases self.devices.len() - k,
        {
            if str_eq(self.devices[k].path.as_str(), path) {
                proof {
                    lemma_first_index(self.devices@, p, k as int);
                }
                return Some(k);
            }
            k += 1;
        }
        proof {
            lemma_first_index(self.devices@, p, k as int);
        }
        None
    }

    /// Removes the device at `path`. When it fed a target that still exists,
    /// the target's users are to be told it was removed.
    pub fn remove_device_obj_nofix(&mut self, path: &str) -> (actions: Vec<InputAction>)
        ensures
            final(self).targets@ == old(self).targets@,
            final(self).devices@ == devices_without(old(self).devices@, path@),
            actions@ == removal_actions(old(self).devices@, old(self).targets_view(), path@),
    {
        let mut actions: Vec<InputAction> = Vec::new();
        match self.device_index(path) {
            Some(k) => {
                let dev = self.devices.remove(k);
                match dev.device_id {
                    Some(id) => {
                        if self.find_target(id).is_some() {
                            actions.push(InputAction::Demote { path: dev.path, device_id: id });
                        }
                    },
                    None => {},
                }
            },
            None => {},
        }
        proof {
            assert(actions@ =~= removal_actions(old(self).devices@, old(self).targets_view(), path@));
        }
        actions
    }

    /// Removes a device and fixes the table.
    pub fn remove_device_obj(&mut self, path: &str) -> (actions: Vec<InputAction>)
        ensures
            final(self).devices@ == fixed_devices(devices_without(old(self).devices@, path@), old(self).targets_view()),
            final(self).targets_view() == fixed_targets(old(self).targets_view()),
            actions@ == removal_actions(old(self).devices@, old(self).targets_view(), path@)
                + fix_actions(devices_without(old(self).devices@, path@), old(self).targets_view()),
    {
        let mut first = self.remove_device_obj_nofix(path);
        let mut rest = self.fix_users();
        first.append(&mut rest);
        first
    }
}

pub open spec fn user_is(user_id: u64) -> spec_fn(TargetUser) -> bool {
    |u: TargetUser| u.user_id == user_id
}

/// The users of a target after `user_id` takes a lease: an existing entry is
/// reset to not grabbed, otherwise a new one is added at the end.
pub open spec fn users_with_lease(users: Seq<TargetUser>, user_id: u64) -> Seq<TargetUser> {
    match first_index(users, user_is(user_id)) {
        Some(k) => users.update(k, TargetUser { user_id, grabbed: false }),
        None => users.push(TargetUser { user_id, grabbed: false }),
    }
}

/// The users of a target after `user_id` sets its grab wish.
pub open spec fn users_with_grab(users: Seq<TargetUser>, user_id: u64, grabbed: bool) -> Seq<TargetUser> {
    match first_index(users, user_is(user_id)) {
        Some(k) => users.update(k, TargetUser { user_id, grabbed }),
        None => users,
    }
}

/// The users of a target after `user_id` drops its lease.
pub open spec fn users_without(users: Seq<TargetUser>, user_id: u64) -> Seq<TargetUser> {
    match first_index(users, user_is(user_id)) {
        Some(k) => users.remove(k),
        None => users,
    }
}

/// The target table after user `user_id` takes a lease on target `device_id`,
/// which is created with `name` and `hash` when it does not exist.
pub open spec fn leased(ts: Seq<TargetView>, device_id: u64, user_id: u64, name: Seq<char>, hash: u64) -> Seq<TargetView> {
    match first_index(ts, id_is(device_id)) {
        Some(j) => ts.update(j, TargetView { users: users_with_lease(ts[j].users, user_id), ..ts[j] }),
        None => ts.push(
            TargetView {
                users: seq![TargetUser { user_id, grabbed: false }],
                target_name: name,
                target_hash: hash,
                device_id,
                grabbed: false,
            },
        ),
    }
}

/// The target table after `user_id` sets its grab wish on target `device_id`.
pub open spec fn grab_set(ts: Seq<TargetView>, device_id: u64, user_id: u64, grabbed: bool) -> Seq<TargetView> {
    match first_index(ts, id_is(device_id)) {
        Some(j) => ts.update(j, TargetView { users: users_with_grab(ts[j].users, user_id, grabbed), ..ts[j] }),
        None => ts,
    }
}

/// The target table after `user_id` gives back its lease on target `device_id`.
pub open spec fn lease_dropped(ts: Seq<TargetView>, device_id: u64, user_id: u64) -> Seq<TargetView> {
    match first_index(ts, id_is(device_id)) {
        Some(j) => ts.update(j, TargetView { users: users_without(ts[j].users, user_id), ..ts[j] }),
        None => ts,
    }
}

/// The target table after a sequence of leases is given back, in order.
pub open spec fn leases_dropped(ts: Seq<TargetView>, leases: Seq<DeviceRefrence>) -> Seq<TargetView>
    decreases leases.len(),
{
    if leases.len() == 0 {
        ts
    } else {
        lease_dropped(leases_dropped(ts, leases.drop_last()), leases.last().device_id, leases.last().user_id)
    }
}

/// A lease that an instance holds on a target device.
pub struct DeviceRefrence {
    pub device_id: u64,
    pub user_id: u64,
    pub is_alive: bool,
}

impl DeviceRefrence {
    /// Takes a lease on the device at `dev_path` and fixes the table.
    /// Fails, changing nothing, when there is no device at that path.
    pub fn new(state: &mut InputStateInner, dev_path: &str) -> (res: (Result<Self, ()>, Vec<InputAction>))
        requires
            old(state).wf(),
        ensures
            (res.0 is Err) == (device_position(old(state).devices@, dev_path@) is None),
            res.0 is Err ==> final(state).devices@ == old(state).devices@ && final(state).targets_view() == old(state).targets_view()
                && res.1@.len() == 0,
            res.0 matches Ok(r) ==> {
                let d = old(state).devices@[device_position(old(state).devices@, dev_path@)->0];
                let mid = leased(old(state).targets_view(), r.device_id, r.user_id, spec_fancyname(d.vendor, d.name@), d.hash);
                &&& r.is_alive
                &&& r.device_id >= 1
                &&& (d.device_id matches Some(id) ==> r.device_id == id)
                &&& final(state).devices@ == fixed_devices(old(state).devices@, mid)
                &&& final(state).targets_view() == fixed_targets(mid)
                &&& res.1@ == fix_actions(old(state).devices@, mid)
            },
    {
        let out = Self::new_nofix(state, dev_path);
        match out {
            Ok(r) => {
                let actions = state.fix_users();
                (Ok(r), actions)
            },
            Err(()) => (Err(()), Vec::new()),
        }
    }

    /// Takes a lease on the device at `dev_path`: on the target it feeds, or
    /// on a new target named after the device.
    pub fn new_nofix(state: &mut InputStateInner, dev_path: &str) -> (res: Result<Self, ()>)
        requires
            old(state).wf(),
        ensures
            (res is Err) == (device_position(old(state).devices@, dev_path@) is None),
            res is Err ==> final(state).devices@ == old(state).devices@ && final(state).targets_view() == old(state).targets_view(),
            res matches Ok(r) ==> {
                let d = old(state).devices@[device_position(old(state).devices@, dev_path@)->0];
                &&& r.is_alive
                &&& r.device_id >= 1
                &&& (d.device_id matches Some(id) ==> r.device_id == id)
                &&& final(state).devices@ == old(state).devices@
                &&& final(state).targets_view() == leased(old(state).targets_view(), r.device_id, r.user_id,
                    spec_fancyname(d.vendor, d.name@), d.hash)
            },
    {
        match state.device_index(dev_path) {
            None => Err(()),
            Some(k) => {
                let device_id = state.devices[k].device_id;
                let name = state.devices[k].fancyname();
                let hash = state.devices[k].hash;
                Ok(Self::new_orphan_nofix(state, device_id, name, hash))
            },
        }
    }

    /// Takes a lease on target `device_id`, or on a fresh random nonzero id
    /// when none is given; the user id is random.
    pub fn new_orphan_nofix(state: &mut InputStateInner, device_id: Option<u64>, name: String, hash: u64) -> (r: Self)
        requires
            device_id matches Some(id) ==> id >= 1,
        ensures
            r.is_alive,
            r.device_id >= 1,
            device_id matches Some(id) ==> r.device_id == id,
            final(state).devices@ == old(state).devices@,
            final(state).targets_view() == leased(old(state).targets_view(), r.device_id, r.user_id, name@, hash),
    {
        let device_id = match device_id {
            Some(id) => id,
            None => random_u64_from(1),
        };
        let user_id = random_u64_from(0);
        Self::new_orphan_with_ids(state, device_id, user_id, name, hash)
    }

    /// Takes a lease for `user_id` on target `device_id`, creating the target
    /// when it does not exist yet.
    pub fn new_orphan_with_ids(state: &mut InputStateInner, device_id: u64, user_id: u64, name: String, hash: u64) -> (r: Self)
        ensures
            r.is_alive,
            r.device_id == device_id,
            r.user_id == user_id,
            final(state).devices@ == old(state).devices@,
            final(state).targets_view() == leased(old(state).targets_view(), device_id, user_id, name@, hash),
    {
        let ghost name_view = name@;
        let ghost tv0 = state.targets_view();
        let j = match state.find_target(device_id) {
            Some(j) => j,
            None => {
                state.targets.push(TargetDevice::new(name, hash, device_id));
                proof {
                    assert(state.targets_view() =~= tv0.push(state.targets@.last()@));
                }
                state.targets.len() - 1
            },
        };
        let ghost before = state.targets@;
        let k = user_index(&state.targets[j].users, user_id);
        match k {
            Some(k) => {
                state.targets[j].users.set(k, TargetUser { user_id, grabbed: false });
            },
            None => {
                state.targets[j].users.push(TargetUser { user_id, grabbed: false });
            },
        }
        proof {
            assert(state.targets@[j as int].users@ =~= users_with_lease(before[j as int].users@, user_id));
            match first_index(tv0, id_is(device_id)) {
                Some(j0) => {
                    assert(state.targets_view() =~= leased(tv0, device_id, user_id, name_view, hash));
                },
                None => {
                    assert(state.targets@[j as int].users@ =~= seq![TargetUser { user_id, grabbed: false }]);
                    assert(state.targets_view() =~= leased(tv0, device_id, user_id, name_view, hash));
                },
            }
        }
        DeviceRefrence { device_id, user_id, is_alive: true }
    }

    /// Records whether this lease wants its device grabbed.
    pub fn set_grabbed_nofix(&mut self, state: &mut InputStateInner, grabbed: bool)
        ensures
            *final(self) == *old(self),
            final(state).devices@ == old(state).devices@,
            final(state).targets_view() == grab_set(old(state).targets_view(), old(self).device_id, old(self).user_id, grabbed),
    {
        let ghost tv0 = state.targets_view();
        let Some(j) = state.find_target(self.device_id) else { return; };
        let Some(k) = user_index(&state.targets[j].users, self.user_id) else {
            proof {
                assert(state.targets_view() =~= grab_set(tv0, self.device_id, self.user_id, grabbed));
            }
            return;
        };
        let user_id = self.user_id;
        state.targets[j].users.set(k, TargetUser { user_id, grabbed });
        proof {
            assert(state.targets@[j as int].users@ =~= users_with_grab(tv0[j as int].users, self.user_id, grabbed));
            assert(state.targets_view() =~= grab_set(tv0, self.device_id, self.user_id, grabbed));
        }
    }

    /// Records the grab wish and fixes the table.
    pub fn set_grabbed(&mut self, state: &mut InputStateInner, grabbed: bool) -> (actions: Vec<InputAction>)
        ensures
            *final(self) == *old(self),
            ({
                let mid = grab_set(old(state).targets_view(), old(self).device_id, old(self).user_id, grabbed);
                &&& final(state).devices@ == fixed_devices(old(state).devices@, mid)
                &&& final(state).targets_view() == fixed_targets(mid)
                &&& actions@ == fix_actions(old(state).devices@, mid)
            }),
    {
        self.set_grabbed_nofix(state, grabbed);
        state.fix_users()
    }

    /// Gives the lease back; the reference is dead afterwards.
    pub fn pre_drop_nofix(&mut self, state: &mut InputStateInner)
        ensures
            final(self).device_id == old(self).device_id,
            final(self).user_id == old(self).user_id,
            !final(self).is_alive,
            final(state).devices@ == old(state).devices@,
            final(state).targets_view() == lease_dropped(old(state).targets_view(), old(self).device_id, old(self).user_id),
    {
        self.is_alive = false;
        let ghost tv0 = state.targets_view();
        let Some(j) = state.find_target(self.device_id) else { return; };
        let Some(k) = user_index(&state.targets[j].users, self.user_id) else {
            proof {
                assert(state.targets_view() =~= lease_dropped(tv0, self.device_id, self.user_id));
            }
            return;
        };
        let _ = state.targets[j].users.remove(k);
        proof {
            assert(state.targets@[j as int].users@ =~= users_without(tv0[j as int].users, self.user_id));
            assert(state.targets_view() =~= lease_dropped(tv0, self.device_id, self.user_id));
        }
    }

    /// Gives the lease back and fixes the table.
    pub fn pre_drop(&mut self, state: &mut InputStateInner) -> (actions: Vec<InputAction>)
        ensures
            final(self).device_id == old(self).device_id,
            final(self).user_id == old(self).user_id,
            !final(self).is_alive,
            ({
                let mid = lease_dropped(old(state).targets_view(), old(self).device_id, old(self).user_id);
                &&& final(state).devices@ == fixed_devices(old(state).devices@, mid)
                &&& final(state).targets_view() == fixed_targets(mid)
                &&& actions@ == fix_actions(old(state).devices@, mid)
            }),
    {
        self.pre_drop_nofix(state);
        state.fix_users()
    }
}

fn bound_contains(v: &Vec<Option<u64>>, x: u64) -> (res: bool)
    ensures
        res == (exists|k: int| 0 <= k < v@.len() && v@[k] == Some(x)),
{
    let mut k: usize = 0;
    while k < v.len()
        invariant
            k <= v@.len(),
            forall|m: int| 0 <= m < k ==> v@[m] != Some(x),
        decreases v.len() - k,
    {
        if v[k] == Some(x) {
            return true;
        }
        k += 1;
    }
    false
}

fn any_grabbed(users: &Vec<TargetUser>) -> (res: bool)
    ensures
        res == (exists|k: int| 0 <= k < users@.len() && users@[k].grabbed),
{
    let mut k: usize = 0;
    while k < users.len()
        invariant
            k <= users@.len(),
            forall|m: int| 0 <= m < k ==> !users@[m].grabbed,
        decreases users.len() - k,
    {
        if users[k].grabbed {
            return true;
        }
        k += 1;
    }
    false
}

/// Character-wise string equality.
pub fn str_eq(a: &str, b: &str) -> (res: bool)
    ensures
        res == (a@ == b@),
{
    let la = a.unicode_len();
    let lb = b.unicode_len();
    if la != lb {
        return false;
    }
    let mut k: usize = 0;
    while k < la
        invariant
            k <= la,
            la == a@.len(),
            lb == b@.len(),
            la == lb,
            forall|m: int| 0 <= m < k ==> a@[m] == b@[m],
        decreases la - k,
    {
        if a.get_char(k) != b.get_char(k) {
            return false;
        }
        k += 1;
    }
    proof {
        assert(a@ =~= b@);
    }
    true
}

fn user_index(users: &Vec<TargetUser>, user_id: u64) -> (res: Option<usize>)
    ensures
        match res {
            Some(k) => first_index(users@, user_is(user_id)) == Some(k as int) && k < users@.len(),
            None => first_index(users@, user_is(user_id)) is None,
        },
{
    let ghost p = user_is(user_id);
    let mut k: usize = 0;
    while k < users.len()
        invariant
            k <= users@.len(),
            p == user_is(user_id),
            forall|m: int| 0 <= m < k ==> !p(#[trigger] users@[m]),
        decreases users.len() - k,
    {
        if users[k].user_id == user_id {
            proof {
                lemma_first_index(users@, p, k as int);
            }
            return Some(k);
        }
        k += 1;
    }
    proof {
        lemma_first_index(users@, p, k as int);
    }
    None
}


} // verus!
