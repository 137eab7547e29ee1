use vstd::prelude::*;
use crate::input::InputStateInner;
use crate::input::InputAction;
use crate::session::{
    Display, InstanceAction, InstanceColor, InstanceId, InstanceSpecificHandler, Session, any_instance, instance_removed,
    instances_swapped, profile_in_use,
};
use crate::text::{decimal, push_decimal, string_views};
use crate::toasts::{Severity, Toasts, expiry};
use crate::random::{random_choice, random_u32_in};

verus! {

/// Whether the launcher manages many game handlers or runs a single one.
pub enum Mode<H> {
    Full { handlers: Vec<H>, selected: usize },
    Lite { handler: H },
}

/// Where the launcher's window shows.
pub enum Route<H> {
    Home,
    Settings,
    Profiles,
    EditHandler(H),
    Game,
    Instances,
    Session(Session, H),
}

impl<H> Mode<H> {
    pub fn is_lite(&self) -> (res: bool)
        ensures
            res == (self is Lite),
    {
        match self {
            Mode::Lite { .. } => true,
            Mode::Full { .. } => false,
        }
    }

    /// The first screen: the game list, or the instances of the one game.
    pub fn home_route(&self) -> (r: Route<H>)
        ensures
            self is Full ==> r is Home,
            self is Lite ==> r is Instances,
    {
        match self {
            Mode::Full { .. } => Route::Home,
            Mode::Lite { .. } => Route::Instances,
        }
    }

    /// The handler the user works with, if any.
    pub fn active_handler(&self) -> (res: Option<&H>)
        ensures
            match self {
                Mode::Full { handlers, selected } => if *selected < handlers@.len() {
                    res == Some(&handlers@[*selected as int])
                } else {
                    res is None
                },
                Mode::Lite { handler } => res == Some(handler),
            },
    {
        match self {
            Mode::Full { handlers, selected } => {
                if *selected < handlers.len() {
                    Some(&handlers[*selected])
                } else {
                    None
                }
            },
            Mode::Lite { handler } => Some(handler),
        }
    }

    /// Replaces the handler list with a fresh scan; the selection is kept
    /// within the new list.
    pub fn rescan_handlers(&mut self, scanned: Vec<H>)
        ensures
            match (*old(self), *final(self)) {
                (Mode::Full { selected: s0, .. }, Mode::Full { handlers, selected }) => handlers@ == scanned@ && selected == if s0
                    < scanned@.len() {
                    s0 as int
                } else if scanned@.len() == 0 {
                    0
                } else {
                    scanned@.len() - 1
                },
                (Mode::Lite { .. }, m) => m == *old(self),
                _ => false,
            },
    {
        if let Mode::Full { handlers, selected } = self {
            let last = if scanned.len() == 0 {
                0
            } else {
                scanned.len() - 1
            };
            *handlers = scanned;
            if last < *selected {
                *selected = last;
            }
        }
    }
}

/// The tabs of the top bar.
#[derive(Clone, Copy, PartialEq, Eq, Structural, Debug)]
pub enum NavTab {
    Home,
    Settings,
    Profiles,
}

/// The sections of the settings screen.
#[derive(Clone, Copy, PartialEq, Eq, Structural, Debug)]
pub enum SettingsTab {
    General,
    Proton,
    Gamescope,
}

/// The settings screen: the open section and the help text of the option
/// under the pointer.
pub struct SettingsScreen {
    pub tab: SettingsTab,
    pub info: &'static str,
}

impl SettingsScreen {
    pub fn new() -> (s: Self)
        ensures
            s.tab == SettingsTab::General,
            s.info@.len() == 0,
    {
        let info = "";
        proof {
            reveal_strlit("");
        }
        SettingsScreen { tab: SettingsTab::General, info }
    }

    /// Clears the help text at the start of a frame.
    pub fn begin_frame(&mut self)
        ensures
            final(self).tab == old(self).tab,
            final(self).info@.len() == 0,
    {
        let info = "";
        proof {
            reveal_strlit("");
        }
        self.info = info;
    }

    /// Shows `text` as the help text when its option is hovered.
    pub fn hint(&mut self, hovered: bool, text: &'static str)
        ensures
            final(self).tab == old(self).tab,
            final(self).info@ == if hovered {
                text@
            } else {
                old(self).info@
            },
    {
        if hovered {
            self.info = text;
        }
    }
}

/// The start screen.
pub struct HomeScreen;

/// A game's page.
pub struct GameScreen;

/// What pressing Play on a game's page leads to.
pub enum PlayOutcome {
    /// Ask for the game's root folder in the handler editor first.
    NeedGameRoot,
    /// Rescan devices and monitors and go to the instances screen.
    Instances,
}

/// Warns before playing with a handler written for another version of the
/// launcher: whether it is older, and the advice shown.
pub fn handler_version_warning(spec_ver: u32, current: u32) -> (res: Option<(&'static str, &'static str)>)
    ensures
        spec_ver == current ==> res is None,
        spec_ver < current ==> (res matches Some((age, advice)) && age@ == "an older"@ && advice@
            == "Updated handlers are available via the ⮋ button on the top bar."@),
        spec_ver > current ==> (res matches Some((age, advice)) && age@ == "a newer"@ && advice@ == "Consider updating PartyDeck."@),
{
    if spec_ver == current {
        None
    } else if spec_ver < current {
        Some(("an older", "Updated handlers are available via the ⮋ button on the top bar."))
    } else {
        Some(("a newer", "Consider updating PartyDeck."))
    }
}

/// Play needs a Steam app id or a game root folder.
pub fn play_outcome(has_steam_appid: bool, gameroot: &str) -> (res: PlayOutcome)
    ensures
        res is NeedGameRoot <==> (!has_steam_appid && gameroot@.len() == 0),
{
    if !has_steam_appid && gameroot.unicode_len() == 0 {
        PlayOutcome::NeedGameRoot
    } else {
        PlayOutcome::Instances
    }
}

/// The profile list, with the name typed for a new profile while its dialog
/// is open.
pub struct ProfilesScreen {
    pub new_name: Option<String>,
}

impl ProfilesScreen {
    pub fn new() -> (s: Self)
        ensures
            s.new_name is None,
    {
        ProfilesScreen { new_name: None }
    }
}

/// Whether `c` is alphabetic or numeric in Unicode, as `char::is_alphanumeric`
/// decides.
pub uninterp spec fn alphanumeric(c: char) -> bool;

/// `char::is_alphanumeric`: the Unicode `Alphabetic` or `Numeric` property,
/// named by `alphanumeric`. For ASCII characters that is exactly the
/// letters and digits.
#[verifier::external_body]
fn char_is_alphanumeric(c: char) -> (res: bool)
    ensures
        res == alphanumeric(c),
        (c as u32) < 128 ==> res == (('0' <= c <= '9') || ('a' <= c <= 'z') || ('A' <= c <= 'Z')),
{
    c.is_alphanumeric()
}

/// A new profile's name must be nonempty and alphanumeric.
pub fn profile_name_valid(name: &str) -> (res: bool)
    ensures
        res == (name@.len() > 0 && forall|i: int| 0 <= i < name@.len() ==> alphanumeric(#[trigger] name@[i])),
{
    let n = name.unicode_len();
    if n == 0 {
        return false;
    }
    let mut i: usize = 0;
    while i < n
        invariant
            n == name@.len(),
            i <= n,
            forall|k: int| 0 <= k < i ==> alphanumeric(#[trigger] name@[k]),
        decreases n - i,
    {
        if !char_is_alphanumeric(name.get_char(i)) {
            return false;
        }
        i += 1;
    }
    true
}

/// The list of game handlers, with the one the user asked to remove while
/// the confirmation is open.
pub struct LeftPanel<H> {
    pub pending_removal: Option<H>,
}

impl<H> LeftPanel<H> {
    pub fn new() -> (p: Self)
        ensures
            p.pending_removal is None,
    {
        LeftPanel { pending_removal: None }
    }

    /// Closes the confirmation once it was answered.
    pub fn answer_removal(&mut self, confirmed: bool, cancelled: bool)
        ensures
            (confirmed || cancelled) ==> final(self).pending_removal is None,
            !(confirmed || cancelled) ==> *final(self) == *old(self),
    {
        if confirmed || cancelled {
            self.pending_removal = None;
        }
    }
}

/// The instances editor: the instance being edited and which side panels
/// show.
pub struct InstancesScreen {
    pub edit_modal: Option<InstanceId>,
    pub show_right_panel: bool,
    pub show_bottom_panel: bool,
}

impl InstancesScreen {
    /// Side panels show unless the launcher runs a single game.
    pub fn new(is_lite: bool) -> (s: Self)
        ensures
            s.edit_modal is None,
            s.show_right_panel == !is_lite,
            s.show_bottom_panel == !is_lite,
    {
        InstancesScreen { edit_modal: None, show_right_panel: !is_lite, show_bottom_panel: !is_lite }
    }

    pub fn clear_selections(&mut self)
        ensures
            final(self).edit_modal is None,
            final(self).show_right_panel == old(self).show_right_panel,
            final(self).show_bottom_panel == old(self).show_bottom_panel,
    {
        self.edit_modal = None;
    }

    /// Carries out what the user asked for in the editor. Returns what the
    /// device table asks of the caller when an instance was removed.
    pub fn apply_instance_action(
        &mut self,
        session: &mut Session,
        in_state: &mut InputStateInner,
        action: InstanceAction,
    ) -> (actions: Vec<InputAction>)
        requires
            old(session).wf(),
        ensures
            final(session).wf(),
            final(self).show_right_panel == old(self).show_right_panel,
            final(self).show_bottom_panel == old(self).show_bottom_panel,
            match action {
                InstanceAction::NoAction => *final(self) == *old(self) && *final(session) == *old(session) && *final(in_state)
                    == *old(in_state) && actions@.len() == 0,
                InstanceAction::Edit(id) => final(self).edit_modal == Some(id) && *final(session) == *old(session)
                    && *final(in_state) == *old(in_state) && actions@.len() == 0,
                InstanceAction::Remove(id) => final(self).edit_modal is None && instance_removed(
                    *old(session),
                    *old(in_state),
                    id,
                    *final(session),
                    *final(in_state),
                    actions@,
                ),
                InstanceAction::Swap(a, b) => *final(self) == *old(self) && actions@.len() == 0 && instances_swapped(
                    *old(session),
                    *final(session),
                    a,
                    b,
                ) && *final(in_state) == *old(in_state),
            },
    {
        match action {
            InstanceAction::NoAction => Vec::new(),
            InstanceAction::Edit(id) => {
                self.edit_modal = Some(id);
                Vec::new()
            },
            InstanceAction::Remove(id) => {
                let actions = session.remove_instance(in_state, id);
                self.clear_selections();
                actions
            },
            InstanceAction::Swap(a, b) => {
                session.swap(a, b);
                Vec::new()
            },
        }
    }

    /// The "New instance" button: adds an instance at the end of the
    /// selected display, with a profile no instance uses yet (a random guest
    /// profile, or else a numbered automatic one), and opens it in the
    /// editor.
    pub fn open_new_instance(
        &mut self,
        session: &mut Session,
        guest_names: &Vec<String>,
        color: InstanceColor,
    ) -> (id: InstanceId)
        requires
            old(session).wf(),
            old(session).next_instance_id < u64::MAX,
        ensures
            final(self).edit_modal == Some(id),
            final(self).show_right_panel == old(self).show_right_panel,
            final(self).show_bottom_panel == old(self).show_bottom_panel,
            final(session).wf(),
            id.0 == old(session).next_instance_id,
            final(session).next_instance_id == old(session).next_instance_id + 1,
            final(session).selected == old(session).selected,
            final(session).displays@.len() == old(session).displays@.len(),
            forall|d: int| 0 <= d < old(session).displays@.len() && d != old(session).selected
                ==> #[trigger] final(session).displays@[d] == old(session).displays@[d],
            ({
                let sel = old(session).selected as int;
                let d0 = old(session).displays@[sel];
                let d1 = final(session).displays@[sel];
                let n = d0.instances@.len();
                let inst = d1.instances@[n as int];
                let name = inst.profname@;
                &&& d1.monitor_idx == d0.monitor_idx
                &&& d1.layout == d0.layout
                &&& d1.instances@.len() == n + 1
                &&& d1.instances@.take(n as int) == d0.instances@
                &&& inst.id == id
                &&& inst.devices@.len() == 0
                &&& inst.color == color
                &&& inst.handler == (InstanceSpecificHandler { pause_between_starts_ms: Some(1000) })
                &&& inst.launch_data is None
                &&& free_guest_exists(old(session).displays@, guest_names@) ==> exists|g: int|
                    0 <= g < guest_names@.len() && name == #[trigger] guest_profile(guest_names@, g)
                        && !profile_in_use(old(session).displays@, None, name)
                &&& !free_guest_exists(old(session).displays@, guest_names@) ==> exists|k: nat|
                    10000 <= k < 99999 && name == ".Auto profile - "@ + decimal(k)
            }),
    {
        let used = session.used_profile_names(None);
        let name = new_instance_profname(guest_names, &used);
        let ghost nv = name@;
        proof {
            if name_unused(used@, nv) {
                assert forall|e: int, m: int| 0 <= e < old(session).displays@.len() && 0 <= m
                    < old(session).displays@[e].instances@.len() implies (#[trigger] old(session).displays@[e].instances@[m]).profname@
                    != nv by {
                    if old(session).displays@[e].instances@[m].profname@ == nv {
                        assert(profile_in_use(old(session).displays@, None, nv));
                        let a = choose|a: int| 0 <= a < used@.len() && (#[trigger] used@[a])@ == nv;
                        assert(used@[a]@ != nv);
                    }
                }
            }
            if free_guest_exists(old(session).displays@, guest_names@) {
                let g = choose|g: int| 0 <= g < guest_names@.len() && !profile_in_use(
                    old(session).displays@,
                    None,
                    #[trigger] guest_profile(guest_names@, g),
                );
                let gv = guest_profile(guest_names@, g);
                assert(name_unused(used@, seq!['.'] + guest_names@[g]@)) by {
                    assert forall|j: int| 0 <= j < used@.len() implies (#[trigger] used@[j])@ != gv by {
                        if used@[j]@ == gv {
                            assert(profile_in_use(old(session).displays@, None, used@[j]@));
                        }
                    }
                }
                let i = choose|i: int| 0 <= i < guest_names@.len() && nv == seq!['.'] + (#[trigger] guest_names@[i])@;
                assert(guest_profile(guest_names@, i) == nv);
                assert(name_unused(used@, nv));
                assert(!profile_in_use(old(session).displays@, None, nv));
            } else {
                assert forall|g: int| 0 <= g < guest_names@.len() implies !name_unused(
                    used@,
                    seq!['.'] + (#[trigger] guest_names@[g])@,
                ) by {
                    let gv = guest_profile(guest_names@, g);
                    assert(profile_in_use(old(session).displays@, None, gv));
                    let a = choose|a: int| 0 <= a < used@.len() && (#[trigger] used@[a])@ == gv;
                    assert(used@[a]@ == gv);
                }
            }
        }
        let id = session.add_instance(name, color);
        self.edit_modal = Some(id);
        id
    }

    /// The left arrow selects the previous display, if there is one.
    pub fn nav_left(session: &mut Session)
        ensures
            final(session).selected == if old(session).selected == 0 {
                0
            } else {
                old(session).selected - 1
            },
            final(session).displays@ == old(session).displays@,
            final(session).next_instance_id == old(session).next_instance_id,
    {
        if session.selected != 0 {
            session.selected = session.selected - 1;
        }
    }

    /// The right arrow selects the next display; on the last one it adds a
    /// new display, unless the last one is still empty.
    pub fn nav_right(session: &mut Session)
        requires
            old(session).wf(),
        ensures
            final(session).wf(),
            final(session).next_instance_id == old(session).next_instance_id,
            ({
                let sel = old(session).selected as int;
                let n = old(session).displays@.len();
                if sel + 1 < n {
                    final(session).selected == sel + 1 && final(session).displays@ == old(session).displays@
                } else if old(session).displays@[sel].instances@.len() > 0 {
                    &&& final(session).selected == sel + 1
                    &&& final(session).displays@.len() == n + 1
                    &&& final(session).displays@.take(n as int) == old(session).displays@
                    &&& final(session).displays@[n as int].instances@.len() == 0
                } else {
                    *final(session) == *old(session)
                }
            }),
    {
        let is_last = session.selected == session.displays.len() - 1;
        if is_last {
            if !session.displays[session.selected].is_empty() {
                let ghost ds0 = session.displays@;
                session.displays.push(Display::new());
                session.selected = session.selected + 1;
                proof {
                    let ds = session.displays@;
                    assert(ds.take(ds0.len() as int) =~= ds0);
                    assert forall|d: int, i: int| 0 <= d < ds.len() && 0 <= i < ds[d].instances@.len() implies
                        (#[trigger] ds[d].instances@[i]).id.0 < session.next_instance_id by {
                        assert(d < ds0.len());
                        assert(ds[d] == ds0[d]);
                    }
                    assert forall|d1: int, i1: int, d2: int, i2: int|
                        0 <= d1 < ds.len() && 0 <= i1 < ds[d1].instances@.len() && 0 <= d2 < ds.len() && 0 <= i2
                            < ds[d2].instances@.len() && (d1 != d2 || i1 != i2) implies (#[trigger] ds[d1].instances@[i1]).id
                        != (#[trigger] ds[d2].instances@[i2]).id by {
                        assert(d1 < ds0.len() && d2 < ds0.len());
                        assert(ds[d1] == ds0[d1]);
                        assert(ds[d2] == ds0[d2]);
                    }
                }
            }
        } else {
            session.selected = session.selected + 1;
        }
    }
}

/// `"Display <n>/<count>"` for the selected display.
pub fn display_label(selected: usize, count: usize) -> (res: String)
    requires
        selected < usize::MAX,
    ensures
        res@ == "Display "@ + decimal((selected + 1) as nat) + "/"@ + decimal(count as nat),
{
    let mut out = String::from_str("Display ");
    push_decimal(&mut out, selected as u64 + 1);
    out.append("/");
    push_decimal(&mut out, count as u64);
    out
}

/// A device as listed in the instance editor.
pub struct DeviceRow {
    pub hash: u64,
    pub label: String,
    pub enabled: bool,
    pub pressed: bool,
    pub already_used: bool,
}

/// A device can be given to an instance when it is enabled and, unless one
/// device may serve several instances, not used by another instance.
pub fn device_assignable(enabled: bool, used_by_other: bool, allow_multiple: bool) -> (res: bool)
    ensures
        res == (enabled && (!used_by_other || allow_multiple)),
{
    let not_duplicate = !used_by_other || allow_multiple;
    enabled && not_duplicate
}

/// The colour a device's label is drawn in.
#[derive(Clone, Copy, PartialEq, Eq, Structural, Debug)]
pub enum DeviceTextColor {
    DarkGray,
    Red,
    LightRed,
    Gray,
    White,
    Blue,
    LightBlue,
}

pub open spec fn text_color_of(enabled: bool, pressed: bool, used: bool, blocked: bool) -> DeviceTextColor {
    if blocked {
        DeviceTextColor::DarkGray
    } else if !enabled {
        if used {
            DeviceTextColor::LightRed
        } else {
            DeviceTextColor::Red
        }
    } else if !pressed {
        if used {
            DeviceTextColor::Blue
        } else {
            DeviceTextColor::Gray
        }
    } else if used {
        DeviceTextColor::LightBlue
    } else {
        DeviceTextColor::White
    }
}

pub fn device_text_color(row: &DeviceRow, blocked: bool) -> (c: DeviceTextColor)
    ensures
        c == text_color_of(row.enabled, row.pressed, row.already_used, blocked),
{
    if blocked {
        return DeviceTextColor::DarkGray;
    }
    match (row.enabled, row.pressed, row.already_used) {
        (false, _, false) => DeviceTextColor::Red,
        (false, _, true) => DeviceTextColor::LightRed,
        (true, false, false) => DeviceTextColor::Gray,
        (true, true, false) => DeviceTextColor::White,
        (true, false, true) => DeviceTextColor::Blue,
        (true, true, true) => DeviceTextColor::LightBlue,
    }
}

pub open spec fn hover_text_of(enabled: bool, pressed: bool, used: bool, blocked: bool) -> Seq<char> {
    if blocked {
        "Unavailable for this instance"@
    } else if !enabled {
        if used {
            "Disabled\nAlready used"@
        } else {
            "Disabled"@
        }
    } else if !pressed {
        if used {
            "Already used"@
        } else {
            "Available"@
        }
    } else if used {
        "Already used\nInput pressed"@
    } else {
        "Available\nInput pressed"@
    }
}

/// The tooltip of a device in the instance editor.
pub fn device_hover_text(row: &DeviceRow, blocked: bool) -> (res: &'static str)
    ensures
        res@ == hover_text_of(row.enabled, row.pressed, row.already_used, blocked),
{
    if blocked {
        return "Unavailable for this instance";
    }
    match (row.enabled, row.pressed, row.already_used) {
        (false, _, false) => "Disabled",
        (false, _, true) => "Disabled\nAlready used",
        (true, false, false) => "Available",
        (true, true, false) => "Available\nInput pressed",
        (true, false, true) => "Already used",
        (true, true, true) => "Already used\nInput pressed",
    }
}

/// Status sent to the window from background work.
pub enum AppEvent {
    /// A newer release with this version exists.
    UpdateAvailable(String),
    Toast(Severity, String, String, Option<InstanceId>),
}

/// Where the latest release can be seen.
pub const RELEASES_URL: &'static str = "https://github.com/partydeck/partydeck/releases/latest";

impl AppEvent {
    /// Shows the event as a toast; `current_version` is the launcher's own.
    pub fn apply(self, toasts: &mut Toasts, current_version: &str, now: u64)
        requires
            now + 12000 <= u64::MAX,
        ensures
            final(toasts).items@.len() == old(toasts).items@.len() + 1,
            final(toasts).items@.take(old(toasts).items@.len() as int) == old(toasts).items@,
            ({
                let t = final(toasts).items@.last();
                match self {
                    AppEvent::UpdateAvailable(version) => {
                        &&& t.severity == Severity::Info
                        &&& t.title@ == "Update available"@
                        &&& t.body@ == "PartyDeck "@ + version@ + " is available (current: v"@ + current_version@
                            + ").\nClick to view the release."@
                        &&& t.url matches Some(u) && u@ == RELEASES_URL@
                        &&& t.expires_at == Some((now + 12000) as u64)
                        &&& t.target is None
                    },
                    AppEvent::Toast(severity, title, body, target) => {
                        &&& t.severity == severity
                        &&& t.title@ == title@
                        &&& t.body@ == body@
                        &&& t.url is None
                        &&& t.expires_at == expiry(severity, now)
                        &&& t.target == target
                    },
                }
            }),
    {
        match self {
            AppEvent::UpdateAvailable(version) => {
                let mut body = String::from_str("PartyDeck ");
                body.append(version.as_str());
                body.append(" is available (current: v");
                body.append(current_version);
                body.append(").\nClick to view the release.");
                toasts.push_linked(Severity::Info, String::from_str("Update available"), body, String::from_str(RELEASES_URL), now);
            },
            AppEvent::Toast(severity, title, body, target) => match target {
                Some(id) => toasts.push_for(id, severity, title, body, now),
                None => toasts.push(severity, title, body, now),
            },
        }
    }
}

/// Launching needs an instance and no session already running.
pub fn app_can_launch(session: &Session, session_active: bool) -> (res: bool)
    ensures
        res == (any_instance(session.displays@) && !session_active),
{
    session.can_launch() && !session_active
}

/// After monitors were rescanned, each display's monitor is kept within the
/// new list.
pub fn clamp_monitors(session: &mut Session, monitor_count: usize)
    ensures
        final(session).selected == old(session).selected,
        final(session).next_instance_id == old(session).next_instance_id,
        final(session).displays@.len() == old(session).displays@.len(),
        forall|d: int| 0 <= d < old(session).displays@.len() ==> {
            let max = if monitor_count == 0 {
                0
            } else {
                monitor_count - 1
            };
            let d0 = #[trigger] old(session).displays@[d];
            let d1 = final(session).displays@[d];
            &&& d1.monitor_idx == if d0.monitor_idx < max {
                d0.monitor_idx as int
            } else {
                max
            }
            &&& d1.layout == d0.layout
            &&& d1.instances@ == d0.instances@
        },
        old(session).wf() ==> final(session).wf(),
{
    let max = if monitor_count == 0 {
        0
    } else {
        monitor_count - 1
    };
    let mut d: usize = 0;
    while d < session.displays.len()
        invariant
            d <= session.displays@.len(),
            session.displays@.len() == old(session).displays@.len(),
            session.selected == old(session).selected,
            session.next_instance_id == old(session).next_instance_id,
            max == if monitor_count == 0 {
                0
            } else {
                monitor_count - 1
            },
            forall|e: int| 0 <= e < session.displays@.len() ==> {
                let d0 = #[trigger] old(session).displays@[e];
                let d1 = session.displays@[e];
                &&& d1.monitor_idx == if e < d {
                    if d0.monitor_idx < max {
                        d0.monitor_idx as int
                    } else {
                        max as int
                    }
                } else {
                    d0.monitor_idx as int
                }
                &&& d1.layout == d0.layout
                &&& d1.instances@ == d0.instances@
            },
        decreases session.displays.len() - d,
    {
        if max < session.displays[d].monitor_idx {
            session.displays[d].monitor_idx = max;
        }
        d += 1;
    }
    proof {
        let ds0 = old(session).displays@;
        let ds = session.displays@;
        if old(session).wf() {
            assert forall|e: int, i: int| 0 <= e < ds.len() && 0 <= i < ds[e].instances@.len() implies
                (#[trigger] ds[e].instances@[i]).id.0 < session.next_instance_id by {
                assert(ds[e].instances@ == ds0[e].instances@);
            }
            assert forall|d1: int, i1: int, d2: int, i2: int|
                0 <= d1 < ds.len() && 0 <= i1 < ds[d1].instances@.len() && 0 <= d2 < ds.len() && 0 <= i2
                    < ds[d2].instances@.len() && (d1 != d2 || i1 != i2) implies (#[trigger] ds[d1].instances@[i1]).id
                != (#[trigger] ds[d2].instances@[i2]).id by {
                assert(ds[d1].instances@ == ds0[d1].instances@);
                assert(ds[d2].instances@ == ds0[d2].instances@);
            }
        }
    }
}

/// The saved profiles the instance editor offers first: those no other
/// instance uses, in their order.
pub fn unused_profiles(profiles: &Vec<String>, used: &Vec<String>) -> (res: Vec<String>)
    ensures
        string_views(res@) == string_views(profiles@).filter(|p: Seq<char>| !string_views(used@).contains(p)),
{
    let ghost keep = |p: Seq<char>| !string_views(used@).contains(p);
    let mut res: Vec<String> = Vec::new();
    let mut i: usize = 0;
    while i < profiles.len()
        invariant
            i <= profiles@.len(),
            keep == (|p: Seq<char>| !string_views(used@).contains(p)),
            string_views(res@) == string_views(profiles@).take(i as int).filter(keep),
        decreases profiles.len() - i,
    {
        let mut taken = false;
        let mut j: usize = 0;
        while j < used.len()
            invariant
                j <= used@.len(),
                i < profiles@.len(),
                taken == exists|k: int| 0 <= k < j && (#[trigger] used@[k])@ == profiles@[i as int]@,
            decreases used.len() - j,
        {
            if crate::input::str_eq(used[j].as_str(), profiles[i].as_str()) {
                taken = true;
            }
            j += 1;
        }
        proof {
            let pv = profiles@[i as int]@;
            if taken {
                let k = choose|k: int| 0 <= k < used@.len() && (#[trigger] used@[k])@ == pv;
                assert(string_views(used@)[k] == pv);
            } else {
                assert forall|k: int| 0 <= k < string_views(used@).len() implies string_views(used@)[k] != pv by {
                    assert(used@[k]@ == string_views(used@)[k]);
                }
            }
            assert(keep(pv) == !taken);
            assert(string_views(profiles@).take(i + 1) =~= string_views(profiles@).take(i as int).push(pv));
            string_views(profiles@).take(i as int).lemma_filter_push(pv, keep);
        }
        if !taken {
            let ghost before = res@;
            res.push(profiles[i].clone());
            proof {
                assert(string_views(res@) =~= string_views(before).push(profiles@[i as int]@));
            }
        }
        i += 1;
    }
    proof {
        assert(string_views(profiles@).take(i as int) =~= string_views(profiles@));
    }
    res
}

/// Ticks or unticks a device for the instance being edited: a newly ticked
/// device is added, an unticked one removed.
pub fn toggle_device(devices: &mut Vec<u64>, hash: u64, checked: bool, checked_before: bool)
    ensures
        final(devices)@ == if checked && !checked_before {
            old(devices)@.push(hash)
        } else if !checked && checked_before {
            old(devices)@.filter(|d: u64| d != hash)
        } else {
            old(devices)@
        },
{
    if checked && !checked_before {
        devices.push(hash);
    } else if !checked && checked_before {
        let ghost keep = |d: u64| d != hash;
        let ghost all = devices@;
        let mut kept: Vec<u64> = Vec::new();
        let mut i: usize = 0;
        while i < devices.len()
            invariant
                i <= devices@.len(),
                devices@ == all,
                keep == (|d: u64| d != hash),
                kept@ == all.take(i as int).filter(keep),
            decreases devices.len() - i,
        {
            proof {
                assert(all.take(i + 1) =~= all.take(i as int).push(all[i as int]));
                all.take(i as int).lemma_filter_push(all[i as int], keep);
            }
            if devices[i] != hash {
                kept.push(devices[i]);
            }
            i += 1;
        }
        proof {
            assert(all.take(i as int) =~= all);
        }
        *devices = kept;
    }
}

/// A press on an instance's move handle: the first press picks the
/// instance, a second press swaps the picked instance with this one.
/// Returns the new pick and the positions to swap.
pub fn move_handle_press(picked: Option<usize>, pressed: usize) -> (res: (Option<usize>, Option<(usize, usize)>))
    ensures
        res == match picked {
            Some(old) => (None::<usize>, Some((pressed, old))),
            None => (Some(pressed), None::<(usize, usize)>),
        },
{
    match picked {
        Some(old) => (None, Some((pressed, old))),
        None => (Some(pressed), None),
    }
}

/// The heading of the handler editor.
pub fn edit_handler_header(saved: bool, display: &str) -> (res: String)
    ensures
        res@ == if saved {
            "Edit Handler: "@ + display@
        } else {
            "Add Game"@
        },
{
    if saved {
        let mut h = String::from_str("Edit Handler: ");
        h.append(display);
        h
    } else {
        String::from_str("Add Game")
    }
}

pub open spec fn app_id_is(id: u64) -> spec_fn((u64, String)) -> bool {
    |a: (u64, String)| a.0 == id
}

/// The first installed Steam app with this id.
pub open spec fn app_with_id(installed: Seq<(u64, String)>, id: u64) -> Option<int> {
    crate::seqs::first_index(installed, app_id_is(id))
}

/// How the handler editor names the handler's Steam app: by id and install
/// directory, or as missing when no installed app has the id.
pub fn steam_app_label(appid: Option<u64>, installed: &Vec<(u64, String)>) -> (res: String)
    ensures
        res@ == match appid {
            None => "None"@,
            Some(id) => match app_with_id(installed@, id) {
                Some(k) => "("@ + decimal(id as nat) + ") "@ + installed@[k].1@,
                None => "⚠ Missing Steam app ("@ + decimal(id as nat) + ")"@,
            },
        },
{
    match appid {
        None => String::from_str("None"),
        Some(id) => {
            let mut k: usize = 0;
            while k < installed.len()
                invariant
                    appid == Some(id),
                    k <= installed@.len(),
                    forall|m: int| 0 <= m < k ==> (#[trigger] installed@[m]).0 != id,
                decreases installed.len() - k,
            {
                if installed[k].0 == id {
                    proof {
                        crate::seqs::lemma_first_index(installed@, app_id_is(id), k as int);
                    }
                    let mut s = String::from_str("(");
                    push_decimal(&mut s, id);
                    s.append(") ");
                    s.append(installed[k].1.as_str());
                    proof {
                        assert(app_with_id(installed@, id) == Some(k as int));
                        assert(s@ =~= "("@ + decimal(id as nat) + ") "@ + installed@[k as int].1@);
                    }
                    return s;
                }
                k += 1;
            }
            proof {
                crate::seqs::lemma_first_index(installed@, app_id_is(id), k as int);
            }
            let mut s = String::from_str("⚠ Missing Steam app (");
            push_decimal(&mut s, id);
            s.append(")");
            s
        },
    }
}

/// The profile named after guest `g`: the guest name after a dot.
pub open spec fn guest_profile(guest_names: Seq<String>, g: int) -> Seq<char> {
    seq!['.'] + guest_names[g]@
}

/// Whether some guest profile is used by no instance of the displays.
pub open spec fn free_guest_exists(ds: Seq<Display>, guest_names: Seq<String>) -> bool {
    exists|g: int| 0 <= g < guest_names.len() && !profile_in_use(ds, None, #[trigger] guest_profile(guest_names, g))
}

/// Whether a new instance may take the profile `name`.
pub open spec fn name_unused(used: Seq<String>, name: Seq<char>) -> bool {
    forall|j: int| 0 <= j < used.len() ==> (#[trigger] used[j])@ != name
}

/// The profile a new instance gets: a random guest profile (a guest name
/// after a dot) that no instance uses yet, or else a numbered automatic
/// profile.
pub fn new_instance_profname(guest_names: &Vec<String>, used: &Vec<String>) -> (name: String)
    ensures
        (exists|i: int| 0 <= i < guest_names@.len() && name@ == seq!['.'] + (#[trigger] guest_names@[i])@)
            && name_unused(used@, name@) || (!(exists|i: int| 0 <= i < guest_names@.len() && name_unused(
            used@,
            seq!['.'] + (#[trigger] guest_names@[i])@,
        )) && exists|n: nat| 10000 <= n < 99999 && name@ == ".Auto profile - "@ + decimal(n)),
{
    let mut candidates: Vec<String> = Vec::new();
    let mut i: usize = 0;
    while i < guest_names.len()
        invariant
            i <= guest_names@.len(),
            forall|c: int| 0 <= c < candidates@.len() ==> exists|g: int| 0 <= g < i && (#[trigger] candidates@[c])@
                == seq!['.'] + (#[trigger] guest_names@[g])@ && name_unused(used@, candidates@[c]@),
            forall|g: int| 0 <= g < i && name_unused(used@, seq!['.'] + (#[trigger] guest_names@[g])@) ==> candidates@.len() > 0,
        decreases guest_names.len() - i,
    {
        let mut on_disk = String::from_str(".");
        on_disk.append(guest_names[i].as_str());
        proof {
            reveal_strlit(".");
            assert(on_disk@ =~= seq!['.'] + guest_names@[i as int]@);
        }
        let mut taken = false;
        let mut j: usize = 0;
        while j < used.len()
            invariant
                j <= used@.len(),
                taken == exists|k: int| 0 <= k < j && (#[trigger] used@[k])@ == on_disk@,
            decreases used.len() - j,
        {
            if crate::input::str_eq(used[j].as_str(), on_disk.as_str()) {
                taken = true;
            }
            j += 1;
        }
        if !taken {
            let ghost before = candidates@;
            candidates.push(on_disk);
            proof {
                assert forall|c: int| 0 <= c < candidates@.len() implies exists|g: int| 0 <= g < i + 1
                    && (#[trigger] candidates@[c])@ == seq!['.'] + (#[trigger] guest_names@[g])@ && name_unused(
                    used@,
                    candidates@[c]@,
                ) by {
                    if c < before.len() {
                        assert(candidates@[c] == before[c]);
                    } else {
                        assert(candidates@[c]@ == seq!['.'] + guest_names@[i as int]@);
                    }
                }
            }
        }
        i += 1;
    }
    match random_choice(candidates) {
        Some(a) => a,
        None => {
            let n = random_u32_in(10000, 99999);
            let mut name = String::from_str(".Auto profile - ");
            push_decimal(&mut name, n as u64);
            name
        },
    }
}

} // verus!
