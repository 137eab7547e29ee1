use vstd::prelude::*;
use crate::input::{
    DeviceRefrence, DeviceType, InputAction, InputStateInner, InternalDevice, TargetView, fix_actions, fixed_devices,
    fixed_targets, grab_set, leases_dropped, spec_device_type,
};
use crate::util::{file_name_of, path_file_name};
use crate::layout::{GameGrid, Layout, WindowPosition, arranged, layout_args_ok, layout_cells};
use crate::seqs::{first_index, lemma_first_index, lemma_first_index_props};
use crate::input::str_eq;
use crate::text::{decimal, decimal_string, push_decimal, split_whitespace, string_views, words};

verus! {

/// Identifies an instance within a session; never reused.
#[derive(Clone, Copy, PartialEq, Eq, Structural, Hash, Debug)]
pub struct InstanceId(pub u64);

/// What the user asked for in the instance editor.
#[derive(Clone, Copy, PartialEq, Eq, Structural, Debug)]
pub enum InstanceAction {
    /// Nothing was asked for.
    NoAction,
    Edit(InstanceId),
    Remove(InstanceId),
    Swap(InstanceId, InstanceId),
}

/// What the user did on the editor tile of instance `id`: its remove button
/// asks to remove it and its edit button to edit it; another instance's
/// tile dropped on it asks to swap the two, which wins over the buttons,
/// as editing wins over removing.
pub fn tile_action(id: InstanceId, remove_clicked: bool, edit_clicked: bool, dropped: Option<InstanceId>) -> (a: InstanceAction)
    ensures
        a == match dropped {
            Some(other) if other != id => InstanceAction::Swap(other, id),
            _ => if edit_clicked {
                InstanceAction::Edit(id)
            } else if remove_clicked {
                InstanceAction::Remove(id)
            } else {
                InstanceAction::NoAction
            },
        },
{
    let mut action = InstanceAction::NoAction;
    if remove_clicked {
        action = InstanceAction::Remove(id);
    }
    if edit_clicked {
        action = InstanceAction::Edit(id);
    }
    if let Some(other) = dropped {
        if other != id {
            action = InstanceAction::Swap(other, id);
        }
    }
    action
}

/// The first action asked for on a display's tiles, in tile order.
pub open spec fn first_action(actions: Seq<InstanceAction>) -> InstanceAction
    decreases actions.len(),
{
    if actions.len() == 0 {
        InstanceAction::NoAction
    } else if actions[0] != InstanceAction::NoAction {
        actions[0]
    } else {
        first_action(actions.drop_first())
    }
}

/// The action a display's editor reports: that of its first tile that asked
/// for one.
pub fn editor_action(actions: &Vec<InstanceAction>) -> (a: InstanceAction)
    ensures
        a == first_action(actions@),
{
    let mut k: usize = actions.len();
    let mut a = InstanceAction::NoAction;
    while k > 0
        invariant
            k <= actions@.len(),
            a == first_action(actions@.skip(k as int)),
        decreases k,
    {
        k -= 1;
        proof {
            assert(actions@.skip(k as int).drop_first() =~= actions@.skip(k + 1));
        }
        if actions[k] != InstanceAction::NoAction {
            a = actions[k];
        }
    }
    proof {
        assert(actions@.skip(0) =~= actions@);
    }
    a
}

/// An instance's colour in the editor, as RGBA bytes.
#[derive(Clone, Copy, PartialEq, Eq, Structural, Debug)]
pub struct InstanceColor {
    pub r: u8,
    pub g: u8,
    pub b: u8,
    pub a: u8,
}

/// Per-instance launch settings.
#[derive(Clone, Copy, PartialEq, Eq, Structural, Debug)]
pub struct InstanceSpecificHandler {
    /// How long the next instance waits after this one starts, in ms.
    pub pause_between_starts_ms: Option<u64>,
}

/// What the launch of an instance has reached.
#[derive(Clone, Copy, PartialEq, Eq, Structural, Debug)]
pub enum InstanceLaunchedStatus {
    NotStarted,
    /// Seconds left before the instance starts.
    StartTimeout(u64),
    WaitingFD,
    Ready,
    Failed,
    Exited,
}

/// The launch state of a started instance. Times are in ms on the caller's
/// monotonic clock.
#[derive(Clone, Copy, PartialEq, Eq, Structural, Debug)]
pub struct LaunchTracker {
    /// A final status; once set the instance is not retried.
    pub last_error_dont_retry: Option<InstanceLaunchedStatus>,
    /// When gamescope may be started.
    pub start_at_ms: u64,
    /// Set once gamescope was spawned: when its ready message must have come.
    pub ready_deadline_ms: Option<u64>,
    /// Whether the instance's video stream is being shown.
    pub has_stream_view: bool,
    pub starting_position: WindowPosition,
}

pub struct Instance {
    pub id: InstanceId,
    pub devices: Vec<DeviceRefrence>,
    pub profname: String,
    pub color: InstanceColor,
    pub handler: InstanceSpecificHandler,
    pub launch_data: Option<LaunchTracker>,
}

/// The tracker a newly started instance gets.
pub open spec fn fresh_tracker(start_at_ms: u64, position: WindowPosition) -> LaunchTracker {
    LaunchTracker {
        last_error_dont_retry: None,
        start_at_ms,
        ready_deadline_ms: None,
        has_stream_view: false,
        starting_position: position,
    }
}

pub open spec fn pause_ms(h: InstanceSpecificHandler) -> nat {
    match h.pause_between_starts_ms {
        Some(d) => d as nat,
        None => 0,
    }
}

impl Instance {
    /// Starts the launch countdown at `*next_timeout` unless the instance was
    /// started already; then moves the next start on by the instance's pause.
    pub fn start_instance(&mut self, next_timeout: &mut u64, position: WindowPosition)
        requires
            old(self).launch_data is None ==> *old(next_timeout) + pause_ms(old(self).handler) <= u64::MAX,
        ensures
            old(self).launch_data is Some ==> *final(self) == *old(self) && *final(next_timeout) == *old(next_timeout),
            old(self).launch_data is None ==> {
                &&& final(self).launch_data == Some(fresh_tracker(*old(next_timeout), position))
                &&& *final(next_timeout) == *old(next_timeout) + pause_ms(old(self).handler)
                &&& final(self).id == old(self).id
                &&& final(self).devices@ == old(self).devices@
                &&& final(self).profname@ == old(self).profname@
                &&& final(self).color == old(self).color
                &&& final(self).handler == old(self).handler
            },
    {
        if self.launch_data.is_some() {
            return;
        }
        self.launch_data = Some(
            LaunchTracker {
                last_error_dont_retry: None,
                start_at_ms: *next_timeout,
                ready_deadline_ms: None,
                has_stream_view: false,
                starting_position: position,
            },
        );
        if let Some(delay) = self.handler.pause_between_starts_ms {
            *next_timeout = *next_timeout + delay;
        }
    }

    /// Whether the instance is running or still starting. A failed or exited
    /// instance stops showing its stream.
    pub fn is_alive_or_starting(&mut self) -> (res: bool)
        ensures
            res == match old(self).launch_data {
                Some(ld) => ld.last_error_dont_retry is None,
                None => true,
            },
            final(self).id == old(self).id,
            final(self).devices@ == old(self).devices@,
            final(self).profname@ == old(self).profname@,
            final(self).color == old(self).color,
            final(self).handler == old(self).handler,
            final(self).launch_data == match old(self).launch_data {
                Some(ld) => if ld.last_error_dont_retry is None {
                    Some(ld)
                } else {
                    Some(LaunchTracker { has_stream_view: false, ..ld })
                },
                None => None,
            },
    {
        match &mut self.launch_data {
            None => true,
            Some(ld) => {
                let is_alive = ld.last_error_dont_retry.is_none();
                if !is_alive {
                    ld.has_stream_view = false;
                }
                is_alive
            },
        }
    }

    /// Marks the instance as exited. Returns whether a gamescope process was
    /// spawned and must be killed; its stream stops showing then.
    pub fn kill_game(&mut self) -> (must_kill: bool)
        ensures
            must_kill == (old(self).launch_data matches Some(ld) && ld.ready_deadline_ms is Some),
            final(self).id == old(self).id,
            final(self).devices@ == old(self).devices@,
            final(self).profname@ == old(self).profname@,
            final(self).color == old(self).color,
            final(self).handler == old(self).handler,
            final(self).launch_data == match old(self).launch_data {
                Some(ld) => Some(
                    LaunchTracker {
                        last_error_dont_retry: Some(InstanceLaunchedStatus::Exited),
                        has_stream_view: if ld.ready_deadline_ms is Some {
                            false
                        } else {
                            ld.has_stream_view
                        },
                        ..ld
                    },
                ),
                None => None,
            },
    {
        match &mut self.launch_data {
            None => false,
            Some(ld) => {
                ld.last_error_dont_retry = Some(InstanceLaunchedStatus::Exited);
                if ld.ready_deadline_ms.is_none() {
                    return false;
                }
                ld.has_stream_view = false;
                true
            },
        }
    }
}

pub open spec fn status_text(s: InstanceLaunchedStatus) -> Seq<char> {
    match s {
        InstanceLaunchedStatus::NotStarted => "Not started properly"@,
        InstanceLaunchedStatus::StartTimeout(t) => "Waiting "@ + decimal(t as nat) + "s..."@,
        InstanceLaunchedStatus::WaitingFD => "Waiting for gamescope to respond"@,
        InstanceLaunchedStatus::Ready => "Ready waiting for frames!"@,
        InstanceLaunchedStatus::Failed => "Failed to start"@,
        InstanceLaunchedStatus::Exited => "Exited"@,
    }
}

impl InstanceLaunchedStatus {
    /// The status as shown over an instance's tile.
    pub fn text(&self) -> (res: String)
        ensures
            res@ == status_text(*self),
    {
        match self {
            InstanceLaunchedStatus::NotStarted => String::from_str("Not started properly"),
            InstanceLaunchedStatus::StartTimeout(t) => {
                let mut out = String::from_str("Waiting ");
                push_decimal(&mut out, *t);
                out.append("s...");
                out
            },
            InstanceLaunchedStatus::WaitingFD => String::from_str("Waiting for gamescope to respond"),
            InstanceLaunchedStatus::Ready => String::from_str("Ready waiting for frames!"),
            InstanceLaunchedStatus::Failed => String::from_str("Failed to start"),
            InstanceLaunchedStatus::Exited => String::from_str("Exited"),
        }
    }
}

/// Whether an instance is running or still starting.
pub open spec fn alive(inst: Instance) -> bool {
    match inst.launch_data {
        Some(ld) => ld.last_error_dont_retry is None,
        None => true,
    }
}

/// The launch state of an instance once a check found it dead: its stream
/// is no longer shown.
pub open spec fn after_alive_check(l: Option<LaunchTracker>) -> Option<LaunchTracker> {
    match l {
        Some(ld) => if ld.last_error_dont_retry is None {
            Some(ld)
        } else {
            Some(LaunchTracker { has_stream_view: false, ..ld })
        },
        None => None,
    }
}

/// Whether no instance before `k` is running or starting.
pub open spec fn none_alive_before(insts: Seq<Instance>, k: int) -> bool {
    forall|m: int| 0 <= m < k ==> !alive(#[trigger] insts[m])
}

/// The pauses that starting instances `0..k` adds before the next start.
pub open spec fn pauses_before(insts: Seq<Instance>, k: int) -> nat
    decreases k,
{
    if k <= 0 {
        0
    } else {
        pauses_before(insts, k - 1) + if insts[k - 1].launch_data is None {
            pause_ms(insts[k - 1].handler)
        } else {
            0
        }
    }
}

/// Later instances start no earlier: the pauses before them only add up.
pub proof fn lemma_pauses_monotone(insts: Seq<Instance>, a: int, b: int)
    requires
        a <= b,
    ensures
        pauses_before(insts, a) <= pauses_before(insts, b),
    decreases b - a,
{
    if a < b {
        lemma_pauses_monotone(insts, a, b - 1);
    }
}

/// What the launch of an instance learned from the last outside step.
pub enum LaunchProbe {
    /// A new update of the instance begins.
    Begin,
    /// gamescope was spawned, or spawning it failed.
    Spawned(bool),
    /// Whether gamescope is still running.
    Running(bool),
    /// How many bytes gamescope's ready pipe holds, or `None` when asking
    /// failed.
    ReadyBytes(Option<i32>),
    /// What was read from the ready pipe, or `None` when reading failed.
    ReadyMessage(Option<Vec<u8>>),
    /// Whether the video stream of the named display was set up.
    StreamConnected(bool),
    /// Whether the queued device changes and input events were delivered.
    InputDelivered(bool),
}

/// What the caller does next for a launching instance.
#[derive(PartialEq, Eq, Debug)]
pub enum LaunchNext {
    /// The update ends with this status.
    Report(InstanceLaunchedStatus),
    /// Spawn gamescope, then probe `Spawned`.
    Spawn,
    /// Check whether gamescope runs, then probe `Running`.
    PollRunning,
    /// Ask how many bytes the ready pipe holds, then probe `ReadyBytes`.
    QueryReadyBytes,
    /// Read this many bytes from the ready pipe, then probe `ReadyMessage`.
    ReadReady(u32),
    /// Connect the video stream of this wayland display, then probe
    /// `StreamConnected`.
    Connect(String),
    /// Deliver queued device changes and input, then probe `InputDelivered`.
    DeliverInput,
    /// gamescope exited: release the instance's device grabs and report
    /// `Exited`.
    Exited,
}

/// The tracker once the launch failed for good.
pub open spec fn failed(ld: LaunchTracker) -> LaunchTracker {
    LaunchTracker { last_error_dont_retry: Some(InstanceLaunchedStatus::Failed), ..ld }
}

/// Whether the ready message was due before `now_ms`.
pub open spec fn past_deadline(ld: LaunchTracker, now_ms: u64) -> bool {
    match ld.ready_deadline_ms {
        Some(t) => now_ms > t,
        None => false,
    }
}

/// Text decoded from bytes as UTF-8, with each invalid sequence replaced by
/// U+FFFD.
pub uninterp spec fn lossy_text(bytes: Seq<u8>) -> Seq<char>;

/// `String::from_utf8_lossy`: decodes UTF-8, replacing invalid sequences
/// with U+FFFD. The result is named by `lossy_text`; for ASCII bytes it is
/// those bytes as characters.
#[verifier::external_body]
fn utf8_lossy(bytes: &Vec<u8>) -> (text: String)
    ensures
        text@ == lossy_text(bytes@),
        (forall|i: int| 0 <= i < bytes@.len() ==> #[trigger] bytes@[i] < 128) ==> text@ == bytes@.map_values(
            |b: u8| b as char,
        ),
{
    String::from_utf8_lossy(bytes.as_slice()).into_owned()
}

/// The wayland display named in gamescope's ready message: its second
/// whitespace-separated word.
pub fn ready_display_name(message: &str) -> (name: Option<String>)
    ensures
        match name {
            Some(n) => words(message@).len() > 1 && n@ == words(message@)[1],
            None => words(message@).len() <= 1,
        },
{
    let mut parts = split_whitespace(message);
    proof {
        assert(string_views(parts@).len() == parts@.len());
    }
    if parts.len() > 1 {
        let n = parts.remove(1);
        Some(n)
    } else {
        None
    }
}

/// The tracker after one launch step on tracker `ld`.
pub open spec fn tracker_after(ld: LaunchTracker, now_ms: u64, probe: LaunchProbe) -> LaunchTracker {
    match probe {
        LaunchProbe::Begin => if ld.last_error_dont_retry is Some {
            LaunchTracker { has_stream_view: false, ..ld }
        } else {
            ld
        },
        LaunchProbe::Spawned(ok) => if ok {
            LaunchTracker { ready_deadline_ms: Some((now_ms + 5000) as u64), ..ld }
        } else {
            failed(ld)
        },
        LaunchProbe::Running(running) => if !running {
            LaunchTracker { last_error_dont_retry: Some(InstanceLaunchedStatus::Exited), ..ld }
        } else if ld.has_stream_view {
            ld
        } else if past_deadline(ld, now_ms) {
            failed(ld)
        } else {
            ld
        },
        LaunchProbe::ReadyBytes(bytes) => if bytes is None {
            failed(ld)
        } else {
            ld
        },
        LaunchProbe::ReadyMessage(msg) => match msg {
            Some(bytes) => if words(lossy_text(bytes@)).len() > 1 {
                ld
            } else {
                failed(ld)
            },
            None => failed(ld),
        },
        LaunchProbe::StreamConnected(ok) => if ok {
            LaunchTracker { has_stream_view: true, ..ld }
        } else {
            failed(ld)
        },
        LaunchProbe::InputDelivered(ok) => if ok {
            ld
        } else {
            failed(ld)
        },
    }
}

/// The status an update ends with after one launch step on tracker `ld`,
/// or `None` when the update goes on.
pub open spec fn report_after(ld: LaunchTracker, now_ms: u64, probe: LaunchProbe) -> Option<InstanceLaunchedStatus> {
    match probe {
        LaunchProbe::Begin => match ld.last_error_dont_retry {
            Some(e) => Some(e),
            None => if now_ms < ld.start_at_ms {
                Some(InstanceLaunchedStatus::StartTimeout(((ld.start_at_ms - now_ms) / 1000) as u64))
            } else {
                None
            },
        },
        LaunchProbe::Spawned(ok) => if ok {
            None
        } else {
            Some(InstanceLaunchedStatus::Failed)
        },
        LaunchProbe::Running(running) => if !running {
            Some(InstanceLaunchedStatus::Exited)
        } else if ld.has_stream_view {
            None
        } else if past_deadline(ld, now_ms) {
            Some(InstanceLaunchedStatus::Failed)
        } else {
            None
        },
        LaunchProbe::ReadyBytes(bytes) => match bytes {
            None => Some(InstanceLaunchedStatus::Failed),
            Some(n) => if n <= 0 {
                Some(InstanceLaunchedStatus::WaitingFD)
            } else {
                None
            },
        },
        LaunchProbe::ReadyMessage(msg) => match msg {
            Some(bytes) => if words(lossy_text(bytes@)).len() > 1 {
                None
            } else {
                Some(InstanceLaunchedStatus::Failed)
            },
            None => Some(InstanceLaunchedStatus::Failed),
        },
        LaunchProbe::StreamConnected(ok) => if ok {
            None
        } else {
            Some(InstanceLaunchedStatus::Failed)
        },
        LaunchProbe::InputDelivered(ok) => Some(
            if ok {
                InstanceLaunchedStatus::Ready
            } else {
                InstanceLaunchedStatus::Failed
            },
        ),
    }
}

/// The status a step's answer reports: `Exited` counts as reporting
/// `Exited`.
pub open spec fn reports(next: LaunchNext) -> Option<InstanceLaunchedStatus> {
    match next {
        LaunchNext::Report(s) => Some(s),
        LaunchNext::Exited => Some(InstanceLaunchedStatus::Exited),
        _ => None,
    }
}

/// A step that ends an update with `Failed` or `Exited` first stores that
/// status, so it is never retried.
pub proof fn lemma_failures_are_stored(ld: LaunchTracker, now_ms: u64, probe: LaunchProbe)
    ensures
        report_after(ld, now_ms, probe) == Some(InstanceLaunchedStatus::Failed) ==> tracker_after(ld, now_ms, probe).last_error_dont_retry
            == Some(InstanceLaunchedStatus::Failed),
        report_after(ld, now_ms, probe) == Some(InstanceLaunchedStatus::Exited) ==> tracker_after(ld, now_ms, probe).last_error_dont_retry
            == Some(InstanceLaunchedStatus::Exited),
{
}

/// The tracker after updates begun at `times`, each of which ends at its
/// first step.
pub open spec fn begun_updates(ld: LaunchTracker, times: Seq<u64>) -> LaunchTracker
    decreases times.len(),
{
    if times.len() == 0 {
        ld
    } else {
        tracker_after(begun_updates(ld, times.drop_last()), times.last(), LaunchProbe::Begin)
    }
}

/// Once a status is stored, every later update reports it at once and keeps
/// it stored: the instance is not started again.
pub proof fn lemma_stored_status_sticks(ld: LaunchTracker, times: Seq<u64>)
    requires
        ld.last_error_dont_retry is Some,
    ensures
        begun_updates(ld, times).last_error_dont_retry == ld.last_error_dont_retry,
        forall|i: int| 0 <= i < times.len() ==> report_after(begun_updates(ld, times.take(i)), #[trigger] times[i], LaunchProbe::Begin)
            == ld.last_error_dont_retry,
    decreases times.len(),
{
    if times.len() > 0 {
        let init = times.drop_last();
        lemma_stored_status_sticks(ld, init);
        assert forall|i: int| 0 <= i < times.len() implies report_after(begun_updates(ld, times.take(i)), #[trigger] times[i],
            LaunchProbe::Begin) == ld.last_error_dont_retry by {
            if i < times.len() - 1 {
                assert(times.take(i) =~= init.take(i));
                assert(times[i] == init[i]);
            } else {
                assert(times.take(i) =~= init);
            }
        }
    }
}

impl Instance {
    /// One step of an instance's launch. The caller starts an update with
    /// `Begin` and answers each request with the matching probe until a
    /// status is reported.
    pub fn launch_step(&mut self, now_ms: u64, probe: LaunchProbe) -> (next: LaunchNext)
        requires
            probe matches LaunchProbe::Spawned(ok) && ok ==> now_ms + 5000 <= u64::MAX,
        ensures
            old(self).launch_data matches Some(ld) ==> final(self).launch_data == Some(tracker_after(ld, now_ms, probe))
                && reports(next) == report_after(ld, now_ms, probe),
            final(self).id == old(self).id,
            final(self).devices@ == old(self).devices@,
            final(self).profname@ == old(self).profname@,
            final(self).color == old(self).color,
            final(self).handler == old(self).handler,
            match old(self).launch_data {
                None => final(self).launch_data is None && next == LaunchNext::Report(InstanceLaunchedStatus::NotStarted),
                Some(ld) => match probe {
                    LaunchProbe::Begin => match ld.last_error_dont_retry {
                        Some(e) => next == LaunchNext::Report(e) && final(self).launch_data == Some(
                            LaunchTracker { has_stream_view: false, ..ld },
                        ),
                        None => final(self).launch_data == Some(ld) && next == if now_ms < ld.start_at_ms {
                            LaunchNext::Report(InstanceLaunchedStatus::StartTimeout(((ld.start_at_ms - now_ms) / 1000) as u64))
                        } else if ld.ready_deadline_ms is None {
                            LaunchNext::Spawn
                        } else {
                            LaunchNext::PollRunning
                        },
                    },
                    LaunchProbe::Spawned(ok) => if ok {
                        final(self).launch_data == Some(LaunchTracker { ready_deadline_ms: Some((now_ms + 5000) as u64), ..ld })
                            && next == LaunchNext::PollRunning
                    } else {
                        final(self).launch_data == Some(failed(ld)) && next == LaunchNext::Report(InstanceLaunchedStatus::Failed)
                    },
                    LaunchProbe::Running(running) => if !running {
                        final(self).launch_data == Some(
                            LaunchTracker { last_error_dont_retry: Some(InstanceLaunchedStatus::Exited), ..ld },
                        ) && next == LaunchNext::Exited
                    } else if ld.has_stream_view {
                        final(self).launch_data == Some(ld) && next == LaunchNext::DeliverInput
                    } else if past_deadline(ld, now_ms) {
                        final(self).launch_data == Some(failed(ld)) && next == LaunchNext::Report(InstanceLaunchedStatus::Failed)
                    } else {
                        final(self).launch_data == Some(ld) && next == LaunchNext::QueryReadyBytes
                    },
                    LaunchProbe::ReadyBytes(bytes) => match bytes {
                        None => final(self).launch_data == Some(failed(ld)) && next == LaunchNext::Report(InstanceLaunchedStatus::Failed),
                        Some(n) => final(self).launch_data == Some(ld) && next == if n <= 0 {
                            LaunchNext::Report(InstanceLaunchedStatus::WaitingFD)
                        } else {
                            LaunchNext::ReadReady(n as u32)
                        },
                    },
                    LaunchProbe::ReadyMessage(msg) => match msg {
                        Some(bytes) if words(lossy_text(bytes@)).len() > 1 => final(self).launch_data == Some(ld)
                            && (next matches LaunchNext::Connect(name) && name@ == words(lossy_text(bytes@))[1]),
                        _ => final(self).launch_data == Some(failed(ld)) && next == LaunchNext::Report(InstanceLaunchedStatus::Failed),
                    },
                    LaunchProbe::StreamConnected(ok) => if ok {
                        final(self).launch_data == Some(LaunchTracker { has_stream_view: true, ..ld }) && next
                            == LaunchNext::DeliverInput
                    } else {
                        final(self).launch_data == Some(failed(ld)) && next == LaunchNext::Report(InstanceLaunchedStatus::Failed)
                    },
                    LaunchProbe::InputDelivered(ok) => if ok {
                        final(self).launch_data == Some(ld) && next == LaunchNext::Report(InstanceLaunchedStatus::Ready)
                    } else {
                        final(self).launch_data == Some(failed(ld)) && next == LaunchNext::Report(InstanceLaunchedStatus::Failed)
                    },
                },
            },
    {
        let Some(ld) = &mut self.launch_data else {
            return LaunchNext::Report(InstanceLaunchedStatus::NotStarted);
        };
        let mut fail = false;
        let next = match probe {
            LaunchProbe::Begin => {
                if let Some(e) = ld.last_error_dont_retry {
                    ld.has_stream_view = false;
                    LaunchNext::Report(e)
                } else if now_ms < ld.start_at_ms {
                    LaunchNext::Report(InstanceLaunchedStatus::StartTimeout((ld.start_at_ms - now_ms) / 1000))
                } else if ld.ready_deadline_ms.is_none() {
                    LaunchNext::Spawn
                } else {
                    LaunchNext::PollRunning
                }
            },
            LaunchProbe::Spawned(ok) => {
                if ok {
                    ld.ready_deadline_ms = Some(now_ms + 5000);
                    LaunchNext::PollRunning
                } else {
                    fail = true;
                    LaunchNext::Report(InstanceLaunchedStatus::Failed)
                }
            },
            LaunchProbe::Running(running) => {
                if !running {
                    ld.last_error_dont_retry = Some(InstanceLaunchedStatus::Exited);
                    LaunchNext::Exited
                } else if ld.has_stream_view {
                    LaunchNext::DeliverInput
                } else {
                    let late = match ld.ready_deadline_ms {
                        Some(t) => now_ms > t,
                        None => false,
                    };
                    if late {
                        fail = true;
                        LaunchNext::Report(InstanceLaunchedStatus::Failed)
                    } else {
                        LaunchNext::QueryReadyBytes
                    }
                }
            },
            LaunchProbe::ReadyBytes(bytes) => match bytes {
                None => {
                    fail = true;
                    LaunchNext::Report(InstanceLaunchedStatus::Failed)
                },
                Some(n) => {
                    if n <= 0 {
                        LaunchNext::Report(InstanceLaunchedStatus::WaitingFD)
                    } else {
                        LaunchNext::ReadReady(n as u32)
                    }
                },
            },
            LaunchProbe::ReadyMessage(msg) => match msg {
                None => {
                    fail = true;
                    LaunchNext::Report(InstanceLaunchedStatus::Failed)
                },
                Some(bytes) => {
                    let text = utf8_lossy(&bytes);
                    match ready_display_name(text.as_str()) {
                        Some(name) => LaunchNext::Connect(name),
                        None => {
                            fail = true;
                            LaunchNext::Report(InstanceLaunchedStatus::Failed)
                        },
                    }
                },
            },
            LaunchProbe::StreamConnected(ok) => {
                if ok {
                    ld.has_stream_view = true;
                    LaunchNext::DeliverInput
                } else {
                    fail = true;
                    LaunchNext::Report(InstanceLaunchedStatus::Failed)
                }
            },
            LaunchProbe::InputDelivered(ok) => {
                if ok {
                    LaunchNext::Report(InstanceLaunchedStatus::Ready)
                } else {
                    fail = true;
                    LaunchNext::Report(InstanceLaunchedStatus::Failed)
                }
            },
        };
        if fail {
            ld.last_error_dont_retry = Some(InstanceLaunchedStatus::Failed);
        }
        next
    }
}

/// The device table after each lease in turn sets its grab wish to
/// `grabbed` and the table is fixed, with the actions produced on the way.
pub open spec fn grabs_set(
    devs: Seq<InternalDevice>,
    ts: Seq<TargetView>,
    leases: Seq<DeviceRefrence>,
    grabbed: bool,
) -> (Seq<InternalDevice>, Seq<TargetView>, Seq<InputAction>)
    decreases leases.len(),
{
    if leases.len() == 0 {
        (devs, ts, Seq::empty())
    } else {
        let prev = grabs_set(devs, ts, leases.drop_last(), grabbed);
        let l = leases.last();
        let mid = grab_set(prev.1, l.device_id, l.user_id, grabbed);
        (fixed_devices(prev.0, mid), fixed_targets(mid), prev.2 + fix_actions(prev.0, mid))
    }
}

/// The first device bound to target `id`.
pub open spec fn bound_device(devs: Seq<InternalDevice>, id: u64) -> Option<int> {
    first_index(devs, |d: InternalDevice| d.device_id == Some(id))
}

/// Whether the device a lease reads is a keyboard or a mouse.
pub open spec fn lease_is_kbm(devs: Seq<InternalDevice>, lease: DeviceRefrence) -> bool {
    match bound_device(devs, lease.device_id) {
        Some(k) => {
            let t = spec_device_type(devs[k].caps);
            t == DeviceType::Keyboard || t == DeviceType::Mouse
        },
        None => false,
    }
}

/// The file names of the devices the leases read, in lease order; a lease
/// whose target has no device, or whose device path has no file name, adds
/// none.
pub open spec fn lease_files(devs: Seq<InternalDevice>, leases: Seq<DeviceRefrence>) -> Seq<Seq<char>>
    decreases leases.len(),
{
    if leases.len() == 0 {
        Seq::empty()
    } else {
        let rest = lease_files(devs, leases.drop_last());
        match bound_device(devs, leases.last().device_id) {
            Some(k) => match path_file_name(devs[k].path@) {
                Some(n) => rest.push(n),
                None => rest,
            },
            None => rest,
        }
    }
}

impl Instance {
    /// What the instance's namespace needs of its devices before its
    /// gamescope starts: the file names of the device nodes to bind into
    /// it, and for each lease whether it reads a keyboard or mouse, whose
    /// events go to the instance's window.
    pub fn namespace_devices(&self, state: &InputStateInner) -> (res: (Vec<String>, Vec<bool>))
        ensures
            string_views(res.0@) == lease_files(state.devices@, self.devices@),
            res.1@.len() == self.devices@.len(),
            forall|i: int| 0 <= i < self.devices@.len() ==> #[trigger] res.1@[i] == lease_is_kbm(state.devices@, self.devices@[i]),
    {
        let mut names: Vec<String> = Vec::new();
        let mut kbm: Vec<bool> = Vec::new();
        let mut i: usize = 0;
        while i < self.devices.len()
            invariant
                i <= self.devices@.len(),
                string_views(names@) == lease_files(state.devices@, self.devices@.take(i as int)),
                kbm@.len() == i,
                forall|m: int| 0 <= m < i ==> #[trigger] kbm@[m] == lease_is_kbm(state.devices@, self.devices@[m]),
            decreases self.devices.len() - i,
        {
            let id = self.devices[i].device_id;
            let ghost p = |d: InternalDevice| d.device_id == Some(id);
            let mut k: usize = 0;
            while k < state.devices.len()
                invariant
                    k <= state.devices@.len(),
                    p == (|d: InternalDevice| d.device_id == Some(id)),
                    forall|m: int| 0 <= m < k ==> !p(#[trigger] state.devices@[m]),
                ensures
                    k <= state.devices@.len(),
                    k < state.devices@.len() ==> p(state.devices@[k as int]),
                    forall|m: int| 0 <= m < k ==> !p(#[trigger] state.devices@[m]),
                decreases state.devices.len() - k,
            {
                let found = match state.devices[k].device_id {
                    Some(x) => x == id,
                    None => false,
                };
                if found {
                    break;
                }
                k += 1;
            }
            proof {
                lemma_first_index(state.devices@, p, k as int);
                assert(self.devices@.take(i + 1).drop_last() =~= self.devices@.take(i as int));
                assert(self.devices@.take(i + 1).last() == self.devices@[i as int]);
            }
            let mut is_kbm = false;
            if k < state.devices.len() {
                let t = state.devices[k].device_type();
                is_kbm = match t {
                    DeviceType::Keyboard | DeviceType::Mouse => true,
                    _ => false,
                };
                match file_name_of(state.devices[k].path.as_str()) {
                    Some(n) => {
                        let ghost before = names@;
                        names.push(n);
                        proof {
                            assert(string_views(names@) =~= string_views(before).push(names@.last()@));
                        }
                    },
                    None => {},
                }
            }
            let ghost kb = kbm@;
            kbm.push(is_kbm);
            proof {
                assert forall|m: int| 0 <= m < i + 1 implies #[trigger] kbm@[m] == lease_is_kbm(state.devices@, self.devices@[m]) by {
                    if m < i {
                        assert(kbm@[m] == kb[m]);
                    }
                }
            }
            i += 1;
        }
        proof {
            assert(self.devices@.take(i as int) =~= self.devices@);
        }
        (names, kbm)
    }

    /// Sets the grab wish of every lease of the instance, fixing the table
    /// after each: `true` when its gamescope starts, `false` once it exited.
    pub fn set_all_grabbed(&mut self, state: &mut InputStateInner, grabbed: bool) -> (actions: Vec<InputAction>)
        ensures
            final(self).id == old(self).id,
            final(self).devices@ == old(self).devices@,
            final(self).profname@ == old(self).profname@,
            final(self).color == old(self).color,
            final(self).handler == old(self).handler,
            final(self).launch_data == old(self).launch_data,
            ({
                let r = grabs_set(old(state).devices@, old(state).targets_view(), old(self).devices@, grabbed);
                &&& final(state).devices@ == r.0
                &&& final(state).targets_view() == r.1
                &&& actions@ == r.2
            }),
    {
        let ghost leases = self.devices@;
        let ghost devs0 = state.devices@;
        let ghost tv0 = state.targets_view();
        let mut actions: Vec<InputAction> = Vec::new();
        let mut k: usize = 0;
        proof {
            assert(leases.take(0) =~= Seq::<DeviceRefrence>::empty());
        }
        while k < self.devices.len()
            invariant
                k <= self.devices@.len(),
                self.devices@ == leases,
                self.id == old(self).id,
                self.profname@ == old(self).profname@,
                self.color == old(self).color,
                self.handler == old(self).handler,
                self.launch_data == old(self).launch_data,
                leases == old(self).devices@,
                ({
                    let r = grabs_set(devs0, tv0, leases.take(k as int), grabbed);
                    &&& state.devices@ == r.0
                    &&& state.targets_view() == r.1
                    &&& actions@ == r.2
                }),
            decreases self.devices.len() - k,
        {
            let mut more = self.devices[k].set_grabbed(state, grabbed);
            actions.append(&mut more);
            proof {
                assert(leases.take(k + 1).drop_last() =~= leases.take(k as int));
                assert(self.devices@ =~= leases);
            }
            k += 1;
        }
        proof {
            assert(leases.take(k as int) =~= leases);
        }
        actions
    }
}

/// The arguments gamescope gets for an instance: it reports readiness on
/// file descriptor `ready_fd` and runs headless at the window's size.
pub open spec fn gamescope_arg_list(ready_fd: u32, pos: WindowPosition) -> Seq<Seq<char>> {
    let w = decimal(pos.w as nat);
    let h = decimal(pos.h as nat);
    seq![
        "-R"@, "/proc/self/fd/"@ + decimal(ready_fd as nat),
        "--composite-cursor"@, "--force-windows-fullscreen"@, "--nested-follow-window-scale"@, "1"@,
        "-W"@, w, "-w"@, w, "-H"@, h, "-h"@, h,
        "--backend"@, "headless"@, "--"@, "konsole"@
    ]
}

/// The gamescope arguments for an instance started at `pos`.
pub fn gamescope_args(ready_fd: u32, pos: WindowPosition) -> (args: Vec<String>)
    ensures
        string_views(args@) == gamescope_arg_list(ready_fd, pos),
{
    let mut args: Vec<String> = Vec::new();
    args.push(String::from_str("-R"));
    let mut fd = String::from_str("/proc/self/fd/");
    push_decimal(&mut fd, ready_fd as u64);
    args.push(fd);
    args.push(String::from_str("--composite-cursor"));
    args.push(String::from_str("--force-windows-fullscreen"));
    args.push(String::from_str("--nested-follow-window-scale"));
    args.push(String::from_str("1"));
    args.push(String::from_str("-W"));
    args.push(decimal_string(pos.w as u64));
    args.push(String::from_str("-w"));
    args.push(decimal_string(pos.w as u64));
    args.push(String::from_str("-H"));
    args.push(decimal_string(pos.h as u64));
    args.push(String::from_str("-h"));
    args.push(decimal_string(pos.h as u64));
    args.push(String::from_str("--backend"));
    args.push(String::from_str("headless"));
    args.push(String::from_str("--"));
    args.push(String::from_str("konsole"));
    proof {
        assert(string_views(args@) =~= gamescope_arg_list(ready_fd, pos));
    }
    args
}

/// One physical display of the session and the instances laid out on it.
pub struct Display {
    pub monitor_idx: usize,
    pub layout: Layout,
    pub instances: Vec<Instance>,
}

impl Display {
    /// A display on the first monitor with the default game layout.
    pub fn new() -> (d: Self)
        ensures
            d.monitor_idx == 0,
            d.layout == (Layout::Game { reverse_direction: false }),
            d.instances@.len() == 0,
    {
        Display { monitor_idx: 0, layout: Layout::Game { reverse_direction: false }, instances: Vec::new() }
    }

    pub fn is_empty(&self) -> (res: bool)
        ensures
            res == (self.instances@.len() == 0),
    {
        self.instances.len() == 0
    }

    /// Whether some instance is running or starting. Instances are checked
    /// in order up to the first live one; a dead instance checked on the way
    /// stops showing its stream.
    pub fn is_alive(&mut self) -> (res: bool)
        ensures
            res == exists|k: int| 0 <= k < old(self).instances@.len() && alive(#[trigger] old(self).instances@[k]),
            final(self).monitor_idx == old(self).monitor_idx,
            final(self).layout == old(self).layout,
            final(self).instances@.len() == old(self).instances@.len(),
            forall|k: int| 0 <= k < old(self).instances@.len() ==> {
                let i0 = #[trigger] old(self).instances@[k];
                let i1 = final(self).instances@[k];
                &&& i1.id == i0.id
                &&& i1.devices@ == i0.devices@
                &&& i1.profname@ == i0.profname@
                &&& i1.color == i0.color
                &&& i1.handler == i0.handler
                &&& i1.launch_data == if none_alive_before(old(self).instances@, k) {
                    after_alive_check(i0.launch_data)
                } else {
                    i0.launch_data
                }
            },
    {
        let ghost v0 = self.instances@;
        let mut k: usize = 0;
        while k < self.instances.len()
            invariant
                k <= self.instances@.len(),
                self.instances@.len() == v0.len(),
                self.monitor_idx == old(self).monitor_idx,
                self.layout == old(self).layout,
                v0 == old(self).instances@,
                forall|m: int| 0 <= m < k ==> !alive(#[trigger] v0[m]),
                forall|m: int| 0 <= m < v0.len() ==> {
                    let i0 = #[trigger] v0[m];
                    let i1 = self.instances@[m];
                    &&& i1.id == i0.id
                    &&& i1.devices@ == i0.devices@
                    &&& i1.profname@ == i0.profname@
                    &&& i1.color == i0.color
                    &&& i1.handler == i0.handler
                    &&& i1.launch_data == if m < k {
                        after_alive_check(i0.launch_data)
                    } else {
                        i0.launch_data
                    }
                },
            decreases self.instances.len() - k,
        {
            proof {
                assert(self.instances@[k as int].launch_data == v0[k as int].launch_data);
            }
            if self.instances[k].is_alive_or_starting() {
                proof {
                    assert(alive(v0[k as int]));
                    assert forall|m: int| 0 <= m < v0.len() implies self.instances@[m].launch_data == if none_alive_before(v0, m) {
                        after_alive_check((#[trigger] v0[m]).launch_data)
                    } else {
                        v0[m].launch_data
                    } by {
                        if m > k {
                            assert(!none_alive_before(v0, m));
                        }
                    }
                }
                return true;
            }
            proof {
                assert(!alive(v0[k as int]));
                assert forall|m: int| 0 <= m < v0.len() implies self.instances@[m].launch_data == if m < k + 1 {
                    after_alive_check((#[trigger] v0[m]).launch_data)
                } else {
                    v0[m].launch_data
                } by {
                    if m == k {
                        assert(self.instances@[m].launch_data == after_alive_check(v0[m].launch_data));
                    }
                }
            }
            k += 1;
        }
        proof {
            assert forall|m: int| 0 <= m < v0.len() implies none_alive_before(v0, m) by {
                assert forall|q: int| 0 <= q < m implies !alive(#[trigger] v0[q]) by {}
            }
        }
        false
    }

    /// Starts the instances that have a window position, in order, each
    /// after the pauses of those started before it.
    pub fn start_display(&mut self, next_timeout: &mut u64, positions: &Vec<WindowPosition>)
        requires
            *old(next_timeout) + pauses_before(old(self).instances@, old(self).instances@.len() as int) <= u64::MAX,
        ensures
            final(self).monitor_idx == old(self).monitor_idx,
            final(self).layout == old(self).layout,
            final(self).instances@.len() == old(self).instances@.len(),
            ({
                let m = if positions@.len() < old(self).instances@.len() {
                    positions@.len() as int
                } else {
                    old(self).instances@.len() as int
                };
                &&& *final(next_timeout) == *old(next_timeout) + pauses_before(old(self).instances@, m)
                &&& forall|k: int| 0 <= k < old(self).instances@.len() ==> {
                    let i0 = #[trigger] old(self).instances@[k];
                    let i1 = final(self).instances@[k];
                    &&& i1.id == i0.id
                    &&& i1.devices@ == i0.devices@
                    &&& i1.profname@ == i0.profname@
                    &&& i1.color == i0.color
                    &&& i1.handler == i0.handler
                    &&& i1.launch_data == if k < m && i0.launch_data is None {
                        Some(fresh_tracker((*old(next_timeout) + pauses_before(old(self).instances@, k)) as u64, positions@[k]))
                    } else {
                        i0.launch_data
                    }
                }
            }),
    {
        let ghost v0 = self.instances@;
        let ghost t0 = *next_timeout;
        let n = if positions.len() < self.instances.len() {
            positions.len()
        } else {
            self.instances.len()
        };
        let mut k: usize = 0;
        while k < n
            invariant
                n <= v0.len(),
                n <= positions@.len(),
                k <= n,
                self.instances@.len() == v0.len(),
                self.monitor_idx == old(self).monitor_idx,
                self.layout == old(self).layout,
                v0 == old(self).instances@,
                t0 == *old(next_timeout),
                t0 + pauses_before(v0, v0.len() as int) <= u64::MAX,
                *next_timeout == t0 + pauses_before(v0, k as int),
                forall|m: int| 0 <= m < v0.len() ==> {
                    let i0 = #[trigger] v0[m];
                    let i1 = self.instances@[m];
                    &&& i1.id == i0.id
                    &&& i1.devices@ == i0.devices@
                    &&& i1.profname@ == i0.profname@
                    &&& i1.color == i0.color
                    &&& i1.handler == i0.handler
                    &&& i1.launch_data == if m < k && i0.launch_data is None {
                        Some(fresh_tracker((t0 + pauses_before(v0, m)) as u64, positions@[m]))
                    } else {
                        i0.launch_data
                    }
                },
            decreases n - k,
        {
            proof {
                lemma_pauses_monotone(v0, k + 1, v0.len() as int);
                assert(self.instances@[k as int].launch_data == v0[k as int].launch_data);
            }
            self.instances[k].start_instance(next_timeout, positions[k]);
            k += 1;
        }
    }

    /// Where each instance goes on a `width` by `height` display.
    pub fn window_positions(&self, grid: GameGrid, width: u32, height: u32) -> (out: Vec<WindowPosition>)
        requires
            layout_args_ok(self.layout, self.instances@.len(), grid, width as nat, height as nat),
        ensures
            arranged(out@, layout_cells(self.layout, self.instances@.len(), grid, width as nat, height as nat)),
    {
        self.layout.windows(self.instances.len(), grid, width, height)
    }
}

/// Every instance id is below `next`.
pub open spec fn ids_below(ds: Seq<Display>, next: u64) -> bool {
    forall|d: int, i: int|
        0 <= d < ds.len() && 0 <= i < ds[d].instances@.len() ==> (#[trigger] ds[d].instances@[i]).id.0 < next
}

/// No two instances of the session share an id.
pub open spec fn ids_distinct(ds: Seq<Display>) -> bool {
    forall|d1: int, i1: int, d2: int, i2: int|
        0 <= d1 < ds.len() && 0 <= i1 < ds[d1].instances@.len() && 0 <= d2 < ds.len() && 0 <= i2
            < ds[d2].instances@.len() && (d1 != d2 || i1 != i2) ==> (#[trigger] ds[d1].instances@[i1]).id
            != (#[trigger] ds[d2].instances@[i2]).id
}

pub open spec fn inst_id_is(id: InstanceId) -> spec_fn(Instance) -> bool {
    |inst: Instance| inst.id == id
}

/// Whether some display holds an instance.
pub open spec fn any_instance(ds: Seq<Display>) -> bool {
    exists|d: int| 0 <= d < ds.len() && (#[trigger] ds[d].instances@).len() > 0
}

/// The contents of a display.
pub struct DisplayView {
    pub monitor_idx: usize,
    pub layout: Layout,
    pub instances: Seq<Instance>,
}

impl View for Display {
    type V = DisplayView;

    open spec fn view(&self) -> DisplayView {
        DisplayView { monitor_idx: self.monitor_idx, layout: self.layout, instances: self.instances@ }
    }
}

pub open spec fn dviews(ds: Seq<Display>) -> Seq<DisplayView> {
    ds.map_values(|d: Display| d@)
}

pub open spec fn display_nonempty() -> spec_fn(DisplayView) -> bool {
    |d: DisplayView| d.instances.len() > 0
}

/// The displays left after dropping the empty ones other than `sel`.
pub open spec fn condensed(ds: Seq<DisplayView>, sel: int) -> Seq<DisplayView> {
    ds.take(sel).filter(display_nonempty()) + seq![ds[sel]] + ds.skip(sel + 1).filter(display_nonempty())
}

/// Where the selection is after condensing.
pub open spec fn condensed_selected(ds: Seq<DisplayView>, sel: int) -> int {
    ds.take(sel).filter(display_nonempty()).len() as int
}

/// What condensing has produced from the first `j` displays.
pub open spec fn condensed_prefix(ds: Seq<DisplayView>, sel: int, j: int) -> Seq<DisplayView> {
    if j <= sel {
        ds.take(j).filter(display_nonempty())
    } else {
        ds.take(sel).filter(display_nonempty()) + seq![ds[sel]] + ds.subrange(sel + 1, j).filter(display_nonempty())
    }
}

pub open spec fn holds_id(id: InstanceId) -> spec_fn(DisplayView) -> bool {
    |d: DisplayView| first_index(d.instances, inst_id_is(id)) is Some
}

/// The first display, and the position on it, of the instance with id `id`.
pub open spec fn locate(ds: Seq<DisplayView>, id: InstanceId) -> Option<(int, int)> {
    match first_index(ds, holds_id(id)) {
        Some(d) => Some((d, first_index(ds[d].instances, inst_id_is(id))->0)),
        None => None,
    }
}

/// The displays once the instance at (`d`, `i`) is taken off.
pub open spec fn without_instance(ds: Seq<DisplayView>, d: int, i: int) -> Seq<DisplayView> {
    ds.update(d, DisplayView { instances: ds[d].instances.remove(i), ..ds[d] })
}

/// Displays `ds1` are some of displays `ds0`, in order, as `idx` picks them.
pub open spec fn picked(ds1: Seq<Display>, ds0: Seq<Display>, idx: Seq<int>) -> bool {
    &&& idx.len() == ds1.len()
    &&& forall|k: int| 0 <= k < idx.len() ==> 0 <= #[trigger] idx[k] < ds0.len()
    &&& forall|k: int| 0 <= k < idx.len() ==> (#[trigger] ds1[k])@ == ds0[idx[k]]@
    &&& forall|k1: int, k2: int| 0 <= k1 < k2 < idx.len() ==> #[trigger] idx[k1] < #[trigger] idx[k2]
}

/// Taking an instance off keeps ids fresh and distinct.
pub proof fn lemma_without_instance_ids(ds1: Seq<Display>, ds0: Seq<Display>, d: int, i: int, next: u64)
    requires
        0 <= d < ds0.len(),
        0 <= i < ds0[d].instances@.len(),
        dviews(ds1) == without_instance(dviews(ds0), d, i),
        ids_below(ds0, next),
        ids_distinct(ds0),
    ensures
        ids_below(ds1, next),
        ids_distinct(ds1),
{
    let v0 = dviews(ds0);
    let v1 = dviews(ds1);
    assert(ds1.len() == ds0.len()) by {
        assert(v1.len() == v0.len());
    }
    assert forall|e: int| 0 <= e < ds1.len() implies (#[trigger] ds1[e]).instances@ == if e == d {
        ds0[d].instances@.remove(i)
    } else {
        ds0[e].instances@
    } by {
        assert(v1[e] == ds1[e]@);
        assert(v0[e] == ds0[e]@);
    }
    assert forall|e: int, k: int| 0 <= e < ds1.len() && 0 <= k < ds1[e].instances@.len() implies
        (#[trigger] ds1[e].instances@[k]) == ds0[e].instances@[if e == d && k >= i { k + 1 } else { k }] by {
    }
    assert forall|e: int, k: int| 0 <= e < ds1.len() && 0 <= k < ds1[e].instances@.len() implies
        (#[trigger] ds1[e].instances@[k]).id.0 < next by {
        let k0 = if e == d && k >= i { k + 1 } else { k };
        assert(ds1[e].instances@[k] == ds0[e].instances@[k0]);
    }
    assert forall|d1: int, i1: int, d2: int, i2: int|
        0 <= d1 < ds1.len() && 0 <= i1 < ds1[d1].instances@.len() && 0 <= d2 < ds1.len() && 0 <= i2
            < ds1[d2].instances@.len() && (d1 != d2 || i1 != i2) implies
        (#[trigger] ds1[d1].instances@[i1]).id != (#[trigger] ds1[d2].instances@[i2]).id by {
        let j1 = if d1 == d && i1 >= i { i1 + 1 } else { i1 };
        let j2 = if d2 == d && i2 >= i { i2 + 1 } else { i2 };
        assert(ds1[d1].instances@[i1] == ds0[d1].instances@[j1]);
        assert(ds1[d2].instances@[i2] == ds0[d2].instances@[j2]);
    }
}

/// Picking displays keeps ids fresh and distinct.
pub proof fn lemma_picked_ids(ds1: Seq<Display>, ds0: Seq<Display>, idx: Seq<int>, next: u64)
    requires
        picked(ds1, ds0, idx),
        ids_below(ds0, next),
        ids_distinct(ds0),
    ensures
        ids_below(ds1, next),
        ids_distinct(ds1),
{
    assert forall|d: int, i: int| 0 <= d < ds1.len() && 0 <= i < ds1[d].instances@.len() implies
        (#[trigger] ds1[d].instances@[i]).id.0 < next by {
        assert(ds1[d]@ == ds0[idx[d]]@);
        assert(ds1[d].instances@ == ds0[idx[d]].instances@);
        assert(ds0[idx[d]].instances@[i] == ds1[d].instances@[i]);
    }
    assert forall|d1: int, i1: int, d2: int, i2: int|
        0 <= d1 < ds1.len() && 0 <= i1 < ds1[d1].instances@.len() && 0 <= d2 < ds1.len() && 0 <= i2
            < ds1[d2].instances@.len() && (d1 != d2 || i1 != i2) implies
        (#[trigger] ds1[d1].instances@[i1]).id != (#[trigger] ds1[d2].instances@[i2]).id by {
        assert(ds1[d1]@ == ds0[idx[d1]]@);
        assert(ds1[d2]@ == ds0[idx[d2]]@);
        assert(ds1[d1].instances@ == ds0[idx[d1]].instances@);
        assert(ds1[d2].instances@ == ds0[idx[d2]].instances@);
        assert(ds0[idx[d1]].instances@[i1] == ds1[d1].instances@[i1]);
        assert(ds0[idx[d2]].instances@[i2] == ds1[d2].instances@[i2]);
        if d1 != d2 {
            if d1 < d2 {
                assert(idx[d1] < idx[d2]);
            } else {
                assert(idx[d2] < idx[d1]);
            }
        }
    }
}

/// The swap of two instances, when both are on the list.
pub open spec fn swapped(insts: Seq<Instance>, a: InstanceId, b: InstanceId) -> Seq<Instance> {
    match (first_index(insts, inst_id_is(a)), first_index(insts, inst_id_is(b))) {
        (Some(ia), Some(ib)) => insts.update(ia, insts[ib]).update(ib, insts[ia]),
        _ => insts,
    }
}

/// Swapping the same two instances twice gives the list back, when no id
/// occurs twice on it.
pub proof fn lemma_swapped_twice(insts: Seq<Instance>, a: InstanceId, b: InstanceId)
    requires
        forall|i: int, j: int| 0 <= i < j < insts.len() ==> (#[trigger] insts[i]).id != (#[trigger] insts[j]).id,
    ensures
        swapped(swapped(insts, a, b), a, b) == insts,
{
    lemma_first_index_props(insts, inst_id_is(a));
    lemma_first_index_props(insts, inst_id_is(b));
    if let (Some(ia), Some(ib)) = (first_index(insts, inst_id_is(a)), first_index(insts, inst_id_is(b))) {
        let s1 = insts.update(ia, insts[ib]).update(ib, insts[ia]);
        if ia == ib {
            assert(s1 =~= insts);
        } else {
            assert(a != b);
            assert forall|k: int| 0 <= k < s1.len() && k != ib implies (#[trigger] s1[k]).id != a by {
                if k != ia {
                    assert(s1[k] == insts[k]);
                    if k < ia {
                        assert(insts[k].id != insts[ia].id);
                    } else {
                        assert(insts[ia].id != insts[k].id);
                    }
                }
            }
            assert forall|k: int| 0 <= k < s1.len() && k != ia implies (#[trigger] s1[k]).id != b by {
                if k != ib {
                    assert(s1[k] == insts[k]);
                    if k < ib {
                        assert(insts[k].id != insts[ib].id);
                    } else {
                        assert(insts[ib].id != insts[k].id);
                    }
                }
            }
            lemma_first_index(s1, inst_id_is(a), ib);
            lemma_first_index(s1, inst_id_is(b), ia);
            assert(swapped(s1, a, b) =~= insts);
        }
    }
}

/// Swapping the same two instances twice gives the session back.
pub proof fn lemma_swap_twice(s0: Session, s1: Session, s2: Session, a: InstanceId, b: InstanceId)
    requires
        s0.wf(),
        instances_swapped(s0, s1, a, b),
        instances_swapped(s1, s2, a, b),
    ensures
        s2.selected == s0.selected,
        s2.next_instance_id == s0.next_instance_id,
        dviews(s2.displays@) == dviews(s0.displays@),
{
    let sel = s0.selected as int;
    let insts = s0.displays@[sel].instances@;
    assert forall|i: int, j: int| 0 <= i < j < insts.len() implies (#[trigger] insts[i]).id != (#[trigger] insts[j]).id by {
        assert(s0.displays@[sel].instances@[i] == insts[i]);
        assert(s0.displays@[sel].instances@[j] == insts[j]);
    }
    lemma_swapped_twice(insts, a, b);
    assert forall|d: int| 0 <= d < s0.displays@.len() implies #[trigger] s2.displays@[d]@ == s0.displays@[d]@ by {
        if d != sel {
            assert(s1.displays@[d] == s0.displays@[d]);
            assert(s2.displays@[d] == s1.displays@[d]);
        }
    }
    assert(dviews(s2.displays@) =~= dviews(s0.displays@));
}

/// Session `s1` and device table `st1` are what removing the instance `id`
/// from session `s0` with device table `st0` gives, with `actions` for the
/// caller: the instance's leases given back, the table fixed, and empty
/// displays other than the selected one dropped.
pub open spec fn instance_removed(
    s0: Session,
    st0: InputStateInner,
    id: InstanceId,
    s1: Session,
    st1: InputStateInner,
    actions: Seq<InputAction>,
) -> bool {
    &&& s1.next_instance_id == s0.next_instance_id
    &&& match locate(dviews(s0.displays@), id) {
        None => {
            &&& st1.devices@ == st0.devices@
            &&& st1.targets_view() == st0.targets_view()
            &&& actions.len() == 0
            &&& dviews(s1.displays@) == condensed(dviews(s0.displays@), s0.selected as int)
            &&& s1.selected == condensed_selected(dviews(s0.displays@), s0.selected as int)
        },
        Some((d, i)) => {
            let inst = s0.displays@[d].instances@[i];
            let mid = leases_dropped(st0.targets_view(), inst.devices@);
            let ds1 = without_instance(dviews(s0.displays@), d, i);
            &&& st1.devices@ == fixed_devices(st0.devices@, mid)
            &&& st1.targets_view() == fixed_targets(mid)
            &&& actions == fix_actions(st0.devices@, mid)
            &&& dviews(s1.displays@) == condensed(ds1, s0.selected as int)
            &&& s1.selected == condensed_selected(ds1, s0.selected as int)
        },
    }
}

/// Session `s1` is session `s0` with instances `a` and `b` of the selected
/// display swapped, when both are on it; nothing else changes.
pub open spec fn instances_swapped(s0: Session, s1: Session, a: InstanceId, b: InstanceId) -> bool {
    &&& s1.selected == s0.selected
    &&& s1.next_instance_id == s0.next_instance_id
    &&& s1.displays@.len() == s0.displays@.len()
    &&& forall|d: int| 0 <= d < s0.displays@.len() && d != s0.selected ==> #[trigger] s1.displays@[d] == s0.displays@[d]
    &&& s1.displays@[s0.selected as int].monitor_idx == s0.displays@[s0.selected as int].monitor_idx
    &&& s1.displays@[s0.selected as int].layout == s0.displays@[s0.selected as int].layout
    &&& s1.displays@[s0.selected as int].instances@ == swapped(s0.displays@[s0.selected as int].instances@, a, b)
}

/// The displays of a session and the instances placed on them.
pub struct Session {
    pub displays: Vec<Display>,
    pub selected: usize,
    /// The id the next instance gets.
    pub next_instance_id: u64,
}

impl Default for Session {
    /// The same as `Session::new`.
    fn default() -> (s: Self)
        ensures
            s.wf(),
            s.displays@.len() == 1,
            s.displays@[0].instances@.len() == 0,
            s.displays@[0].monitor_idx == 0,
            s.displays@[0].layout == (Layout::Game { reverse_direction: false }),
            s.selected == 0,
            s.next_id() == 0,
    {
        Session::new()
    }
}

impl Session {
    pub open spec fn next_id(&self) -> u64 {
        self.next_instance_id
    }

    /// There is a selected display, and instance ids are distinct and were
    /// all handed out before the next one.
    pub open spec fn wf(&self) -> bool {
        &&& self.selected < self.displays@.len()
        &&& ids_below(self.displays@, self.next_id())
        &&& ids_distinct(self.displays@)
    }

    /// A session with one empty display, selected.
    pub fn new() -> (s: Self)
        ensures
            s.wf(),
            s.displays@.len() == 1,
            s.displays@[0].instances@.len() == 0,
            s.displays@[0].monitor_idx == 0,
            s.displays@[0].layout == (Layout::Game { reverse_direction: false }),
            s.selected == 0,
            s.next_id() == 0,
    {
        let mut displays: Vec<Display> = Vec::new();
        displays.push(Display::new());
        Session { displays, selected: 0, next_instance_id: 0 }
    }

    pub fn selected_display(&mut self) -> (d: &mut Display)
        requires
            old(self).selected < old(self).displays@.len(),
        ensures
            *d == old(self).displays@[old(self).selected as int],
            final(self).displays@ == old(self).displays@.update(old(self).selected as int, *final(d)),
            final(self).selected == old(self).selected,
            final(self).next_id() == old(self).next_id(),
    {
        &mut self.displays[self.selected]
    }

    pub fn selected_display_mut(&mut self) -> (d: &mut Display)
        requires
            old(self).selected < old(self).displays@.len(),
        ensures
            *d == old(self).displays@[old(self).selected as int],
            final(self).displays@ == old(self).displays@.update(old(self).selected as int, *final(d)),
            final(self).selected == old(self).selected,
            final(self).next_id() == old(self).next_id(),
    {
        &mut self.displays[self.selected]
    }

    /// Whether any display holds an instance.
    pub fn can_launch(&self) -> (res: bool)
        ensures
            res == any_instance(self.displays@),
    {
        let mut d: usize = 0;
        while d < self.displays.len()
            invariant
                d <= self.displays@.len(),
                forall|k: int| 0 <= k < d ==> (#[trigger] self.displays@[k].instances@).len() == 0,
            decreases self.displays.len() - d,
        {
            if self.displays[d].instances.len() > 0 {
                return true;
            }
            d += 1;
        }
        false
    }

    /// Removes the selected display; the selection moves to the new last
    /// display when it was the last one.
    pub fn remove_selected_display(&mut self)
        requires
            old(self).selected < old(self).displays@.len(),
            old(self).displays@.len() >= 2,
        ensures
            final(self).displays@ == old(self).displays@.remove(old(self).selected as int),
            final(self).selected == if old(self).selected < final(self).displays@.len() {
                old(self).selected as int
            } else {
                final(self).displays@.len() - 1
            },
            final(self).next_id() == old(self).next_id(),
            old(self).wf() ==> final(self).wf(),
    {
        let _ = self.displays.remove(self.selected);
        let last = self.displays.len() - 1;
        if last < self.selected {
            self.selected = last;
        }
        proof {
            let ds0 = old(self).displays@;
            let sel = old(self).selected as int;
            let ds = self.displays@;
            if old(self).wf() {
                assert forall|d: int, i: int| 0 <= d < ds.len() && 0 <= i < ds[d].instances@.len() implies
                    (#[trigger] ds[d].instances@[i]).id.0 < self.next_id() by {
                    let d0 = if d < sel { d } else { d + 1 };
                    assert(ds[d] == ds0[d0]);
                }
                assert forall|d1: int, i1: int, d2: int, i2: int|
                    0 <= d1 < ds.len() && 0 <= i1 < ds[d1].instances@.len() && 0 <= d2 < ds.len() && 0 <= i2
                        < ds[d2].instances@.len() && (d1 != d2 || i1 != i2) implies
                    (#[trigger] ds[d1].instances@[i1]).id != (#[trigger] ds[d2].instances@[i2]).id by {
                    let e1 = if d1 < sel { d1 } else { d1 + 1 };
                    let e2 = if d2 < sel { d2 } else { d2 + 1 };
                    assert(ds[d1] == ds0[e1]);
                    assert(ds[d2] == ds0[e2]);
                    assert(ds0[e1].instances@[i1] == ds[d1].instances@[i1]);
                    assert(ds0[e2].instances@[i2] == ds[d2].instances@[i2]);
                }
            }
        }
    }

    /// Drops every empty display other than the selected one; the selected
    /// display stays selected.
    #[verifier::rlimit(40)]
    fn condense_empty(&mut self)
        requires
            old(self).selected < old(self).displays@.len(),
        ensures
            dviews(final(self).displays@) == condensed(dviews(old(self).displays@), old(self).selected as int),
            final(self).selected == condensed_selected(dviews(old(self).displays@), old(self).selected as int),
            final(self).next_instance_id == old(self).next_instance_id,
            old(self).wf() ==> final(self).wf(),
    {
        let ghost ds0 = self.displays@;
        let ghost v0 = dviews(ds0);
        let ghost sel0 = self.selected as int;
        let ghost mut j: int = 0;
        let ghost mut idx: Seq<int> = Seq::empty();
        let mut i: usize = 0;
        proof {
            assert(v0.take(0) =~= Seq::<DisplayView>::empty());
            assert(v0.take(0).filter(display_nonempty()) =~= Seq::<DisplayView>::empty());
            assert(ds0.skip(0) =~= ds0);
            assert(dviews(self.displays@) =~= condensed_prefix(v0, sel0, 0) + dviews(ds0.skip(0)));
        }
        while i < self.displays.len()
            invariant
                v0 == dviews(ds0),
                0 <= sel0 < ds0.len(),
                0 <= j <= ds0.len(),
                i == condensed_prefix(v0, sel0, j).len(),
                dviews(self.displays@) == condensed_prefix(v0, sel0, j) + dviews(ds0.skip(j)),
                j <= sel0 ==> self.selected == i + (sel0 - j),
                j > sel0 ==> self.selected == condensed_selected(v0, sel0) && self.selected < i,
                self.next_instance_id == old(self).next_instance_id,
                idx.len() == i,
                forall|k: int| 0 <= k < i ==> 0 <= #[trigger] idx[k] < j,
                forall|k: int| 0 <= k < i ==> (#[trigger] self.displays@[k])@ == ds0[idx[k]]@,
                forall|k1: int, k2: int| 0 <= k1 < k2 < i ==> #[trigger] idx[k1] < #[trigger] idx[k2],
                forall|k: int| i <= k < self.displays@.len() ==> (#[trigger] self.displays@[k])@ == ds0[k - i + j]@,
                self.displays@.len() == i + ds0.len() - j,
            decreases self.displays.len() - i,
        {
            let ghost before = self.displays@;
            proof {
                assert(before[i as int]@ == ds0[j]@);
                assert(v0[j] == ds0[j]@);
                assert(v0.take(j + 1) =~= v0.take(j).push(v0[j]));
                v0.take(j).lemma_filter_push(v0[j], display_nonempty());
                if j > sel0 {
                    assert(v0.subrange(sel0 + 1, j + 1) =~= v0.subrange(sel0 + 1, j).push(v0[j]));
                    v0.subrange(sel0 + 1, j).lemma_filter_push(v0[j], display_nonempty());
                }
                if j == sel0 {
                    assert(v0.subrange(sel0 + 1, j + 1) =~= Seq::<DisplayView>::empty());
                    assert(v0.subrange(sel0 + 1, j + 1).filter(display_nonempty()) =~= Seq::<DisplayView>::empty());
                }
            }
            if i != self.selected && self.displays[i].is_empty() {
                let _ = self.displays.remove(i);
                if i < self.selected {
                    self.selected = self.selected - 1;
                }
                proof {
                    assert(j != sel0);
                    assert(condensed_prefix(v0, sel0, j + 1) == condensed_prefix(v0, sel0, j));
                    assert(dviews(ds0.skip(j)) =~= seq![v0[j]] + dviews(ds0.skip(j + 1)));
                    assert(dviews(self.displays@) =~= dviews(before).remove(i as int));
                    assert(dviews(self.displays@) =~= condensed_prefix(v0, sel0, j + 1) + dviews(ds0.skip(j + 1)));
                    j = j + 1;
                }
            } else {
                proof {
                    if j != sel0 {
                        assert(display_nonempty()(v0[j]));
                    }
                    assert(condensed_prefix(v0, sel0, j + 1) =~= condensed_prefix(v0, sel0, j).push(v0[j]));
                    assert(dviews(ds0.skip(j)) =~= seq![v0[j]] + dviews(ds0.skip(j + 1)));
                    assert(dviews(self.displays@) =~= condensed_prefix(v0, sel0, j + 1) + dviews(ds0.skip(j + 1)));
                    idx = idx.push(j);
                    j = j + 1;
                }
                i += 1;
            }
        }
        proof {
            assert(j == ds0.len());
            assert(ds0.skip(j) =~= Seq::<Display>::empty());
            assert(v0.subrange(sel0 + 1, j) =~= v0.skip(sel0 + 1));
            assert(dviews(self.displays@) =~= condensed(v0, sel0));
            if old(self).wf() {
                assert(picked(self.displays@, ds0, idx));
                lemma_picked_ids(self.displays@, ds0, idx, self.next_instance_id);
            }
        }
    }

    /// Removes the instance with id `id`: its leases are given back and the
    /// device table fixed, then empty displays other than the selected one
    /// are dropped. Returns what the caller must do for the devices.
    pub fn remove_instance(&mut self, in_state: &mut InputStateInner, id: InstanceId) -> (actions: Vec<InputAction>)
        requires
            old(self).selected < old(self).displays@.len(),
        ensures
            final(self).next_instance_id == old(self).next_instance_id,
            old(self).wf() ==> final(self).wf(),
            instance_removed(*old(self), *old(in_state), id, *final(self), *final(in_state), actions@),
            match locate(dviews(old(self).displays@), id) {
                None => {
                    &&& final(in_state).devices@ == old(in_state).devices@
                    &&& final(in_state).targets_view() == old(in_state).targets_view()
                    &&& actions@.len() == 0
                    &&& dviews(final(self).displays@) == condensed(dviews(old(self).displays@), old(self).selected as int)
                    &&& final(self).selected == condensed_selected(dviews(old(self).displays@), old(self).selected as int)
                },
                Some((d, i)) => {
                    let inst = old(self).displays@[d].instances@[i];
                    let mid = leases_dropped(old(in_state).targets_view(), inst.devices@);
                    let ds1 = without_instance(dviews(old(self).displays@), d, i);
                    &&& final(in_state).devices@ == fixed_devices(old(in_state).devices@, mid)
                    &&& final(in_state).targets_view() == fixed_targets(mid)
                    &&& actions@ == fix_actions(old(in_state).devices@, mid)
                    &&& dviews(final(self).displays@) == condensed(ds1, old(self).selected as int)
                    &&& final(self).selected == condensed_selected(ds1, old(self).selected as int)
                },
            },
    {
        let ghost ds0 = self.displays@;
        let ghost v0 = dviews(ds0);
        let ghost p = holds_id(id);
        let ghost devs0 = in_state.devices@;
        let ghost tv0 = in_state.targets_view();
        let mut actions: Vec<InputAction> = Vec::new();
        let mut d: usize = 0;
        while d < self.displays.len()
            invariant
                d <= self.displays@.len(),
                self.displays@ == ds0,
                ds0 == old(self).displays@,
                devs0 == old(in_state).devices@,
                tv0 == old(in_state).targets_view(),
                old(self).selected < ds0.len(),
                v0 == dviews(ds0),
                p == holds_id(id),
                self.selected == old(self).selected,
                self.next_instance_id == old(self).next_instance_id,
                in_state.devices@ == devs0,
                in_state.targets_view() == tv0,
                actions@.len() == 0,
                forall|k: int| 0 <= k < d ==> !p(#[trigger] v0[k]),
            decreases self.displays.len() - d,
        {
            proof {
                assert(v0[d as int] == ds0[d as int]@);
            }
            if let Some(i) = instance_position(&self.displays[d].instances, id) {
                proof {
                    lemma_first_index(v0, p, d as int);
                }
                let mut instance = self.displays[d].instances.remove(i);
                let ghost leases0 = instance.devices@;
                let mut k: usize = 0;
                proof {
                    assert(leases0.take(0) =~= Seq::<DeviceRefrence>::empty());
                }
                while k < instance.devices.len()
                    invariant
                        k <= instance.devices@.len(),
                        instance.devices@.len() == leases0.len(),
                        forall|m: int| 0 <= m < leases0.len() ==> (#[trigger] instance.devices@[m]).device_id
                            == leases0[m].device_id && instance.devices@[m].user_id == leases0[m].user_id,
                        in_state.devices@ == devs0,
                        in_state.targets_view() == leases_dropped(tv0, leases0.take(k as int)),
                    decreases instance.devices.len() - k,
                {
                    instance.devices[k].pre_drop_nofix(in_state);
                    proof {
                        assert(leases0.take(k + 1).drop_last() =~= leases0.take(k as int));
                    }
                    k += 1;
                }
                proof {
                    assert(leases0.take(k as int) =~= leases0);
                }
                let mut fixed = in_state.fix_users();
                actions.append(&mut fixed);
                proof {
                    assert(dviews(self.displays@) =~= without_instance(v0, d as int, i as int));
                    assert(self.displays@.len() == dviews(self.displays@).len());
                    if old(self).wf() {
                        lemma_without_instance_ids(self.displays@, ds0, d as int, i as int, self.next_instance_id);
                    }
                }
                self.condense_empty();
                proof {
                    assert(first_index(v0[d as int].instances, inst_id_is(id)) == Some(i as int));
                }
                return actions;
            }
            d += 1;
        }
        proof {
            lemma_first_index(v0, p, d as int);
        }
        self.condense_empty();
        actions
    }

    /// Adds an instance with a fresh id, the given profile name and colour,
    /// at the end of the selected display. `InstancesScreen::open_new_instance`
    /// picks a profile name no instance uses.
    pub fn add_instance(&mut self, profname: String, color: InstanceColor) -> (id: InstanceId)
        requires
            old(self).wf(),
            old(self).next_instance_id < u64::MAX,
        ensures
            final(self).wf(),
            id.0 == old(self).next_instance_id,
            final(self).next_instance_id == old(self).next_instance_id + 1,
            final(self).selected == old(self).selected,
            final(self).displays@.len() == old(self).displays@.len(),
            forall|d: int| 0 <= d < old(self).displays@.len() && d != old(self).selected ==> #[trigger] final(self).displays@[d]
                == old(self).displays@[d],
            ({
                let sel = old(self).selected as int;
                let d0 = old(self).displays@[sel];
                let d1 = final(self).displays@[sel];
                let n = d0.instances@.len();
                &&& d1.monitor_idx == d0.monitor_idx
                &&& d1.layout == d0.layout
                &&& d1.instances@.len() == n + 1
                &&& d1.instances@.take(n as int) == d0.instances@
                &&& d1.instances@[n as int].id == id
                &&& d1.instances@[n as int].devices@.len() == 0
                &&& d1.instances@[n as int].profname@ == profname@
                &&& d1.instances@[n as int].color == color
                &&& d1.instances@[n as int].handler == (InstanceSpecificHandler { pause_between_starts_ms: Some(1000) })
                &&& d1.instances@[n as int].launch_data is None
            }),
    {
        let id = InstanceId(self.next_instance_id);
        self.next_instance_id = self.next_instance_id + 1;
        let sel = self.selected;
        let ghost ds0 = self.displays@;
        self.displays[sel].instances.push(
            Instance {
                id,
                devices: Vec::new(),
                profname,
                color,
                handler: InstanceSpecificHandler { pause_between_starts_ms: Some(1000) },
                launch_data: None,
            },
        );
        proof {
            let ds = self.displays@;
            let n = ds0[sel as int].instances@.len();
            assert(ds[sel as int].instances@.take(n as int) =~= ds0[sel as int].instances@);
            assert forall|d: int, i: int| 0 <= d < ds.len() && 0 <= i < ds[d].instances@.len() implies
                (#[trigger] ds[d].instances@[i]).id.0 < self.next_instance_id by {
                if d != sel || i < n {
                    assert(ds[d].instances@[i] == ds0[d].instances@[i]);
                }
            }
            assert forall|d1: int, i1: int, d2: int, i2: int|
                0 <= d1 < ds.len() && 0 <= i1 < ds[d1].instances@.len() && 0 <= d2 < ds.len() && 0 <= i2
                    < ds[d2].instances@.len() && (d1 != d2 || i1 != i2) implies
                (#[trigger] ds[d1].instances@[i1]).id != (#[trigger] ds[d2].instances@[i2]).id by {
                let new1 = d1 == sel && i1 == n;
                let new2 = d2 == sel && i2 == n;
                if !new1 {
                    assert(ds[d1].instances@[i1] == ds0[d1].instances@[i1]);
                }
                if !new2 {
                    assert(ds[d2].instances@[i2] == ds0[d2].instances@[i2]);
                }
            }
        }
        id
    }

    /// The distinct profile names of the instances, except the one with id
    /// `exclude`, in the order they first occur.
    pub fn used_profile_names(&self, exclude: Option<InstanceId>) -> (names: Vec<String>)
        ensures
            forall|a: int, b: int| 0 <= a < b < names@.len() ==> (#[trigger] names@[a])@ != (#[trigger] names@[b])@,
            forall|a: int| 0 <= a < names@.len() ==> profile_in_use(self.displays@, exclude, (#[trigger] names@[a])@),
            forall|n: Seq<char>| #[trigger] profile_in_use(self.displays@, exclude, n) ==> exists|a: int|
                0 <= a < names@.len() && (#[trigger] names@[a])@ == n,
    {
        let mut names: Vec<String> = Vec::new();
        let mut d: usize = 0;
        while d < self.displays.len()
            invariant
                d <= self.displays@.len(),
                forall|a: int, b: int| 0 <= a < b < names@.len() ==> (#[trigger] names@[a])@ != (#[trigger] names@[b])@,
                forall|a: int| 0 <= a < names@.len() ==> profile_in_use(self.displays@, exclude, (#[trigger] names@[a])@),
                forall|e: int, k: int| 0 <= e < d && 0 <= k < self.displays@[e].instances@.len() && Some(
                    (#[trigger] self.displays@[e].instances@[k]).id,
                ) != exclude ==> exists|a: int| 0 <= a < names@.len() && (#[trigger] names@[a])@ == self.displays@[e].instances@[k].profname@,
            decreases self.displays.len() - d,
        {
            let mut k: usize = 0;
            while k < self.displays[d].instances.len()
                invariant
                    d < self.displays@.len(),
                    k <= self.displays@[d as int].instances@.len(),
                    forall|a: int, b: int| 0 <= a < b < names@.len() ==> (#[trigger] names@[a])@ != (#[trigger] names@[b])@,
                    forall|a: int| 0 <= a < names@.len() ==> profile_in_use(self.displays@, exclude, (#[trigger] names@[a])@),
                    forall|e: int, m: int| ((0 <= e < d && 0 <= m < self.displays@[e].instances@.len()) || (e == d && 0 <= m < k))
                        && Some((#[trigger] self.displays@[e].instances@[m]).id) != exclude ==> exists|a: int|
                        0 <= a < names@.len() && (#[trigger] names@[a])@ == self.displays@[e].instances@[m].profname@,
                decreases self.displays@[d as int].instances@.len() - k,
            {
                let inst = &self.displays[d].instances[k];
                let excluded = match exclude {
                    Some(x) => x == inst.id,
                    None => false,
                };
                if !excluded && !contains_name(&names, inst.profname.as_str()) {
                    let ghost before = names@;
                    names.push(inst.profname.clone());
                    proof {
                        assert(profile_in_use(self.displays@, exclude, inst.profname@)) by {
                            assert(self.displays@[d as int].instances@[k as int] == *inst);
                        }
                        assert forall|a: int| 0 <= a < names@.len() implies profile_in_use(self.displays@, exclude, (#[trigger] names@[a])@) by {
                            if a < before.len() {
                                assert(names@[a] == before[a]);
                            }
                        }
                        assert forall|e: int, m: int| ((0 <= e < d && 0 <= m < self.displays@[e].instances@.len()) || (e == d && 0 <= m < k + 1))
                            && Some((#[trigger] self.displays@[e].instances@[m]).id) != exclude implies exists|a: int|
                            0 <= a < names@.len() && (#[trigger] names@[a])@ == self.displays@[e].instances@[m].profname@ by {
                            if e == d && m == k {
                                assert(names@[before.len() as int]@ == inst.profname@);
                            } else {
                                let a = choose|a: int| 0 <= a < before.len() && (#[trigger] before[a])@ == self.displays@[e].instances@[m].profname@;
                                assert(names@[a] == before[a]);
                            }
                        }
                    }
                }
                k += 1;
            }
            d += 1;
        }
        proof {
            assert forall|n: Seq<char>| #[trigger] profile_in_use(self.displays@, exclude, n) implies exists|a: int|
                0 <= a < names@.len() && (#[trigger] names@[a])@ == n by {
                let (e, m) = choose|e: int, m: int| 0 <= e < self.displays@.len() && 0 <= m < self.displays@[e].instances@.len()
                    && Some((#[trigger] self.displays@[e].instances@[m]).id) != exclude && self.displays@[e].instances@[m].profname@ == n;
            }
        }
        names
    }

    /// Where the instance with id `id` is: its display and its position
    /// there.
    pub fn find_instance(&self, id: InstanceId) -> (res: Option<(usize, usize)>)
        ensures
            match res {
                Some((d, i)) => locate(dviews(self.displays@), id) == Some((d as int, i as int)) && d
                    < self.displays@.len() && i < self.displays@[d as int].instances@.len(),
                None => locate(dviews(self.displays@), id) is None,
            },
    {
        let ghost v = dviews(self.displays@);
        let ghost p = holds_id(id);
        let mut d: usize = 0;
        while d < self.displays.len()
            invariant
                d <= self.displays@.len(),
                v == dviews(self.displays@),
                p == holds_id(id),
                forall|k: int| 0 <= k < d ==> !p(#[trigger] v[k]),
            decreases self.displays.len() - d,
        {
            proof {
                assert(v[d as int] == self.displays@[d as int]@);
            }
            if let Some(i) = instance_position(&self.displays[d].instances, id) {
                proof {
                    lemma_first_index(v, p, d as int);
                }
                return Some((d, i));
            }
            d += 1;
        }
        proof {
            lemma_first_index(v, p, d as int);
        }
        None
    }

    /// The instance with id `id`, to change it.
    pub fn instance_mut_by_id(&mut self, id: InstanceId) -> (res: Option<&mut Instance>)
        ensures
            match locate(dviews(old(self).displays@), id) {
                None => res is None && final(self).displays@ == old(self).displays@,
                Some((d, i)) => res matches Some(r) && *r == old(self).displays@[d].instances@[i]
                    && final(self).displays@.len() == old(self).displays@.len()
                    && (forall|e: int| 0 <= e < old(self).displays@.len() && e != d ==> #[trigger] final(self).displays@[e] == old(self).displays@[e])
                    && final(self).displays@[d].monitor_idx == old(self).displays@[d].monitor_idx
                    && final(self).displays@[d].layout == old(self).displays@[d].layout
                    && final(self).displays@[d].instances@ == old(self).displays@[d].instances@.update(i, *final(r)),
            },
            final(self).selected == old(self).selected,
            final(self).next_instance_id == old(self).next_instance_id,
    {
        match self.find_instance(id) {
            Some((d, i)) => Some(&mut self.displays[d].instances[i]),
            None => None,
        }
    }

    /// Swaps two instances of the selected display, when both are on it.
    pub fn swap(&mut self, a: InstanceId, b: InstanceId)
        requires
            old(self).selected < old(self).displays@.len(),
        ensures
            final(self).selected == old(self).selected,
            final(self).next_id() == old(self).next_id(),
            final(self).displays@.len() == old(self).displays@.len(),
            forall|d: int| 0 <= d < old(self).displays@.len() && d != old(self).selected ==> #[trigger] final(self).displays@[d]
                == old(self).displays@[d],
            ({
                let sel = old(self).selected as int;
                let d0 = old(self).displays@[sel];
                let d1 = final(self).displays@[sel];
                &&& d1.monitor_idx == d0.monitor_idx
                &&& d1.layout == d0.layout
                &&& d1.instances@ == swapped(d0.instances@, a, b)
            }),
            instances_swapped(*old(self), *final(self), a, b),
            old(self).wf() ==> final(self).wf(),
    {
        let sel = self.selected;
        let ia = instance_position(&self.displays[sel].instances, a);
        let ib = instance_position(&self.displays[sel].instances, b);
        match (ia, ib) {
            (Some(ia), Some(ib)) => {
                let ghost v0 = self.displays@[sel as int].instances@;
                swap_instances(&mut self.displays[sel].instances, ia, ib);
                proof {
                    assert(self.displays@[sel as int].instances@ =~= swapped(v0, a, b));
                    let ds0 = old(self).displays@;
                    let ds = self.displays@;
                    let s0 = sel as int;
                    let pa = ia as int;
                    let pb = ib as int;
                    if old(self).wf() {
                        assert forall|e: int, m: int| 0 <= e < ds.len() && 0 <= m < ds[e].instances@.len() implies
                            (#[trigger] ds[e].instances@[m]) == ds0[e].instances@[if e == s0 && m == pa {
                                pb
                            } else if e == s0 && m == pb {
                                pa
                            } else {
                                m
                            }] by {
                            if e != s0 {
                                assert(ds[e] == ds0[e]);
                            }
                        }
                        assert forall|d1: int, i1: int, d2: int, i2: int|
                            0 <= d1 < ds.len() && 0 <= i1 < ds[d1].instances@.len() && 0 <= d2 < ds.len() && 0 <= i2
                                < ds[d2].instances@.len() && (d1 != d2 || i1 != i2) implies
                            (#[trigger] ds[d1].instances@[i1]).id != (#[trigger] ds[d2].instances@[i2]).id by {
                            let j1 = if d1 == s0 && i1 == pa { pb } else if d1 == s0 && i1 == pb { pa } else { i1 };
                            let j2 = if d2 == s0 && i2 == pa { pb } else if d2 == s0 && i2 == pb { pa } else { i2 };
                            assert(ds[d1].instances@[i1] == ds0[d1].instances@[j1]);
                            assert(ds[d2].instances@[i2] == ds0[d2].instances@[j2]);
                        }
                        assert forall|e: int, m: int| 0 <= e < ds.len() && 0 <= m < ds[e].instances@.len() implies
                            (#[trigger] ds[e].instances@[m]).id.0 < self.next_instance_id by {
                            let j = if e == s0 && m == pa { pb } else if e == s0 && m == pb { pa } else { m };
                            assert(ds[e].instances@[m] == ds0[e].instances@[j]);
                        }
                    }
                }
            },
            _ => {},
        }
    }
}

fn swap_instances(v: &mut Vec<Instance>, i: usize, j: usize)
    requires
        i < old(v)@.len(),
        j < old(v)@.len(),
    ensures
        final(v)@ == old(v)@.update(i as int, old(v)@[j as int]).update(j as int, old(v)@[i as int]),
{
    if i == j {
        proof {
            assert(v@ =~= v@.update(i as int, v@[j as int]).update(j as int, v@[i as int]));
        }
        return;
    }
    let (lo, hi) = if i < j { (i, j) } else { (j, i) };
    let ghost v0 = v@;
    let x = v.remove(hi);
    let y = v.remove(lo);
    v.insert(lo, x);
    v.insert(hi, y);
    proof {
        assert(v@ =~= v0.update(i as int, v0[j as int]).update(j as int, v0[i as int]));
    }
}

/// Whether some instance other than `exclude` uses the profile `name`.
pub open spec fn profile_in_use(ds: Seq<Display>, exclude: Option<InstanceId>, name: Seq<char>) -> bool {
    exists|e: int, m: int|
        0 <= e < ds.len() && 0 <= m < ds[e].instances@.len() && Some((#[trigger] ds[e].instances@[m]).id) != exclude
            && ds[e].instances@[m].profname@ == name
}

fn contains_name(names: &Vec<String>, name: &str) -> (res: bool)
    ensures
        res == exists|a: int| 0 <= a < names@.len() && (#[trigger] names@[a])@ == name@,
{
    let mut a: usize = 0;
    while a < names.len()
        invariant
            a <= names@.len(),
            forall|b: int| 0 <= b < a ==> (#[trigger] names@[b])@ != name@,
        decreases names.len() - a,
    {
        if str_eq(names[a].as_str(), name) {
            return true;
        }
        a += 1;
    }
    false
}

/// Position of the instance with id `id`.
pub fn instance_position(insts: &Vec<Instance>, id: InstanceId) -> (res: Option<usize>)
    ensures
        match res {
            Some(k) => first_index(insts@, inst_id_is(id)) == Some(k as int) && k < insts@.len(),
            None => first_index(insts@, inst_id_is(id)) is None,
        },
{
    let ghost p = inst_id_is(id);
    let mut k: usize = 0;
    while k < insts.len()
        invariant
            k <= insts@.len(),
            p == inst_id_is(id),
            forall|m: int| 0 <= m < k ==> !p(#[trigger] insts@[m]),
        decreases insts.len() - k,
    {
        if insts[k].id == id {
            proof {
                lemma_first_index(insts@, p, k as int);
            }
            return Some(k);
        }
        k += 1;
    }
    proof {
        lemma_first_index(insts@, p, k as int);
    }
    None
}

/// No instance of the displays has id `id`.
pub open spec fn id_absent(ds: Seq<DisplayView>, id: InstanceId) -> bool {
    forall|d: int, i: int| 0 <= d < ds.len() && 0 <= i < ds[d].instances.len() ==> (#[trigger] ds[d].instances[i]).id != id
}

/// Instance `inst` is on one of the displays.
pub open spec fn placed(ds: Seq<DisplayView>, inst: Instance) -> bool {
    exists|d: int, i: int| 0 <= d < ds.len() && 0 <= i < ds[d].instances.len() && (#[trigger] ds[d].instances[i]) == inst
}

/// No two instances of the displays share an id.
pub open spec fn view_ids_distinct(ds: Seq<DisplayView>) -> bool {
    forall|d1: int, i1: int, d2: int, i2: int|
        0 <= d1 < ds.len() && 0 <= i1 < ds[d1].instances.len() && 0 <= d2 < ds.len() && 0 <= i2
            < ds[d2].instances.len() && (d1 != d2 || i1 != i2) ==> (#[trigger] ds[d1].instances[i1]).id
            != (#[trigger] ds[d2].instances[i2]).id
}

/// An instance is found exactly when some display holds its id, and what is
/// found is that instance.
pub proof fn lemma_locate(ds: Seq<DisplayView>, id: InstanceId)
    ensures
        (locate(ds, id) is None) == id_absent(ds, id),
        locate(ds, id) matches Some((d, i)) ==> 0 <= d < ds.len() && 0 <= i < ds[d].instances.len()
            && ds[d].instances[i].id == id,
{
    crate::seqs::lemma_first_index_props(ds, holds_id(id));
    match first_index(ds, holds_id(id)) {
        Some(d) => {
            crate::seqs::lemma_first_index_props(ds[d].instances, inst_id_is(id));
        },
        None => {
            assert forall|d: int, i: int| 0 <= d < ds.len() && 0 <= i < ds[d].instances.len() implies
                (#[trigger] ds[d].instances[i]).id != id by {
                assert(!holds_id(id)(ds[d]));
                crate::seqs::lemma_first_index_props(ds[d].instances, inst_id_is(id));
            }
        },
    }
}

/// Condensing keeps the selected display selected, and leaves no other
/// display empty.
pub proof fn lemma_condensed_selection(ds: Seq<DisplayView>, sel: int)
    requires
        0 <= sel < ds.len(),
    ensures
        0 <= condensed_selected(ds, sel) < condensed(ds, sel).len(),
        condensed(ds, sel)[condensed_selected(ds, sel)] == ds[sel],
        forall|k: int| 0 <= k < condensed(ds, sel).len() && k != condensed_selected(ds, sel) ==> (#[trigger] condensed(
            ds,
            sel,
        )[k]).instances.len() > 0,
{
    broadcast use vstd::seq_lib::group_filter_ensures;
    let a = ds.take(sel).filter(display_nonempty());
    let b = ds.skip(sel + 1).filter(display_nonempty());
    let c = condensed(ds, sel);
    assert(c =~= a + seq![ds[sel]] + b);
    assert forall|k: int| 0 <= k < c.len() && k != a.len() implies (#[trigger] c[k]).instances.len() > 0 by {
        if k < a.len() {
            assert(c[k] == a[k]);
            assert(display_nonempty()(a[k]));
        } else {
            assert(c[k] == b[k - a.len() - 1]);
            assert(display_nonempty()(b[k - a.len() - 1]));
        }
    }
}

/// Every display that condensing keeps was there before.
proof fn lemma_condensed_from(ds: Seq<DisplayView>, sel: int, k: int)
    requires
        0 <= sel < ds.len(),
        0 <= k < condensed(ds, sel).len(),
    ensures
        ds.contains(condensed(ds, sel)[k]),
{
    let a = ds.take(sel).filter(display_nonempty());
    let b = ds.skip(sel + 1).filter(display_nonempty());
    let c = condensed(ds, sel);
    assert(c =~= a + seq![ds[sel]] + b);
    if k < a.len() {
        assert(a.contains(c[k]));
        ds.take(sel).lemma_filter_contains_rev(display_nonempty(), c[k]);
        let j = choose|j: int| 0 <= j < ds.take(sel).len() && #[trigger] ds.take(sel)[j] == c[k];
        assert(ds[j] == c[k]);
    } else if k == a.len() {
        assert(c[k] == ds[sel]);
    } else {
        assert(b.contains(c[k]));
        ds.skip(sel + 1).lemma_filter_contains_rev(display_nonempty(), c[k]);
        let j = choose|j: int| 0 <= j < ds.skip(sel + 1).len() && #[trigger] ds.skip(sel + 1)[j] == c[k];
        assert(ds[sel + 1 + j] == c[k]);
    }
}

/// Removing an instance takes off exactly that instance: no instance with
/// its id is left, and every other instance is still on some display.
pub proof fn lemma_remove_instance_exact(ds: Seq<DisplayView>, sel: int, id: InstanceId)
    requires
        0 <= sel < ds.len(),
        view_ids_distinct(ds),
        locate(ds, id) is Some,
    ensures
        ({
            let (d, i) = locate(ds, id)->0;
            let after = condensed(without_instance(ds, d, i), sel);
            &&& id_absent(after, id)
            &&& forall|e: int, m: int| 0 <= e < ds.len() && 0 <= m < ds[e].instances.len() && (#[trigger] ds[e].instances[m]).id
                != id ==> placed(after, ds[e].instances[m])
        }),
{
    broadcast use vstd::seq_lib::group_filter_ensures;
    lemma_locate(ds, id);
    let (d, i) = locate(ds, id)->0;
    let w = without_instance(ds, d, i);
    let after = condensed(w, sel);
    assert forall|e: int, m: int| 0 <= e < w.len() && 0 <= m < w[e].instances.len() implies (#[trigger] w[e].instances[m]).id
        != id by {
        let m0 = if e == d && m >= i { m + 1 } else { m };
        assert(w[e].instances[m] == ds[e].instances[m0]);
    }
    assert forall|e: int, m: int| 0 <= e < after.len() && 0 <= m < after[e].instances.len() implies (#[trigger] after[e].instances[m]).id
        != id by {
        lemma_condensed_from(w, sel, e);
        let j = choose|j: int| 0 <= j < w.len() && #[trigger] w[j] == after[e];
        assert(w[j].instances[m] == after[e].instances[m]);
    }
    assert forall|e: int, m: int| 0 <= e < ds.len() && 0 <= m < ds[e].instances.len() && (#[trigger] ds[e].instances[m]).id
        != id implies placed(after, ds[e].instances[m]) by {
        let inst = ds[e].instances[m];
        let m1 = if e == d && m > i { m - 1 } else { m };
        assert(e != d || m != i);
        assert(w[e].instances[m1] == inst);
        let a = w.take(sel).filter(display_nonempty());
        let b = w.skip(sel + 1).filter(display_nonempty());
        assert(after =~= a + seq![w[sel]] + b);
        if e == sel {
            assert(after[a.len() as int] == w[sel]);
            assert(after[a.len() as int].instances[m1] == inst);
        } else if e < sel {
            assert(w.take(sel)[e] == w[e]);
            w.take(sel).lemma_filter_contains(display_nonempty(), e);
            let k = choose|k: int| 0 <= k < a.len() && #[trigger] a[k] == w[e];
            assert(after[k] == w[e]);
            assert(after[k].instances[m1] == inst);
        } else {
            assert(w.skip(sel + 1)[e - sel - 1] == w[e]);
            w.skip(sel + 1).lemma_filter_contains(display_nonempty(), e - sel - 1);
            let k = choose|k: int| 0 <= k < b.len() && #[trigger] b[k] == w[e];
            assert(after[a.len() + 1 + k] == w[e]);
            assert(after[a.len() + 1 + k].instances[m1] == inst);
        }
    }
}

} // verus!
