use vstd::prelude::*;
use crate::session::InstanceId;

verus! {

/// How serious a notification is.
#[derive(Clone, Copy, PartialEq, Eq, Structural, Debug)]
pub enum Severity {
    Info,
    Warning,
    Error,
}

/// A notification shown at the bottom right, or over an instance's tile.
/// Times are in ms on the caller's monotonic clock.
pub struct Toast {
    pub severity: Severity,
    pub title: String,
    pub body: String,
    /// When it disappears; errors stay until dismissed.
    pub expires_at: Option<u64>,
    /// Opened when the toast is clicked.
    pub url: Option<String>,
    /// The instance whose tile shows it; `None` for the global stack.
    pub target: Option<InstanceId>,
}

/// How long a toast of each severity stays, in ms.
pub open spec fn lifetime_ms(s: Severity) -> Option<u64> {
    match s {
        Severity::Error => None,
        Severity::Warning => Some(12000),
        Severity::Info => Some(4000),
    }
}

pub open spec fn expiry(s: Severity, now: u64) -> Option<u64> {
    match lifetime_ms(s) {
        Some(d) => Some((now + d) as u64),
        None => None,
    }
}

pub open spec fn toast_alive(expires_at: Option<u64>, now: u64) -> bool {
    match expires_at {
        Some(at) => at > now,
        None => true,
    }
}

impl Toast {
    pub fn new(severity: Severity, title: String, body: String, now: u64) -> (t: Self)
        requires
            now + 12000 <= u64::MAX,
        ensures
            t.severity == severity,
            t.title@ == title@,
            t.body@ == body@,
            t.expires_at == expiry(severity, now),
            t.url is None,
            t.target is None,
    {
        let expires_at = match severity {
            Severity::Error => None,
            Severity::Warning => Some(now + 12000),
            Severity::Info => Some(now + 4000),
        };
        Toast { severity, title, body, expires_at, url: None, target: None }
    }

    /// Whether the toast is still shown at `now`.
    pub fn alive(&self, now: u64) -> (res: bool)
        ensures
            res == toast_alive(self.expires_at, now),
    {
        match self.expires_at {
            Some(at) => at > now,
            None => true,
        }
    }
}

pub open spec fn targets(items: Seq<Toast>) -> Seq<Option<InstanceId>> {
    items.map_values(|t: Toast| t.target)
}

pub open spec fn alive_pred(now: u64) -> spec_fn(Toast) -> bool {
    |t: Toast| toast_alive(t.expires_at, now)
}

/// Whether `t` is drawn in the stack of `target` at `now`.
pub open spec fn shown_in(t: Toast, target: Option<InstanceId>, now: u64) -> bool {
    t.target == target && toast_alive(t.expires_at, now)
}

/// The earliest expiry among `items` that `p` keeps.
pub open spec fn earliest(items: Seq<Toast>, p: spec_fn(Toast) -> bool) -> Option<u64>
    decreases items.len(),
{
    if items.len() == 0 {
        None
    } else {
        let rest = earliest(items.drop_last(), p);
        let t = items.last();
        match (if p(t) { t.expires_at } else { None }) {
            Some(at) => match rest {
                Some(r) => Some(if at < r { at } else { r }),
                None => Some(at),
            },
            None => rest,
        }
    }
}

/// Error toasts stay until dismissed: they are made without an expiry, and
/// dropping the toasts that expired keeps every such error, whatever the
/// time.
pub proof fn lemma_errors_stay(items: Seq<Toast>, now: u64)
    requires
        forall|i: int| 0 <= i < items.len() && (#[trigger] items[i]).severity == Severity::Error ==> items[i].expires_at
            is None,
    ensures
        forall|i: int| 0 <= i < items.len() && (#[trigger] items[i]).severity == Severity::Error ==> items.filter(
            alive_pred(now),
        ).contains(items[i]),
{
    assert forall|i: int| 0 <= i < items.len() && (#[trigger] items[i]).severity == Severity::Error implies items.filter(
        alive_pred(now),
    ).contains(items[i]) by {
        assert(alive_pred(now)(items[i]));
        items.lemma_filter_contains(alive_pred(now), i);
    }
}

/// The notifications of the launcher.
pub struct Toasts {
    pub items: Vec<Toast>,
}

impl Toasts {
    pub fn new() -> (t: Self)
        ensures
            t.items@.len() == 0,
    {
        Toasts { items: Vec::new() }
    }

    pub fn push(&mut self, severity: Severity, title: String, body: String, now: u64)
        requires
            now + 12000 <= u64::MAX,
        ensures
            final(self).items@.len() == old(self).items@.len() + 1,
            final(self).items@.take(old(self).items@.len() as int) == old(self).items@,
            ({
                let t = final(self).items@.last();
                &&& t.severity == severity
                &&& t.title@ == title@
                &&& t.body@ == body@
                &&& t.expires_at == expiry(severity, now)
                &&& t.url is None
                &&& t.target is None
            }),
    {
        self.items.push(Toast::new(severity, title, body, now));
        proof {
            assert(self.items@.take(old(self).items@.len() as int) =~= old(self).items@);
        }
    }

    /// A toast shown over the tile of instance `target`.
    pub fn push_for(&mut self, target: InstanceId, severity: Severity, title: String, body: String, now: u64)
        requires
            now + 12000 <= u64::MAX,
        ensures
            final(self).items@.len() == old(self).items@.len() + 1,
            final(self).items@.take(old(self).items@.len() as int) == old(self).items@,
            ({
                let t = final(self).items@.last();
                &&& t.severity == severity
                &&& t.title@ == title@
                &&& t.body@ == body@
                &&& t.expires_at == expiry(severity, now)
                &&& t.url is None
                &&& t.target == Some(target)
            }),
    {
        let mut t = Toast::new(severity, title, body, now);
        t.target = Some(target);
        self.items.push(t);
        proof {
            assert(self.items@.take(old(self).items@.len() as int) =~= old(self).items@);
        }
    }

    /// A toast that opens `url` when clicked; it stays for 12 seconds
    /// whatever its severity.
    pub fn push_linked(&mut self, severity: Severity, title: String, body: String, url: String, now: u64)
        requires
            now + 12000 <= u64::MAX,
        ensures
            final(self).items@.len() == old(self).items@.len() + 1,
            final(self).items@.take(old(self).items@.len() as int) == old(self).items@,
            ({
                let t = final(self).items@.last();
                &&& t.severity == severity
                &&& t.title@ == title@
                &&& t.body@ == body@
                &&& t.expires_at == Some((now + 12000) as u64)
                &&& t.url matches Some(u) && u@ == url@
                &&& t.target is None
            }),
    {
        let mut t = Toast::new(severity, title, body, now);
        t.url = Some(url);
        t.expires_at = Some(now + 12000);
        self.items.push(t);
        proof {
            assert(self.items@.take(old(self).items@.len() as int) =~= old(self).items@);
        }
    }

    /// Drops the toasts that expired by `now`, keeping the others in order.
    pub fn retain_alive(&mut self, now: u64)
        ensures
            final(self).items@ == old(self).items@.filter(alive_pred(now)),
    {
        let mut old_items: Vec<Toast> = Vec::new();
        std::mem::swap(&mut old_items, &mut self.items);
        let ghost all = old_items@;
        let ghost mut taken: int = 0;
        proof {
            assert(all.take(0).filter(alive_pred(now)) =~= Seq::<Toast>::empty());
            assert(all.skip(0) =~= all);
        }
        while old_items.len() > 0
            invariant
                0 <= taken <= all.len(),
                all == old(self).items@,
                taken + old_items@.len() == all.len(),
                old_items@ == all.skip(taken),
                self.items@ == all.take(taken).filter(alive_pred(now)),
            decreases old_items@.len(),
        {
            let t = old_items.remove(0);
            proof {
                assert(t == all[taken]);
                assert(all.take(taken + 1) =~= all.take(taken).push(t));
                all.take(taken).lemma_filter_push(t, alive_pred(now));
                assert(old_items@ =~= all.skip(taken + 1));
            }
            if t.alive(now) {
                self.items.push(t);
            }
            proof {
                taken = taken + 1;
            }
        }
        proof {
            assert(all.take(taken) =~= all);
        }
    }

    /// Whether the tile of instance `id` has a toast to show at `now`.
    pub fn has_toast_for(&self, id: InstanceId, now: u64) -> (res: bool)
        ensures
            res == exists|k: int| 0 <= k < self.items@.len() && shown_in(#[trigger] self.items@[k], Some(id), now),
    {
        let mut k: usize = 0;
        while k < self.items.len()
            invariant
                k <= self.items@.len(),
                forall|m: int| 0 <= m < k ==> !shown_in(#[trigger] self.items@[m], Some(id), now),
            decreases self.items.len() - k,
        {
            let t = &self.items[k];
            let same = match t.target {
                Some(x) => x == id,
                None => false,
            };
            if same && t.alive(now) {
                return true;
            }
            k += 1;
        }
        false
    }

    /// When the stack of `target` next changes by itself: the earliest
    /// expiry among the toasts it shows.
    pub fn next_expiry(&self, target: Option<InstanceId>, now: u64) -> (res: Option<u64>)
        ensures
            res == earliest(self.items@, |t: Toast| shown_in(t, target, now)),
    {
        let ghost p = |t: Toast| shown_in(t, target, now);
        let mut best: Option<u64> = None;
        let mut k: usize = 0;
        proof {
            assert(self.items@.take(0) =~= Seq::<Toast>::empty());
        }
        while k < self.items.len()
            invariant
                k <= self.items@.len(),
                p == (|t: Toast| shown_in(t, target, now)),
                best == earliest(self.items@.take(k as int), p),
            decreases self.items.len() - k,
        {
            proof {
                assert(self.items@.take(k + 1).drop_last() =~= self.items@.take(k as int));
                assert(self.items@.take(k + 1).last() == self.items@[k as int]);
            }
            let t = &self.items[k];
            let same = match (t.target, target) {
                (Some(a), Some(b)) => a == b,
                (None, None) => true,
                _ => false,
            };
            if same && t.alive(now) {
                if let Some(at) = t.expires_at {
                    best = match best {
                        Some(r) => Some(if at < r { at } else { r }),
                        None => Some(at),
                    };
                }
            }
            k += 1;
        }
        proof {
            assert(self.items@.take(k as int) =~= self.items@);
        }
        best
    }

    /// Moves every toast to the global stack, once the tiles they were
    /// pinned to are gone.
    pub fn release_targets(&mut self)
        ensures
            final(self).items@.len() == old(self).items@.len(),
            forall|k: int| 0 <= k < old(self).items@.len() ==> {
                let t0 = #[trigger] old(self).items@[k];
                let t1 = final(self).items@[k];
                &&& t1.target is None
                &&& t1.severity == t0.severity
                &&& t1.title == t0.title
                &&& t1.body == t0.body
                &&& t1.expires_at == t0.expires_at
                &&& t1.url == t0.url
            },
    {
        let mut k: usize = 0;
        while k < self.items.len()
            invariant
                k <= self.items@.len(),
                self.items@.len() == old(self).items@.len(),
                forall|m: int| 0 <= m < self.items@.len() ==> {
                    let t0 = #[trigger] old(self).items@[m];
                    let t1 = self.items@[m];
                    &&& (m < k ==> t1.target is None)
                    &&& (m >= k ==> t1.target == t0.target)
                    &&& t1.severity == t0.severity
                    &&& t1.title == t0.title
                    &&& t1.body == t0.body
                    &&& t1.expires_at == t0.expires_at
                    &&& t1.url == t0.url
                },
            decreases self.items.len() - k,
        {
            self.items[k].target = None;
            k += 1;
        }
    }

    /// What the user did to the toasts of the stack of `target`, one entry
    /// per toast shown, in order: whether its close button was pressed and
    /// whether it was clicked. Returns the position of the toast to remove:
    /// the last one closed, or clicked while it expires by itself.
    pub fn dismissed(&self, target: Option<InstanceId>, now: u64, clicks: &Vec<(bool, bool)>) -> (res: Option<usize>)
        ensures
            res == last_dismissed(self.items@, target, now, clicks@),
    {
        let mut dismiss: Option<usize> = None;
        let mut shown: usize = 0;
        let mut k: usize = 0;
        while k < self.items.len()
            invariant
                k <= self.items@.len(),
                shown <= k,
                shown == shown_count(self.items@.take(k as int), target, now),
                dismiss == dismissed_upto(self.items@, target, now, clicks@, k as int),
            decreases self.items.len() - k,
        {
            proof {
                assert(self.items@.take(k + 1).drop_last() =~= self.items@.take(k as int));
                assert(self.items@.take(k + 1).last() == self.items@[k as int]);
            }
            let t = &self.items[k];
            let same = match (t.target, target) {
                (Some(a), Some(b)) => a == b,
                (None, None) => true,
                _ => false,
            };
            if same && t.alive(now) {
                if shown < clicks.len() {
                    let (closed, clicked) = clicks[shown];
                    if closed || (clicked && t.expires_at.is_some()) {
                        dismiss = Some(k);
                    }
                }
                shown = shown + 1;
            }
            k += 1;
        }
        proof {
            assert(self.items@.take(k as int) =~= self.items@);
        }
        dismiss
    }

    /// Removes the toast at position `i`.
    pub fn remove(&mut self, i: usize)
        requires
            i < old(self).items@.len(),
        ensures
            final(self).items@ == old(self).items@.remove(i as int),
    {
        let _ = self.items.remove(i);
    }
}

/// How many of `items` the stack of `target` shows at `now`.
pub open spec fn shown_count(items: Seq<Toast>, target: Option<InstanceId>, now: u64) -> nat
    decreases items.len(),
{
    if items.len() == 0 {
        0
    } else {
        shown_count(items.drop_last(), target, now) + if shown_in(items.last(), target, now) {
            1nat
        } else {
            0nat
        }
    }
}

/// The last toast among the first `k` that the user closed, or clicked
/// while it expires by itself.
pub open spec fn dismissed_upto(
    items: Seq<Toast>,
    target: Option<InstanceId>,
    now: u64,
    clicks: Seq<(bool, bool)>,
    k: int,
) -> Option<usize>
    decreases k,
{
    if k <= 0 {
        None
    } else {
        let t = items[k - 1];
        let n = shown_count(items.take(k - 1), target, now);
        if shown_in(t, target, now) && n < clicks.len() && (clicks[n as int].0 || (clicks[n as int].1
            && t.expires_at is Some)) {
            Some((k - 1) as usize)
        } else {
            dismissed_upto(items, target, now, clicks, k - 1)
        }
    }
}

pub open spec fn last_dismissed(items: Seq<Toast>, target: Option<InstanceId>, now: u64, clicks: Seq<(bool, bool)>) -> Option<
    usize,
> {
    dismissed_upto(items, target, now, clicks, items.len() as int)
}

} // verus!
