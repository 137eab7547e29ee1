use vstd::prelude::*;
use std::collections::{HashMap, HashSet};
use crate::text::{hex, push_hex_padded, zero_padded};

verus! {

/// What went wrong with EGL.
#[derive(Clone, Copy, Debug)]
pub enum EglError {
    /// A needed extension function is missing.
    MissingProc(&'static str),
    NoCurrentDisplay,
    /// `eglCreateImageKHR` failed, with EGL's error code when there is one.
    CreateImage(Option<u32>),
}

pub open spec fn egl_error_text(e: EglError) -> Seq<char> {
    match e {
        EglError::MissingProc(p) => "missing proc: "@ + p@,
        EglError::NoCurrentDisplay => "no current EGLDisplay (GL context not current?)"@,
        EglError::CreateImage(Some(code)) => "eglCreateImageKHR failed (error 0x"@ + zero_padded(hex(code as nat), 4) + ")"@,
        EglError::CreateImage(None) => "eglCreateImageKHR failed"@,
    }
}

impl EglError {
    /// The error as shown to the user.
    pub fn message(&self) -> (s: String)
        ensures
            s@ == egl_error_text(*self),
    {
        match self {
            EglError::MissingProc(p) => {
                let mut s = String::from_str("missing proc: ");
                s.append(p);
                s
            },
            EglError::NoCurrentDisplay => String::from_str("no current EGLDisplay (GL context not current?)"),
            EglError::CreateImage(Some(code)) => {
                let mut s = String::from_str("eglCreateImageKHR failed (error 0x");
                push_hex_padded(&mut s, *code as u64, 4);
                s.append(")");
                s
            },
            EglError::CreateImage(None) => String::from_str("eglCreateImageKHR failed"),
        }
    }
}

/// What went wrong while showing video.
pub enum Error {
    Egl(EglError),
    Gl(String),
}

pub open spec fn error_text(e: Error) -> Seq<char> {
    match e {
        Error::Egl(x) => "EGL error: "@ + egl_error_text(x),
        Error::Gl(s) => "GL error: "@ + s@,
    }
}

impl Error {
    /// The error as shown to the user.
    pub fn message(&self) -> (s: String)
        ensures
            s@ == error_text(*self),
    {
        match self {
            Error::Egl(e) => {
                let mut s = String::from_str("EGL error: ");
                let m = e.message();
                s.append(m.as_str());
                s
            },
            Error::Gl(g) => {
                let mut s = String::from_str("GL error: ");
                s.append(g.as_str());
                s
            },
        }
    }

    /// The EGL error behind this one, if any.
    pub fn source(&self) -> (res: Option<EglError>)
        ensures
            res == match *self {
                Error::Egl(e) => Some(e),
                Error::Gl(_) => None,
            },
    {
        match self {
            Error::Egl(e) => Some(*e),
            Error::Gl(_) => None,
        }
    }
}

impl From<EglError> for Error {
    fn from(e: EglError) -> (res: Self) {
        Error::Egl(e)
    }
}

impl vstd::std_specs::convert::FromSpecImpl<EglError> for Error {
    open spec fn obeys_from_spec() -> bool {
        true
    }

    open spec fn from_spec(e: EglError) -> Self {
        Error::Egl(e)
    }
}

/// A video frame shared as a DMA-BUF.
#[derive(Clone, Copy, PartialEq, Eq, Structural, Debug)]
pub struct DmaBufFrame {
    pub seq: u64,
    pub fd: i64,
    pub width: u32,
    pub height: u32,
    pub offset: u32,
    pub stride: i32,
}

/// Which listeners each PipeWire node has; a node has an entry exactly
/// while someone listens to it.
pub open spec fn all_listened(m: Map<u32, Set<u64>>) -> bool {
    forall|node: u32| #[trigger] m.contains_key(node) ==> m[node] != Set::<u64>::empty()
}

/// The listeners after `listener` starts listening to `node`.
pub open spec fn listened(m: Map<u32, Set<u64>>, node: u32, listener: u64) -> Map<u32, Set<u64>> {
    m.insert(
        node,
        if m.contains_key(node) {
            m[node].insert(listener)
        } else {
            set![listener]
        },
    )
}

/// The listeners after `listener` stops listening to `node`: a node left
/// without listeners is dropped.
pub open spec fn unlistened(m: Map<u32, Set<u64>>, node: u32, listener: u64) -> Map<u32, Set<u64>> {
    if !m.contains_key(node) {
        m
    } else if m[node].remove(listener) == Set::<u64>::empty() {
        m.remove(node)
    } else {
        m.insert(node, m[node].remove(listener))
    }
}

/// What stopping to listen did to the node's stream.
#[derive(Clone, Copy, PartialEq, Eq, Structural, Debug)]
pub enum Unlisten {
    /// The node had no stream.
    NoStream,
    /// Others still listen; the stream goes on.
    Kept,
    /// That was the last listener: the stream is stopped.
    Stopped,
}

/// The streams of PipeWire nodes and who listens to each. Listener ids are
/// handed out from a counter. A node's stream is started with its first
/// listener and stopped when its last one leaves.
pub struct NodeListeners {
    pub streams: HashMap<u32, HashSet<u64>>,
    pub next_id: u64,
}

impl View for NodeListeners {
    type V = Map<u32, Set<u64>>;

    open spec fn view(&self) -> Map<u32, Set<u64>> {
        self.streams@.map_values(|s: HashSet<u64>| s@)
    }
}

impl NodeListeners {
    /// Every node with an entry has a listener.
    pub open spec fn wf(&self) -> bool {
        all_listened(self@)
    }

    /// Every listener id was handed out by the counter.
    pub open spec fn ids_below_next(&self) -> bool {
        forall|node: u32, l: u64| #[trigger] self@.contains_key(node) && #[trigger] self@[node].contains(l) ==> l < self.next_id
    }

    pub fn new() -> (t: Self)
        ensures
            t@ == Map::<u32, Set<u64>>::empty(),
            t.next_id == 0,
            t.wf(),
            t.ids_below_next(),
    {
        let t = NodeListeners { streams: HashMap::new(), next_id: 0 };
        proof {
            assert(t@ =~= Map::<u32, Set<u64>>::empty());
        }
        t
    }

    /// Whether `node` is being streamed.
    pub fn has_stream(&self, node: u32) -> (res: bool)
        ensures
            res == self@.contains_key(node),
    {
        broadcast use vstd::std_specs::hash::group_hash_axioms;

        self.streams.contains_key(&node)
    }

    /// A listener id not handed out before.
    pub fn fresh_id(&mut self) -> (id: u64)
        requires
            old(self).next_id < u64::MAX,
        ensures
            id == old(self).next_id,
            final(self).next_id == old(self).next_id + 1,
            final(self)@ == old(self)@,
            final(self).wf() == old(self).wf(),
            old(self).ids_below_next() ==> final(self).ids_below_next(),
    {
        let id = self.next_id;
        self.next_id = self.next_id + 1;
        id
    }

    /// `listener` starts listening to `node`; returns whether the node's
    /// stream must be started for it.
    pub fn connect(&mut self, node: u32, listener: u64) -> (started: bool)
        requires
            old(self).wf(),
        ensures
            final(self).wf(),
            started == !old(self)@.contains_key(node),
            final(self)@ == listened(old(self)@, node, listener),
            final(self).next_id == old(self).next_id,
            old(self).ids_below_next() && listener < old(self).next_id ==> final(self).ids_below_next(),
    {
        broadcast use vstd::std_specs::hash::group_hash_axioms;

        let ghost m0 = self@;
        let started = !self.streams.contains_key(&node);
        let mut set = match self.streams.remove(&node) {
            Some(set) => set,
            None => HashSet::new(),
        };
        proof {
            assert(set@ == if started { Set::<u64>::empty() } else { m0[node] });
        }
        set.insert(listener);
        self.streams.insert(node, set);
        proof {
            assert(self@ =~= listened(m0, node, listener));
            assert forall|n: u32| #[trigger] self@.contains_key(n) implies self@[n] != Set::<u64>::empty() by {
                if n == node {
                    assert(self@[n].contains(listener));
                } else {
                    assert(self@[n] == m0[n]);
                }
            }
        }
        started
    }

    /// `listener` stops listening to `node`.
    pub fn disconnect(&mut self, node: u32, listener: u64) -> (res: Unlisten)
        requires
            old(self).wf(),
        ensures
            final(self).wf(),
            final(self)@ == unlistened(old(self)@, node, listener),
            final(self).next_id == old(self).next_id,
            res == if !old(self)@.contains_key(node) {
                Unlisten::NoStream
            } else if old(self)@[node].remove(listener) == Set::<u64>::empty() {
                Unlisten::Stopped
            } else {
                Unlisten::Kept
            },
            old(self).ids_below_next() ==> final(self).ids_below_next(),
    {
        broadcast use vstd::std_specs::hash::group_hash_axioms;

        let ghost m0 = self@;
        let mut set = match self.streams.remove(&node) {
            Some(set) => set,
            None => {
                proof {
                    assert(self@ =~= m0);
                }
                return Unlisten::NoStream;
            },
        };
        set.remove(&listener);
        if set.is_empty() {
            proof {
                assert(set@ =~= Set::<u64>::empty());
                assert(self@ =~= m0.remove(node));
            }
            Unlisten::Stopped
        } else {
            proof {
                assert(set@ != Set::<u64>::empty()) by {
                    if set@ == Set::<u64>::empty() {
                        assert(set@.len() == 0);
                    }
                }
            }
            self.streams.insert(node, set);
            proof {
                assert(self@ =~= m0.insert(node, m0[node].remove(listener)));
            }
            Unlisten::Kept
        }
    }

    /// A new listener of `node` with a fresh id; returns the id and whether
    /// the node's stream must be started for it.
    pub fn listen(&mut self, node: u32) -> (res: (u64, bool))
        requires
            old(self).wf(),
            old(self).ids_below_next(),
            old(self).next_id < u64::MAX,
        ensures
            final(self).wf(),
            final(self).ids_below_next(),
            res.0 == old(self).next_id,
            final(self).next_id == old(self).next_id + 1,
            res.1 == !old(self)@.contains_key(node),
            !(old(self)@.contains_key(node) && old(self)@[node].contains(res.0)),
            final(self)@ == listened(old(self)@, node, res.0),
    {
        let id = self.fresh_id();
        let started = self.connect(node, id);
        (id, started)
    }
}

/// Stopping to listen undoes starting to: a listener that did not listen to
/// `node` before leaves the streams as they were.
pub proof fn lemma_listen_then_unlisten(m: Map<u32, Set<u64>>, node: u32, listener: u64)
    requires
        all_listened(m),
        !(m.contains_key(node) && m[node].contains(listener)),
    ensures
        unlistened(listened(m, node, listener), node, listener) == m,
{
    let m1 = listened(m, node, listener);
    if m.contains_key(node) {
        assert(m1[node].remove(listener) =~= m[node]);
        assert(m[node] != Set::<u64>::empty());
        assert(unlistened(m1, node, listener) =~= m);
    } else {
        assert(m1[node].remove(listener) =~= Set::<u64>::empty());
        assert(unlistened(m1, node, listener) =~= m);
    }
}

/// The listeners after each of `ls` starts listening to `node`, in order.
pub open spec fn listened_all(m: Map<u32, Set<u64>>, node: u32, ls: Seq<u64>) -> Map<u32, Set<u64>>
    decreases ls.len(),
{
    if ls.len() == 0 {
        m
    } else {
        listened(listened_all(m, node, ls.drop_last()), node, ls.last())
    }
}

/// The listeners after each of `ls` stops listening to `node`, in order.
pub open spec fn unlistened_all(m: Map<u32, Set<u64>>, node: u32, ls: Seq<u64>) -> Map<u32, Set<u64>>
    decreases ls.len(),
{
    if ls.len() == 0 {
        m
    } else {
        unlistened(unlistened_all(m, node, ls.drop_last()), node, ls.last())
    }
}

proof fn lemma_listened_all(m: Map<u32, Set<u64>>, node: u32, ls: Seq<u64>)
    requires
        ls.len() > 0,
    ensures
        listened_all(m, node, ls) == m.insert(
            node,
            (if m.contains_key(node) {
                m[node]
            } else {
                Set::<u64>::empty()
            }).union(ls.to_set()),
        ),
    decreases ls.len(),
{
    let base = if m.contains_key(node) {
        m[node]
    } else {
        Set::<u64>::empty()
    };
    let init = ls.drop_last();
    ls.drop_last().lemma_push_to_set_commute(ls.last());
    assert(init.push(ls.last()) =~= ls);
    let l = ls.last();
    if init.len() == 0 {
        assert(init.to_set() =~= Set::<u64>::empty());
        assert(listened_all(m, node, init) == m);
        assert(ls.to_set() =~= set![l]);
        let v = if m.contains_key(node) {
            m[node].insert(l)
        } else {
            set![l]
        };
        assert(v =~= base.union(ls.to_set()));
        assert(listened_all(m, node, ls) == m.insert(node, v));
    } else {
        lemma_listened_all(m, node, init);
        let m0 = listened_all(m, node, init);
        assert(m0.contains_key(node));
        assert(m0[node] == base.union(init.to_set()));
        assert(m0[node].insert(l) =~= base.union(ls.to_set()));
        assert(listened_all(m, node, ls) == m0.insert(node, m0[node].insert(l)));
        assert(m0.insert(node, m0[node].insert(l)) =~= m.insert(node, base.union(ls.to_set())));
    }
}

proof fn lemma_unlistened_all(m: Map<u32, Set<u64>>, node: u32, ls: Seq<u64>)
    requires
        all_listened(m),
    ensures
        all_listened(unlistened_all(m, node, ls)),
        unlistened_all(m, node, ls) == (if !m.contains_key(node) {
            m
        } else if m[node].difference(ls.to_set()) == Set::<u64>::empty() {
            m.remove(node)
        } else {
            m.insert(node, m[node].difference(ls.to_set()))
        }),
    decreases ls.len(),
{
    if ls.len() == 0 {
        if m.contains_key(node) {
            assert(m[node].difference(ls.to_set()) =~= m[node]);
            assert(m.insert(node, m[node]) =~= m);
        }
    } else {
        let init = ls.drop_last();
        let l = ls.last();
        lemma_unlistened_all(m, node, init);
        init.lemma_push_to_set_commute(l);
        assert(init.push(l) =~= ls);
        let m1 = unlistened_all(m, node, init);
        if m.contains_key(node) {
            let rest1 = m[node].difference(init.to_set());
            assert(rest1.remove(l) =~= m[node].difference(ls.to_set()));
            if rest1 == Set::<u64>::empty() {
                assert(m[node].difference(ls.to_set()) =~= Set::<u64>::empty());
            }
        } else {
            assert(m1 == m);
        }
        assert forall|n: u32| #[trigger] unlistened_all(m, node, ls).contains_key(n) implies unlistened_all(m, node, ls)[n]
            != Set::<u64>::empty() by {
            assert(m1.contains_key(n));
        }
        if m.contains_key(node) && m[node].difference(ls.to_set()) == Set::<u64>::empty() {
            assert(unlistened_all(m, node, ls) =~= m.remove(node));
        } else if m.contains_key(node) {
            assert(unlistened_all(m, node, ls) =~= m.insert(node, m[node].difference(ls.to_set())));
        }
    }
}

/// A node's stream lives exactly as long as its listeners: after `ls` start
/// listening to a node that had no stream, the node's listeners are exactly
/// `ls`; once all of them have stopped, in any order, the node is gone and
/// the other nodes are as they were, so a later listener starts a fresh
/// stream.
pub proof fn lemma_stream_lives_with_listeners(m: Map<u32, Set<u64>>, node: u32, ls: Seq<u64>, stops: Seq<u64>)
    requires
        all_listened(m),
        !m.contains_key(node),
        ls.len() > 0,
        ls.to_set().subset_of(stops.to_set()),
    ensures
        all_listened(listened_all(m, node, ls)),
        listened_all(m, node, ls)[node] == ls.to_set(),
        unlistened_all(listened_all(m, node, ls), node, stops) == m,
{
    lemma_listened_all(m, node, ls);
    let m1 = listened_all(m, node, ls);
    assert(Set::<u64>::empty().union(ls.to_set()) =~= ls.to_set());
    assert(ls.to_set().contains(ls[0]));
    assert forall|n: u32| #[trigger] m1.contains_key(n) implies m1[n] != Set::<u64>::empty() by {
        if n == node {
            assert(m1[n].contains(ls[0]));
        }
    }
    lemma_unlistened_all(m1, node, stops);
    assert(m1[node].difference(stops.to_set()) =~= Set::<u64>::empty());
    assert(m1.remove(node) =~= m);
}

/// The number the next frame of a stream gets: one more than its newest
/// frame's, or 1 when it has none.
pub open spec fn next_frame_seq(latest: Option<DmaBufFrame>) -> int {
    match latest {
        Some(f) => f.seq + 1,
        None => 1,
    }
}

/// What a PipeWire stream has delivered: whether it is streaming, and its
/// newest frame. Frames are numbered on from the newest one, starting at 1.
pub struct StreamFrames {
    pub streaming: bool,
    pub latest_frame: Option<DmaBufFrame>,
}

impl StreamFrames {
    /// A stream that is not streaming yet and has no frame.
    pub fn new() -> (s: Self)
        ensures
            !s.streaming,
            s.latest_frame is None,
    {
        StreamFrames { streaming: false, latest_frame: None }
    }

    /// The stream's state changed; a stream that starts streaming forgets
    /// its newest frame, so that numbering starts again.
    pub fn state_changed(&mut self, streaming: bool)
        ensures
            final(self).streaming == streaming,
            final(self).latest_frame == if streaming {
                None
            } else {
                old(self).latest_frame
            },
    {
        self.streaming = streaming;
        if streaming {
            self.latest_frame = None;
        }
    }

    /// The stream was moved off its node: its newest frame is forgotten.
    pub fn forget_frame(&mut self)
        ensures
            final(self).streaming == old(self).streaming,
            final(self).latest_frame is None,
    {
        self.latest_frame = None;
    }

    /// A frame arrived with this buffer, size and layout; it becomes the
    /// newest frame, numbered on from the one before. Returns its number.
    pub fn frame_arrived(&mut self, fd: i64, width: u32, height: u32, offset: u32, stride: i32) -> (seq: u64)
        requires
            next_frame_seq(old(self).latest_frame) <= u64::MAX,
        ensures
            seq == next_frame_seq(old(self).latest_frame),
            final(self).streaming == old(self).streaming,
            final(self).latest_frame == Some(DmaBufFrame { seq, fd, width, height, offset, stride }),
    {
        let seq = match self.latest_frame {
            Some(f) => f.seq + 1,
            None => 1,
        };
        self.latest_frame = Some(DmaBufFrame { seq, fd, width, height, offset, stride });
        seq
    }
}

/// A request to the PipeWire thread; `C` is the frame callback.
pub enum PipewireCommand<C> {
    /// Listen, as listener `id`, to the frames of node `node`.
    ConnectVid(u64, u32, C),
    /// Stop listener `id` on node `node`.
    Disconnect(u64, u32),
    Terminate,
}

} // verus!
