use vstd::prelude::*;
use std::collections::VecDeque;
use crate::error::ConnectionError;
use crate::frame::{flow_len, Frame, WindowSize, WindowUpdate, MAX_WINDOW_SIZE};
use crate::store::{
    lemma_queue_flow_prepend, lemma_queue_flow_push, lemma_total_flow_update, queue_flow,
    total_flow, Key, Store,
};
use crate::model::{blocks, run, select, step, taken_from, Snapshot};
use crate::sink::FrameSink;
use crate::window::FlowWindow;

verus! {

/// Connection settings read once, when the scheduler is created.
#[derive(Debug, Clone, Copy)]
pub struct Config {
    pub init_local_window_sz: WindowSize,
}

/// Outcome of a drain pass.
#[derive(Debug, Clone, Copy, PartialEq, Eq, Structural)]
pub enum PollStatus {
    /// Every frame that could be sent was handed to the transport.
    Ready,
    /// The transport stopped accepting writes; call again once it has room.
    NotReady,
}

/// Whether `k` is on one of the lists.
pub open spec fn listed(send: Seq<Key>, cap: Seq<Key>, blocked: Seq<Key>, k: Key) -> bool {
    send.contains(k) || cap.contains(k) || blocked.contains(k)
}

pub open spec fn disjoint(a: Seq<Key>, b: Seq<Key>) -> bool {
    forall|k: Key| a.contains(k) ==> !b.contains(k)
}

pub open spec fn keys_in(store: &Store, s: Seq<Key>) -> bool {
    forall|i: int| 0 <= i < s.len() ==> store.contains(#[trigger] s[i])
}

/// The head of the stream's queue is a data frame with more than `limit`
/// bytes of payload.
pub open spec fn head_blocked(store: &Store, k: Key, limit: nat) -> bool {
    blocks(store.streams@[k as int].pending_send@, limit)
}

/// Membership bookkeeping: a stream's flag is set exactly when it is on one
/// of the lists, no stream is on two lists or twice on one, and a stream
/// other than `held` has frames queued exactly when its flag is set.
pub open spec fn tracks(store: &Store, send: Seq<Key>, cap: Seq<Key>, blocked: Seq<Key>, held: int) -> bool {
    &&& send.no_duplicates()
    &&& cap.no_duplicates()
    &&& blocked.no_duplicates()
    &&& disjoint(send, cap)
    &&& disjoint(send, blocked)
    &&& disjoint(cap, blocked)
    &&& keys_in(store, send)
    &&& keys_in(store, cap)
    &&& keys_in(store, blocked)
    &&& forall|k: Key| store.contains(k) ==>
        ((#[trigger] store.streams@[k as int]).is_pending_send <==> listed(send, cap, blocked, k))
    &&& forall|k: Key| store.contains(k) && k != held ==>
        ((#[trigger] store.streams@[k as int]).is_pending_send <==> store.streams@[k as int].pending_send@.len() > 0)
    &&& forall|k: Key| #[trigger] cap.contains(k) ==> head_blocked(store, k, 0)
    &&& forall|k: Key| #[trigger] blocked.contains(k) ==> head_blocked(store, k, 0)
}

/// No stream is waiting or holds queued frames.
pub open spec fn idle(store: &Store) -> bool {
    forall|k: int| 0 <= k < store.streams@.len() ==>
        !(#[trigger] store.streams@[k]).is_pending_send && store.streams@[k].pending_send@.len() == 0
}

proof fn lemma_pop_front_keys(s: Seq<Key>)
    requires
        s.len() > 0,
        s.no_duplicates(),
    ensures
        s.drop_first().no_duplicates(),
        forall|y: Key| #[trigger] s.drop_first().contains(y) <==> (s.contains(y) && y != s[0]),
{
    assert forall|y: Key| #[trigger] s.drop_first().contains(y) <==> (s.contains(y) && y != s[0]) by {
        if s.contains(y) && y != s[0] {
            let i = choose|i: int| 0 <= i < s.len() && s[i] == y;
            assert(s.drop_first()[i - 1] == y);
        }
        if s.drop_first().contains(y) {
            let i = choose|i: int| 0 <= i < s.len() - 1 && s.drop_first()[i] == y;
            assert(s[i + 1] == y);
        }
    }
}

proof fn lemma_push_key(s: Seq<Key>, x: Key)
    requires
        s.no_duplicates(),
        !s.contains(x),
    ensures
        s.push(x).no_duplicates(),
        forall|y: Key| #[trigger] s.push(x).contains(y) <==> (s.contains(y) || y == x),
{
    assert forall|y: Key| #[trigger] s.push(x).contains(y) <==> (s.contains(y) || y == x) by {
        vstd::seq_lib::lemma_seq_contains_after_push(s, x, y);
    }
    assert forall|i: int, j: int| 0 <= i < j < s.push(x).len() implies s.push(x)[i] != s.push(x)[j] by {
        if j == s.len() {
            assert(s.contains(s[i]));
        }
    }
}

proof fn lemma_idle_total(qs: Seq<Seq<Frame>>)
    requires
        forall|i: int| 0 <= i < qs.len() ==> #[trigger] qs[i].len() == 0,
    ensures
        total_flow(qs) == 0,
    decreases qs.len(),
{
    if qs.len() > 0 {
        lemma_idle_total(qs.drop_last());
        assert(qs.last().len() == 0);
    }
}

/// Blocked streams may join the tail of the capacity list.
proof fn lemma_merge_blocked(store: &Store, send: Seq<Key>, cap: Seq<Key>, blocked: Seq<Key>)
    requires
        tracks(store, send, cap, blocked, -1),
    ensures
        tracks(store, send, cap + blocked, Seq::empty(), -1),
{
    assert forall|i: int, j: int| 0 <= i < cap.len() && 0 <= j < blocked.len() implies cap[i] != blocked[j] by {
        assert(cap.contains(cap[i]));
        assert(blocked.contains(blocked[j]));
    }
    vstd::seq_lib::lemma_no_dup_in_concat(cap, blocked);
    assert forall|k: Key| #[trigger] (cap + blocked).contains(k) <==> (cap.contains(k) || blocked.contains(k)) by {
        vstd::seq_lib::lemma_seq_concat_contains_all_elements(cap, blocked, k);
        if (cap + blocked).contains(k) {
            let i = choose|i: int| 0 <= i < (cap + blocked).len() && (cap + blocked)[i] == k;
            if i < cap.len() {
                assert(cap[i] == k);
            } else {
                assert(blocked[i - cap.len()] == k);
            }
        }
    }
    assert(keys_in(store, cap + blocked)) by {
        assert forall|i: int| 0 <= i < (cap + blocked).len() implies store.contains(#[trigger] (cap + blocked)[i]) by {
            if i >= cap.len() {
                assert((cap + blocked)[i] == blocked[i - cap.len()]);
            }
        }
    }
}

fn list_contains(list: &VecDeque<Key>, key: Key) -> (r: bool)
    ensures
        r == list@.contains(key),
{
    let mut i: usize = 0;
    while i < list.len()
        invariant
            i <= list@.len(),
            forall|j: int| 0 <= j < i ==> list@[j] != key,
        decreases list@.len() - i,
    {
        if list[i] == key {
            return true;
        }
        i = i + 1;
    }
    false
}

/// The connection's outbound scheduler.
#[derive(Debug)]
pub struct Prioritize {
    /// Streams that have frames to send.
    pending_send: VecDeque<Key>,
    /// Streams whose head frame waits for connection capacity.
    pending_capacity: VecDeque<Key>,
    /// Connection-level flow control over sent data.
    flow_control: FlowWindow,
    /// Flow-controlled bytes queued over all streams.
    buffered_data: usize,
    /// The drain task to wake when new work arrives.
    conn_task: Option<u64>,
}

impl Prioritize {
    pub closed spec fn send_list(&self) -> Seq<Key> {
        self.pending_send@
    }

    pub closed spec fn capacity_list(&self) -> Seq<Key> {
        self.pending_capacity@
    }

    pub closed spec fn window(&self) -> FlowWindow {
        self.flow_control
    }

    pub closed spec fn buffered(&self) -> nat {
        self.buffered_data as nat
    }

    pub closed spec fn task(&self) -> Option<u64> {
        self.conn_task
    }

    /// The lists together with the streams' queues.
    pub open spec fn snapshot(&self, store: &Store) -> Snapshot {
        (self.send_list(), self.capacity_list(), store.queues())
    }

    /// The scheduler agrees with `store`: the window is well formed with no
    /// increment left staged,
    /// `buffered` counts the flow-controlled bytes of every queue, and list
    /// membership matches the streams' flags and queues.
    pub open spec fn wf(&self, store: &Store) -> bool {
        &&& self.window().wf()
        &&& self.window().pending() == 0
        &&& self.buffered() == total_flow(store.queues())
        &&& tracks(store, self.send_list(), self.capacity_list(), Seq::empty(), -1)
    }

    pub fn new(config: &Config) -> (r: Prioritize)
        requires
            config.init_local_window_sz <= MAX_WINDOW_SIZE,
        ensures
            r.send_list().len() == 0,
            r.capacity_list().len() == 0,
            r.buffered() == 0,
            r.window().window() == config.init_local_window_sz as int,
            r.window().pending() == 0,
            r.task() is None,
            r.window().wf(),
            forall|s: Store| idle(&s) ==> r.wf(&s),
    {
        let r = Prioritize {
            pending_send: VecDeque::new(),
            pending_capacity: VecDeque::new(),
            flow_control: FlowWindow::new(config.init_local_window_sz),
            buffered_data: 0,
            conn_task: None,
        };
        assert forall|s: Store| idle(&s) implies r.wf(&s) by {
            assert forall|i: int| 0 <= i < s.queues().len() implies #[trigger] s.queues()[i].len() == 0 by {
                assert(s.streams@[i].pending_send@.len() == 0);
            }
            lemma_idle_total(s.queues());
        }
        r
    }

    pub fn buffered_data(&self) -> (r: usize)
        ensures
            r == self.buffered(),
    {
        self.buffered_data
    }

    pub fn effective_window_size(&self) -> (r: WindowSize)
        requires
            self.window().wf(),
        ensures
            r == self.window().effective(),
    {
        self.flow_control.effective_window_size()
    }

    /// Capacity left once every buffered byte is sent: the effective window
    /// minus `buffered`, or zero when the buffer already fills it.
    pub fn available_window(&self) -> (r: WindowSize)
        requires
            self.window().wf(),
        ensures
            self.buffered() >= self.window().effective() ==> r == 0,
            self.buffered() < self.window().effective() ==> r == self.window().effective() - self.buffered(),
    {
        let win = self.flow_control.effective_window_size();
        if self.buffered_data >= win as usize {
            0
        } else {
            win - self.buffered_data as WindowSize
        }
    }

    /// Expands the connection window by the frame's increment and applies it
    /// at once. Fails, changing nothing, when the window would pass its
    /// ceiling. On success returns the drain task to wake, so that streams
    /// waiting for capacity are reconsidered on the next drain pass.
    pub fn recv_window_update(&mut self, frame: WindowUpdate) -> (r: Result<Option<u64>, ConnectionError>)
        requires
            old(self).window().wf(),
            old(self).window().pending() == 0,
        ensures
            final(self).window().wf(),
            final(self).window().pending() == 0,
            r is Err <==> old(self).window().window() + frame.size_increment > MAX_WINDOW_SIZE,
            r is Err ==> r == Err::<Option<u64>, ConnectionError>(ConnectionError::FlowControlError)
                && *final(self) == *old(self),
            r is Ok ==> r == Ok::<Option<u64>, ConnectionError>(old(self).task()),
            r is Ok ==> final(self).window().window() == old(self).window().window() + frame.size_increment,
            final(self).send_list() == old(self).send_list(),
            final(self).capacity_list() == old(self).capacity_list(),
            final(self).buffered() == old(self).buffered(),
            final(self).task() == old(self).task(),
            forall|s: Store| old(self).wf(&s) ==> final(self).wf(&s),
    {
        let res = self.flow_control.expand_window(frame.size_increment());
        match res {
            Err(e) => {
                return Err(e);
            },
            Ok(()) => {},
        }
        self.flow_control.apply_window_update();
        Ok(self.conn_task)
    }

    /// Appends `frame` to the stream's queue and, unless the stream is
    /// already waiting, puts it at the tail of the send list. Returns the
    /// drain task to wake when the stream was newly listed.
    pub fn queue_frame(&mut self, frame: Frame, store: &mut Store, key: Key) -> (r: Option<u64>)
        requires
            old(self).wf(old(store)),
            old(store).contains(key),
            old(self).buffered() + flow_len(frame) <= usize::MAX,
        ensures
            final(self).wf(final(store)),
            final(store).streams@.len() == old(store).streams@.len(),
            final(store).queues() == old(store).queues().update(
                key as int,
                old(store).queues()[key as int].push(frame),
            ),
            final(self).buffered() == old(self).buffered() + flow_len(frame),
            final(self).window() == old(self).window(),
            final(self).task() == old(self).task(),
            final(self).capacity_list() == old(self).capacity_list(),
            old(store).streams@[key as int].is_pending_send ==> {
                &&& final(self).send_list() == old(self).send_list()
                &&& r is None
            },
            !old(store).streams@[key as int].is_pending_send ==> {
                &&& final(self).send_list() == old(self).send_list().push(key)
                &&& r == old(self).task()
            },
    {
        let ghost qs = old(store).queues();
        proof {
            lemma_queue_flow_push(qs[key as int], frame);
            lemma_total_flow_update(qs, key as int, qs[key as int].push(frame));
        }
        self.buffered_data = self.buffered_data + frame.flow_len();
        store.streams[key].pending_send.push_back(frame);
        assert(store.queues() =~= qs.update(key as int, qs[key as int].push(frame)));
        assert(forall|k: Key| #[trigger] self.pending_capacity@.contains(k) ==> head_blocked(store, k, 0)) by {
            assert forall|k: Key| #[trigger] self.pending_capacity@.contains(k) implies head_blocked(store, k, 0) by {
                assert(head_blocked(old(store), k, 0));
                if k == key {
                    assert(store.streams@[k as int].pending_send@[0] == old(store).streams@[k as int].pending_send@[0]);
                }
            }
        }
        assert forall|k: Key| store.contains(k) && k != key implies
            #[trigger] store.streams@[k as int] == old(store).streams@[k as int] by {}
        if store.streams[key].is_pending_send {
            return None;
        }
        proof {
            lemma_push_key(self.pending_send@, key);
        }
        self.pending_send.push_back(key);
        store.streams[key].is_pending_send = true;
        assert(store.queues() =~= qs.update(key as int, qs[key as int].push(frame)));
        self.conn_task
    }

    /// Takes the next candidate stream off the lists: the head of the
    /// capacity list when the window has room and that list is not empty,
    /// else the head of the send list.
    fn pop_sender(&mut self, store: &mut Store, Ghost(blocked): Ghost<Seq<Key>>) -> (r: Option<Key>)
        requires
            old(self).window().wf(),
            tracks(old(store), old(self).send_list(), old(self).capacity_list(), blocked, -1),
        ensures
            final(self).window() == old(self).window(),
            final(self).buffered() == old(self).buffered(),
            final(self).task() == old(self).task(),
            final(store).queues() == old(store).queues(),
            final(store).streams@.len() == old(store).streams@.len(),
            match r {
                None => {
                    &&& final(store).streams@ == old(store).streams@
                    &&& final(self).send_list() == old(self).send_list()
                    &&& final(self).capacity_list() == old(self).capacity_list()
                    &&& old(self).send_list().len() == 0
                    &&& (old(self).capacity_list().len() == 0 || old(self).window().effective() == 0)
                },
                Some(k) => {
                    &&& tracks(final(store), final(self).send_list(), final(self).capacity_list(), blocked, k as int)
                    &&& old(store).contains(k)
                    &&& old(store).streams@[k as int].is_pending_send
                    &&& !final(store).streams@[k as int].is_pending_send
                    &&& final(store).streams@[k as int].pending_send@.len() > 0
                    &&& forall|j: Key| old(store).contains(j) && j != k ==>
                        #[trigger] final(store).streams@[j as int] == old(store).streams@[j as int]
                    &&& if old(self).window().effective() > 0 && old(self).capacity_list().len() > 0 {
                        &&& k == old(self).capacity_list()[0]
                        &&& final(self).capacity_list() == old(self).capacity_list().drop_first()
                        &&& final(self).send_list() == old(self).send_list()
                    } else {
                        &&& old(self).send_list().len() > 0
                        &&& k == old(self).send_list()[0]
                        &&& final(self).send_list() == old(self).send_list().drop_first()
                        &&& final(self).capacity_list() == old(self).capacity_list()
                    }
                },
            },
    {
        let ghost send0 = self.pending_send@;
        let ghost cap0 = self.pending_capacity@;
        let k: Key;
        if self.flow_control.has_capacity() && self.pending_capacity.len() > 0 {
            proof {
                lemma_pop_front_keys(cap0);
            }
            k = self.pending_capacity.pop_front().unwrap();
            assert(self.pending_capacity@ =~= cap0.drop_first());
            assert(cap0.contains(k));
        } else {
            match self.pending_send.pop_front() {
                Some(key) => {
                    k = key;
                },
                None => {
                    return None;
                },
            }
            proof {
                lemma_pop_front_keys(send0);
            }
            assert(self.pending_send@ =~= send0.drop_first());
            assert(send0.contains(k));
        }
        assert(store.contains(k));
        store.streams[k].is_pending_send = false;
        assert forall|j: Key| old(store).contains(j) && j != k implies
            #[trigger] store.streams@[j as int] == old(store).streams@[j as int] by {}
        assert(store.queues() =~= old(store).queues());
        Some(k)
    }

    /// Picks the next frame to send. A stream whose head is a data frame
    /// larger than the effective window keeps that frame in front and moves
    /// to the capacity list; the search then goes on with the next stream.
    /// A stream that still holds frames after one is taken goes to the tail
    /// of the send list.
    fn pop_frame(&mut self, store: &mut Store) -> (r: Option<(Key, Frame)>)
        requires
            old(self).wf(old(store)),
        ensures
            final(self).window() == old(self).window(),
            final(self).task() == old(self).task(),
            final(self).buffered() == old(self).buffered(),
            final(store).streams@.len() == old(store).streams@.len(),
            tracks(final(store), final(self).send_list(), final(self).capacity_list(), Seq::empty(), -1),
            ({
                let st = step(old(self).snapshot(old(store)), old(self).window().effective());
                &&& final(self).snapshot(final(store)) == st.1
                &&& match r {
                    None => st.0 is None,
                    Some((k, f)) => st.0 == Some(f),
                }
            }),
            match r {
                None => {
                    &&& final(store).queues() == old(store).queues()
                    &&& forall|k: Key| old(store).contains(k) && old(store).queues()[k as int].len() > 0
                        ==> head_blocked(old(store), k, old(self).window().effective())
                },
                Some((k, f)) => {
                    &&& old(store).contains(k)
                    &&& old(store).queues()[k as int].len() > 0
                    &&& f == old(store).queues()[k as int][0]
                    &&& final(store).queues() == old(store).queues().update(
                        k as int,
                        old(store).queues()[k as int].drop_first(),
                    )
                    &&& (f is Data ==> flow_len(f) <= old(self).window().effective())
                    &&& (old(self).window().effective() > 0 && old(self).capacity_list().len() > 0
                        && !head_blocked(old(store), old(self).capacity_list()[0], old(self).window().effective()))
                        ==> k == old(self).capacity_list()[0]
                },
            },
    {
        let eff = self.flow_control.effective_window_size();
        let mut blocked: VecDeque<Key> = VecDeque::new();
        loop
            invariant
                self.window() == old(self).window(),
                self.window().wf(),
                eff == self.window().effective(),
                self.task() == old(self).task(),
                self.buffered() == old(self).buffered(),
                store.streams@.len() == old(store).streams@.len(),
                store.queues() == old(store).queues(),
                forall|j: Key| store.contains(j) ==>
                    (#[trigger] store.streams@[j as int]).is_pending_send == old(store).streams@[j as int].is_pending_send,
                tracks(store, self.send_list(), self.capacity_list(), blocked@, -1),
                forall|j: Key| #[trigger] blocked@.contains(j) ==> head_blocked(store, j, eff as nat),
                blocked@.len() == 0 ==> self.send_list() == old(self).send_list()
                    && self.capacity_list() == old(self).capacity_list(),
                blocked@.len() > 0 && eff > 0 && old(self).capacity_list().len() > 0
                    ==> blocked@[0] == old(self).capacity_list()[0],
                select(self.send_list(), self.capacity_list(), blocked@, store.queues(), eff as nat)
                    == select(old(self).send_list(), old(self).capacity_list(), Seq::empty(), old(store).queues(), eff as nat),
            decreases self.send_list().len() + self.capacity_list().len(),
        {
            let ghost pre = *store;
            let ghost send0 = self.pending_send@;
            let ghost cap0 = self.pending_capacity@;
            match self.pop_sender(store, Ghost(blocked@)) {
                None => {
                    proof {
                        lemma_merge_blocked(store, self.pending_send@, self.pending_capacity@, blocked@);
                        assert forall|k: Key| old(store).contains(k) && old(store).queues()[k as int].len() > 0
                            implies head_blocked(old(store), k, eff as nat) by {
                            assert(old(store).queues()[k as int] == old(store).streams@[k as int].pending_send@);
                            assert(store.queues()[k as int] == store.streams@[k as int].pending_send@);
                            assert(store.streams@[k as int].is_pending_send);
                            if cap0.contains(k) {
                                assert(head_blocked(store, k, 0));
                            } else {
                                assert(blocked@.contains(k));
                            }
                        }
                    }
                    self.pending_capacity.append(&mut blocked);
                    return None;
                },
                Some(k) => {
                    let ghost mid = *store;
                    let frame = store.streams[k].pending_send.pop_front().unwrap();
                    assert(frame == pre.queues()[k as int][0]) by {
                        assert(pre.queues()[k as int] == pre.streams@[k as int].pending_send@);
                    }
                    if frame.is_data() && frame.flow_len() > eff as usize {
                        store.streams[k].pending_send.push_front(frame);
                        store.streams[k].is_pending_send = true;
                        proof {
                            assert(store.streams@[k as int].pending_send@ =~= mid.streams@[k as int].pending_send@);
                            assert(!blocked@.contains(k));
                            lemma_push_key(blocked@, k);
                            assert forall|j: Key| store.contains(j) && j != k implies
                                #[trigger] store.streams@[j as int] == pre.streams@[j as int] by {}
                            assert(store.queues() =~= pre.queues());
                        }
                        blocked.push_back(k);
                        continue;
                    }
                    let ghost tail = store.streams@[k as int].pending_send@;
                    if store.streams[k].pending_send.len() > 0 {
                        proof {
                            lemma_push_key(self.pending_send@, k);
                        }
                        self.pending_send.push_back(k);
                        store.streams[k].is_pending_send = true;
                    }
                    proof {
                        assert forall|j: Key| store.contains(j) && j != k implies
                            #[trigger] store.streams@[j as int] == pre.streams@[j as int] by {}
                        assert(tail =~= pre.queues()[k as int].drop_first());
                        assert(store.queues() =~= pre.queues().update(k as int, tail));
                        lemma_merge_blocked(store, self.pending_send@, self.pending_capacity@, blocked@);
                        assert(old(store).queues()[k as int].len() > 0);
                        assert(store.queues() == old(store).queues().update(
                            k as int,
                            old(store).queues()[k as int].drop_first(),
                        ));
                        assert(frame is Data ==> flow_len(frame) <= eff);
                        if eff > 0 && old(self).capacity_list().len() > 0 && blocked@.len() > 0 {
                            let b = blocked@[0];
                            assert(blocked@.contains(b));
                            assert(head_blocked(&pre, b, eff as nat));
                            assert(pre.queues()[b as int] == pre.streams@[b as int].pending_send@);
                            assert(old(store).queues()[b as int] == old(store).streams@[b as int].pending_send@);
                            assert(head_blocked(old(store), b, eff as nat));
                        }
                    }
                    self.pending_capacity.append(&mut blocked);
                    return Some((k, frame));
                },
            }
        }
    }

    /// Registers `task` as the drain task, then hands frames to `dst` for
    /// as long as it accepts writes and a frame can be sent. Returns
    /// `NotReady` when `dst` stops accepting writes, `Ready` when nothing
    /// more can be sent.
    pub fn poll_complete(&mut self, store: &mut Store, dst: &mut FrameSink, task: u64) -> (r: PollStatus)
        requires
            old(self).wf(old(store)),
        ensures
            final(self).wf(final(store)),
            final(self).task() == Some(task),
            final(self).window() == old(self).window(),
            final(store).streams@.len() == old(store).streams@.len(),
            final(dst).limit() == old(dst).limit(),
            old(dst).sent().len() <= final(dst).sent().len(),
            final(dst).sent().subrange(0, old(dst).sent().len() as int) == old(dst).sent(),
            forall|i: int| old(dst).sent().len() <= i < final(dst).sent().len()
                && (#[trigger] final(dst).sent()[i]) is Data
                ==> flow_len(final(dst).sent()[i]) <= old(self).window().effective(),
            final(self).buffered() + queue_flow(
                final(dst).sent().subrange(old(dst).sent().len() as int, final(dst).sent().len() as int),
            ) == old(self).buffered(),
            exists|origin: Seq<Key>| #[trigger] origin.len() == final(dst).sent().len() - old(dst).sent().len()
                && (forall|i: int| 0 <= i < origin.len() ==> old(store).contains(#[trigger] origin[i]))
                && forall|k: Key| old(store).contains(k) ==> #[trigger] old(store).queues()[k as int]
                    == taken_from(final(dst).sent().subrange(old(dst).sent().len() as int, final(dst).sent().len() as int), origin, k)
                    + final(store).queues()[k as int],
            old(dst).sent().len() < old(dst).limit() && old(self).window().effective() > 0
                && old(self).capacity_list().len() > 0
                && !head_blocked(old(store), old(self).capacity_list()[0], old(self).window().effective())
                ==> final(dst).sent().len() > old(dst).sent().len()
                && final(dst).sent()[old(dst).sent().len() as int]
                == old(store).queues()[old(self).capacity_list()[0] as int][0],
            ({
                let emitted = final(dst).sent().subrange(old(dst).sent().len() as int, final(dst).sent().len() as int);
                let done = run(old(self).snapshot(old(store)), old(self).window().effective(), emitted.len());
                &&& done.0 == emitted
                &&& r is NotReady ==> final(self).snapshot(final(store)) == done.1
                &&& r is Ready ==> step(done.1, old(self).window().effective()).0 is None
                    && final(self).snapshot(final(store)) == step(done.1, old(self).window().effective()).1
            }),
            r is Ready <==> final(dst).sent().len() < final(dst).limit(),
            r is Ready ==> forall|k: Key| final(store).contains(k) && (#[trigger] final(store).queues()[k as int]).len() > 0
                ==> head_blocked(final(store), k, final(self).window().effective()),
    {
        self.conn_task = Some(task);
        let ghost base = dst.sent().len();
        let ghost mut origin: Seq<Key> = Seq::empty();
        let ghost eff = old(self).window().effective();
        let ghost cap0 = old(self).capacity_list();
        let ghost first = base < dst.limit() && eff > 0 && cap0.len() > 0 && !head_blocked(old(store), cap0[0], eff);
        loop
            invariant
                self.wf(store),
                self.task() == Some(task),
                self.window() == old(self).window(),
                store.streams@.len() == old(store).streams@.len(),
                dst.limit() == old(dst).limit(),
                base == old(dst).sent().len(),
                base <= dst.sent().len(),
                dst.sent().subrange(0, base as int) == old(dst).sent(),
                forall|i: int| base <= i < dst.sent().len() && (#[trigger] dst.sent()[i]) is Data
                    ==> flow_len(dst.sent()[i]) <= old(self).window().effective(),
                origin.len() == dst.sent().len() - base,
                forall|i: int| 0 <= i < origin.len() ==> old(store).contains(#[trigger] origin[i]),
                self.buffered() + queue_flow(dst.sent().subrange(base as int, dst.sent().len() as int))
                    == old(self).buffered(),
                forall|k: Key| old(store).contains(k) ==> #[trigger] old(store).queues()[k as int]
                    == taken_from(dst.sent().subrange(base as int, dst.sent().len() as int), origin, k)
                    + store.queues()[k as int],
                eff == old(self).window().effective(),
                cap0 == old(self).capacity_list(),
                first == (base < old(dst).limit() && eff > 0 && cap0.len() > 0
                    && !head_blocked(old(store), cap0[0], eff)),
                run(old(self).snapshot(old(store)), eff, (dst.sent().len() - base) as nat)
                    == (dst.sent().subrange(base as int, dst.sent().len() as int), self.snapshot(store)),
                first ==> (dst.sent().len() > base && dst.sent()[base as int] == old(store).queues()[cap0[0] as int][0])
                    || (dst.sent().len() == base && self.capacity_list() == cap0 && *store == *old(store)),
            decreases dst.limit() - dst.sent().len(),
        {
            if !dst.poll_ready() {
                assert(origin.len() == dst.sent().len() - old(dst).sent().len());
                return PollStatus::NotReady;
            }
            let ghost pre = *store;
            let ghost sent0 = dst.sent();
            match self.pop_frame(store) {
                Some((k, frame)) => {
                    proof {
                        let q = pre.queues()[k as int];
                        assert(q =~= seq![frame] + q.drop_first());
                        lemma_queue_flow_prepend(frame, q.drop_first());
                        lemma_total_flow_update(pre.queues(), k as int, q.drop_first());
                    }
                    self.buffered_data = self.buffered_data - frame.flow_len();
                    dst.start_send(frame);
                    proof {
                        if first && sent0.len() == base {
                            assert(k == cap0[0]);
                        }
                        assert(dst.sent()[base as int] == sent0.push(frame)[base as int]);
                        let e0 = sent0.subrange(base as int, sent0.len() as int);
                        let e1 = dst.sent().subrange(base as int, dst.sent().len() as int);
                        assert(e1 =~= e0.push(frame));
                        assert(e1.drop_last() =~= e0);
                        lemma_queue_flow_push(e0, frame);
                        assert(origin.push(k).drop_last() =~= origin);
                        assert forall|j: Key| old(store).contains(j) implies #[trigger] old(store).queues()[j as int]
                            == taken_from(e1, origin.push(k), j) + store.queues()[j as int] by {
                            assert(old(store).queues()[j as int] == taken_from(e0, origin, j) + pre.queues()[j as int]);
                            if j == k {
                                assert(taken_from(e1, origin.push(k), j) == taken_from(e0, origin, j).push(frame));
                                assert(pre.queues()[j as int] =~= seq![frame] + store.queues()[j as int]);
                                assert(taken_from(e0, origin, j) + pre.queues()[j as int]
                                    =~= taken_from(e0, origin, j).push(frame) + store.queues()[j as int]);
                            } else {
                                assert(taken_from(e1, origin.push(k), j) == taken_from(e0, origin, j));
                            }
                        }
                        assert(dst.sent().subrange(0, base as int) =~= sent0.subrange(0, base as int));
                        assert((dst.sent().len() - base) as nat - 1 == (sent0.len() - base) as nat);
                        origin = origin.push(k);
                    }
                },
                None => {
                    proof {
                        if first && dst.sent().len() == base {
                            let c = cap0[0];
                            assert(cap0.contains(c));
                            assert(old(store).queues()[c as int] == old(store).streams@[c as int].pending_send@);
                        }
                    }
                    return PollStatus::Ready;
                },
            }
        }
    }

    /// Whether the stream waits on the send list.
    pub fn is_pending_send(&self, key: Key) -> (r: bool)
        ensures
            r == self.send_list().contains(key),
    {
        list_contains(&self.pending_send, key)
    }

    /// Whether the stream waits for connection capacity.
    pub fn is_pending_capacity(&self, key: Key) -> (r: bool)
        ensures
            r == self.capacity_list().contains(key),
    {
        list_contains(&self.pending_capacity, key)
    }

    /// No dangling membership: in a well-formed state a stream is on one of
    /// the two lists exactly when its flag is set, never on both, and every
    /// listed key names a stream of the store.
    pub proof fn lemma_no_dangling_membership(&self, store: &Store)
        requires
            self.wf(store),
        ensures
            forall|k: Key| #[trigger] store.contains(k) ==>
                (store.streams@[k as int].is_pending_send
                    <==> (self.send_list().contains(k) || self.capacity_list().contains(k))),
            forall|k: Key| #[trigger] self.send_list().contains(k) ==> !self.capacity_list().contains(k),
            forall|k: Key| (#[trigger] self.send_list().contains(k) || self.capacity_list().contains(k))
                ==> store.contains(k),
    {
        assert forall|k: Key| #[trigger] store.contains(k) implies
            (store.streams@[k as int].is_pending_send
                <==> (self.send_list().contains(k) || self.capacity_list().contains(k))) by {
            assert(listed(self.send_list(), self.capacity_list(), Seq::empty(), k)
                == (self.send_list().contains(k) || self.capacity_list().contains(k)));
        }
        assert forall|k: Key| (#[trigger] self.send_list().contains(k) || self.capacity_list().contains(k))
            implies store.contains(k) by {
            if self.send_list().contains(k) {
                let i = choose|i: int| 0 <= i < self.send_list().len() && self.send_list()[i] == k;
                assert(store.contains(self.send_list()[i]));
            } else {
                let i = choose|i: int| 0 <= i < self.capacity_list().len() && self.capacity_list()[i] == k;
                assert(store.contains(self.capacity_list()[i]));
            }
        }
    }

    /// Buffered accounting: in a well-formed state `buffered` is the sum of
    /// the flow lengths of every frame still queued on any stream.
    pub proof fn lemma_buffered_accounting(&self, store: &Store)
        requires
            self.wf(store),
        ensures
            self.buffered() == total_flow(store.queues()),
    {
    }

    /// A stream added to the store with nothing queued keeps the scheduler
    /// well formed.
    pub proof fn lemma_stream_added(&self, before: &Store, after: &Store)
        requires
            self.wf(before),
            after.streams@.len() == before.streams@.len() + 1,
            forall|k: int| 0 <= k < before.streams@.len() ==> after.streams@[k] == before.streams@[k],
            after.streams@.last().pending_send@.len() == 0,
            !after.streams@.last().is_pending_send,
        ensures
            self.wf(after),
    {
        assert(after.streams@.last().pending_send@ =~= Seq::<Frame>::empty());
        assert(after.queues() =~= before.queues().push(Seq::<Frame>::empty()));
        crate::store::lemma_total_flow_push(before.queues(), Seq::<Frame>::empty());
        let send = self.send_list();
        let cap = self.capacity_list();
        assert forall|k: Key| after.contains(k) implies
            ((#[trigger] after.streams@[k as int]).is_pending_send <==> listed(send, cap, Seq::empty(), k)) by {
            if k == before.streams@.len() {
                if send.contains(k) {
                    let i = choose|i: int| 0 <= i < send.len() && send[i] == k;
                    assert(before.contains(send[i]));
                }
                if cap.contains(k) {
                    let i = choose|i: int| 0 <= i < cap.len() && cap[i] == k;
                    assert(before.contains(cap[i]));
                }
            } else {
                assert(before.contains(k));
                assert(before.streams@[k as int] == after.streams@[k as int]);
            }
        }
        assert forall|k: Key| after.contains(k) implies
            ((#[trigger] after.streams@[k as int]).is_pending_send <==> after.streams@[k as int].pending_send@.len() > 0) by {
            if k < before.streams@.len() {
                assert(before.contains(k));
                assert(before.streams@[k as int] == after.streams@[k as int]);
            }
        }
        assert forall|k: Key| #[trigger] cap.contains(k) implies head_blocked(after, k, 0) by {
            assert(head_blocked(before, k, 0));
            let i = choose|i: int| 0 <= i < cap.len() && cap[i] == k;
            assert(before.contains(cap[i]));
            assert(before.streams@[k as int] == after.streams@[k as int]);
        }
    }
}

} // verus!
