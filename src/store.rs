use vstd::prelude::*;
use std::collections::VecDeque;
use crate::frame::{flow_len, Frame};

verus! {

/// Handle of a stream in a `Store`: its index.
pub type Key = usize;

/// Per-stream send state: its outbound frames, oldest first, and whether it
/// is currently a member of one of the scheduler's lists.
#[derive(Debug)]
pub struct Stream {
    pub id: u32,
    pub pending_send: VecDeque<Frame>,
    pub is_pending_send: bool,
}

impl Stream {
    pub fn new(id: u32) -> (r: Stream)
        ensures
            r.id == id,
            r.pending_send@.len() == 0,
            !r.is_pending_send,
    {
        Stream { id, pending_send: VecDeque::new(), is_pending_send: false }
    }
}

/// Arena of streams addressed by `Key`. Keys are never reused.
#[derive(Debug)]
pub struct Store {
    pub streams: Vec<Stream>,
}

/// Flow-controlled bytes in one queue.
pub open spec fn queue_flow(q: Seq<Frame>) -> nat
    decreases q.len(),
{
    if q.len() == 0 {
        0
    } else {
        queue_flow(q.drop_last()) + flow_len(q.last())
    }
}

/// Flow-controlled bytes over all queues.
pub open spec fn total_flow(qs: Seq<Seq<Frame>>) -> nat
    decreases qs.len(),
{
    if qs.len() == 0 {
        0
    } else {
        total_flow(qs.drop_last()) + queue_flow(qs.last())
    }
}

pub proof fn lemma_queue_flow_push(q: Seq<Frame>, f: Frame)
    ensures
        queue_flow(q.push(f)) == queue_flow(q) + flow_len(f),
{
    assert(q.push(f).drop_last() =~= q);
}

pub proof fn lemma_queue_flow_prepend(f: Frame, q: Seq<Frame>)
    ensures
        queue_flow(seq![f] + q) == flow_len(f) + queue_flow(q),
    decreases q.len(),
{
    if q.len() > 0 {
        lemma_queue_flow_prepend(f, q.drop_last());
        assert((seq![f] + q).drop_last() =~= seq![f] + q.drop_last());
        assert((seq![f] + q).last() == q.last());
    } else {
        assert(seq![f] + q =~= seq![f]);
        assert(seq![f].drop_last() =~= Seq::<Frame>::empty());
        assert(queue_flow(Seq::<Frame>::empty()) == 0);
    }
}

pub proof fn lemma_total_flow_update(qs: Seq<Seq<Frame>>, i: int, q: Seq<Frame>)
    requires
        0 <= i < qs.len(),
    ensures
        total_flow(qs.update(i, q)) + queue_flow(qs[i]) == total_flow(qs) + queue_flow(q),
    decreases qs.len(),
{
    if i < qs.len() - 1 {
        lemma_total_flow_update(qs.drop_last(), i, q);
        assert(qs.update(i, q).drop_last() =~= qs.drop_last().update(i, q));
    } else {
        assert(qs.update(i, q).drop_last() =~= qs.drop_last());
    }
}

pub proof fn lemma_total_flow_push(qs: Seq<Seq<Frame>>, q: Seq<Frame>)
    ensures
        total_flow(qs.push(q)) == total_flow(qs) + queue_flow(q),
{
    assert(qs.push(q).drop_last() =~= qs);
}

impl Store {
    /// The frame queue of every stream, by key.
    pub open spec fn queues(&self) -> Seq<Seq<Frame>> {
        Seq::new(self.streams@.len(), |k: int| self.streams@[k].pending_send@)
    }

    pub open spec fn contains(&self, key: Key) -> bool {
        key < self.streams@.len()
    }

    pub fn new() -> (r: Store)
        ensures
            r.streams@.len() == 0,
    {
        Store { streams: Vec::new() }
    }

    /// Adds a stream with nothing queued and returns its key.
    pub fn insert(&mut self, id: u32) -> (r: Key)
        ensures
            r == old(self).streams@.len(),
            final(self).streams@.len() == old(self).streams@.len() + 1,
            forall|k: int| 0 <= k < r ==> final(self).streams@[k] == old(self).streams@[k],
            final(self).streams@[r as int].id == id,
            final(self).streams@[r as int].pending_send@.len() == 0,
            !final(self).streams@[r as int].is_pending_send,
    {
        let key = self.streams.len();
        self.streams.push(Stream::new(id));
        key
    }

    pub fn len(&self) -> (r: usize)
        ensures
            r == self.streams@.len(),
    {
        self.streams.len()
    }

    pub fn is_pending_send(&self, key: Key) -> (r: bool)
        requires
            self.contains(key),
        ensures
            r == self.streams@[key as int].is_pending_send,
    {
        self.streams[key].is_pending_send
    }

    /// Number of frames queued on the stream.
    pub fn queued(&self, key: Key) -> (r: usize)
        requires
            self.contains(key),
        ensures
            r == self.streams@[key as int].pending_send@.len(),
    {
        self.streams[key].pending_send.len()
    }
}

} // verus!
