//! The write side of the transport.

use vstd::prelude::*;
use crate::frame::Frame;

verus! {

/// Write side of the transport: buffers frames until it holds `limit` of
/// them, after which it reports that it is not ready.
#[derive(Debug)]
pub struct FrameSink {
    frames: Vec<Frame>,
    limit: usize,
}

impl FrameSink {
    pub closed spec fn sent(&self) -> Seq<Frame> {
        self.frames@
    }

    pub closed spec fn limit(&self) -> nat {
        self.limit as nat
    }

    pub fn new(limit: usize) -> (r: FrameSink)
        ensures
            r.sent().len() == 0,
            r.limit() == limit,
    {
        FrameSink { frames: Vec::new(), limit }
    }

    /// Whether one more frame is accepted now.
    pub fn poll_ready(&self) -> (r: bool)
        ensures
            r == (self.sent().len() < self.limit()),
    {
        self.frames.len() < self.limit
    }

    pub fn start_send(&mut self, frame: Frame)
        requires
            old(self).sent().len() < old(self).limit(),
        ensures
            final(self).sent() == old(self).sent().push(frame),
            final(self).limit() == old(self).limit(),
    {
        self.frames.push(frame);
    }

    /// Hands over the buffered frames, oldest first, leaving room for more.
    pub fn take_frames(&mut self) -> (r: Vec<Frame>)
        ensures
            r@ == old(self).sent(),
            final(self).sent().len() == 0,
            final(self).limit() == old(self).limit(),
    {
        let mut out: Vec<Frame> = Vec::new();
        std::mem::swap(&mut out, &mut self.frames);
        out
    }

    pub fn len(&self) -> (r: usize)
        ensures
            r == self.sent().len(),
    {
        self.frames.len()
    }
}

} // verus!
