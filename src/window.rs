use vstd::prelude::*;
use crate::error::ConnectionError;
use crate::frame::{WindowSize, MAX_WINDOW_SIZE};

verus! {

/// A flow-control budget. Window updates are first staged by
/// `expand_window`, then made usable by `apply_window_update`.
#[derive(Debug)]
pub struct FlowWindow {
    window_size: i64,
    pending_update: u32,
}

impl FlowWindow {
    /// The committed window, which may be negative.
    pub closed spec fn window(&self) -> int {
        self.window_size as int
    }

    /// Increments received but not yet applied.
    pub closed spec fn pending(&self) -> nat {
        self.pending_update as nat
    }

    pub closed spec fn wf(&self) -> bool {
        &&& self.window_size <= MAX_WINDOW_SIZE
        &&& self.window_size >= -(MAX_WINDOW_SIZE as int)
        &&& self.window_size + self.pending_update <= MAX_WINDOW_SIZE
    }

    /// The usable capacity: the committed window, or zero when it is negative.
    pub open spec fn effective(&self) -> nat {
        if self.window() < 0 {
            0
        } else {
            self.window() as nat
        }
    }

    pub fn new(size: WindowSize) -> (r: FlowWindow)
        requires
            size <= MAX_WINDOW_SIZE,
        ensures
            r.wf(),
            r.window() == size as int,
            r.pending() == 0,
    {
        FlowWindow { window_size: size as i64, pending_update: 0 }
    }

    /// Usable capacity, never negative.
    pub fn effective_window_size(&self) -> (r: WindowSize)
        requires
            self.wf(),
        ensures
            r as nat == self.effective(),
    {
        if self.window_size < 0 {
            0
        } else {
            self.window_size as u32
        }
    }

    pub fn has_capacity(&self) -> (r: bool)
        requires
            self.wf(),
        ensures
            r == (self.effective() > 0),
    {
        self.effective_window_size() > 0
    }

    /// Stages `increment`; fails, changing nothing, when the window with
    /// every staged increment would pass the protocol ceiling.
    pub fn expand_window(&mut self, increment: WindowSize) -> (r: Result<(), ConnectionError>)
        requires
            old(self).wf(),
        ensures
            final(self).wf(),
            final(self).window() == old(self).window(),
            r is Err <==> old(self).window() + old(self).pending() + increment > MAX_WINDOW_SIZE,
            r is Err ==> r == Err::<(), ConnectionError>(ConnectionError::FlowControlError)
                && *final(self) == *old(self),
            r is Ok ==> final(self).pending() == old(self).pending() + increment,
    {
        if self.window_size + self.pending_update as i64 + increment as i64 > MAX_WINDOW_SIZE as i64 {
            return Err(ConnectionError::FlowControlError);
        }
        self.pending_update = self.pending_update + increment;
        Ok(())
    }

    /// Commits every staged increment into the window.
    pub fn apply_window_update(&mut self)
        requires
            old(self).wf(),
        ensures
            final(self).wf(),
            final(self).window() == old(self).window() + old(self).pending(),
            final(self).pending() == 0,
    {
        self.window_size = self.window_size + self.pending_update as i64;
        self.pending_update = 0;
    }
}

} // verus!
