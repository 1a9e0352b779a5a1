use vstd::prelude::*;
use crate::frame::Frame;
use crate::sink::FrameSink;
use crate::store::Store;

verus! {

/// A pipeline stage that forwards every operation, unchanged, to the stage
/// it wraps, so that stages can be stacked in one duplex pipeline.
#[derive(Debug)]
pub struct FlowControl<T> {
    inner: T,
}

impl<T> FlowControl<T> {
    /// The wrapped stage.
    pub closed spec fn inner(&self) -> T {
        self.inner
    }

    pub fn new(inner: T) -> (r: FlowControl<T>)
        ensures
            r.inner() == inner,
    {
        FlowControl { inner }
    }

    pub fn get_ref(&self) -> (r: &T)
        ensures
            *r == self.inner(),
    {
        &self.inner
    }

    pub fn into_inner(self) -> (r: T)
        ensures
            r == self.inner(),
    {
        self.inner
    }
}

/// A pipeline stage that gives access to the connection's stream table.
pub trait StreamTransporter {
    /// The stream table the stage gives access to.
    spec fn stream_table(&self) -> Store;

    fn streams(&self) -> (r: &Store)
        ensures
            *r == self.stream_table(),
    ;

    fn streams_mut(&mut self) -> (r: &mut Store)
        ensures
            *r == old(self).stream_table(),
            final(self).stream_table() == *final(r),
    ;
}

/// The stream table is itself the innermost stage.
impl StreamTransporter for Store {
    open spec fn stream_table(&self) -> Store {
        *self
    }

    fn streams(&self) -> (r: &Store) {
        self
    }

    fn streams_mut(&mut self) -> (r: &mut Store) {
        self
    }
}

impl<T: StreamTransporter> StreamTransporter for FlowControl<T> {
    open spec fn stream_table(&self) -> Store {
        self.inner().stream_table()
    }

    fn streams(&self) -> (r: &Store) {
        self.inner.streams()
    }

    fn streams_mut(&mut self) -> (r: &mut Store) {
        self.inner.streams_mut()
    }
}

impl FlowControl<FrameSink> {
    pub fn poll_ready(&self) -> (r: bool)
        ensures
            r == (self.inner().sent().len() < self.inner().limit()),
    {
        self.inner.poll_ready()
    }

    pub fn start_send(&mut self, frame: Frame)
        requires
            old(self).inner().sent().len() < old(self).inner().limit(),
        ensures
            final(self).inner().sent() == old(self).inner().sent().push(frame),
            final(self).inner().limit() == old(self).inner().limit(),
    {
        self.inner.start_send(frame)
    }

    /// Flushes: hands over every frame the wrapped sink holds.
    pub fn poll_complete(&mut self) -> (r: Vec<Frame>)
        ensures
            r@ == old(self).inner().sent(),
            final(self).inner().sent().len() == 0,
            final(self).inner().limit() == old(self).inner().limit(),
    {
        self.inner.take_frames()
    }
}


} // verus!
