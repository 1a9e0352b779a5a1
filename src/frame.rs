use vstd::prelude::*;

verus! {

/// Size of a flow-control window, in bytes.
pub type WindowSize = u32;

/// Largest window the protocol can represent: 2^31 - 1.
pub const MAX_WINDOW_SIZE: u32 = 2147483647;

/// A WINDOW_UPDATE frame: grants `size_increment` more bytes of capacity.
#[derive(Debug, Clone, Copy, PartialEq, Eq, Structural)]
pub struct WindowUpdate {
    pub stream_id: u32,
    pub size_increment: u32,
}

impl WindowUpdate {
    pub fn new(stream_id: u32, size_increment: u32) -> (r: WindowUpdate)
        ensures
            r.stream_id == stream_id,
            r.size_increment == size_increment,
    {
        WindowUpdate { stream_id, size_increment }
    }

    pub fn size_increment(&self) -> (r: WindowSize)
        ensures
            r == self.size_increment,
    {
        self.size_increment
    }
}

/// A DATA frame: its payload counts against flow control.
#[derive(Debug)]
pub struct Data {
    pub stream_id: u32,
    pub payload: Vec<u8>,
}

impl Data {
    pub fn new(stream_id: u32, payload: Vec<u8>) -> (r: Data)
        ensures
            r.stream_id == stream_id,
            r.payload@ == payload@,
    {
        Data { stream_id, payload }
    }
}

/// A frame on its way to the transport.
#[derive(Debug)]
pub enum Frame {
    Data(Data),
    Headers { stream_id: u32, end_stream: bool },
    Reset { stream_id: u32, error_code: u32 },
    WindowUpdate(WindowUpdate),
}

/// Bytes of `f` that count against the flow-control window.
pub open spec fn flow_len(f: Frame) -> nat {
    match f {
        Frame::Data(d) => d.payload@.len(),
        _ => 0,
    }
}

impl Frame {
    pub fn flow_len(&self) -> (r: usize)
        ensures
            r == flow_len(*self),
    {
        match self {
            Frame::Data(d) => d.payload.len(),
            _ => 0,
        }
    }

    pub fn is_data(&self) -> (r: bool)
        ensures
            r == self is Data,
    {
        match self {
            Frame::Data(_) => true,
            _ => false,
        }
    }
}

} // verus!
