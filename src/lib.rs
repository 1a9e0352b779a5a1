//! Outbound scheduling core of a multiplexed, flow-controlled connection:
//! frames queued per stream are handed to the transport one at a time,
//! round robin across streams, never exceeding the connection window.

pub mod error;
pub mod flow_control;
pub mod frame;
pub mod model;
pub mod prioritize;
pub mod sink;
pub mod store;
pub mod window;
