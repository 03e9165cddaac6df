//! Runtime bridge between a host runtime and a native library reached through a
//! C-compatible boundary: owned byte buffers, the value wire format, the
//! call-status error channel, the handle table for host-owned objects, and the
//! poll/complete/release protocol of asynchronous native operations.
pub mod error;
pub mod wire;
pub mod buffer;
pub mod codec;
pub mod call_status;
pub mod handle_map;
pub mod async_call;
