//! A minimal HTTP/1.1 core: request framing, response serialization,
//! a bounded FIFO connection queue, and a fixed worker-pool configuration.
//!
//! The library works on plain byte sequences; the surrounding program owns
//! the sockets and threads and hands complete byte buffers in and out.

pub mod bytes;
pub mod request;
pub mod response;
pub mod queue;
pub mod pool;
pub mod roundtrip;
