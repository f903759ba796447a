//! Host inventory agent core: collectors for kernel-exposed host state
//! (network interfaces, established TCP connections, the process table)
//! and a resilient outbound transport with a bounded message queue.
//!
//! Everything here is pure logic over plain values.  Reading the kernel
//! tables, talking to the message broker, sleeping between retries and all
//! other I/O is the caller's job; the caller hands the raw text and the
//! session outcomes in, and this crate decides what they mean.

pub mod connections;
pub mod processes;
pub mod sysinfo;
pub mod text;
pub mod transport;
