//! A bounded single-producer/single-consumer ring buffer with a batched
//! drain, and a multi-producer/single-consumer fan-in layered on top of it.
//!
//! The ring is a fixed array of `capacity` slots (a power of two, rounded up
//! from the requested size) with a write cursor advanced on `push` and a read
//! cursor advanced on `batch_recv`; one slot stays reserved so that an empty
//! ring and a full ring can be told apart, leaving `capacity - 1` usable
//! slots.  The fan-in owns one ring per publisher and drains them round-robin.

pub mod mpsc;
pub mod spsc_queue;
