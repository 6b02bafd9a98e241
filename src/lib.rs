//! Small verified building blocks.
//!
//! The centre piece is [`channel`], the shared state of a bounded
//! multi-producer/multi-consumer channel with cooperative shutdown, together
//! with the laws it obeys. The other synchronisation primitives are written
//! the same way: each is the state a lock protects, with decision steps that
//! tell the calling thread whether to go on or to wait on a condition
//! variable. Beside them stand plain data structures and text utilities.

// Synchronisation state machines.
pub mod cache;
pub mod channel;
pub mod cyclic_barrier;
pub mod delayed_queue;
pub mod exchanger;
pub mod execution_limiter;
pub mod joiner;
pub mod latch;
pub mod ranking_barrier;
pub mod semaphore;
pub mod synchronizer;

// Data structures.
pub mod circular_buffer;
pub mod cons_list;
pub mod dlist;
pub mod named_node;
pub mod node_list;

// Text and puzzles.
pub mod board;
pub mod calc;
pub mod dna;
pub mod slug;
pub mod text;
