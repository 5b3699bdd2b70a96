//! Allocator instrumentation: decorators that observe a program's heap
//! allocations and deallocations while leaving the real memory work to the
//! allocator they wrap.
//!
//! The pieces, leaf first:
//! - [`guard`]: a per-thread reentrancy flag, so that instrumentation code
//!   that itself allocates cannot recurse into its own hook.
//! - [`counting`]: a lock-free decorator that keeps a lifetime total and a
//!   currently-active count of allocations.
//! - [`tracker`]: an append-only event log of allocations and deallocations,
//!   and the replay that turns it into leak and unknown-free reports.
//! - [`tracing`]: a decorator that records every observed operation through a
//!   pluggable [`tracker::Tracker`] under the reentrancy guard.
//! - [`text`] and [`frames`]: verified report rendering, and the captured
//!   call-stack snapshots attached to allocation records.
//! - [`tls`] and [`web`]: error types and the one pure decision of the TLS
//!   demo that accompanies the allocators.
//!
//! The process-global wiring (registering a decorator as the default
//! allocator, thread locals, locks) is ordinary unverified Rust around this
//! library; the decorators here hold the state and the logic of one such
//! instance.

pub mod counting;
pub mod frames;
pub mod guard;
pub mod text;
pub mod tls;
pub mod tracker;
pub mod tracing;
pub mod web;
