//! Journaling for a sandboxed WebAssembly runtime.
//!
//! A guest that runs in the sandbox has effects on the world outside it:
//! it opens files, writes to sockets, spawns threads, changes its linear
//! memory. The journal records each effect as an entry, in order, so that
//! the guest can be put together again later, or elsewhere, by applying
//! the entries to a guest that is new.
//!
//! - [`journal`] holds the entry model, the wire format, the backends, the
//!   wrappers, the guest that entries are applied to, and the replay
//!   driver, together with the laws that hold of them.
//! - [`runtime`] compiles a module and links it with what the host
//!   provides.
//! - [`target`] says which CPU features a compiler may rely on.
//! - [`wasi_types`], [`wasi_version`], [`wasi_state`] and [`capture`] hold
//!   the WASI vocabulary and the state a WASI guest starts from.

pub mod capture;
pub mod journal;
pub mod runtime;
pub mod target;
pub mod wasi_state;
pub mod wasi_types;
pub mod wasi_version;
