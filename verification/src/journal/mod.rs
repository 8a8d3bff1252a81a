//! The journal: a replayable log of every effect a guest has on the world
//! outside it.

pub mod any;
pub mod boxed;
pub mod checkpoint;
pub mod codec;
pub mod compact;
pub mod compaction;
pub mod entry;
pub mod error;
pub mod fanout;
pub mod filter;
pub mod guest;
pub mod interleave;
pub mod log;
pub mod memory;
pub mod null;
pub mod record;
pub mod replay;
pub mod restore;
pub mod slots;
pub mod traits;
