//! A read-through archive of posts and their reply threads.
//!
//! The archive keeps a permanent local copy of every post and author it has
//! seen and asks the rate-limited remote source only for what is missing.
//! The library never performs input or output itself: every question to the
//! local store or to the remote source goes through a
//! [`gateway::Gateway`], which either replays answers that the caller has
//! already collected or answers from an in-memory [`world::World`].
//!
//! The operations are in [`archive`], [`read`], [`write`], [`api`] and
//! [`seed`]; [`session`] runs them step by step for a caller that does the
//! input and output. What the operations keep true of a world is stated and
//! proved in [`invariants`], [`laws`], [`tally`] and [`history`], and
//! [`agreement`] proves that an operation run step by step on the answers of
//! a world does what it does on the world itself.

pub mod agreement;
pub mod api;
pub mod archive;
pub mod clock;
pub mod entities;
pub mod error;
pub mod gateway;
pub mod history;
pub mod invariants;
pub mod laws;
pub mod protocol;
pub mod read;
pub mod records;
pub mod seed;
pub mod session;
pub mod tables;
pub mod tally;
pub mod text;
pub mod utils;
pub mod wire;
pub mod world;
pub mod write;
