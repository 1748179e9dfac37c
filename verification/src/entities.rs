//! The records of the local store.

pub mod tweets;
pub mod user;
