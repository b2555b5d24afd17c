//! A verified memo repository: short text notes with soft-delete visibility,
//! most-recent-first listing, and literal substring search.
//!
//! The store is logically append-only: a memo is never physically removed,
//! only marked with a one-way tombstone that hides it from every read
//! operation. The repository hands out plain values (integer ids, strings,
//! integer timestamps supplied by the caller), so a thin I/O layer around it
//! can persist or serve them however it likes.

pub mod laws;
pub mod memo;
pub mod repo;
pub mod text;
