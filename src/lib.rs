//! Newsletter publishing with an idempotent request cache, a transactional
//! outbox and a retrying delivery queue, together with a few small
//! self-contained utilities that live beside it.
pub mod api;
pub mod auth;
pub mod delivery;
pub mod domain;
pub mod errors;
pub mod idempotency;
pub mod puzzles;
pub mod search;
pub mod store;
pub mod todo;
