//! Event-sourced persistence and pub/sub core: the event envelope and its
//! JSON codec, aggregates folded over recorded events with cached snapshots,
//! the save path, subscription with replay, and the merge of several logs.

pub mod json;
pub mod ident;
pub mod timestamp;
pub mod error;
pub mod event;
pub mod codec;
pub mod config;
pub mod aggregate;
pub mod testhelpers;
pub mod log;
pub mod bus;
pub mod cache;
pub mod store;
pub mod subscribe;
pub mod unify;
