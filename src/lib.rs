//! The real-time core of a group chat: membership, message storage and
//! pagination, per-group fan-out, presence tracking and the merge of history
//! with the live stream.
pub mod broker;
pub mod directory;
pub mod domain;
pub mod groups;
pub mod history;
pub mod join_code;
pub mod migration;
pub mod outside;
pub mod presence;
pub mod service;
pub mod store;
