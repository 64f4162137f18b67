//! Decision core of a daemon that mirrors per-project rules directories into
//! two derived directories by symbolic links, and of the lock that keeps the
//! daemon single.
//!
//! Nothing here touches a file, a process or a clock. Every function takes
//! what was found and returns what is to be done: the requests to the
//! filesystem in [`action`], the steps of the daemon in [`daemon`], the steps
//! of taking the lock and of stopping the daemon in [`single_instance`].
//! Whoever runs the daemon carries the requests out and comes back with what
//! happened.
//!
//! What the requests achieve is proved over a model of the links that exist:
//! [`mirror_model`] for a full resync, for one notification at a time and for
//! the removal of a project, [`late_events`] for notifications that are
//! handled after further changes.

pub mod action;
pub mod config;
pub mod constants;
pub mod daemon;
pub mod error;
pub mod event;
pub mod index;
pub mod late_events;
pub mod mirror;
pub mod mirror_model;
pub mod path;
pub mod project;
pub mod single_instance;
pub mod text;
pub mod watchers;
