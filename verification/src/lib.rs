//! Sans-I/O core of a trade watcher: it decides what to fetch, matches
//! completed offers with their history records, resolves item names through a
//! cache, and composes the notification text. The caller performs every
//! network call and hands the answers back.

pub mod cache;
pub mod composer;
pub mod matcher;
pub mod models;
pub mod plan;
pub mod poller;
pub mod report;
pub mod resolver;
pub mod steam;
pub mod telegram;
pub mod text;
