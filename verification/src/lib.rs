//! A module-dependency loader for script-like payloads.
//!
//! A [`loader::Context`] owns a registry of declared modules and a
//! single-flight [`coordinator::Coordinator`].  Loading a module walks its
//! declared references, loads every referenced module first, composes the
//! module's final content from dependency import/export statements and its
//! own static content, and hands the composed text out for injection into the
//! host runtime.  Concurrent requests for the same identifier collapse into a
//! single execution whose outcome every requester observes.

pub mod compose;
pub mod coordinator;
pub mod engine;
pub mod error;
pub mod loader;
