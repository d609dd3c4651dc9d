//! Reconciles one declared infrastructure stack against a remote
//! orchestration service: merge a desired configuration with an optional
//! environment overlay, look the stack up by name, then decide whether to
//! create or update it.

pub mod config;
pub mod envmap;
pub mod locator;
pub mod overlay;
pub mod reconcile;
pub mod text;
