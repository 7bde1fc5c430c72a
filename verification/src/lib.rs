//! Reconciles a local music collection against a remote catalog: resolves
//! each local record to a remote track identifier, keeps a durable mapping,
//! and computes the playlist changes that bring the remote collection in
//! line with that mapping.

pub mod auth;
pub mod diff;
pub mod engine;
pub mod matching;
pub mod metadata;
pub mod playlist;
pub mod progress;
pub mod reconcile;
pub mod record;
pub mod search;
pub mod store;
pub mod text;
