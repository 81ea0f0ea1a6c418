//! State of the dashboard and how it changes.
pub mod input;
pub mod key_laws;
pub mod keys;
pub mod laws;
pub mod metrics;
pub mod model;
pub mod refresh;
pub mod refresh_laws;
pub mod segments;
pub mod state;
pub mod tab;
pub mod view;
