//! Reconciliation engine for the Uprooted mod: marker-based patching of the
//! host application's HTML entry points, and the pure parts of detection and
//! runtime-hook status.
pub mod detection;
pub mod hook;
pub mod injection;
pub mod laws;
pub mod markers;
pub mod orchestrator;
pub mod patcher;
pub mod settings;
pub mod text;
pub mod themes;
