//! Capture and replay engine for keyboard and mouse macros.

pub mod capture;
pub mod config;
pub mod event;
pub mod invariants;
pub mod keys;
pub mod macronizer;
pub mod replay;
pub mod settings;
pub mod stop;
pub mod text;
