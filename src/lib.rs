//! Deterministic reference model of a simplified storage-command queue.
//!
//! The library holds the device model, the completion scheduler, the event
//! log and the run engine that drives them; each is verified against a
//! mathematical model of its behaviour.

pub mod prng;
pub mod text;
pub mod seed;
pub mod model;
pub mod scheduler;
pub mod logging;
pub mod runner;
pub mod config;
pub mod laws;
