//! Decision logic of a config-driven scheduler for remote agents: configuration,
//! trigger evaluation, input construction, storage diffing, alert throttling and
//! webhook admission.

pub mod api;
pub mod config;
pub mod envexpand;
pub mod executor;
pub mod interval;
pub mod json;
pub mod scheduler;
pub mod storage;
pub mod telegram;
pub mod text;
pub mod webhook;
