//! Retry, routing and node-selection logic of a local proxy for the Gemini API.

pub mod attempt;
pub mod clash;
pub mod config;
pub mod delay;
pub mod json;
pub mod proxy;
pub mod regions;
pub mod retry;
pub mod runner;
pub mod selection;
pub mod stats;
pub mod status;
pub mod stream;
pub mod switch;
pub mod table;
pub mod text;
