//! Event orchestration core: payloads and their merge rules, the event
//! catalog, trigger matching, time results, the timer scheduler and the
//! dispatcher's decisions.
pub mod catalog;
pub mod config;
pub mod data;
pub mod dispatch;
pub mod events;
pub mod json;
pub mod numbers;
pub mod scheduler;
pub mod sources;
pub mod text;
pub mod time;
