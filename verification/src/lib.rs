//! Token-budgeted batching of chat messages, their summaries and digests.

pub mod config;
pub mod db;
pub mod error;
pub mod gpt;
pub mod segment;
pub mod services;
pub mod text;
pub mod transaction;
