//! The stages of the pipeline, each as the decisions it takes between two
//! pieces of outside work.

pub mod digests;
pub mod discord_handler;
pub mod message_listener;
pub mod summarizer;
