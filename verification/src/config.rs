//! The settings that the pipeline runs with.

use vstd::prelude::*;

verus! {

/// The settings of the whole application.
#[derive(Debug, PartialEq, Eq)]
pub struct AppConfig {
    pub database: DatabaseConfig,
    pub service: ServiceConfig,
    pub discord: DiscordConfig,
}

/// Where the relational store is found.
#[derive(Debug, PartialEq, Eq)]
pub struct DatabaseConfig {
    pub url: String,
}

/// The settings of the pipeline's stages and of the read-only projection.
#[derive(Debug, PartialEq, Eq)]
pub struct ServiceConfig {
    /// The seconds between two recaps.
    pub produce_digest_interval_seconds: u64,
    /// The directory that holds the segment files.
    pub message_log_directory: String,
    pub port: u16,
    pub host: String,
    /// The token budget of a segment.
    pub max_gpt_request_tokens: usize,
}

/// The settings of the chat gateway.
#[derive(Debug, PartialEq, Eq)]
pub struct DiscordConfig {
    /// The channels whose messages enter the pipeline.
    pub channel_ids: Vec<String>,
}

/// Why no configuration could be made of the settings of a file.
#[derive(Debug, Clone, Copy, PartialEq, Eq)]
pub enum LoadError {
    /// `service.port` is larger than a port can be.
    PortOutOfRange,
    /// `service.max_gpt_request_tokens` is larger than a count can be on
    /// this machine.
    TokenBudgetOutOfRange,
}

impl AppConfig {
    /// Makes the configuration of the seven settings that were read from its
    /// file, each number as the unsigned 64-bit number that the file holds.
    /// It succeeds exactly when the port fits in 16 bits and the token budget
    /// in `usize`; the configuration then holds the settings as they were
    /// given. Of two numbers out of range the port is reported.
    pub fn load_from_file(
        database_url: String,
        produce_digest_interval_seconds: u64,
        message_log_directory: String,
        port: u64,
        host: String,
        max_gpt_request_tokens: u64,
        channel_ids: Vec<String>,
    ) -> (r: Result<AppConfig, LoadError>)
        ensures
            port > u16::MAX ==> r == Err::<AppConfig, LoadError>(LoadError::PortOutOfRange),
            port <= u16::MAX && max_gpt_request_tokens > usize::MAX ==> r == Err::<
                AppConfig,
                LoadError,
            >(LoadError::TokenBudgetOutOfRange),
            port <= u16::MAX && max_gpt_request_tokens <= usize::MAX ==> r == Ok::<
                AppConfig,
                LoadError,
            >(
                AppConfig {
                    database: DatabaseConfig { url: database_url },
                    service: ServiceConfig {
                        produce_digest_interval_seconds,
                        message_log_directory,
                        port: port as u16,
                        host,
                        max_gpt_request_tokens: max_gpt_request_tokens as usize,
                    },
                    discord: DiscordConfig { channel_ids },
                },
            ),
    {
        if port > 65535 {
            return Err(LoadError::PortOutOfRange);
        }
        if max_gpt_request_tokens > usize::MAX as u64 {
            return Err(LoadError::TokenBudgetOutOfRange);
        }
        Ok(
            AppConfig {
                database: DatabaseConfig { url: database_url },
                service: ServiceConfig {
                    produce_digest_interval_seconds,
                    message_log_directory,
                    port: port as u16,
                    host,
                    max_gpt_request_tokens: max_gpt_request_tokens as usize,
                },
                discord: DiscordConfig { channel_ids },
            },
        )
    }
}

} // verus!
