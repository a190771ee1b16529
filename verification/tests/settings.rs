use digest_pipeline::config::{AppConfig, DatabaseConfig, DiscordConfig, LoadError, ServiceConfig};

fn load(port: u64, tokens: u64) -> Result<AppConfig, LoadError> {
    AppConfig::load_from_file(
        "sqlite://digest.db".to_string(),
        86400,
        "./logs".to_string(),
        port,
        "0.0.0.0".to_string(),
        tokens,
        vec!["123".to_string(), "456".to_string()],
    )
}

#[test]
fn configuration_holds_the_settings() {
    assert_eq!(
        load(8080, 4096),
        Ok(AppConfig {
            database: DatabaseConfig { url: "sqlite://digest.db".to_string() },
            service: ServiceConfig {
                produce_digest_interval_seconds: 86400,
                message_log_directory: "./logs".to_string(),
                port: 8080,
                host: "0.0.0.0".to_string(),
                max_gpt_request_tokens: 4096,
            },
            discord: DiscordConfig { channel_ids: vec!["123".to_string(), "456".to_string()] },
        })
    );
}

#[test]
fn port_must_fit() {
    assert_eq!(load(65536, 4096), Err(LoadError::PortOutOfRange));
    assert_eq!(load(u64::MAX, 4096), Err(LoadError::PortOutOfRange));
    assert_eq!(load(65535, 4096).unwrap().service.port, 65535);
    assert_eq!(load(0, 0).unwrap().service.port, 0);
}

#[test]
fn token_budget_must_fit() {
    if (usize::MAX as u128) < (u64::MAX as u128) {
        assert_eq!(load(80, u64::MAX), Err(LoadError::TokenBudgetOutOfRange));
    } else {
        assert_eq!(load(80, u64::MAX).unwrap().service.max_gpt_request_tokens, usize::MAX);
    }
    assert_eq!(load(80, 100).unwrap().service.max_gpt_request_tokens, 100);
}

#[test]
fn port_is_reported_before_the_token_budget() {
    assert_eq!(load(70000, u64::MAX), Err(LoadError::PortOutOfRange));
}
