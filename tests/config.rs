use aptos_protos::api::ApiTags;
use aptos_protos::config::{
    ChainId, ConfigError, PeerMonitoringServiceConfig, PerformanceMonitoringConfig,
};

#[test]
fn test_sanitize_enabled_monitoring_config() {
    // Create a monitoring config with an enabled monitoring client
    let config = PeerMonitoringServiceConfig {
        enable_peer_monitoring_client: true,
        ..Default::default()
    };

    // Verify the config passes sanitization for testnet
    config.sanitize(ChainId::testnet(), false).unwrap();

    // Verify the config fails sanitization for mainnet
    let error = config.sanitize(ChainId::mainnet(), false).unwrap_err();
    assert!(matches!(error, ConfigError::ConfigSanitizerFailed(_, _)));
}

#[test]
fn default_config_values() {
    let config = PeerMonitoringServiceConfig::default();
    assert!(!config.enable_peer_monitoring_client);
    assert_eq!(config.max_concurrent_requests, 1000);
    assert_eq!(config.max_num_response_bytes, 102_400);
    assert_eq!(config.metadata_update_interval_ms, 5000);
    assert_eq!(config.latency_monitoring.latency_ping_interval_ms, 30_000);
    assert_eq!(config.latency_monitoring.max_num_latency_pings_to_retain, 10);
    assert_eq!(config.network_monitoring.network_info_request_interval_ms, 60_000);
    assert_eq!(config.node_monitoring.node_info_request_interval_ms, 20_000);
    assert_eq!(config.performance_monitoring.direct_send_data_size, 524_288);
    assert_eq!(config.performance_monitoring.rpc_timeout_ms, 10_000);
    assert!(!config.performance_monitoring.enable_rpc_testing);
}

#[test]
fn sanitize_default_config_on_mainnet() {
    let config = PeerMonitoringServiceConfig::default();
    assert_eq!(config.sanitize(ChainId::mainnet(), false), Ok(()));
}

#[test]
fn sanitize_refuses_performance_testing_on_mainnet() {
    let config = PeerMonitoringServiceConfig {
        performance_monitoring: PerformanceMonitoringConfig {
            enable_direct_send_testing: true,
            ..Default::default()
        },
        ..Default::default()
    };
    assert_eq!(
        config.sanitize(ChainId::mainnet(), false),
        Err(ConfigError::ConfigSanitizerFailed(
            "PeerMonitoringServiceConfigSanitizer".to_string(),
            "Performance monitoring should not be enabled in mainnet!".to_string(),
        ))
    );
    assert!(config.sanitize(ChainId::testnet(), false).is_ok());
    let plain = PeerMonitoringServiceConfig::default();
    assert!(plain.sanitize(ChainId::mainnet(), true).is_err());
    assert!(plain.sanitize(ChainId::new(3), true).is_ok());
}

#[test]
fn sanitize_client_message_on_mainnet() {
    let config = PeerMonitoringServiceConfig {
        enable_peer_monitoring_client: true,
        ..Default::default()
    };
    assert_eq!(
        config.sanitize(ChainId::mainnet(), true),
        Err(ConfigError::ConfigSanitizerFailed(
            "PeerMonitoringServiceConfigSanitizer".to_string(),
            "The peer monitoring service is not enabled in mainnet!".to_string(),
        ))
    );
}

#[test]
fn optimize_enables_rpc_testing() {
    let mut config = PeerMonitoringServiceConfig::default();
    assert!(!config.optimize(false, true));
    assert!(!config.optimize(true, false));
    assert_eq!(config, PeerMonitoringServiceConfig::default());
    assert!(config.optimize(true, true));
    assert!(config.performance_monitoring.enable_rpc_testing);
    assert_eq!(config.performance_monitoring.rpc_data_size, 524_288);
}

#[test]
fn chain_ids() {
    assert!(ChainId::mainnet().is_mainnet());
    assert!(!ChainId::testnet().is_mainnet());
    assert_eq!(ChainId::new(7).id(), 7);
}

#[test]
fn api_tags_are_distinct() {
    assert_ne!(ApiTags::Accounts, ApiTags::View);
    assert_eq!(ApiTags::Blocks, ApiTags::Blocks);
}
