//! Peer monitoring service configuration: defaults and the checks applied to it.
use vstd::prelude::*;

verus! {

/// Identifier of a chain.
#[derive(Clone, Copy, Debug, PartialEq, Eq, Structural)]
pub struct ChainId {
    pub id: u8,
}

/// Identifier of the main network.
pub const MAINNET_CHAIN_ID: u8 = 1;

/// Identifier of the public test network.
pub const TESTNET_CHAIN_ID: u8 = 2;

impl ChainId {
    pub fn new(id: u8) -> (r: ChainId)
        ensures
            r.id == id,
    {
        ChainId { id }
    }

    pub fn mainnet() -> (r: ChainId)
        ensures
            r.id == MAINNET_CHAIN_ID,
    {
        ChainId { id: MAINNET_CHAIN_ID }
    }

    pub fn testnet() -> (r: ChainId)
        ensures
            r.id == TESTNET_CHAIN_ID,
    {
        ChainId { id: TESTNET_CHAIN_ID }
    }

    pub fn id(&self) -> (r: u8)
        ensures
            r == self.id,
    {
        self.id
    }

    pub fn is_mainnet(&self) -> (r: bool)
        ensures
            r == (self.id == MAINNET_CHAIN_ID),
    {
        self.id == MAINNET_CHAIN_ID
    }
}

/// Why a configuration was refused: the name of the check and a message.
#[derive(Debug, PartialEq, Eq)]
pub enum ConfigError {
    ConfigSanitizerFailed(String, String),
}

/// Name under which the peer monitoring checks report.
pub const SANITIZER_NAME: &'static str = "PeerMonitoringServiceConfigSanitizer";

/// Message when the monitoring client is enabled on mainnet.
pub const CLIENT_ON_MAINNET: &'static str = "The peer monitoring service is not enabled in mainnet!";

/// Message when performance monitoring is enabled on mainnet.
pub const PERFORMANCE_ON_MAINNET: &'static str = "Performance monitoring should not be enabled in mainnet!";

#[derive(Clone, Copy, Debug, PartialEq, Eq, Structural)]
pub struct LatencyMonitoringConfig {
    /// The interval (ms) between latency pings for each peer
    pub latency_ping_interval_ms: u64,
    /// The timeout (ms) for each latency ping
    pub latency_ping_timeout_ms: u64,
    /// Max ping failures before the peer connection fails
    pub max_latency_ping_failures: u64,
    /// The max latency pings to retain per peer
    pub max_num_latency_pings_to_retain: usize,
}

impl Default for LatencyMonitoringConfig {
    fn default() -> (r: Self)
        ensures
            r.latency_ping_interval_ms == 30_000,
            r.latency_ping_timeout_ms == 20_000,
            r.max_latency_ping_failures == 3,
            r.max_num_latency_pings_to_retain == 10,
    {
        Self {
            latency_ping_interval_ms: 30_000,
            latency_ping_timeout_ms: 20_000,
            max_latency_ping_failures: 3,
            max_num_latency_pings_to_retain: 10,
        }
    }
}

#[derive(Clone, Copy, Debug, PartialEq, Eq, Structural)]
pub struct NetworkMonitoringConfig {
    /// The interval (ms) between network info requests
    pub network_info_request_interval_ms: u64,
    /// The timeout (ms) for each network info request
    pub network_info_request_timeout_ms: u64,
}

impl Default for NetworkMonitoringConfig {
    fn default() -> (r: Self)
        ensures
            r.network_info_request_interval_ms == 60_000,
            r.network_info_request_timeout_ms == 10_000,
    {
        Self { network_info_request_interval_ms: 60_000, network_info_request_timeout_ms: 10_000 }
    }
}

#[derive(Clone, Copy, Debug, PartialEq, Eq, Structural)]
pub struct NodeMonitoringConfig {
    /// The interval (ms) between node info requests
    pub node_info_request_interval_ms: u64,
    /// The timeout (ms) for each node info request
    pub node_info_request_timeout_ms: u64,
}

impl Default for NodeMonitoringConfig {
    fn default() -> (r: Self)
        ensures
            r.node_info_request_interval_ms == 20_000,
            r.node_info_request_timeout_ms == 10_000,
    {
        Self { node_info_request_interval_ms: 20_000, node_info_request_timeout_ms: 10_000 }
    }
}

/// Performance monitoring settings. Enabling them here is not enough to run the
/// tests: the build must also enable network performance testing.
#[derive(Clone, Copy, Debug, PartialEq, Eq, Structural)]
pub struct PerformanceMonitoringConfig {
    /// Whether or not to enable direct send test mode
    pub enable_direct_send_testing: bool,
    /// The amount of data to send in each request
    pub direct_send_data_size: u64,
    /// The interval (microseconds) between requests
    pub direct_send_interval_usec: u64,
    /// Whether or not to enable RPC test mode
    pub enable_rpc_testing: bool,
    /// The amount of data to send in each RPC request
    pub rpc_data_size: u64,
    /// The interval (microseconds) between RPC requests
    pub rpc_interval_usec: u64,
    /// The timeout (ms) for each RPC request
    pub rpc_timeout_ms: u64,
}

impl Default for PerformanceMonitoringConfig {
    fn default() -> (r: Self)
        ensures
            !r.enable_direct_send_testing,
            r.direct_send_data_size == 512 * 1024,
            r.direct_send_interval_usec == 1000,
            !r.enable_rpc_testing,
            r.rpc_data_size == 512 * 1024,
            r.rpc_interval_usec == 1000,
            r.rpc_timeout_ms == 10_000,
    {
        Self {
            enable_direct_send_testing: false,
            direct_send_data_size: 512 * 1024,
            direct_send_interval_usec: 1000,
            enable_rpc_testing: false,
            rpc_data_size: 512 * 1024,
            rpc_interval_usec: 1000,
            rpc_timeout_ms: 10_000,
        }
    }
}

#[derive(Clone, Copy, Debug, PartialEq, Eq, Structural)]
pub struct PeerMonitoringServiceConfig {
    /// Whether or not to spawn the monitoring client
    pub enable_peer_monitoring_client: bool,
    pub latency_monitoring: LatencyMonitoringConfig,
    /// Max num of concurrent server tasks
    pub max_concurrent_requests: u64,
    /// Max num of pending network messages
    pub max_network_channel_size: u64,
    /// Max num of bytes in a (serialized) response
    pub max_num_response_bytes: u64,
    /// Max amount of jitter (ms) that a request will be delayed for
    pub max_request_jitter_ms: u64,
    /// The interval (ms) between metadata updates
    pub metadata_update_interval_ms: u64,
    pub network_monitoring: NetworkMonitoringConfig,
    pub node_monitoring: NodeMonitoringConfig,
    /// The interval (ms) between peer monitor executions
    pub peer_monitor_interval_ms: u64,
    pub performance_monitoring: PerformanceMonitoringConfig,
}

impl Default for PeerMonitoringServiceConfig {
    fn default() -> (r: Self)
        ensures
            !r.enable_peer_monitoring_client,
            r.max_concurrent_requests == 1000,
            r.max_network_channel_size == 1000,
            r.max_num_response_bytes == 100 * 1024,
            r.max_request_jitter_ms == 1000,
            r.metadata_update_interval_ms == 5000,
            r.peer_monitor_interval_ms == 1000,
            r.latency_monitoring.latency_ping_interval_ms == 30_000,
            r.latency_monitoring.latency_ping_timeout_ms == 20_000,
            r.latency_monitoring.max_latency_ping_failures == 3,
            r.latency_monitoring.max_num_latency_pings_to_retain == 10,
            r.network_monitoring.network_info_request_interval_ms == 60_000,
            r.network_monitoring.network_info_request_timeout_ms == 10_000,
            r.node_monitoring.node_info_request_interval_ms == 20_000,
            r.node_monitoring.node_info_request_timeout_ms == 10_000,
            !r.performance_monitoring.enable_direct_send_testing,
            r.performance_monitoring.direct_send_data_size == 512 * 1024,
            r.performance_monitoring.direct_send_interval_usec == 1000,
            !r.performance_monitoring.enable_rpc_testing,
            r.performance_monitoring.rpc_data_size == 512 * 1024,
            r.performance_monitoring.rpc_interval_usec == 1000,
            r.performance_monitoring.rpc_timeout_ms == 10_000,
    {
        Self {
            enable_peer_monitoring_client: false,
            latency_monitoring: LatencyMonitoringConfig::default(),
            max_concurrent_requests: 1000,
            max_network_channel_size: 1000,
            max_num_response_bytes: 100 * 1024,  // 100 KB
            max_request_jitter_ms: 1000,  // Monitoring requests are very infrequent
            metadata_update_interval_ms: 5000,
            network_monitoring: NetworkMonitoringConfig::default(),
            node_monitoring: NodeMonitoringConfig::default(),
            peer_monitor_interval_ms: 1000,
            performance_monitoring: PerformanceMonitoringConfig::default(),
        }
    }
}

impl PeerMonitoringServiceConfig {
    /// Performance testing would run under this configuration.
    pub open spec fn performance_testing_on(self, network_perf_test_enabled: bool) -> bool {
        network_perf_test_enabled || self.performance_monitoring.enable_direct_send_testing
            || self.performance_monitoring.enable_rpc_testing
    }

    /// Refuses, on mainnet, a configuration that enables the monitoring client,
    /// or else one under which performance testing would run.
    /// `network_perf_test_enabled` tells whether the build enables network
    /// performance testing.
    pub fn sanitize(&self, chain_id: ChainId, network_perf_test_enabled: bool) -> (r: Result<(), ConfigError>)
        ensures
            r.is_err() <==> chain_id.id == MAINNET_CHAIN_ID && (self.enable_peer_monitoring_client
                || self.performance_testing_on(network_perf_test_enabled)),
            r matches Err(ConfigError::ConfigSanitizerFailed(name, message)) ==> name@ == SANITIZER_NAME@
                && message@ == (if self.enable_peer_monitoring_client {
                CLIENT_ON_MAINNET@
            } else {
                PERFORMANCE_ON_MAINNET@
            }),
    {
        if chain_id.is_mainnet() && self.enable_peer_monitoring_client {
            return Err(
                ConfigError::ConfigSanitizerFailed(SANITIZER_NAME.to_owned(), CLIENT_ON_MAINNET.to_owned()),
            );
        }
        let performance = &self.performance_monitoring;
        if chain_id.is_mainnet() && (network_perf_test_enabled || performance.enable_direct_send_testing
            || performance.enable_rpc_testing) {
            return Err(
                ConfigError::ConfigSanitizerFailed(
                    SANITIZER_NAME.to_owned(),
                    PERFORMANCE_ON_MAINNET.to_owned(),
                ),
            );
        }
        Ok(())
    }

    /// Enables RPC testing when the build enables network performance testing
    /// and the local configuration leaves `enable_rpc_testing` unset. Returns
    /// whether the configuration was changed.
    pub fn optimize(&mut self, local_rpc_testing_unset: bool, network_perf_test_enabled: bool) -> (modified: bool)
        ensures
            modified == (local_rpc_testing_unset && network_perf_test_enabled),
            final(self).performance_monitoring.enable_rpc_testing == (modified
                || old(self).performance_monitoring.enable_rpc_testing),
            *final(self) == (PeerMonitoringServiceConfig {
                performance_monitoring: PerformanceMonitoringConfig {
                    enable_rpc_testing: final(self).performance_monitoring.enable_rpc_testing,
                    ..old(self).performance_monitoring
                },
                ..*old(self)
            }),
    {
        let mut modified_config = false;
        if local_rpc_testing_unset && network_perf_test_enabled {
            self.performance_monitoring.enable_rpc_testing = true;
            modified_config = true;
        }
        modified_config
    }
}

} // verus!
