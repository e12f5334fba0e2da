//! The configuration surface of the control plane: plain values only.
//! Loading them from disk is the surrounding process's concern.

use vstd::prelude::*;

verus! {

/// Credentials and endpoint of the fabric's control API.
#[derive(Clone, Debug)]
pub struct OpenStackConfig {
    pub auth_url: String,
    pub username: String,
    pub password: String,
    pub project_name: String,
    pub project_domain: String,
    pub user_domain: String,
    pub region_name: String,
}

/// Where the telemetry sink publishes each metric family.
#[derive(Clone, Debug)]
pub struct KafkaConfig {
    pub brokers: String,
    pub compute_topic: String,
    pub network_topic: String,
    pub storage_topic: String,
}

/// Discovery cadence and the per-type collection intervals.
#[derive(Clone, Debug)]
pub struct MetricsConfig {
    pub discovery_interval_seconds: u64,
    pub compute_interval_seconds: u64,
    pub network_interval_seconds: u64,
    pub storage_interval_seconds: u64,
    pub kafka_config: KafkaConfig,
}

/// Forecasting-engine settings; `retrain_threshold_milli` is a fraction in
/// thousandths.
#[derive(Clone, Debug)]
pub struct MLConfig {
    pub model_path: String,
    pub inference_interval_seconds: u64,
    pub retrain_threshold_milli: u64,
}

/// Scheduling cadence and the load thresholds of the decision rule, in
/// milli-percent.
#[derive(Clone, Debug)]
pub struct SchedulerConfig {
    pub scheduling_interval_seconds: u64,
    pub high_load_threshold_milli: u64,
    pub low_load_threshold_milli: u64,
    pub sla_check_interval_seconds: u64,
}

/// The whole configuration surface.
#[derive(Clone, Debug)]
pub struct Config {
    pub openstack: OpenStackConfig,
    pub metrics: MetricsConfig,
    pub ml: MLConfig,
    pub scheduler: SchedulerConfig,
}

} // verus!
