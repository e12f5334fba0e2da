//! Error taxonomy of the control plane. Collaborator failures are transient
//! and retried on the next natural cycle; data-insufficiency and policy
//! errors are distinct typed failures.

use vstd::prelude::*;

verus! {

/// Failures of the fabric's control API.
#[derive(Clone, Debug)]
pub enum OpenStackError {
    AuthError(String),
    ApiError { status: u16, message: String },
    ServiceUnavailable(String),
    ConfigError(String),
}

/// Failures of telemetry collection and publishing.
#[derive(Clone, Debug)]
pub enum MetricsError {
    CollectionError(String),
    KafkaError(String),
    ProcessingError(String),
}

/// Failures of the forecasting engine, including data insufficiency.
#[derive(Clone, Debug)]
pub enum MLError {
    ModelLoadError(String),
    InferenceError(String),
    TrainingError(String),
}

/// Failures of the scheduling and placement pipeline.
#[derive(Clone, Debug)]
pub enum SchedulerError {
    DecisionError(String),
    PlacementError(String),
    SLAViolation(String),
}

} // verus!
