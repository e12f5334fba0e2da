//! Decision pipeline for an autoscaling control plane over a cloud fabric.
//!
//! The library verifies the computational core of the control plane: the
//! bounded telemetry store, the load-forecasting baseline with hot-swappable
//! models, the host-placement scorer, the SLA policy evaluator, and the
//! scheduling rules that fuse their outputs into prioritized actions.
//!
//! Quantities that the fabric reports as fractional percentages (utilization,
//! predicted load, confidence, scores) are carried as fixed-point integers
//! with three decimal places: a value of `65_000` stands for `65.000` percent,
//! and a score of `1_000` stands for `1.0`. Timestamps are Unix seconds.
//! I/O against the fabric's control API, the telemetry sink and the
//! presentation layer stays outside the library; callers hand in the plain
//! values those collaborators produced.

pub mod alerts;
pub mod clock;
pub mod config;
pub mod engine;
pub mod errors;
pub mod fabric;
pub mod forecast;
pub mod placement;
pub mod registry;
pub mod scheduler;
pub mod sla;
pub mod smoothing;
pub mod timeseries;
