//! Typed shapes of what the fabric's control API reports: server listings
//! and the per-resource metric families. The transport that fills them is
//! the collaborator's concern; the library computes on the plain values.

use vstd::prelude::*;
use std::collections::HashMap;

verus! {

/// One compute instance as the fabric lists it.
#[derive(Debug)]
pub struct Server {
    pub id: String,
    pub name: String,
    pub status: String,
    pub flavor: FlavorRef,
    pub image: ImageRef,
    pub created: String,
    pub updated: String,
    pub addresses: HashMap<String, Vec<Address>>,
    pub metadata: HashMap<String, String>,
}

/// Reference to the flavor a server was built from.
#[derive(Debug)]
pub struct FlavorRef {
    pub id: String,
}

/// Reference to the image a server was built from.
#[derive(Debug)]
pub struct ImageRef {
    pub id: String,
}

/// One address assignment of a server.
#[derive(Debug)]
pub struct Address {
    pub addr: String,
    pub ip_type: String,
}

/// The fabric's answer to a server listing.
#[derive(Debug)]
pub struct ServersResponse {
    pub servers: Vec<Server>,
}

/// One compute instance's readings; `cpu_utilization` in milli-percent,
/// memory in MB, traffic in bytes, `timestamp` Unix seconds.
#[derive(Debug)]
pub struct ServerMetrics {
    pub server_id: String,
    pub cpu_utilization: u64,
    pub memory_usage: u64,
    pub memory_total: u64,
    pub disk_read_bytes: u64,
    pub disk_write_bytes: u64,
    pub network_rx_bytes: u64,
    pub network_tx_bytes: u64,
    pub timestamp: i64,
}

/// One network's readings; utilization, loss and latency in milli-units.
#[derive(Debug)]
pub struct NetworkMetrics {
    pub network_id: String,
    pub bandwidth_utilization: u64,
    pub packet_loss: u64,
    pub latency_ms: u64,
    pub timestamp: i64,
}

/// One volume's readings; throughput in milli-MBps, utilization in
/// milli-percent.
#[derive(Debug)]
pub struct StorageMetrics {
    pub volume_id: String,
    pub iops: u32,
    pub throughput_mbps: u64,
    pub utilization_percent: u64,
    pub timestamp: i64,
}

/// One named telemetry reading; `value` in milli-units of `unit`.
#[derive(Debug)]
pub struct TelemetryMetric {
    pub resource_id: String,
    pub metric_name: String,
    pub value: u64,
    pub unit: String,
    pub timestamp: i64,
}

impl ServerMetrics {
    /// Memory utilization as a milli-percent of the server's total memory,
    /// floor-rounded and capped at 100%; a server reporting no memory at
    /// all reads as fully utilized.
    pub fn memory_utilization_milli(&self) -> (utilization: u64)
        ensures
            self.memory_total == 0 ==> utilization == 100_000,
            self.memory_total > 0 ==> utilization == ({
                let raw = (self.memory_usage as int) * 100_000 / (self.memory_total as int);
                if raw > 100_000 {
                    100_000
                } else {
                    raw as u64
                }
            }),
            utilization <= 100_000,
    {
        if self.memory_total == 0 {
            return 100_000;
        }
        let raw: u128 = (self.memory_usage as u128) * 100_000 / (self.memory_total as u128);
        if raw > 100_000 {
            100_000
        } else {
            raw as u64
        }
    }
}

} // verus!
