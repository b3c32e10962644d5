//! The values exchanged with the audio server.
//!
//! A level in decibels has the type parameter `L`: the levels are
//! floating-point numbers of the embedding program, and nothing here computes
//! with them.

use vstd::prelude::*;

verus! {

/// A capture device as it is announced to the server.
#[derive(Debug, Clone, Hash)]
pub struct CaptureDeviceInfo {
    pub id: String,
    pub name: String,
    pub channels: u16,
    pub sample_rates: Vec<u32>,
}

/// What a bridge says of itself when it registers.
#[derive(Debug)]
pub struct BridgeRegisterRequest {
    pub bridge_id: String,
    pub hostname: String,
    pub version: String,
    pub ip: String,
    pub mac: String,
    pub capture_devices: Vec<CaptureDeviceInfo>,
}

/// One status report to the server.
#[derive(Debug)]
pub struct BridgeStatusRequest<L> {
    pub state: String,
    pub device: Option<String>,
    pub rate: Option<u32>,
    pub channels: Option<u16>,
    pub format: Option<String>,
    pub observed_rate: Option<u32>,
    pub rms_db: Option<L>,
    pub last_error: Option<String>,
    pub track_change: Option<bool>,
    pub capture_devices: Option<Vec<CaptureDeviceInfo>>,
}

/// A command of the server for the source, with its arguments.
#[derive(Debug, Clone)]
pub struct SourceCommand {
    pub command: String,
    pub args: Vec<String>,
}

/// The server's answer to a registration or a status report.
#[derive(Debug, Clone)]
pub struct BridgeConfigResponse<L> {
    pub assigned_input_id: Option<String>,
    /// Whether the server currently wants this source on. Absent on servers
    /// that do not know the field, which reads as "not selected".
    pub source_active: Option<bool>,
    /// Transport commands queued since the last poll, oldest first. The server
    /// owns this vocabulary; each one is passed on untouched.
    pub commands: Option<Vec<SourceCommand>>,
    pub ingest_ws_url: Option<String>,
    pub ingest_tcp_host: Option<String>,
    pub ingest_tcp_port: Option<u16>,
    pub capture_device: Option<String>,
    pub vad_threshold_db: Option<L>,
    pub vad_hold_ms: Option<u64>,
    pub ingest_sample_rate: Option<u32>,
    pub ingest_resampler: Option<String>,
}

} // verus!
