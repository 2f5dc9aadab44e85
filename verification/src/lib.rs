//! Flight telemetry: what arrives from the craft is normalised, indexed,
//! filtered and written as InfluxDB line protocol; commands go the other way.

pub mod text;
pub mod json;
pub mod lists;
pub mod clock;
pub mod ilp;
pub mod questdb;
pub mod telemetry;
pub mod dataudp;
pub mod server;
pub mod http_server;
pub mod stats;
pub mod double;
pub mod fft;
pub mod anomaly;
pub mod metrics;
pub mod handlers;
