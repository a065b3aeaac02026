//! Verified core of a small telemetry gateway: decoding of sensor readings
//! from request parameters, listener configuration and the shutdown lifecycle.

pub mod config;
pub mod decimal;
pub mod endpoint;
pub mod lifecycle;
pub mod query;
pub mod reading;
pub mod text;
