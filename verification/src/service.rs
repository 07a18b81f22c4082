//! Service configuration and lifecycle markers.

use vstd::prelude::*;

verus! {

/// Marks a running service handle.
#[derive(Debug)]
pub struct Started {}

/// Marks a stopped service handle.
#[derive(Debug)]
pub struct Stopped {}

/// What the service needs to start.
#[derive(Debug)]
pub struct ServiceConfig {
    pub mqtt_broker_address: String,
}

} // verus!
