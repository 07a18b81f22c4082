//! MQTT-driven DMX lighting controller core.
//!
//! The library holds the verified logic of the controller: the declarative
//! array model (light-group expansion, channel-usage validation, variable
//! expansion, effect compilation), the Art-Net universe state with packet
//! assembly, and the tick-driven effect runtime (sequence, parallel, delay
//! and fade nodes with Bresenham-style interpolation).

use vstd::prelude::*;

pub mod array_manager;
pub mod artnet_manager;
pub mod defs;
pub mod ingress;
pub mod messages;
pub mod service;
pub mod dmx;
pub mod strmap;
pub mod strutil;

verus! {

/// The crate's version banner.
pub fn get_version() -> (r: String)
    ensures
        r@ == "mqtt_dmx 0.1.0"@,
{
    let mut r = String::new();
    r.append("mqtt_dmx 0.1.0");
    r
}

} // verus!
