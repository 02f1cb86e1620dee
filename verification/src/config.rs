//! Protocol constants and the static configuration record.

use vstd::prelude::*;

verus! {

/// Age, in seconds, at which a self-originated advertisement is refreshed.
pub const LS_REFRESH_TIME: u32 = 1800;

/// Minimum time, in seconds, between two originations of one advertisement.
pub const MIN_LS_INTERVAL: u32 = 5;

/// Minimum time, in seconds, between two acceptances of one advertisement.
pub const MIN_LS_ARRIVAL: u32 = 1;

/// Age, in seconds, at which an advertisement no longer takes part in routing.
pub const MAX_AGE: u32 = 3600;

/// Age difference, in seconds, beyond which two instances count as distinct.
pub const MAX_AGE_DIFF: u32 = 900;

/// Metric of an unreachable destination.
pub const LS_INFINITY: u32 = 0xFF_FFFF;

/// First sequence number of an advertisement.
pub const INIT_SEQ_NUM_LSA: i32 = -0x7FFF_FFFF;

/// Last sequence number of an advertisement.
pub const MAX_SEQ_NUM_LSA: i32 = 0x7FFF_FFFF;

/// Configuration of one router, fixed once the daemon has started.
#[derive(Debug, Copy, Clone)]
pub struct Config {
    pub hello_interval: u32,
    pub dead_interval: u32,
    pub inf_transit_delay: u32,
    pub rxmt_interval: u32,
    pub router_id: u32,
    pub area_id: u32,
    pub network_mask: u32,
    pub router_priority: u8,
    pub router_dead_interval: u32,
    pub default_mtu: u16,
    pub options: u8,
}

impl Config {
    /// The configuration a router starts with.
    pub open spec fn initial() -> Config {
        Config {
            hello_interval: 10,
            dead_interval: 40,
            inf_transit_delay: 1,
            rxmt_interval: 5,
            router_id: 3232240450,
            area_id: 0,
            network_mask: 0xFFFFF000,
            router_priority: 1,
            router_dead_interval: 40,
            default_mtu: 1500,
            options: 0x02,
        }
    }

    /// The configuration that a router starts with.
    pub fn new() -> (c: Config)
        ensures
            c == Config::initial(),
    {
        Config {
            hello_interval: 10,
            dead_interval: 40,
            inf_transit_delay: 1,
            rxmt_interval: 5,
            router_id: 3232240450,
            area_id: 0,
            network_mask: 0xFFFFF000,
            router_priority: 1,
            router_dead_interval: 40,
            default_mtu: 1500,
            options: 0x02,
        }
    }
}

} // verus!
