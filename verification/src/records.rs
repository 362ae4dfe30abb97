//! The records that a node receives from the feed, from the captive portal,
//! and through consensus.
//!
//! A coordinate is carried as the IEEE-754 bit pattern of its `f64` value:
//! nothing here computes with coordinates, it only keeps them with their
//! record, so the bits stand for the number exactly.

use vstd::prelude::*;

verus! {

/// Types whose values can be duplicated into an equal value.
pub trait Duplicate: Sized {
    fn duplicate(&self) -> (copy: Self)
        ensures
            copy == *self,
    ;
}

/// One GPS fix of a drone, as the feed serves it.
#[derive(Debug)]
pub struct LogRecord {
    pub id: String,
    /// Bit pattern of the latitude (`f64::to_bits`).
    pub latitude_bits: u64,
    /// Bit pattern of the longitude (`f64::to_bits`).
    pub longitude_bits: u64,
    pub public_key_hex: String,
}

impl Duplicate for LogRecord {
    fn duplicate(&self) -> (copy: Self) {
        LogRecord {
            id: self.id.clone(),
            latitude_bits: self.latitude_bits,
            longitude_bits: self.longitude_bits,
            public_key_hex: self.public_key_hex.clone(),
        }
    }
}

/// A survivor's position, reported through the captive portal.
#[derive(Debug)]
pub struct SurvivorPing {
    pub device_id: String,
    /// Bit pattern of the latitude (`f64::to_bits`).
    pub lat_bits: u64,
    /// Bit pattern of the longitude (`f64::to_bits`).
    pub lon_bits: u64,
}

impl Duplicate for SurvivorPing {
    fn duplicate(&self) -> (copy: Self) {
        SurvivorPing { device_id: self.device_id.clone(), lat_bits: self.lat_bits, lon_bits: self.lon_bits }
    }
}

/// What a node submits to consensus and receives back once it is final.
#[derive(Debug)]
pub enum SwarmMessage {
    DroneTelemetry(LogRecord),
    SurvivorLocated(SurvivorPing),
}

/// The most recent fix of one drone, as the analyst reports it.
#[derive(Debug)]
pub struct DroneFix {
    pub public_key_hex: String,
    /// Consensus timestamp of the fix.
    pub ts: u64,
    pub latitude_bits: u64,
    pub longitude_bits: u64,
}

impl DroneFix {
    /// The fix that a confirmed record gives.
    pub open spec fn of(ts: u64, rec: LogRecord) -> DroneFix {
        DroneFix {
            public_key_hex: rec.public_key_hex,
            ts,
            latitude_bits: rec.latitude_bits,
            longitude_bits: rec.longitude_bits,
        }
    }
}

} // verus!
