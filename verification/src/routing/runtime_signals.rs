//! Identifiers for runtime workers and their prefix-cache residency.
use vstd::prelude::*;

verus! {

/// The runtime worker behind a configured provider or pool member.
#[derive(Debug, Clone)]
pub struct RuntimeWorkerId {
    pub provider_name: String,
    pub runtime_id: String,
}

impl RuntimeWorkerId {
    pub fn new(provider_name: String, runtime_id: String) -> (r: Self)
        ensures
            r.provider_name@ == provider_name@,
            r.runtime_id@ == runtime_id@,
    {
        RuntimeWorkerId { provider_name, runtime_id }
    }
}

/// How many cache blocks of a prefix a worker holds.
#[derive(Debug, Clone)]
pub struct PrefixResidency {
    pub fingerprint: String,
    pub resident_blocks: u64,
    pub total_blocks: u64,
}

impl PrefixResidency {
    pub fn new(fingerprint: String, resident_blocks: u64, total_blocks: u64) -> (r: Self)
        ensures
            r.fingerprint@ == fingerprint@,
            r.resident_blocks == resident_blocks,
            r.total_blocks == total_blocks,
    {
        PrefixResidency { fingerprint, resident_blocks, total_blocks }
    }
}

} // verus!
