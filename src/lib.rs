//! Finds the lowest-latency hosts of a set of address ranges: address
//! ranges are expanded into single hosts, each host's echo probes are paced
//! by a small state machine, and the hosts are ranked by mean round trip.
pub mod address;
pub mod expand;
pub mod probe;
pub mod rank;
