//! Verified core of UMAI: the source-address blocklist that an XDP program enforces and
//! the threat-intel feed that fills it.
//!
//! `monitor` decides on frames, `feed` and `poll` decide what goes into the blocklist map,
//! and `blocklist` states what the two promise together.

pub mod addr;
pub mod blocklist;
pub mod entry;
pub mod feed;
pub mod frame;
pub mod monitor;
pub mod poll;
