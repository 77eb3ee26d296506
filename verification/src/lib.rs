//! Verified core of a fast multi-host ICMP echo prober.

pub mod args;
pub mod constants;
pub mod dns;
pub mod hostfile;
pub mod output;
pub mod pinger;
pub mod socket;
pub mod text;
pub mod time;
pub mod tui;
pub mod types;
