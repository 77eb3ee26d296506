use vstd::prelude::*;

verus! {

/// ICMP echo request type (IPv4).
pub const ICMP_ECHO_REQUEST: u8 = 8;
/// ICMP echo reply type (IPv4).
pub const ICMP_ECHO_REPLY: u8 = 0;
/// ICMPv6 echo request type.
pub const ICMP6_ECHO_REQUEST: u8 = 128;
/// ICMPv6 echo reply type.
pub const ICMP6_ECHO_REPLY: u8 = 129;
/// Length of the ICMP echo header in bytes.
pub const ICMP_HEADER_LEN: usize = 8;
/// Offset of the type byte in the ICMP header.
pub const ICMP_TYPE_OFFSET: usize = 0;
/// Offset of the (big-endian) identifier in the ICMP header.
pub const ICMP_ID_OFFSET: usize = 4;
/// Offset of the (big-endian) sequence number in the ICMP header.
pub const ICMP_SEQ_OFFSET: usize = 6;
/// Shortest ICMP message that is examined.
pub const ICMP_MIN_LEN: usize = 8;
/// Shortest IPv4 header.
pub const IPV4_MIN_HDR_LEN: usize = 20;

/// Default interval between packets, in milliseconds.
pub const DEFAULT_INTERVAL_MS: u64 = 10;
/// Default per-host interval, in milliseconds.
pub const DEFAULT_PERIOD_MS: u64 = 1000;
/// Default reply timeout, in milliseconds.
pub const DEFAULT_TIMEOUT_MS: u64 = 500;
/// Default number of retries.
pub const DEFAULT_RETRY: u32 = 3;
/// Default payload size in bytes.
pub const DEFAULT_PING_DATA_SIZE: usize = 56;
/// Bit pattern of the IEEE-754 double 1.5, the default backoff factor.
pub const DEFAULT_BACKOFF_BITS: u64 = 0x3FF8_0000_0000_0000;

/// Largest number of targets a generated range may name.
pub const MAX_GENERATE: usize = 131_072;
/// Longest target name accepted.
pub const MAX_TARGET_NAME: usize = 255;

/// Capacity hint for per-host response time tables.
pub const RESP_TIMES_CAP: usize = 1000;
/// Response slot marker: waiting for a reply.
pub const RESP_WAITING: i64 = -1;
/// Response slot marker: unused.
pub const RESP_UNUSED: i64 = -2;
/// Response slot marker: timed out.
pub const RESP_TIMEOUT: i64 = -4;

} // verus!
