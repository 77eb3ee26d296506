use vstd::prelude::*;

use crate::constants::{
    DEFAULT_BACKOFF_BITS, DEFAULT_INTERVAL_MS, DEFAULT_PERIOD_MS, DEFAULT_PING_DATA_SIZE,
    DEFAULT_RETRY, DEFAULT_TIMEOUT_MS,
};

verus! {

/// The command-line settings of a run.
///
/// The backoff factor is a floating-point number; it is carried here as the
/// bit pattern of the IEEE-754 double (`f64::to_bits`), since the library
/// computes nothing with it.
pub struct Args {
    pub targets: Vec<String>,
    pub count: Option<u32>,
    pub vcount: Option<u32>,
    pub loop_mode: bool,
    pub interval: u64,
    pub period: u64,
    pub timeout: u64,
    pub retry: u32,
    pub backoff_bits: u64,
    pub size: usize,
    pub file: Option<String>,
    pub alive: bool,
    pub unreach: bool,
    pub quiet: bool,
    pub stats: bool,
    pub elapsed: bool,
    pub addr: bool,
    pub timestamp: bool,
    pub json: bool,
    pub ipv4: bool,
    pub ipv6: bool,
    pub report_all_rtts: bool,
    pub reachable: Option<u32>,
}

/// The count of probes per target: `-C` wins over `-c`.
pub open spec fn spec_effective_count(vcount: Option<u32>, count: Option<u32>) -> Option<u32> {
    match vcount {
        Some(v) => Some(v),
        None => count,
    }
}

impl Args {
    /// The settings with every option at its default and the given targets.
    pub fn new(targets: Vec<String>) -> (a: Args)
        ensures
            a.targets == targets,
            a.count is None,
            a.vcount is None,
            !a.loop_mode,
            a.interval == DEFAULT_INTERVAL_MS,
            a.period == DEFAULT_PERIOD_MS,
            a.timeout == DEFAULT_TIMEOUT_MS,
            a.retry == DEFAULT_RETRY,
            a.backoff_bits == DEFAULT_BACKOFF_BITS,
            a.size == DEFAULT_PING_DATA_SIZE,
            a.file is None,
            !a.alive && !a.unreach && !a.quiet && !a.stats && !a.elapsed,
            !a.addr && !a.timestamp && !a.json && !a.ipv4 && !a.ipv6,
            !a.report_all_rtts,
            a.reachable is None,
    {
        Args {
            targets,
            count: None,
            vcount: None,
            loop_mode: false,
            interval: DEFAULT_INTERVAL_MS,
            period: DEFAULT_PERIOD_MS,
            timeout: DEFAULT_TIMEOUT_MS,
            retry: DEFAULT_RETRY,
            backoff_bits: DEFAULT_BACKOFF_BITS,
            size: DEFAULT_PING_DATA_SIZE,
            file: None,
            alive: false,
            unreach: false,
            quiet: false,
            stats: false,
            elapsed: false,
            addr: false,
            timestamp: false,
            json: false,
            ipv4: false,
            ipv6: false,
            report_all_rtts: false,
            reachable: None,
        }
    }

    /// The number of probes per target, if any: `vcount` when given, else
    /// `count`.
    pub fn effective_count(&self) -> (c: Option<u32>)
        ensures
            c == spec_effective_count(self.vcount, self.count),
    {
        match self.vcount {
            Some(v) => Some(v),
            None => self.count,
        }
    }

    /// Whether verbose count mode (`-C`) is on.
    pub fn is_verbose_count(&self) -> (b: bool)
        ensures
            b == self.vcount is Some,
    {
        self.vcount.is_some()
    }

    /// Whether the options go together: JSON output (`-J`) needs count,
    /// verbose count or loop mode (`-c`, `-C` or `-l`).
    pub fn json_mode_valid(&self) -> (b: bool)
        ensures
            b == (!self.json || self.count is Some || self.vcount is Some || self.loop_mode),
    {
        !self.json || self.count.is_some() || self.vcount.is_some() || self.loop_mode
    }
}

} // verus!
