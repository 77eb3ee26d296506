use vstd::prelude::*;

use crate::time::{Duration, Instant, MAX_DURATION_NANOS};

verus! {

/// An IP address of a target.
#[derive(Clone, Copy, Debug, PartialEq, Eq)]
pub enum IpAddress {
    V4([u8; 4]),
    V6([u8; 16]),
}

impl IpAddress {
    pub open spec fn spec_is_ipv6(self) -> bool {
        self is V6
    }

    /// Whether this is an IPv6 address.
    pub fn is_ipv6(&self) -> (b: bool)
        ensures
            b == self.spec_is_ipv6(),
    {
        match self {
            IpAddress::V4(_) => false,
            IpAddress::V6(_) => true,
        }
    }

    /// Whether this is an IPv4 address.
    pub fn is_ipv4(&self) -> (b: bool)
        ensures
            b == !self.spec_is_ipv6(),
    {
        !self.is_ipv6()
    }
}

/// Per-target state and statistics.
#[derive(Debug)]
pub struct HostEntry {
    pub name: String,
    pub display: String,
    pub addr: IpAddress,
    pub is_ipv6: bool,
    pub num_sent: u32,
    pub num_recv: u32,
    pub max_reply: Option<Duration>,
    pub min_reply: Option<Duration>,
    pub total_time: Duration,
    pub resp_times: Vec<Option<Duration>>,
    pub last_send: Option<Instant>,
    pub next_send: Instant,
    pub retries_left: u32,
    pub current_ping_index: u32,
    pub done: bool,
}

/// The longer of an optional extreme and a new sample.
pub open spec fn spec_max_of(m: Option<Duration>, rtt: Duration) -> nat {
    match m {
        Some(x) => if x@ >= rtt@ { x@ } else { rtt@ },
        None => rtt@,
    }
}

/// The shorter of an optional extreme and a new sample.
pub open spec fn spec_min_of(m: Option<Duration>, rtt: Duration) -> nat {
    match m {
        Some(x) => if x@ <= rtt@ { x@ } else { rtt@ },
        None => rtt@,
    }
}

/// Packet loss in whole percent, rounded down; zero when nothing was sent.
pub open spec fn loss_percent(sent: u32, recv: u32) -> int {
    if sent == 0 {
        0
    } else {
        ((sent - recv) * 100) / (sent as int)
    }
}

impl HostEntry {
    /// The reply statistics are consistent: with no replies there are no
    /// extremes and no total; otherwise min <= max, and the total lies
    /// between `num_recv * min` and `num_recv * max`.
    pub open spec fn stats_wf(&self) -> bool {
        &&& self.num_recv == 0 ==> {
            &&& self.min_reply is None
            &&& self.max_reply is None
            &&& self.total_time@ == 0
        }
        &&& self.num_recv > 0 ==> {
            &&& self.min_reply matches Some(mn)
            &&& self.max_reply matches Some(mx)
            &&& mn@ <= mx@
            &&& self.num_recv * mn@ <= self.total_time@
            &&& self.total_time@ <= self.num_recv * mx@
        }
    }

    /// A fresh entry for `name` at `addr` with room for `count` response
    /// times; it is due to be probed at the start of the run.
    pub fn new(name: String, addr: IpAddress, is_ipv6: bool, count: u32) -> (h: HostEntry)
        ensures
            h.name == name,
            h.display@ == name@,
            h.addr == addr,
            h.is_ipv6 == is_ipv6,
            h.num_sent == 0,
            h.num_recv == 0,
            h.max_reply is None,
            h.min_reply is None,
            h.total_time@ == 0,
            h.resp_times@.len() == count,
            forall|i: int| 0 <= i < count ==> h.resp_times@[i] is None,
            h.last_send is None,
            h.next_send@ == 0,
            h.retries_left == 0,
            h.current_ping_index == 0,
            !h.done,
            h.stats_wf(),
    {
        let display = name.clone();
        let mut resp_times: Vec<Option<Duration>> = Vec::new();
        let mut i: u32 = 0;
        while i < count
            invariant
                i <= count,
                resp_times@.len() == i,
                forall|j: int| 0 <= j < i ==> resp_times@[j] is None,
            decreases count - i,
        {
            resp_times.push(None);
            i += 1;
        }
        HostEntry {
            name,
            display,
            addr,
            is_ipv6,
            num_sent: 0,
            num_recv: 0,
            max_reply: None,
            min_reply: None,
            total_time: Duration::zero(),
            resp_times,
            last_send: None,
            next_send: Instant::start(),
            retries_left: 0,
            current_ping_index: 0,
            done: false,
        }
    }

    /// Counts a reply that took `rtt`: the reply count, the total and the
    /// extremes; everything else stays.
    fn add_to_stats(&mut self, rtt: Duration)
        requires
            old(self).num_recv < u32::MAX,
            old(self).total_time@ + rtt@ <= MAX_DURATION_NANOS,
        ensures
            final(self).num_recv == old(self).num_recv + 1,
            final(self).total_time@ == old(self).total_time@ + rtt@,
            final(self).max_reply matches Some(m) && m@ == spec_max_of(old(self).max_reply, rtt),
            final(self).min_reply matches Some(m) && m@ == spec_min_of(old(self).min_reply, rtt),
            final(self).resp_times == old(self).resp_times,
            final(self).name == old(self).name,
            final(self).display == old(self).display,
            final(self).addr == old(self).addr,
            final(self).is_ipv6 == old(self).is_ipv6,
            final(self).num_sent == old(self).num_sent,
            final(self).last_send == old(self).last_send,
            final(self).next_send == old(self).next_send,
            final(self).retries_left == old(self).retries_left,
            final(self).current_ping_index == old(self).current_ping_index,
            final(self).done == old(self).done,
            old(self).stats_wf() ==> final(self).stats_wf(),
    {
        let ghost old_h = *self;
        let n = self.num_recv;
        self.num_recv = n + 1;
        self.total_time = self.total_time.add(rtt);
        self.max_reply = Some(
            match self.max_reply {
                Some(m) => m.max(rtt),
                None => rtt,
            },
        );
        self.min_reply = Some(
            match self.min_reply {
                Some(m) => m.min(rtt),
                None => rtt,
            },
        );
        proof {
            if old_h.stats_wf() && n == 0 {
                assert(self.min_reply.unwrap()@ == rtt@);
                assert(self.max_reply.unwrap()@ == rtt@);
                assert(self.total_time@ == rtt@);
                let one = self.num_recv;
                let r = rtt@;
                assert(one * r == r) by (nonlinear_arith)
                    requires
                        one == 1,
                ;
            }
            if old_h.stats_wf() && n > 0 {
                let mn = old_h.min_reply.unwrap()@;
                let mx = old_h.max_reply.unwrap()@;
                let total = old_h.total_time@;
                let r = rtt@;
                let mn2 = self.min_reply.unwrap()@;
                let mx2 = self.max_reply.unwrap()@;
                assert((n + 1) * mn2 <= total + r) by (nonlinear_arith)
                    requires
                        n * mn <= total,
                        mn2 <= mn,
                        mn2 <= r,
                ;
                assert(total + r <= (n + 1) * mx2) by (nonlinear_arith)
                    requires
                        total <= n * mx,
                        mx <= mx2,
                        r <= mx2,
                ;
            }
        }
    }

    /// Records a reply that took `rtt` to the probe numbered `ping_index`:
    /// counts it, adds it to the total, updates the extremes and, when the
    /// table has a slot for that probe, stores it there.
    pub fn record_reply(&mut self, rtt: Duration, ping_index: u32)
        requires
            old(self).num_recv < u32::MAX,
            old(self).total_time@ + rtt@ <= MAX_DURATION_NANOS,
        ensures
            final(self).num_recv == old(self).num_recv + 1,
            final(self).total_time@ == old(self).total_time@ + rtt@,
            final(self).max_reply matches Some(m) && m@ == spec_max_of(old(self).max_reply, rtt),
            final(self).min_reply matches Some(m) && m@ == spec_min_of(old(self).min_reply, rtt),
            final(self).resp_times@ == (if ping_index < old(self).resp_times@.len() {
                old(self).resp_times@.update(ping_index as int, Some(rtt))
            } else {
                old(self).resp_times@
            }),
            final(self).name == old(self).name,
            final(self).display == old(self).display,
            final(self).addr == old(self).addr,
            final(self).is_ipv6 == old(self).is_ipv6,
            final(self).num_sent == old(self).num_sent,
            final(self).last_send == old(self).last_send,
            final(self).next_send == old(self).next_send,
            final(self).retries_left == old(self).retries_left,
            final(self).current_ping_index == old(self).current_ping_index,
            final(self).done == old(self).done,
            old(self).stats_wf() ==> final(self).stats_wf(),
    {
        self.add_to_stats(rtt);
        if (ping_index as usize) < self.resp_times.len() {
            self.resp_times.set(ping_index as usize, Some(rtt));
        }
    }

    /// Records a reply that took `rtt` when there is no table of probes (loop
    /// and default mode): counts it like `record_reply` and appends it to the
    /// list of response times.
    pub fn log_reply(&mut self, rtt: Duration)
        requires
            old(self).num_recv < u32::MAX,
            old(self).total_time@ + rtt@ <= MAX_DURATION_NANOS,
        ensures
            final(self).num_recv == old(self).num_recv + 1,
            final(self).total_time@ == old(self).total_time@ + rtt@,
            final(self).max_reply matches Some(m) && m@ == spec_max_of(old(self).max_reply, rtt),
            final(self).min_reply matches Some(m) && m@ == spec_min_of(old(self).min_reply, rtt),
            final(self).resp_times@ == old(self).resp_times@.push(Some(rtt)),
            final(self).name == old(self).name,
            final(self).display == old(self).display,
            final(self).addr == old(self).addr,
            final(self).is_ipv6 == old(self).is_ipv6,
            final(self).num_sent == old(self).num_sent,
            final(self).last_send == old(self).last_send,
            final(self).next_send == old(self).next_send,
            final(self).retries_left == old(self).retries_left,
            final(self).current_ping_index == old(self).current_ping_index,
            final(self).done == old(self).done,
            old(self).stats_wf() ==> final(self).stats_wf(),
    {
        self.add_to_stats(rtt);
        self.resp_times.push(Some(rtt));
    }

    /// Mean round-trip time of the replies, rounded down; `None` before the
    /// first reply.
    pub fn avg_reply(&self) -> (a: Option<Duration>)
        ensures
            self.num_recv == 0 <==> a is None,
            a matches Some(x) ==> x@ == self.total_time@ / (self.num_recv as nat),
    {
        if self.num_recv > 0 {
            Some(self.total_time.div(self.num_recv))
        } else {
            None
        }
    }

    /// Packet loss in whole percent, rounded down.
    pub fn loss_pct(&self) -> (pct: u32)
        requires
            self.num_sent == 0 || self.num_recv <= self.num_sent,
            (self.num_sent - self.num_recv) * 100 <= u32::MAX,
        ensures
            pct == loss_percent(self.num_sent, self.num_recv),
            pct <= 100,
            self.num_sent > 0 && self.num_recv == self.num_sent ==> pct == 0,
            self.num_sent > 0 && self.num_recv == 0 ==> pct == 100,
    {
        if self.num_sent == 0 {
            0
        } else {
            let lost = self.num_sent - self.num_recv;
            proof {
                vstd::arithmetic::div_mod::lemma_div_is_ordered(
                    (lost * 100) as int,
                    (self.num_sent * 100) as int,
                    self.num_sent as int,
                );
                vstd::arithmetic::div_mod::lemma_div_multiples_vanish(100, self.num_sent as int);
                assert(self.num_sent * 100 == 100 * self.num_sent) by (nonlinear_arith);
            }
            (lost * 100) / self.num_sent
        }
    }
}

/// Law: once a host has replies, its mean round-trip time lies between the
/// shortest and the longest reply.
pub proof fn lemma_avg_between_min_and_max(h: HostEntry)
    requires
        h.stats_wf(),
        h.num_recv > 0,
    ensures
        h.min_reply.unwrap()@ <= h.total_time@ / (h.num_recv as nat) <= h.max_reply.unwrap()@,
{
    let n = h.num_recv as int;
    let mn = h.min_reply.unwrap()@ as int;
    let mx = h.max_reply.unwrap()@ as int;
    let t = h.total_time@ as int;
    vstd::arithmetic::div_mod::lemma_div_is_ordered(n * mn, t, n);
    vstd::arithmetic::div_mod::lemma_div_is_ordered(t, n * mx, n);
    vstd::arithmetic::div_mod::lemma_div_multiples_vanish(mn, n);
    vstd::arithmetic::div_mod::lemma_div_multiples_vanish(mx, n);
}

/// A probe that was sent and awaits its reply.
#[derive(Clone, Copy, Debug)]
pub struct PendingPing {
    pub host_index: usize,
    pub ping_index: u32,
    pub sent_at: Instant,
}

/// Totals over all targets.
pub struct GlobalStats {
    pub num_alive: usize,
    pub num_unreachable: usize,
    pub num_pingsent: u32,
    pub num_pingreceived: u32,
    pub num_othericmprcvd: u32,
    pub num_timeout: u32,
}

impl Default for GlobalStats {
    fn default() -> (g: GlobalStats)
        ensures
            g.num_alive == 0,
            g.num_unreachable == 0,
            g.num_pingsent == 0,
            g.num_pingreceived == 0,
            g.num_othericmprcvd == 0,
            g.num_timeout == 0,
    {
        GlobalStats {
            num_alive: 0,
            num_unreachable: 0,
            num_pingsent: 0,
            num_pingreceived: 0,
            num_othericmprcvd: 0,
            num_timeout: 0,
        }
    }
}

} // verus!
