use vstd::prelude::*;

use crate::args::{spec_effective_count, Args};
use crate::output::{max_display_len, max_host_len, GlobalStatsSummary};
use crate::time::{Duration, Instant, MAX_DURATION_NANOS};
use crate::types::{HostEntry, IpAddress, PendingPing};

verus! {

/// The settings that drive the probing loop.
pub struct PingConfig {
    pub count: Option<u32>,
    pub loop_mode: bool,
    pub verbose_count: bool,
    pub interval: Duration,
    pub period: Duration,
    pub timeout: Duration,
    pub retry: u32,
    pub quiet: bool,
    pub alive: bool,
    pub unreach: bool,
    pub show_addr: bool,
    pub report_all_rtts: bool,
    pub reachable: Option<u32>,
    pub show_elapsed: bool,
}

impl PingConfig {
    /// Default mode: neither a probe count nor loop mode; each target is
    /// probed until its first reply or until the retries are used up.
    pub open spec fn is_default_mode(&self) -> bool {
        self.count is None && !self.loop_mode
    }

    /// The probing settings of the command line `args`.
    pub fn from_args(args: &Args) -> (c: PingConfig)
        ensures
            c.count == spec_effective_count(args.vcount, args.count),
            c.loop_mode == args.loop_mode,
            c.verbose_count == args.vcount is Some,
            c.interval@ == args.interval * 1_000_000,
            c.period@ == args.period * 1_000_000,
            c.timeout@ == args.timeout * 1_000_000,
            c.retry == args.retry,
            c.quiet == args.quiet,
            c.alive == args.alive,
            c.unreach == args.unreach,
            c.show_addr == args.addr,
            c.report_all_rtts == args.report_all_rtts,
            c.reachable == args.reachable,
            c.show_elapsed == args.elapsed,
    {
        PingConfig {
            count: args.effective_count(),
            loop_mode: args.loop_mode,
            verbose_count: args.is_verbose_count(),
            interval: Duration::from_millis(args.interval),
            period: Duration::from_millis(args.period),
            timeout: Duration::from_millis(args.timeout),
            retry: args.retry,
            quiet: args.quiet,
            alive: args.alive,
            unreach: args.unreach,
            show_addr: args.addr,
            report_all_rtts: args.report_all_rtts,
            reachable: args.reachable,
            show_elapsed: args.elapsed,
        }
    }

    /// Whether this is default mode.
    pub fn default_mode(&self) -> (b: bool)
        ensures
            b == self.is_default_mode(),
    {
        self.count.is_none() && !self.loop_mode
    }
}

/// A resolved target: the name it was given by, its address and the
/// address written out.
pub struct Target {
    pub name: String,
    pub addr: IpAddress,
    pub addr_text: String,
}

/// Whether a pending entry carries sequence number `seq`.
pub open spec fn has_seq(pending: Seq<(u16, PendingPing)>, seq: u16) -> bool {
    exists|i: int| 0 <= i < pending.len() && pending[i].0 == seq
}

/// No two pending probes share a sequence number.
pub open spec fn seqs_unique(pending: Seq<(u16, PendingPing)>) -> bool {
    forall|i: int, j: int| 0 <= i < pending.len() && 0 <= j < pending.len() && i != j ==> pending[i].0 != pending[j].0
}

/// The number of pending probes of host `h`.
pub open spec fn pending_for(pending: Seq<(u16, PendingPing)>, h: int) -> nat
    decreases pending.len(),
{
    if pending.len() == 0 {
        0
    } else {
        pending_for(pending.drop_last(), h) + (if pending.last().1.host_index == h { 1nat } else { 0nat })
    }
}

/// The multiplier of the start offset of the host at position `i`: the
/// position taken as a 32-bit number.
pub open spec fn start_slot(i: int) -> nat {
    (i as u32) as nat
}

/// The largest start offset multiplier among `n` hosts.
pub open spec fn max_start_slot(n: nat) -> nat {
    if n == 0 {
        0
    } else if n - 1 <= u32::MAX {
        (n - 1) as nat
    } else {
        u32::MAX as nat
    }
}

/// One day, in nanoseconds: how far a host that has sent all its probes is
/// pushed back.
pub open spec fn one_day() -> nat {
    86_400_000_000_000
}


proof fn lemma_pending_for_push(p: Seq<(u16, PendingPing)>, e: (u16, PendingPing), h: int)
    ensures
        pending_for(p.push(e), h) == pending_for(p, h) + (if e.1.host_index == h { 1nat } else { 0nat }),
{
    assert(p.push(e).drop_last() =~= p);
}

proof fn lemma_pending_for_remove(p: Seq<(u16, PendingPing)>, i: int, h: int)
    requires
        0 <= i < p.len(),
    ensures
        pending_for(p, h) == pending_for(p.remove(i), h) + (if p[i].1.host_index == h { 1nat } else { 0nat }),
    decreases p.len(),
{
    if i == p.len() - 1 {
        assert(p.remove(i) =~= p.drop_last());
    } else {
        lemma_pending_for_remove(p.drop_last(), i, h);
        assert(p.remove(i).drop_last() =~= p.drop_last().remove(i));
        assert(p.remove(i).last() == p.last());
    }
}

/// When host `idx` is next due after a probe, numbered `old_index`, was
/// sent at `sent_at`: a host that has used up its count of probes (or, in
/// default mode, its retries) is pushed back a day from `now`; otherwise
/// the next probe follows after the period (count and loop mode) or after
/// the backoff delay (default mode).
pub open spec fn scheduled_next(config: PingConfig, old_index: u32, sent_at: Instant, now: Instant, backoff_delay: Duration) -> nat {
    let index = old_index + 1;
    if config.count matches Some(c) && index >= c {
        now@ + one_day()
    } else if config.is_default_mode() && index > config.retry {
        now@ + one_day()
    } else if config.count is Some || config.loop_mode {
        sent_at@ + config.period@
    } else {
        sent_at@ + backoff_delay@
    }
}


/// What is printed about a reply.
#[derive(Clone, Copy, Debug, PartialEq, Eq, Structural)]
pub enum Report {
    Nothing,
    Alive,
    Recv,
}

/// What became of a reply that was read.
#[derive(Clone, Copy, Debug)]
pub enum ReplyOutcome {
    /// No pending probe has this sequence number.
    Unknown,
    /// It came after the timeout; the probe was dropped.
    Late,
    /// It was counted for the host of the probe.
    Recorded { host_index: usize, ping_index: u32, rtt: Duration, first_reply: bool, report: Report },
}

/// What is printed about a reply that was counted: nothing when quiet or
/// listing unreachable hosts; in default mode the "alive" line for the first
/// reply only; else the reply line.
pub open spec fn reply_report(config: PingConfig, first_reply: bool) -> Report {
    if config.quiet || config.unreach {
        Report::Nothing
    } else if config.is_default_mode() {
        if first_reply {
            Report::Alive
        } else {
            Report::Nothing
        }
    } else {
        Report::Recv
    }
}

/// The response times of a host after a reply to its probe numbered
/// `ping_index` took `rtt`: with a probe count, the probe's slot of the
/// table is set; in loop and default mode the time is appended to the list.
pub open spec fn recorded_times(config: PingConfig, rs: Seq<Option<Duration>>, ping_index: u32, rtt: Duration) -> Seq<Option<Duration>> {
    if config.count is Some {
        if ping_index < rs.len() {
            rs.update(ping_index as int, Some(rtt))
        } else {
            rs
        }
    } else {
        rs.push(Some(rtt))
    }
}

/// Time from `earlier` to `later`, zero when `earlier` is later.
pub open spec fn elapsed(later: Instant, earlier: Instant) -> nat {
    if later@ >= earlier@ {
        (later@ - earlier@) as nat
    } else {
        0
    }
}

/// The position of the pending probe with sequence number `seq`.
pub open spec fn seq_index(pending: Seq<(u16, PendingPing)>, seq: u16) -> int {
    choose|i: int| 0 <= i < pending.len() && pending[i].0 == seq
}


/// A pending probe has expired at `now`: more than the timeout has passed
/// since it was sent.
pub open spec fn is_expired(e: PendingPing, now: Instant, timeout: Duration) -> bool {
    elapsed(now, e.sent_at) > timeout@
}

/// The pending probes that have not expired, in their order.
pub open spec fn fresh_entries(p: Seq<(u16, PendingPing)>, now: Instant, timeout: Duration) -> Seq<(u16, PendingPing)>
    decreases p.len(),
{
    if p.len() == 0 {
        Seq::empty()
    } else {
        let r = fresh_entries(p.drop_last(), now, timeout);
        if is_expired(p.last().1, now, timeout) {
            r
        } else {
            r.push(p.last())
        }
    }
}

/// Whether timed-out probes are reported: not in default mode, not when
/// quiet, not when only alive hosts are shown.
pub open spec fn reports_timeouts(config: PingConfig) -> bool {
    !config.is_default_mode() && !config.quiet && !config.alive
}

/// Whether a timed-out probe of host `h` is reported: timeouts are reported
/// at all, and when only unreachable hosts are shown, `h` has no reply.
pub open spec fn timeout_reported(config: PingConfig, h: HostEntry) -> bool {
    reports_timeouts(config) && (!config.unreach || h.num_recv == 0)
}

/// Host and probe number of the pending probes that have expired and are
/// reported (see `timeout_reported`), in their order.
pub open spec fn timeout_notices(config: PingConfig, hosts: Seq<HostEntry>, p: Seq<(u16, PendingPing)>, now: Instant) -> Seq<(usize, u32)>
    decreases p.len(),
{
    if p.len() == 0 {
        Seq::empty()
    } else {
        let r = timeout_notices(config, hosts, p.drop_last(), now);
        let e = p.last().1;
        if is_expired(e, now, config.timeout) && timeout_reported(config, hosts[e.host_index as int]) {
            r.push((e.host_index, e.ping_index))
        } else {
            r
        }
    }
}

proof fn lemma_fresh_subset(p: Seq<(u16, PendingPing)>, now: Instant, timeout: Duration)
    ensures
        forall|a: int| 0 <= a < fresh_entries(p, now, timeout).len() ==>
            exists|j: int| 0 <= j < p.len() && #[trigger] fresh_entries(p, now, timeout)[a] == p[j],
    decreases p.len(),
{
    if p.len() > 0 {
        lemma_fresh_subset(p.drop_last(), now, timeout);
        let r = fresh_entries(p.drop_last(), now, timeout);
        assert forall|a: int| 0 <= a < fresh_entries(p, now, timeout).len() implies
            exists|j: int| 0 <= j < p.len() && #[trigger] fresh_entries(p, now, timeout)[a] == p[j] by {
            if a < r.len() {
                let j = choose|j: int| 0 <= j < p.drop_last().len() && r[a] == p.drop_last()[j];
                assert(fresh_entries(p, now, timeout)[a] == p[j]);
            } else {
                assert(fresh_entries(p, now, timeout)[a] == p[p.len() - 1]);
            }
        }
    }
}

proof fn lemma_fresh_unique(p: Seq<(u16, PendingPing)>, now: Instant, timeout: Duration)
    requires
        seqs_unique(p),
    ensures
        seqs_unique(fresh_entries(p, now, timeout)),
    decreases p.len(),
{
    if p.len() > 0 {
        let q = p.drop_last();
        assert(seqs_unique(q));
        lemma_fresh_unique(q, now, timeout);
        lemma_fresh_subset(q, now, timeout);
        let r = fresh_entries(q, now, timeout);
        if !is_expired(p.last().1, now, timeout) {
            let f = r.push(p.last());
            assert forall|a: int, b: int| 0 <= a < f.len() && 0 <= b < f.len() && a != b implies f[a].0 != f[b].0 by {
                if a == r.len() {
                    let j = choose|j: int| 0 <= j < q.len() && r[b] == q[j];
                    assert(p[j] == q[j]);
                } else if b == r.len() {
                    let j = choose|j: int| 0 <= j < q.len() && r[a] == q[j];
                    assert(p[j] == q[j]);
                }
            }
        }
    }
}

proof fn lemma_fresh_count(p: Seq<(u16, PendingPing)>, now: Instant, timeout: Duration, h: int)
    ensures
        pending_for(fresh_entries(p, now, timeout), h) <= pending_for(p, h),
    decreases p.len(),
{
    if p.len() > 0 {
        lemma_fresh_count(p.drop_last(), now, timeout, h);
        let r = fresh_entries(p.drop_last(), now, timeout);
        if !is_expired(p.last().1, now, timeout) {
            lemma_pending_for_push(r, p.last(), h);
        }
    }
}

/// A host is finished at `now` when: with a probe count, all probes were
/// sent and the last one has expired; in default mode, a reply came or the
/// retries are used up and the last probe has expired; in loop mode never.
pub open spec fn becomes_done(config: PingConfig, h: HostEntry, now: Instant) -> bool {
    let last_expired = match h.last_send {
        Some(s) => elapsed(now, s) > config.timeout@,
        None => false,
    };
    match config.count {
        Some(c) => h.current_ping_index >= c && last_expired,
        None => !config.loop_mode && (h.num_recv > 0 || (h.num_sent > config.retry && last_expired)),
    }
}


/// Positions, among the first `n` hosts, of those that got no reply.
pub open spec fn silent_indices(hs: Seq<HostEntry>, n: nat) -> Seq<usize>
    decreases n,
{
    if n == 0 {
        Seq::empty()
    } else {
        let r = silent_indices(hs, (n - 1) as nat);
        if hs[n - 1].num_recv == 0 {
            r.push((n - 1) as usize)
        } else {
            r
        }
    }
}

/// Positions, among the first `n` hosts, listed at the end of a run: those
/// with replies when `alive`, those without when `unreach`.
pub open spec fn listed_indices(hs: Seq<HostEntry>, n: nat, alive: bool, unreach: bool) -> Seq<usize>
    decreases n,
{
    if n == 0 {
        Seq::empty()
    } else {
        let r = listed_indices(hs, (n - 1) as nat, alive, unreach);
        let h = hs[n - 1];
        let r2 = if alive && h.num_recv > 0 { r.push((n - 1) as usize) } else { r };
        if unreach && h.num_recv == 0 {
            r2.push((n - 1) as usize)
        } else {
            r2
        }
    }
}

/// The number of hosts with at least one reply.
pub open spec fn count_alive(hs: Seq<HostEntry>) -> nat
    decreases hs.len(),
{
    if hs.len() == 0 {
        0
    } else {
        count_alive(hs.drop_last()) + (if hs.last().num_recv > 0 { 1nat } else { 0nat })
    }
}

/// Total probes sent over all hosts.
pub open spec fn total_sent(hs: Seq<HostEntry>) -> nat
    decreases hs.len(),
{
    if hs.len() == 0 {
        0
    } else {
        total_sent(hs.drop_last()) + hs.last().num_sent as nat
    }
}

/// Total replies over all hosts.
pub open spec fn total_recv(hs: Seq<HostEntry>) -> nat
    decreases hs.len(),
{
    if hs.len() == 0 {
        0
    } else {
        total_recv(hs.drop_last()) + hs.last().num_recv as nat
    }
}

/// The recorded response times of a table, in order.
pub open spec fn some_values(rs: Seq<Option<Duration>>) -> Seq<Duration>
    decreases rs.len(),
{
    if rs.len() == 0 {
        Seq::empty()
    } else {
        let r = some_values(rs.drop_last());
        match rs.last() {
            Some(d) => r.push(d),
            None => r,
        }
    }
}

/// The recorded response times of all hosts, host after host.
pub open spec fn all_rtts(hs: Seq<HostEntry>) -> Seq<Duration>
    decreases hs.len(),
{
    if hs.len() == 0 {
        Seq::empty()
    } else {
        all_rtts(hs.drop_last()) + some_values(hs.last().resp_times@)
    }
}

/// Sum of the durations, in nanoseconds.
pub open spec fn total_nanos(ds: Seq<Duration>) -> nat
    decreases ds.len(),
{
    if ds.len() == 0 {
        0
    } else {
        total_nanos(ds.drop_last()) + ds.last()@
    }
}

/// The shortest of a non-empty list of durations, in nanoseconds.
pub open spec fn min_nanos(ds: Seq<Duration>) -> nat
    decreases ds.len(),
{
    if ds.len() <= 1 {
        ds[0]@
    } else {
        let m = min_nanos(ds.drop_last());
        if ds.last()@ < m {
            ds.last()@
        } else {
            m
        }
    }
}

/// The longest of a non-empty list of durations, in nanoseconds.
pub open spec fn max_nanos(ds: Seq<Duration>) -> nat
    decreases ds.len(),
{
    if ds.len() <= 1 {
        ds[0]@
    } else {
        let m = max_nanos(ds.drop_last());
        if ds.last()@ > m {
            ds.last()@
        } else {
            m
        }
    }
}

/// The global totals can be computed: the sent and received totals fit in
/// 32 bits, the sum of all response times is a representable duration, and
/// the number of response times, taken as a 32-bit number, is not zero
/// when there are any.
pub open spec fn summary_computable(hs: Seq<HostEntry>) -> bool {
    &&& total_sent(hs) <= u32::MAX
    &&& total_recv(hs) <= u32::MAX
    &&& total_nanos(all_rtts(hs)) <= MAX_DURATION_NANOS
    &&& all_rtts(hs).len() > 0 ==> (all_rtts(hs).len() as u32) != 0
}

proof fn lemma_total_nanos_push(ds: Seq<Duration>, d: Duration)
    ensures
        total_nanos(ds.push(d)) == total_nanos(ds) + d@,
        ds.push(d).len() >= 2 ==> min_nanos(ds.push(d)) == (if d@ < min_nanos(ds) { d@ } else { min_nanos(ds) }),
        ds.push(d).len() >= 2 ==> max_nanos(ds.push(d)) == (if d@ > max_nanos(ds) { d@ } else { max_nanos(ds) }),
{
    assert(ds.push(d).drop_last() =~= ds);
}

proof fn lemma_total_sent_prefix(hs: Seq<HostEntry>, i: int)
    requires
        0 <= i < hs.len(),
    ensures
        total_sent(hs.take(i + 1)) == total_sent(hs.take(i)) + hs[i].num_sent,
        total_recv(hs.take(i + 1)) == total_recv(hs.take(i)) + hs[i].num_recv,
        count_alive(hs.take(i + 1)) == count_alive(hs.take(i)) + (if hs[i].num_recv > 0 { 1nat } else { 0nat }),
        all_rtts(hs.take(i + 1)) == all_rtts(hs.take(i)) + some_values(hs[i].resp_times@),
        total_sent(hs.take(i)) <= total_sent(hs.take(i + 1)),
        total_recv(hs.take(i)) <= total_recv(hs.take(i + 1)),
{
    assert(hs.take(i + 1).drop_last() =~= hs.take(i));
}

proof fn lemma_totals_monotone(hs: Seq<HostEntry>, i: int)
    requires
        0 <= i <= hs.len(),
    ensures
        total_sent(hs.take(i)) <= total_sent(hs),
        total_recv(hs.take(i)) <= total_recv(hs),
        count_alive(hs.take(i)) <= i,
        total_nanos(all_rtts(hs.take(i))) <= total_nanos(all_rtts(hs)),
    decreases hs.len() - i,
{
    if i < hs.len() {
        lemma_totals_monotone(hs, i + 1);
        lemma_total_sent_prefix(hs, i);
        lemma_total_nanos_append(all_rtts(hs.take(i)), some_values(hs[i].resp_times@));
    } else {
        assert(hs.take(i) =~= hs);
    }
    lemma_count_alive_bound(hs.take(i));
}

proof fn lemma_count_alive_bound(hs: Seq<HostEntry>)
    ensures
        count_alive(hs) <= hs.len(),
    decreases hs.len(),
{
    if hs.len() > 0 {
        lemma_count_alive_bound(hs.drop_last());
    }
}

proof fn lemma_total_nanos_append(a: Seq<Duration>, b: Seq<Duration>)
    ensures
        total_nanos(a + b) == total_nanos(a) + total_nanos(b),
    decreases b.len(),
{
    if b.len() == 0 {
        assert(a + b =~= a);
    } else {
        lemma_total_nanos_append(a, b.drop_last());
        assert((a + b).drop_last() =~= a + b.drop_last());
    }
}

/// The schedule of host `i` in a run that started at `start`: before its
/// first probe it is due `i` intervals after the start; after a probe sent
/// at `s`, in count and loop mode (while probes remain to be sent) it is
/// due exactly a period later, and in default mode (while retries remain)
/// not before `s`.
pub open spec fn host_scheduled(config: PingConfig, start: Instant, i: int, h: HostEntry) -> bool {
    &&& h.last_send is None ==> h.next_send@ == start@ + config.interval@ * start_slot(i)
    &&& h.last_send matches Some(s) ==> {
        &&& ((config.count is Some || config.loop_mode) && !(config.count matches Some(c) && h.current_ping_index >= c))
            ==> h.next_send@ == s@ + config.period@
        &&& (config.is_default_mode() && h.current_ping_index <= config.retry) ==> h.next_send@ >= s@
    }
}

/// The state of a run: the hosts with their statistics, the probes awaiting
/// a reply (by sequence number) and the sequence counter.
pub struct Pinger {
    pub hosts: Vec<HostEntry>,
    pub pending: Vec<(u16, PendingPing)>,
    pub seq_counter: u32,
    pub config: PingConfig,
    pub max_len: usize,
    pub start: Instant,
}

impl Pinger {
    /// The invariant of a run: sequence numbers of pending probes are
    /// distinct, each refers to an existing host, each host's statistics are
    /// consistent and its replies plus its pending probes never exceed the
    /// probes it sent.
    pub open spec fn wf(&self) -> bool {
        &&& seqs_unique(self.pending@)
        &&& forall|i: int| 0 <= i < self.pending@.len() ==> #[trigger] self.pending@[i].1.host_index < self.hosts@.len()
        &&& forall|h: int| 0 <= h < self.hosts@.len() ==> #[trigger] self.hosts@[h].stats_wf()
        &&& forall|h: int| 0 <= h < self.hosts@.len() ==>
            #[trigger] self.hosts@[h].num_recv + pending_for(self.pending@, h) <= self.hosts@[h].num_sent
    }

    /// Every host keeps to its schedule (see `host_scheduled`).
    pub open spec fn schedule_wf(&self) -> bool {
        forall|i: int| 0 <= i < self.hosts@.len() ==> #[trigger] host_scheduled(self.config, self.start, i, self.hosts@[i])
    }

    /// Sets up a run over `targets` starting at `start`: each host is shown
    /// by its address text when `show_addr`, by its name otherwise; host `i`
    /// is first probed `i` intervals after the start and has `retry` retries.
    pub fn new(config: PingConfig, targets: Vec<Target>, start: Instant) -> (p: Pinger)
        requires
            start@ <= MAX_DURATION_NANOS,
            config.interval@ * max_start_slot(targets@.len()) <= MAX_DURATION_NANOS,
        ensures
            p.wf(),
            p.pending@.len() == 0,
            p.seq_counter == 0,
            p.config == config,
            p.hosts@.len() == targets@.len(),
            p.max_len == max_display_len(p.hosts@),
            p.start == start,
            p.schedule_wf(),
            forall|i: int| 0 <= i < targets@.len() ==> {
                let h = #[trigger] p.hosts@[i];
                let t = targets@[i];
                &&& h.name == t.name
                &&& h.display@ == (if config.show_addr { t.addr_text@ } else { t.name@ })
                &&& h.addr == t.addr
                &&& h.is_ipv6 == t.addr.spec_is_ipv6()
                &&& h.num_sent == 0
                &&& h.num_recv == 0
                &&& h.resp_times@.len() == (match config.count { Some(c) => c as nat, None => 0 })
                &&& forall|k: int| 0 <= k < h.resp_times@.len() ==> h.resp_times@[k] is None
                &&& h.last_send is None
                &&& h.next_send@ == start@ + config.interval@ * start_slot(i)
                &&& h.retries_left == config.retry
                &&& h.current_ping_index == 0
                &&& !h.done
            },
    {
        let n = targets.len();
        let count = match config.count {
            Some(c) => c,
            None => 0,
        };
        let mut hosts: Vec<HostEntry> = Vec::new();
        let mut targets = targets;
        let ghost ts = targets@;
        let mut rev: Vec<Target> = Vec::new();
        while targets.len() > 0
            invariant
                n == ts.len(),
                targets@.len() + rev@.len() == n,
                targets@ =~= ts.take(targets@.len() as int),
                forall|j: int| 0 <= j < rev@.len() ==> rev@[j] == ts[n - 1 - j],
            decreases targets.len(),
        {
            let t = targets.pop().unwrap();
            rev.push(t);
        }
        let mut i: usize = 0;
        while i < n
            invariant
                n == ts.len(),
                i <= n,
                rev@.len() == n - i,
                forall|j: int| 0 <= j < rev@.len() ==> rev@[j] == ts[n - 1 - j],
                hosts@.len() == i,
                start@ <= MAX_DURATION_NANOS,
                config.interval@ * max_start_slot(ts.len()) <= MAX_DURATION_NANOS,
                count == (match config.count { Some(c) => c as nat, None => 0 }),
                forall|j: int| 0 <= j < i ==> {
                    let h = #[trigger] hosts@[j];
                    let t = ts[j];
                    &&& h.name == t.name
                    &&& h.display@ == (if config.show_addr { t.addr_text@ } else { t.name@ })
                    &&& h.addr == t.addr
                    &&& h.is_ipv6 == t.addr.spec_is_ipv6()
                    &&& h.num_sent == 0
                    &&& h.num_recv == 0
                    &&& h.resp_times@.len() == count
                    &&& forall|k: int| 0 <= k < h.resp_times@.len() ==> h.resp_times@[k] is None
                    &&& h.last_send is None
                    &&& h.next_send@ == start@ + config.interval@ * start_slot(j)
                    &&& h.retries_left == config.retry
                    &&& h.current_ping_index == 0
                    &&& !h.done
                    &&& h.stats_wf()
                },
            decreases n - i,
        {
            let t = rev.pop().unwrap();
            proof {
                assert(t == ts[i as int]);
            }
            let is_ipv6 = t.addr.is_ipv6();
            let display = if config.show_addr { t.addr_text } else { t.name.clone() };
            let mut h = HostEntry::new(t.name, t.addr, is_ipv6, count);
            h.display = display;
            let slot = #[verifier::truncate] (i as u32);
            proof {
                assert(start_slot(i as int) <= max_start_slot(ts.len()));
                assert(config.interval@ * start_slot(i as int) <= config.interval@ * max_start_slot(ts.len())) by (nonlinear_arith)
                    requires
                        start_slot(i as int) <= max_start_slot(ts.len()),
                ;
                assert(slot as nat == start_slot(i as int));
            }
            h.next_send = start.add(config.interval.mul(slot));
            h.retries_left = config.retry;
            hosts.push(h);
            i += 1;
        }
        let max_len = max_host_len(hosts.as_slice());
        let p = Pinger { hosts, pending: Vec::new(), seq_counter: 0, config, max_len, start };
        p
    }

    /// Whether the run is over: every host is done and no probe awaits a
    /// reply.
    pub fn is_finished(&self) -> (b: bool)
        ensures
            b == ((forall|h: int| 0 <= h < self.hosts@.len() ==> #[trigger] self.hosts@[h].done) && self.pending@.len() == 0),
    {
        let mut i: usize = 0;
        while i < self.hosts.len()
            invariant
                i <= self.hosts@.len(),
                forall|h: int| 0 <= h < i ==> #[trigger] self.hosts@[h].done,
            decreases self.hosts.len() - i,
        {
            if !self.hosts[i].done {
                return false;
            }
            i += 1;
        }
        self.pending.len() == 0
    }

    /// Whether host `idx` is to be probed at `now`: it is not done and its
    /// next probe is due.
    pub fn is_due(&self, idx: usize, now: Instant) -> (b: bool)
        requires
            idx < self.hosts@.len(),
        ensures
            b == (!self.hosts@[idx as int].done && self.hosts@[idx as int].next_send@ <= now@),
    {
        !self.hosts[idx].done && !now.is_before(&self.hosts[idx].next_send)
    }

    /// Whether a probe with sequence number `seq` awaits a reply.
    pub fn is_pending(&self, seq: u16) -> (b: bool)
        ensures
            b == has_seq(self.pending@, seq),
    {
        let mut i: usize = 0;
        while i < self.pending.len()
            invariant
                i <= self.pending@.len(),
                forall|k: int| 0 <= k < i ==> self.pending@[k].0 != seq,
            decreases self.pending.len() - i,
        {
            if self.pending[i].0 == seq {
                return true;
            }
            i += 1;
        }
        false
    }

    /// Takes the next sequence number: the counter's low 16 bits when no
    /// pending probe uses them, otherwise 0xFFFF; the counter advances by
    /// one (wrapping).
    pub fn next_sequence(&mut self) -> (seq: u16)
        ensures
            seq == (if has_seq(old(self).pending@, (old(self).seq_counter % 65536) as u16) {
                65535u16
            } else {
                (old(self).seq_counter % 65536) as u16
            }),
            final(self).seq_counter == (if old(self).seq_counter == u32::MAX { 0 } else { old(self).seq_counter + 1 }),
            final(self).hosts == old(self).hosts,
            final(self).pending == old(self).pending,
            final(self).config == old(self).config,
            final(self).max_len == old(self).max_len,
            final(self).start == old(self).start,
            old(self).schedule_wf() ==> final(self).schedule_wf(),
    {
        let candidate = (self.seq_counter % 65536) as u16;
        self.seq_counter = self.seq_counter.wrapping_add(1);
        if !self.is_pending(candidate) {
            candidate
        } else {
            u16::MAX
        }
    }

    /// Accounts for a probe to host `idx` with sequence number `seq`: when it
    /// was sent and `seq` is free, the probe is recorded as pending (with the
    /// host's current probe number and `sent_at`), the host's sent count and
    /// probe number advance and its next probe is scheduled; otherwise
    /// nothing changes. `backoff_delay` is the default-mode wait after this
    /// probe: the timeout scaled by the backoff factor to the power of the
    /// probes sent before it.
    pub fn record_send(
        &mut self,
        idx: usize,
        seq: u16,
        sent: bool,
        sent_at: Instant,
        now: Instant,
        backoff_delay: Duration,
    )
        requires
            old(self).wf(),
            idx < old(self).hosts@.len(),
            now@ <= MAX_DURATION_NANOS,
            sent_at@ <= MAX_DURATION_NANOS,
            sent && !has_seq(old(self).pending@, seq) ==> {
                &&& old(self).hosts@[idx as int].num_sent < u32::MAX
                &&& old(self).hosts@[idx as int].current_ping_index < u32::MAX
            },
        ensures
            final(self).wf(),
            final(self).config == old(self).config,
            final(self).seq_counter == old(self).seq_counter,
            final(self).max_len == old(self).max_len,
            final(self).start == old(self).start,
            old(self).schedule_wf() ==> final(self).schedule_wf(),
            final(self).hosts@.len() == old(self).hosts@.len(),
            !(sent && !has_seq(old(self).pending@, seq)) ==> {
                &&& final(self).hosts@ == old(self).hosts@
                &&& final(self).pending@ == old(self).pending@
            },
            sent && !has_seq(old(self).pending@, seq) ==> {
                let h0 = old(self).hosts@[idx as int];
                let h1 = final(self).hosts@[idx as int];
                &&& final(self).pending@ == old(self).pending@.push(
                    (seq, PendingPing { host_index: idx, ping_index: h0.current_ping_index, sent_at }),
                )
                &&& h1.num_sent == h0.num_sent + 1
                &&& h1.last_send == Some(sent_at)
                &&& h1.current_ping_index == h0.current_ping_index + 1
                &&& h1.next_send@ == scheduled_next(old(self).config, h0.current_ping_index, sent_at, now, backoff_delay)
                &&& h1 == (HostEntry {
                    num_sent: h1.num_sent,
                    last_send: h1.last_send,
                    current_ping_index: h1.current_ping_index,
                    next_send: h1.next_send,
                    ..h0
                })
                &&& forall|k: int| 0 <= k < old(self).hosts@.len() && k != idx ==> final(self).hosts@[k] == old(self).hosts@[k]
            },
    {
        if !sent || self.is_pending(seq) {
            return;
        }
        let ghost p0 = self.pending@;
        let ghost hs0 = self.hosts@;
        let ping_idx = self.hosts[idx].current_ping_index;
        self.pending.push((seq, PendingPing { host_index: idx, ping_index: ping_idx, sent_at }));
        let day = Duration::from_secs(86400);
        let index = ping_idx + 1;
        let mut next = if self.config.count.is_some() || self.config.loop_mode {
            sent_at.add(self.config.period)
        } else {
            sent_at.add(backoff_delay)
        };
        match self.config.count {
            Some(c) => {
                if index >= c {
                    next = now.add(day);
                }
            },
            None => {},
        }
        if self.config.default_mode() && index > self.config.retry {
            next = now.add(day);
        }
        self.hosts[idx].num_sent = self.hosts[idx].num_sent + 1;
        self.hosts[idx].last_send = Some(sent_at);
        self.hosts[idx].next_send = next;
        self.hosts[idx].current_ping_index = index;
        proof {
            let e = (seq, PendingPing { host_index: idx, ping_index: ping_idx, sent_at });
            assert forall|k: int| 0 <= k < self.hosts@.len() implies #[trigger] self.hosts@[k].num_recv + pending_for(self.pending@, k) <= self.hosts@[k].num_sent by {
                lemma_pending_for_push(p0, e, k);
            }
            assert forall|i: int, j: int| 0 <= i < self.pending@.len() && 0 <= j < self.pending@.len() && i != j implies self.pending@[i].0 != self.pending@[j].0 by {
                if i == p0.len() as int {
                    assert(p0[j].0 != seq);
                } else if j == p0.len() as int {
                    assert(p0[i].0 != seq);
                }
            }
            assert forall|k: int| 0 <= k < self.pending@.len() implies #[trigger] self.pending@[k].1.host_index < self.hosts@.len() by {
                if k < p0.len() {
                    assert(self.pending@[k] == p0[k]);
                }
            }
            assert forall|k: int| 0 <= k < self.hosts@.len() implies #[trigger] self.hosts@[k].stats_wf() by {
                if k != idx {
                    assert(self.hosts@[k] == hs0[k]);
                } else {
                    assert(hs0[k].stats_wf());
                }
            }
        }
    }

    /// Whether counting a reply with sequence number `seq` at `now` keeps the
    /// host's total round-trip time representable.
    pub open spec fn reply_recordable(&self, seq: u16, now: Instant) -> bool {
        has_seq(self.pending@, seq) ==> {
            let e = self.pending@[seq_index(self.pending@, seq)].1;
            elapsed(now, e.sent_at) <= self.config.timeout@ ==>
                self.hosts@[e.host_index as int].total_time@ + elapsed(now, e.sent_at) <= MAX_DURATION_NANOS
        }
    }

    /// The position of the pending probe with sequence number `seq`, if any.
    fn find_pending(&self, seq: u16) -> (r: Option<usize>)
        requires
            seqs_unique(self.pending@),
        ensures
            r is None <==> !has_seq(self.pending@, seq),
            r matches Some(i) ==> i == seq_index(self.pending@, seq) && i < self.pending@.len() && self.pending@[i as int].0 == seq,
    {
        let mut i: usize = 0;
        while i < self.pending.len()
            invariant
                i <= self.pending@.len(),
                seqs_unique(self.pending@),
                forall|k: int| 0 <= k < i ==> self.pending@[k].0 != seq,
            decreases self.pending.len() - i,
        {
            if self.pending[i].0 == seq {
                proof {
                    assert(self.pending@[i as int].0 == seq);
                    assert(has_seq(self.pending@, seq));
                    let j = seq_index(self.pending@, seq);
                    assert(self.pending@[j].0 == seq);
                    assert(j == i);
                }
                return Some(i);
            }
            i += 1;
        }
        None
    }

    /// Decides `reply_recordable`.
    pub fn can_record_reply(&self, seq: u16, now: Instant) -> (b: bool)
        requires
            self.wf(),
            now@ <= MAX_DURATION_NANOS,
        ensures
            b == self.reply_recordable(seq, now),
    {
        match self.find_pending(seq) {
            None => true,
            Some(i) => {
                let e = self.pending[i].1;
                let el = now.duration_since(e.sent_at);
                if el.exceeds(&self.config.timeout) {
                    true
                } else {
                    let total = self.hosts[e.host_index].total_time.as_nanos();
                    total <= MAX_DURATION_NANOS - el.as_nanos()
                }
            },
        }
    }

    /// Handles a reply with sequence number `seq` read at `now`. A reply to
    /// no pending probe is ignored. A reply later than the timeout drops its
    /// probe. Otherwise the probe is no longer pending and the reply is
    /// counted for its host with the elapsed time as round-trip time (see
    /// `recorded_times` for where the time is kept); in
    /// default mode the first reply finishes the host.
    pub fn handle_reply(&mut self, seq: u16, now: Instant) -> (out: ReplyOutcome)
        requires
            old(self).wf(),
            now@ <= MAX_DURATION_NANOS,
            old(self).reply_recordable(seq, now),
        ensures
            final(self).wf(),
            final(self).config == old(self).config,
            final(self).seq_counter == old(self).seq_counter,
            final(self).max_len == old(self).max_len,
            final(self).start == old(self).start,
            old(self).schedule_wf() ==> final(self).schedule_wf(),
            final(self).hosts@.len() == old(self).hosts@.len(),
            !has_seq(old(self).pending@, seq) ==> {
                &&& out is Unknown
                &&& final(self).hosts@ == old(self).hosts@
                &&& final(self).pending@ == old(self).pending@
            },
            has_seq(old(self).pending@, seq) ==> {
                let i = seq_index(old(self).pending@, seq);
                let e = old(self).pending@[i].1;
                let el = elapsed(now, e.sent_at);
                let hi = e.host_index as int;
                let h0 = old(self).hosts@[hi];
                let h1 = final(self).hosts@[hi];
                &&& final(self).pending@ == old(self).pending@.remove(i)
                &&& el > old(self).config.timeout@ ==> {
                    &&& out is Late
                    &&& final(self).hosts@ == old(self).hosts@
                }
                &&& el <= old(self).config.timeout@ ==> {
                    &&& out matches ReplyOutcome::Recorded { host_index, ping_index, rtt, first_reply, report }
                    &&& host_index == e.host_index
                    &&& ping_index == e.ping_index
                    &&& rtt@ == el
                    &&& first_reply == (h0.num_recv == 0)
                    &&& report == reply_report(old(self).config, h0.num_recv == 0)
                    &&& h1.num_recv == h0.num_recv + 1
                    &&& h1.total_time@ == h0.total_time@ + el
                    &&& h1.max_reply matches Some(m) && m@ == crate::types::spec_max_of(h0.max_reply, rtt)
                    &&& h1.min_reply matches Some(m) && m@ == crate::types::spec_min_of(h0.min_reply, rtt)
                    &&& h1.resp_times@ == recorded_times(old(self).config, h0.resp_times@, e.ping_index, rtt)
                    &&& h1.done == (h0.done || (old(self).config.is_default_mode() && h0.num_recv == 0))
                    &&& h1 == (HostEntry {
                        num_recv: h1.num_recv,
                        total_time: h1.total_time,
                        max_reply: h1.max_reply,
                        min_reply: h1.min_reply,
                        resp_times: h1.resp_times,
                        done: h1.done,
                        ..h0
                    })
                    &&& forall|k: int| 0 <= k < old(self).hosts@.len() && k != hi ==> final(self).hosts@[k] == old(self).hosts@[k]
                }
            },
    {
        let i = match self.find_pending(seq) {
            None => {
                return ReplyOutcome::Unknown;
            },
            Some(i) => i,
        };
        let ghost p0 = self.pending@;
        let ghost hs0 = self.hosts@;
        let e = self.pending[i].1;
        let el = now.duration_since(e.sent_at);
        let hi = e.host_index;
        proof {
            assert(p0[i as int].1.host_index < hs0.len());
            assert forall|k: int| 0 <= k < hs0.len() implies pending_for(p0, k) == pending_for(p0.remove(i as int), k) + (if k == hi { 1nat } else { 0nat }) by {
                lemma_pending_for_remove(p0, i as int, k);
            }
        }
        self.pending.remove(i);
        proof {
            assert forall|a: int, b: int| 0 <= a < self.pending@.len() && 0 <= b < self.pending@.len() && a != b implies self.pending@[a].0 != self.pending@[b].0 by {
                let a0 = if a < i { a } else { a + 1 };
                let b0 = if b < i { b } else { b + 1 };
                assert(self.pending@[a] == p0[a0]);
                assert(self.pending@[b] == p0[b0]);
            }
            assert forall|k: int| 0 <= k < self.pending@.len() implies #[trigger] self.pending@[k].1.host_index < self.hosts@.len() by {
                let k0 = if k < i { k } else { k + 1 };
                assert(self.pending@[k] == p0[k0]);
            }
        }
        if el.exceeds(&self.config.timeout) {
            return ReplyOutcome::Late;
        }
        proof {
            assert(hs0[hi as int].stats_wf());
        }
        let first = self.hosts[hi].num_recv == 0;
        if self.config.count.is_some() {
            self.hosts[hi].record_reply(el, e.ping_index);
        } else {
            self.hosts[hi].log_reply(el);
        }
        if self.config.default_mode() && first {
            self.hosts[hi].done = true;
        }
        proof {
            assert forall|k: int| 0 <= k < self.hosts@.len() implies #[trigger] self.hosts@[k].stats_wf() by {
                if k != hi {
                    assert(self.hosts@[k] == hs0[k]);
                }
            }
            assert forall|k: int| 0 <= k < self.hosts@.len() implies #[trigger] self.hosts@[k].num_recv + pending_for(self.pending@, k) <= self.hosts@[k].num_sent by {
                if k != hi {
                    assert(self.hosts@[k] == hs0[k]);
                }
            }
            if old(self).schedule_wf() {
                assert forall|k: int| 0 <= k < self.hosts@.len() implies #[trigger] host_scheduled(self.config, self.start, k, self.hosts@[k]) by {
                    assert(host_scheduled(self.config, self.start, k, hs0[k]));
                }
            }
        }
        let report = if self.config.quiet || self.config.unreach {
            Report::Nothing
        } else if self.config.default_mode() {
            if first {
                Report::Alive
            } else {
                Report::Nothing
            }
        } else {
            Report::Recv
        };
        ReplyOutcome::Recorded { host_index: hi, ping_index: e.ping_index, rtt: el, first_reply: first, report }
    }

    /// Drops every pending probe that has expired at `now` and returns host
    /// and probe number of those to report as timed out.
    pub fn expire(&mut self, now: Instant) -> (notices: Vec<(usize, u32)>)
        requires
            old(self).wf(),
            now@ <= MAX_DURATION_NANOS,
        ensures
            final(self).wf(),
            final(self).pending@ == fresh_entries(old(self).pending@, now, old(self).config.timeout),
            notices@ == timeout_notices(old(self).config, old(self).hosts@, old(self).pending@, now),
            final(self).hosts == old(self).hosts,
            final(self).config == old(self).config,
            final(self).seq_counter == old(self).seq_counter,
            final(self).max_len == old(self).max_len,
            final(self).start == old(self).start,
            old(self).schedule_wf() ==> final(self).schedule_wf(),
    {
        let ghost p0 = self.pending@;
        let report = !self.config.default_mode() && !self.config.quiet && !self.config.alive;
        let only_unreach = self.config.unreach;
        let mut kept: Vec<(u16, PendingPing)> = Vec::new();
        let mut notices: Vec<(usize, u32)> = Vec::new();
        let mut i: usize = 0;
        while i < self.pending.len()
            invariant
                self.pending@ == p0,
                i <= p0.len(),
                report == reports_timeouts(self.config),
                only_unreach == self.config.unreach,
                now@ <= MAX_DURATION_NANOS,
                forall|k: int| 0 <= k < p0.len() ==> #[trigger] p0[k].1.host_index < self.hosts@.len(),
                kept@ == fresh_entries(p0.take(i as int), now, self.config.timeout),
                notices@ == timeout_notices(self.config, self.hosts@, p0.take(i as int), now),
            decreases self.pending.len() - i,
        {
            let e = self.pending[i];
            proof {
                assert(p0.take(i + 1).drop_last() =~= p0.take(i as int));
                assert(p0.take(i + 1).last() == e);
            }
            let el = now.duration_since(e.1.sent_at);
            if el.exceeds(&self.config.timeout) {
                if report && (!only_unreach || self.hosts[e.1.host_index].num_recv == 0) {
                    notices.push((e.1.host_index, e.1.ping_index));
                }
            } else {
                kept.push(e);
            }
            i += 1;
        }
        proof {
            assert(p0.take(i as int) =~= p0);
            lemma_fresh_unique(p0, now, self.config.timeout);
            lemma_fresh_subset(p0, now, self.config.timeout);
            assert forall|h: int| 0 <= h < self.hosts@.len() implies pending_for(kept@, h) <= pending_for(p0, h) by {
                lemma_fresh_count(p0, now, self.config.timeout, h);
            }
            assert forall|k: int| 0 <= k < kept@.len() implies #[trigger] kept@[k].1.host_index < self.hosts@.len() by {
                let j = choose|j: int| 0 <= j < p0.len() && kept@[k] == p0[j];
                assert(p0[j].1.host_index < self.hosts@.len());
            }
        }
        self.pending = kept;
        notices
    }

    /// Marks the hosts that are finished at `now` (see `becomes_done`) as
    /// done.
    pub fn update_done(&mut self, now: Instant)
        requires
            old(self).wf(),
            now@ <= MAX_DURATION_NANOS,
        ensures
            final(self).wf(),
            final(self).pending == old(self).pending,
            final(self).config == old(self).config,
            final(self).seq_counter == old(self).seq_counter,
            final(self).max_len == old(self).max_len,
            final(self).start == old(self).start,
            old(self).schedule_wf() ==> final(self).schedule_wf(),
            final(self).hosts@.len() == old(self).hosts@.len(),
            forall|k: int| 0 <= k < old(self).hosts@.len() ==> {
                let h0 = old(self).hosts@[k];
                let h1 = #[trigger] final(self).hosts@[k];
                &&& h1.done == (h0.done || becomes_done(old(self).config, h0, now))
                &&& h1 == (HostEntry { done: h1.done, ..h0 })
            },
    {
        let ghost hs0 = self.hosts@;
        let mut i: usize = 0;
        while i < self.hosts.len()
            invariant
                i <= self.hosts@.len(),
                self.hosts@.len() == hs0.len(),
                hs0 == old(self).hosts@,
                old(self).wf(),
                self.pending == old(self).pending,
                self.config == old(self).config,
                self.seq_counter == old(self).seq_counter,
                self.max_len == old(self).max_len,
                self.start == old(self).start,
                now@ <= MAX_DURATION_NANOS,
                forall|k: int| 0 <= k < hs0.len() ==> {
                    let h0 = hs0[k];
                    let h1 = #[trigger] self.hosts@[k];
                    &&& k < i ==> h1.done == (h0.done || becomes_done(self.config, h0, now))
                    &&& k >= i ==> h1.done == h0.done
                    &&& h1 == (HostEntry { done: h1.done, ..h0 })
                },
            decreases self.hosts.len() - i,
        {
            if !self.hosts[i].done {
                let last_expired = match self.hosts[i].last_send {
                    Some(s) => now.duration_since(s).exceeds(&self.config.timeout),
                    None => false,
                };
                let finished = match self.config.count {
                    Some(c) => self.hosts[i].current_ping_index >= c && last_expired,
                    None => !self.config.loop_mode && (self.hosts[i].num_recv > 0 || (
                    self.hosts[i].num_sent > self.config.retry && last_expired)),
                };
                if finished {
                    self.hosts[i].done = true;
                }
            }
            i += 1;
        }
        proof {
            assert forall|h: int| 0 <= h < self.hosts@.len() implies #[trigger] self.hosts@[h].stats_wf() by {
                assert(hs0[h].stats_wf());
            }
            assert forall|h: int| 0 <= h < self.hosts@.len() implies #[trigger] self.hosts@[h].num_recv + pending_for(self.pending@, h) <= self.hosts@[h].num_sent by {
                assert(hs0[h].num_recv + pending_for(self.pending@, h) <= hs0[h].num_sent);
            }
            if old(self).schedule_wf() {
                assert forall|h: int| 0 <= h < self.hosts@.len() implies #[trigger] host_scheduled(self.config, self.start, h, self.hosts@[h]) by {
                    assert(host_scheduled(self.config, self.start, h, hs0[h]));
                }
            }
        }
    }

    /// The hosts reported unreachable at the end of a default-mode run (not
    /// when quiet, nor when only alive hosts are shown): those that got no
    /// reply, in order.
    pub fn unreachable_report(&self) -> (ids: Vec<usize>)
        ensures
            ids@ == (if self.config.is_default_mode() && !self.config.quiet && !self.config.alive {
                silent_indices(self.hosts@, self.hosts@.len())
            } else {
                Seq::empty()
            }),
    {
        let mut ids: Vec<usize> = Vec::new();
        if !self.config.default_mode() || self.config.quiet || self.config.alive {
            return ids;
        }
        let mut i: usize = 0;
        while i < self.hosts.len()
            invariant
                i <= self.hosts@.len(),
                ids@ == silent_indices(self.hosts@, i as nat),
            decreases self.hosts.len() - i,
        {
            if self.hosts[i].num_recv == 0 {
                ids.push(i);
            }
            i += 1;
        }
        ids
    }

    /// The hosts listed at the end of a count or loop run: with `-a` those
    /// with replies, with `-u` those without, in order.
    pub fn listed_report(&self) -> (ids: Vec<usize>)
        ensures
            ids@ == (if !self.config.is_default_mode() {
                listed_indices(self.hosts@, self.hosts@.len(), self.config.alive, self.config.unreach)
            } else {
                Seq::empty()
            }),
    {
        let mut ids: Vec<usize> = Vec::new();
        if self.config.default_mode() {
            return ids;
        }
        let mut i: usize = 0;
        while i < self.hosts.len()
            invariant
                i <= self.hosts@.len(),
                ids@ == listed_indices(self.hosts@, i as nat, self.config.alive, self.config.unreach),
            decreases self.hosts.len() - i,
        {
            if self.config.alive && self.hosts[i].num_recv > 0 {
                ids.push(i);
            }
            if self.config.unreach && self.hosts[i].num_recv == 0 {
                ids.push(i);
            }
            i += 1;
        }
        ids
    }

    /// Whether per-host statistics are printed at the end: in count mode,
    /// unless hosts are listed with `-a` or `-u`.
    pub fn shows_per_host_stats(&self) -> (b: bool)
        ensures
            b == (self.config.count is Some && !self.config.alive && !self.config.unreach),
    {
        self.config.count.is_some() && !self.config.alive && !self.config.unreach
    }

    /// The time shown on the "is alive" line of a reply that took `rtt`:
    /// the time with `-e`, none otherwise.
    pub fn alive_elapsed(&self, rtt: Duration) -> (r: Option<Duration>)
        ensures
            r == (if self.config.show_elapsed { Some(rtt) } else { None::<Duration> }),
    {
        if self.config.show_elapsed {
            Some(rtt)
        } else {
            None
        }
    }

    /// Whether the per-host statistics list every response time.
    pub fn per_host_verbose(&self) -> (b: bool)
        ensures
            b == (self.config.verbose_count || self.config.report_all_rtts),
    {
        self.config.verbose_count || self.config.report_all_rtts
    }

    /// All recorded response times, host after host.
    fn collect_rtts(&self) -> (ds: Vec<Duration>)
        ensures
            ds@ == all_rtts(self.hosts@),
    {
        let mut ds: Vec<Duration> = Vec::new();
        let mut i: usize = 0;
        while i < self.hosts.len()
            invariant
                i <= self.hosts@.len(),
                ds@ == all_rtts(self.hosts@.take(i as int)),
            decreases self.hosts.len() - i,
        {
            let rs = &self.hosts[i].resp_times;
            let ghost base = ds@;
            let mut k: usize = 0;
            while k < rs.len()
                invariant
                    k <= rs@.len(),
                    ds@ == base + some_values(rs@.take(k as int)),
                decreases rs.len() - k,
            {
                proof {
                    assert(rs@.take(k + 1).drop_last() =~= rs@.take(k as int));
                }
                match rs[k] {
                    Some(d) => {
                        ds.push(d);
                        proof {
                            assert(base + some_values(rs@.take(k + 1)) =~= (base + some_values(rs@.take(k as int))).push(d));
                        }
                    },
                    None => {},
                }
                k += 1;
            }
            proof {
                assert(rs@.take(k as int) =~= rs@);
                lemma_total_sent_prefix(self.hosts@, i as int);
            }
            i += 1;
        }
        proof {
            assert(self.hosts@.take(i as int) =~= self.hosts@);
        }
        ds
    }

    /// Decides `summary_computable` for the hosts of the run.
    pub fn can_summarize(&self) -> (b: bool)
        ensures
            b == summary_computable(self.hosts@),
    {
        let hs = &self.hosts;
        let mut sent: u64 = 0;
        let mut recv: u64 = 0;
        let mut i: usize = 0;
        while i < hs.len()
            invariant
                i <= hs@.len(),
                hs@ == self.hosts@,
                sent == total_sent(hs@.take(i as int)),
                recv == total_recv(hs@.take(i as int)),
                sent <= u32::MAX,
                recv <= u32::MAX,
            decreases hs.len() - i,
        {
            proof {
                lemma_total_sent_prefix(hs@, i as int);
                lemma_totals_monotone(hs@, i + 1);
            }
            sent = sent + hs[i].num_sent as u64;
            recv = recv + hs[i].num_recv as u64;
            if sent > 4294967295 || recv > 4294967295 {
                return false;
            }
            i += 1;
        }
        proof {
            assert(hs@.take(i as int) =~= hs@);
        }
        let ds = self.collect_rtts();
        let mut sum: u128 = 0;
        let mut k: usize = 0;
        while k < ds.len()
            invariant
                k <= ds@.len(),
                ds@ == all_rtts(self.hosts@),
                sum == total_nanos(ds@.take(k as int)),
                sum <= MAX_DURATION_NANOS,
            decreases ds.len() - k,
        {
            let d = ds[k].as_nanos();
            proof {
                assert(ds@.take(k + 1) =~= ds@.take(k as int).push(ds@[k as int]));
                lemma_total_nanos_push(ds@.take(k as int), ds@[k as int]);
                lemma_total_nanos_append(ds@.take(k + 1), ds@.skip(k + 1));
                assert(ds@.take(k + 1) + ds@.skip(k + 1) =~= ds@);
            }
            if d > MAX_DURATION_NANOS - sum {
                return false;
            }
            sum = sum + d;
            k += 1;
        }
        proof {
            assert(ds@.take(k as int) =~= ds@);
        }
        let n = ds.len();
        n == 0 || (#[verifier::truncate] (n as u32)) != 0
    }

    /// The global statistics of the run, `elapsed` after its start.
    pub fn global_summary(&self, elapsed: Duration) -> (g: GlobalStatsSummary)
        requires
            summary_computable(self.hosts@),
        ensures
            g.num_hosts == self.hosts@.len(),
            g.num_alive == count_alive(self.hosts@),
            g.num_unreachable == self.hosts@.len() - count_alive(self.hosts@),
            g.total_sent == total_sent(self.hosts@),
            g.total_recv == total_recv(self.hosts@),
            all_rtts(self.hosts@).len() == 0 ==> g.min_rtt is None && g.avg_rtt is None && g.max_rtt is None,
            all_rtts(self.hosts@).len() > 0 ==> {
                &&& g.min_rtt matches Some(m) && m@ == min_nanos(all_rtts(self.hosts@))
                &&& g.max_rtt matches Some(m) && m@ == max_nanos(all_rtts(self.hosts@))
                &&& g.avg_rtt matches Some(a) && a@ == total_nanos(all_rtts(self.hosts@)) / ((all_rtts(self.hosts@).len() as u32) as nat)
            },
            g.elapsed == elapsed,
    {
        let hs = &self.hosts;
        let mut sent: u32 = 0;
        let mut recv: u32 = 0;
        let mut alive: usize = 0;
        let mut i: usize = 0;
        while i < hs.len()
            invariant
                i <= hs@.len(),
                summary_computable(hs@),
                sent == total_sent(hs@.take(i as int)),
                recv == total_recv(hs@.take(i as int)),
                alive == count_alive(hs@.take(i as int)),
                alive <= i,
            decreases hs.len() - i,
        {
            proof {
                lemma_total_sent_prefix(hs@, i as int);
                lemma_totals_monotone(hs@, i + 1);
            }
            sent = sent + hs[i].num_sent;
            recv = recv + hs[i].num_recv;
            if hs[i].num_recv > 0 {
                alive = alive + 1;
            }
            i += 1;
        }
        proof {
            assert(hs@.take(i as int) =~= hs@);
        }
        let ds = self.collect_rtts();
        let mut sum = Duration::zero();
        let mut mn: Option<Duration> = None;
        let mut mx: Option<Duration> = None;
        let mut k: usize = 0;
        while k < ds.len()
            invariant
                k <= ds@.len(),
                ds@ == all_rtts(hs@),
                summary_computable(hs@),
                sum@ == total_nanos(ds@.take(k as int)),
                k == 0 ==> mn is None && mx is None,
                k > 0 ==> (mn matches Some(m) && m@ == min_nanos(ds@.take(k as int))),
                k > 0 ==> (mx matches Some(m) && m@ == max_nanos(ds@.take(k as int))),
            decreases ds.len() - k,
        {
            let d = ds[k];
            proof {
                assert(ds@.take(k + 1) =~= ds@.take(k as int).push(d));
                lemma_total_nanos_push(ds@.take(k as int), d);
                lemma_total_nanos_append(ds@.take(k + 1), ds@.skip(k + 1));
                assert(ds@.take(k + 1) + ds@.skip(k + 1) =~= ds@);
            }
            sum = sum.add(d);
            mn = Some(
                match mn {
                    Some(m) => if d.as_nanos() < m.as_nanos() { d } else { m },
                    None => d,
                },
            );
            mx = Some(
                match mx {
                    Some(m) => if d.as_nanos() > m.as_nanos() { d } else { m },
                    None => d,
                },
            );
            k += 1;
        }
        proof {
            assert(ds@.take(k as int) =~= ds@);
        }
        let n = ds.len();
        let avg = if n > 0 {
            Some(sum.div(#[verifier::truncate] (n as u32)))
        } else {
            None
        };
        proof {
            lemma_count_alive_bound(hs@);
        }
        GlobalStatsSummary {
            num_hosts: hs.len(),
            num_alive: alive,
            num_unreachable: hs.len() - alive,
            total_sent: sent,
            total_recv: recv,
            min_rtt: mn,
            avg_rtt: avg,
            max_rtt: mx,
            elapsed,
        }
    }

    /// Whether the run counts as a success: at least `-x` hosts replied, or
    /// without `-x` every host replied.
    pub fn exit_ok(&self) -> (b: bool)
        ensures
            b == (match self.config.reachable {
                Some(m) => (count_alive(self.hosts@) as u32) >= m,
                None => count_alive(self.hosts@) == self.hosts@.len(),
            }),
    {
        let hs = &self.hosts;
        let mut alive: usize = 0;
        let mut i: usize = 0;
        while i < hs.len()
            invariant
                i <= hs@.len(),
                alive == count_alive(hs@.take(i as int)),
                alive <= i,
            decreases hs.len() - i,
        {
            proof {
                lemma_total_sent_prefix(hs@, i as int);
            }
            if hs[i].num_recv > 0 {
                alive = alive + 1;
            }
            i += 1;
        }
        proof {
            assert(hs@.take(i as int) =~= hs@);
        }
        match self.config.reachable {
            Some(m) => (#[verifier::truncate] (alive as u32)) >= m,
            None => alive == hs.len(),
        }
    }

    /// Whether some host is of the given address family; a socket of that
    /// family is needed exactly then.
    pub fn has_family(&self, is_ipv6: bool) -> (b: bool)
        ensures
            b == exists|h: int| 0 <= h < self.hosts@.len() && #[trigger] self.hosts@[h].is_ipv6 == is_ipv6,
    {
        let mut i: usize = 0;
        while i < self.hosts.len()
            invariant
                i <= self.hosts@.len(),
                forall|h: int| 0 <= h < i ==> #[trigger] self.hosts@[h].is_ipv6 != is_ipv6,
            decreases self.hosts.len() - i,
        {
            if self.hosts[i].is_ipv6 == is_ipv6 {
                return true;
            }
            i += 1;
        }
        false
    }
}

/// The identifier put into echo requests: the one the kernel gave the IPv4
/// datagram socket, else the one of the IPv6 datagram socket, else the low
/// 16 bits of the process id.
pub fn choose_ident(dgram_id4: Option<u16>, dgram_id6: Option<u16>, pid: u32) -> (id: u16)
    ensures
        id == (match dgram_id4 {
            Some(a) => a,
            None => match dgram_id6 {
                Some(b) => b,
                None => (pid % 65536) as u16,
            },
        }),
{
    match dgram_id4 {
        Some(a) => a,
        None => match dgram_id6 {
            Some(b) => b,
            None => (pid % 65536) as u16,
        },
    }
}

/// The identifier expected in replies read from a socket: the one the
/// kernel gave a datagram socket (it rewrites the identifier), else ours.
pub fn expected_ident(dgram_id: Option<u16>, my_id: u16) -> (id: u16)
    ensures
        id == (match dgram_id {
            Some(a) => a,
            None => my_id,
        }),
{
    match dgram_id {
        Some(a) => a,
        None => my_id,
    }
}

/// Law: in every state of a run, no host has more replies than probes
/// sent, so its loss is between 0 and 100 percent.
pub proof fn lemma_replies_never_exceed_sent(p: Pinger, h: int)
    requires
        p.wf(),
        0 <= h < p.hosts@.len(),
    ensures
        p.hosts@[h].num_recv <= p.hosts@[h].num_sent,
        crate::types::loss_percent(p.hosts@[h].num_sent, p.hosts@[h].num_recv) <= 100,
{
    assert(p.hosts@[h].num_recv + pending_for(p.pending@, h) <= p.hosts@[h].num_sent);
    let n = p.hosts@[h].num_sent as int;
    let r = p.hosts@[h].num_recv as int;
    if n > 0 {
        vstd::arithmetic::div_mod::lemma_div_is_ordered((n - r) * 100, n * 100, n);
        vstd::arithmetic::div_mod::lemma_div_multiples_vanish(100, n);
        assert(n * 100 == 100 * n) by (nonlinear_arith);
    }
}

/// Law: a probe is matched by at most one reply: once a reply with its
/// sequence number was handled, no pending probe carries that number.
pub proof fn lemma_reply_matched_once(pending: Seq<(u16, PendingPing)>, seq: u16)
    requires
        seqs_unique(pending),
        has_seq(pending, seq),
    ensures
        !has_seq(pending.remove(seq_index(pending, seq)), seq),
{
    let i = seq_index(pending, seq);
    let q = pending.remove(i);
    if has_seq(q, seq) {
        let k = choose|k: int| 0 <= k < q.len() && q[k].0 == seq;
        let k0 = if k < i { k } else { k + 1 };
        assert(q[k] == pending[k0]);
    }
}

/// Law: a host is never probed before its turn. Its first probe is not due
/// earlier than `i` intervals after the start of the run, where `i` is its
/// position; in count and loop mode, while probes remain to be sent, a probe
/// is not due earlier than a period after the one before; in default mode,
/// while retries remain, not before the one before.
pub proof fn lemma_probes_keep_schedule(p: Pinger, i: int, now: Instant)
    requires
        p.schedule_wf(),
        0 <= i < p.hosts@.len(),
        p.hosts@[i].next_send@ <= now@,
    ensures
        p.hosts@[i].last_send is None ==> now@ >= p.start@ + p.config.interval@ * start_slot(i),
        p.hosts@[i].last_send is Some && (p.config.count is Some || p.config.loop_mode)
            && !(p.config.count is Some && p.hosts@[i].current_ping_index >= p.config.count.unwrap())
            ==> now@ >= p.hosts@[i].last_send.unwrap()@ + p.config.period@,
        p.hosts@[i].last_send is Some && p.config.is_default_mode()
            && p.hosts@[i].current_ping_index <= p.config.retry ==> now@ >= p.hosts@[i].last_send.unwrap()@,
{
    assert(host_scheduled(p.config, p.start, i, p.hosts@[i]));
}

/// Law: default-mode retries. After a probe is sent, while the host has
/// sent at most `retry` probes (the first try and up to `retry` retries),
/// its next probe is due exactly the backoff delay after this one was sent;
/// only once it has sent more than `retry` probes is it pushed back a day
/// from `now`.
pub proof fn lemma_default_mode_retries(
    config: PingConfig,
    old_index: u32,
    sent_at: Instant,
    now: Instant,
    backoff_delay: Duration,
)
    requires
        config.count is None,
        !config.loop_mode,
    ensures
        old_index + 1 <= config.retry ==> scheduled_next(config, old_index, sent_at, now, backoff_delay)
            == sent_at@ + backoff_delay@,
        old_index + 1 > config.retry ==> scheduled_next(config, old_index, sent_at, now, backoff_delay)
            == now@ + 86_400_000_000_000,
{
}

/// Law: in count and loop mode a host's next probe follows a period after
/// the one just sent, until (with a count) the last probe has been sent.
pub proof fn lemma_count_and_loop_period(
    config: PingConfig,
    old_index: u32,
    sent_at: Instant,
    now: Instant,
    backoff_delay: Duration,
)
    requires
        config.count is Some || config.loop_mode,
        !(config.count is Some && old_index + 1 >= config.count.unwrap()),
    ensures
        scheduled_next(config, old_index, sent_at, now, backoff_delay) == sent_at@ + config.period@,
{
}

/// Law: when a default-mode host is finished. A host with a reply is
/// finished at once; a host without one is finished exactly when it has sent
/// more than `retry` probes and its last probe is older than the timeout, so
/// a host that never replies sends `retry + 1` probes before it is given up.
pub proof fn lemma_default_mode_done(config: PingConfig, h: HostEntry, now: Instant)
    requires
        config.count is None,
        !config.loop_mode,
    ensures
        h.num_recv > 0 ==> becomes_done(config, h, now),
        h.num_recv == 0 ==> (becomes_done(config, h, now) <==> (h.num_sent > config.retry
            && h.last_send is Some && now@ > h.last_send.unwrap()@ + config.timeout@)),
{
}

/// Law: loop mode never finishes a host: it is probed forever.
pub proof fn lemma_loop_mode_never_done(config: PingConfig, h: HostEntry, now: Instant)
    requires
        config.count is None,
        config.loop_mode,
    ensures
        !becomes_done(config, h, now),
{
}

/// Law: what is printed about a counted reply. A quiet run, or one that
/// lists only unreachable hosts, prints nothing for any reply; otherwise in
/// count and loop mode every reply gets its reply line, and in default mode
/// only a host's first reply prints the "is alive" line.
pub proof fn lemma_reply_reports(config: PingConfig, first_reply: bool)
    ensures
        config.quiet ==> reply_report(config, first_reply) == Report::Nothing,
        config.unreach ==> reply_report(config, first_reply) == Report::Nothing,
        !config.quiet && !config.unreach && (config.count is Some || config.loop_mode)
            ==> reply_report(config, first_reply) == Report::Recv,
        !config.quiet && !config.unreach && config.count is None && !config.loop_mode
            ==> reply_report(config, first_reply) == (if first_reply { Report::Alive } else { Report::Nothing }),
{
}

/// Law: timeouts are never reported in default mode, in a quiet run or when
/// only alive hosts are listed; every notice is of a probe that has expired.
pub proof fn lemma_timeout_notices(config: PingConfig, hosts: Seq<HostEntry>, p: Seq<(u16, PendingPing)>, now: Instant)
    ensures
        (config.count is None && !config.loop_mode) || config.quiet || config.alive
            ==> timeout_notices(config, hosts, p, now).len() == 0,
        forall|k: int| 0 <= k < timeout_notices(config, hosts, p, now).len() ==>
            exists|j: int| 0 <= j < p.len() && elapsed(now, p[j].1.sent_at) > config.timeout@
                && #[trigger] timeout_notices(config, hosts, p, now)[k] == (p[j].1.host_index, p[j].1.ping_index),
    decreases p.len(),
{
    if p.len() > 0 {
        lemma_timeout_notices(config, hosts, p.drop_last(), now);
        let r = timeout_notices(config, hosts, p.drop_last(), now);
        let t = timeout_notices(config, hosts, p, now);
        assert forall|k: int| 0 <= k < t.len() implies exists|j: int| 0 <= j < p.len()
            && elapsed(now, p[j].1.sent_at) > config.timeout@ && #[trigger] t[k] == (p[j].1.host_index, p[j].1.ping_index) by {
            if k < r.len() {
                assert(t[k] == r[k]);
                let j = choose|j: int| 0 <= j < p.drop_last().len() && elapsed(now, p.drop_last()[j].1.sent_at) > config.timeout@
                    && r[k] == (p.drop_last()[j].1.host_index, p.drop_last()[j].1.ping_index);
                assert(p[j] == p.drop_last()[j]);
            } else {
                assert(t[k] == (p[p.len() - 1].1.host_index, p[p.len() - 1].1.ping_index));
            }
        }
    }
}

} // verus!
