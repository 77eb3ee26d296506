use vstd::prelude::*;

use crate::text::{
    decimal, decimal_string, fixed, lemma_pow10_38, lemma_pow10_monotone, lemma_pow10_positive,
    pad_left, pad_right, pow10, pow10_exec, push_char, round_div_exec, push_decimal, push_fixed, push_padded_left,
    push_padded_right, push_zero_padded, round_div, zero_padded,
};
use crate::types::loss_percent;
use crate::time::{Duration, MAX_DURATION_NANOS};
use crate::types::HostEntry;

verus! {

/// `floor(log10(n))` for `n >= 1` (zero for `n < 10`).
pub open spec fn log10_floor(n: nat) -> nat
    decreases n,
{
    if n < 10 {
        0
    } else {
        1 + log10_floor(n / 10)
    }
}

/// A time of `n` nanoseconds written in milliseconds in scientific notation
/// with three decimals of mantissa, e.g. `1.235e6`.
pub open spec fn scientific_ms(n: nat) -> Seq<char> {
    let e = log10_floor(n);
    let m = round_div(n, pow10((e - 3) as nat));
    let m2: nat = if m >= 10000 { 1000 } else { m };
    let e2: nat = if m >= 10000 { e + 1 } else { e };
    decimal(m2 / 1000) + seq!['.'] + zero_padded(m2 % 1000, 3) + seq!['e'] + decimal((e2 - 6) as nat)
}

/// How a round-trip time of `n` nanoseconds is shown, in milliseconds:
/// three decimals below 1 ms, two below 10 ms, one below 100 ms, none below
/// 10^6 ms, scientific notation from there on. The digits come from the
/// exact nanosecond count, rounded to nearest with an exact half to the
/// even digit, as the standard formatter rounds a float that holds the time
/// exactly. No floating point is involved: where the float of a time lies
/// next to an exact half (such as 5.5 microseconds, which is no binary
/// fraction), the float's digit may differ from the one shown here.
pub open spec fn time_text(n: nat) -> Seq<char> {
    if n < 1_000_000 {
        fixed(n, 6, 3)
    } else if n < 10_000_000 {
        fixed(n, 6, 2)
    } else if n < 100_000_000 {
        fixed(n, 6, 1)
    } else if n < 1_000_000_000_000 {
        fixed(n, 6, 0)
    } else {
        scientific_ms(n)
    }
}

proof fn lemma_log10_floor_bounds(n: nat)
    requires
        n >= 1,
    ensures
        pow10(log10_floor(n)) <= n < pow10(log10_floor(n) + 1),
    decreases n,
{
    if n >= 10 {
        lemma_log10_floor_bounds(n / 10);
    }
}

/// Formats a round-trip time in milliseconds with the precision fping uses
/// for its size, rounding the exact count as `time_text` says.
pub fn sprint_tm(d: Duration) -> (s: String)
    ensures
        s@ == time_text(d@),
{
    let n = d.as_nanos();
    let mut s = String::new();
    if n < 1_000_000 {
        push_fixed(&mut s, n, 6, 3);
    } else if n < 10_000_000 {
        push_fixed(&mut s, n, 6, 2);
    } else if n < 100_000_000 {
        push_fixed(&mut s, n, 6, 1);
    } else if n < 1_000_000_000_000 {
        push_fixed(&mut s, n, 6, 0);
    } else {
        proof {
            lemma_log10_floor_bounds(n as nat);
            lemma_pow10_38();
            if log10_floor(n as nat) >= 39 {
                lemma_pow10_monotone(39, log10_floor(n as nat));
            }
        }
        let mut e: u32 = 0;
        let mut t: u128 = n;
        while t >= 10
            invariant
                t >= 1,
                e + log10_floor(t as nat) == log10_floor(n as nat),
                log10_floor(n as nat) <= 38,
            decreases t,
        {
            t = t / 10;
            e = e + 1;
        }
        proof {
            lemma_log10_floor_bounds(n as nat);
            assert(e >= 12) by {
                if e < 12 {
                    lemma_pow10_monotone((e + 1) as nat, 12);
                    assert(pow10(12) == 1_000_000_000_000) by {
                        reveal_with_fuel(pow10, 13);
                    }
                }
            }
            lemma_pow10_positive((e - 3) as nat);
        }
        let p = pow10_exec(e - 3);
        let m = round_div_exec(n, p);
        let (m2, e2) = if m >= 10000 { (1000u128, e + 1) } else { (m, e) };
        push_decimal(&mut s, m2 / 1000);
        push_char(&mut s, '.');
        push_zero_padded(&mut s, m2 % 1000, 3);
        push_char(&mut s, 'e');
        push_decimal(&mut s, (e2 - 6) as u128);
    }
    proof {
        assert(s@ =~= time_text(d@));
    }
    s
}

/// How a wall-clock time of `n` nanoseconds since the Unix epoch is shown:
/// seconds with five decimals, in brackets.
pub open spec fn timestamp_text(n: nat) -> Seq<char> {
    seq!['['] + fixed(n, 9, 5) + seq![']']
}

#[verifier::external_type_specification]
#[verifier::external_body]
pub struct ExSystemTime(std::time::SystemTime);

/// Reads the system clock with `std::time::SystemTime::now`; nothing is
/// claimed of the time it returns.
#[verifier::external_body]
fn system_now() -> (t: std::time::SystemTime) {
    std::time::SystemTime::now()
}

/// `SystemTime::duration_since(UNIX_EPOCH)`: the span from the Unix epoch
/// to `t`, `None` when `t` lies before the epoch; nothing is claimed of
/// which of the two comes, nor of the span.
#[verifier::external_body]
fn since_unix_epoch(t: &std::time::SystemTime) -> (d: Option<core::time::Duration>) {
    match t.duration_since(std::time::UNIX_EPOCH) {
        Ok(d) => Some(d),
        Err(_) => None,
    }
}

/// `core::time::Duration::as_nanos`: the whole nanoseconds of a span. A
/// span holds at most `u64::MAX` seconds and 999_999_999 nanoseconds, so
/// the count is at most `MAX_DURATION_NANOS`; the span itself is opaque
/// here, so no more is claimed.
#[verifier::external_body]
fn span_nanos(d: &core::time::Duration) -> (n: u128)
    ensures
        n <= MAX_DURATION_NANOS,
{
    d.as_nanos()
}

/// Reads the system clock: the nanoseconds since the Unix epoch, or `None`
/// when the clock is set before the epoch.
fn clock_since_epoch() -> (r: Option<u128>)
    ensures
        r matches Some(n) ==> n <= MAX_DURATION_NANOS,
{
    let t = system_now();
    match since_unix_epoch(&t) {
        Some(d) => Some(span_nanos(&d)),
        None => None,
    }
}

/// The time shown for a clock reading: the nanoseconds since the epoch, or
/// zero for a clock set before the epoch.
pub open spec fn reading_nanos(since_epoch: Option<u128>) -> nat {
    match since_epoch {
        Some(n) => n as nat,
        None => 0,
    }
}

/// The bracketed timestamp of a clock reading, e.g. `[1711111111.12345]`;
/// `[0.00000]` for a clock set before the epoch.
pub fn timestamp_of(since_epoch: Option<u128>) -> (s: String)
    requires
        since_epoch matches Some(n) ==> n <= MAX_DURATION_NANOS,
    ensures
        s@ == timestamp_text(reading_nanos(since_epoch)),
{
    let n: u128 = match since_epoch {
        Some(n) => n,
        None => 0,
    };
    let mut s = String::new();
    push_char(&mut s, '[');
    push_fixed(&mut s, n, 9, 5);
    push_char(&mut s, ']');
    proof {
        assert(s@ =~= timestamp_text(n as nat));
    }
    s
}

/// The current wall-clock time as a bracketed timestamp: the clock is read
/// and shown by `timestamp_of`.
pub fn now_ts() -> (s: String)
    ensures
        exists|r: Option<u128>|
            (r matches Some(n) ==> n <= MAX_DURATION_NANOS) && s@ == timestamp_text(reading_nanos(r)),
{
    let r = clock_since_epoch();
    let s = timestamp_of(r);
    s
}

/// The prefix put before a line: the timestamp and a space when timestamps
/// are on, nothing otherwise.
pub fn line_prefix(timestamp: bool) -> (s: String)
    ensures
        !timestamp ==> s@ == Seq::<char>::empty(),
        timestamp ==> exists|r: Option<u128>|
            (r matches Some(n) ==> n <= MAX_DURATION_NANOS) && s@ == timestamp_text(reading_nanos(r)) + seq![' '],
{
    if timestamp {
        let mut s = now_ts();
        push_char(&mut s, ' ');
        s
    } else {
        String::new()
    }
}

/// Length in bytes of the name a host is shown under.
pub open spec fn display_len(h: HostEntry) -> usize {
    vstd::utf8::encode_utf8(h.display@).len() as usize
}

/// The longest `display_len` among `hosts`, zero when there are none.
pub open spec fn max_display_len(hosts: Seq<HostEntry>) -> usize
    decreases hosts.len(),
{
    if hosts.len() == 0 {
        0
    } else {
        let m = max_display_len(hosts.drop_last());
        let l = display_len(hosts.last());
        if l > m {
            l
        } else {
            m
        }
    }
}

/// Width of the host column: the longest shown name, in bytes.
pub fn max_host_len(hosts: &[HostEntry]) -> (m: usize)
    ensures
        m == max_display_len(hosts@),
{
    let mut m: usize = 0;
    let mut i: usize = 0;
    while i < hosts.len()
        invariant
            i <= hosts@.len(),
            m == max_display_len(hosts@.take(i as int)),
        decreases hosts.len() - i,
    {
        let l = hosts[i].display.as_str().len();
        assert(hosts@.take(i + 1).drop_last() =~= hosts@.take(i as int));
        if l > m {
            m = l;
        }
        i += 1;
    }
    assert(hosts@.take(i as int) =~= hosts@);
    m
}

/// `a` minus `b`, or zero when `b` is larger.
pub open spec fn saturating_diff(a: usize, b: usize) -> nat {
    if a >= b {
        (a - b) as nat
    } else {
        0
    }
}

/// The "is alive" line of a host; with `-e` (`elapsed` is the round-trip
/// time of the reply) the time follows in milliseconds.
pub open spec fn alive_text(display: Seq<char>, prefix: Seq<char>, json: bool, elapsed: Option<Duration>) -> Seq<char> {
    if json {
        "{\"alive\": {\"host\": \""@ + display + "\"}}"@
    } else {
        prefix + display + " is alive"@ + match elapsed {
            Some(d) => " ("@ + time_text(d@) + " ms)"@,
            None => Seq::empty(),
        }
    }
}

/// The "is unreachable" line of a host.
pub open spec fn unreachable_text(display: Seq<char>, prefix: Seq<char>, json: bool) -> Seq<char> {
    if json {
        "{\"unreachable\": {\"host\": \""@ + display + "\"}}"@
    } else {
        prefix + display + " is unreachable"@
    }
}

/// Builds the line announcing that `host` is alive.
pub fn alive_line(host: &HostEntry, prefix: &str, json: bool, elapsed: Option<Duration>) -> (s: String)
    ensures
        s@ == alive_text(host.display@, prefix@, json, elapsed),
{
    let mut s = String::new();
    if json {
        s.append("{\"alive\": {\"host\": \"");
        s.append(host.display.as_str());
        s.append("\"}}");
    } else {
        s.append(prefix);
        s.append(host.display.as_str());
        s.append(" is alive");
        match elapsed {
            Some(d) => {
                s.append(" (");
                let t = sprint_tm(d);
                s.append(t.as_str());
                s.append(" ms)");
            },
            None => {},
        }
    }
    proof {
        assert(s@ =~= alive_text(host.display@, prefix@, json, elapsed));
    }
    s
}

/// Builds the line announcing that `host` is unreachable.
pub fn unreachable_line(host: &HostEntry, prefix: &str, json: bool) -> (s: String)
    ensures
        s@ == unreachable_text(host.display@, prefix@, json),
{
    let mut s = String::new();
    if json {
        s.append("{\"unreachable\": {\"host\": \"");
        s.append(host.display.as_str());
        s.append("\"}}");
    } else {
        s.append(prefix);
        s.append(host.display.as_str());
        s.append(" is unreachable");
    }
    proof {
        assert(s@ =~= unreachable_text(host.display@, prefix@, json));
    }
    s
}

/// The mean round-trip time of `h` as shown, or nothing before the first
/// reply.
pub open spec fn avg_text(h: HostEntry) -> Seq<char> {
    if h.num_recv > 0 {
        time_text(h.total_time@ / (h.num_recv as nat))
    } else {
        Seq::empty()
    }
}

/// What a received reply is reported as.
pub struct RecvLineOpts<'a> {
    pub host: &'a HostEntry,
    pub ping_index: u32,
    pub rtt: Duration,
    pub raw_len: usize,
    pub max_len: usize,
    pub timestamp: bool,
    pub json: bool,
    pub verbose_count: bool,
}

/// Whether the loss of `h` can be computed without overflow.
pub open spec fn loss_defined(h: HostEntry) -> bool {
    &&& h.num_sent == 0 || h.num_recv <= h.num_sent
    &&& (h.num_sent - h.num_recv) * 100 <= u32::MAX
}

/// The line reporting a reply.
pub open spec fn recv_text(
    h: HostEntry,
    ping_index: u32,
    rtt: Duration,
    raw_len: usize,
    max_len: usize,
    prefix: Seq<char>,
    json: bool,
    verbose_count: bool,
) -> Seq<char> {
    if json {
        "{\"resp\": {\"host\": \""@ + h.display@ + "\", \"seq\": "@ + decimal(ping_index as nat)
            + ", \"rtt\": "@ + time_text(rtt@) + "}}"@
    } else if verbose_count {
        prefix + pad_right(h.display@, max_len as nat) + " : ["@ + decimal(ping_index as nat) + "], "@
            + time_text(rtt@) + " ms"@
    } else {
        prefix + pad_right(h.display@, max_len as nat) + " : ["@ + decimal(ping_index as nat) + "], "@
            + decimal(saturating_diff(raw_len, 28)) + " bytes, "@ + time_text(rtt@) + " ms ("@
            + avg_text(h) + " avg, "@ + decimal(loss_percent(h.num_sent, h.num_recv) as nat)
            + "% loss)"@
    }
}

/// Appends the shown mean round-trip time of `h`.
fn push_avg(s: &mut String, h: &HostEntry)
    ensures
        final(s)@ == old(s)@ + avg_text(*h),
{
    match h.avg_reply() {
        Some(a) => {
            let t = sprint_tm(a);
            s.append(t.as_str());
        },
        None => {},
    }
    proof {
        assert(final(s)@ =~= old(s)@ + avg_text(*h));
    }
}

/// Builds the line reporting a reply.
pub fn recv_line(opts: &RecvLineOpts, prefix: &str) -> (s: String)
    requires
        !opts.json && !opts.verbose_count ==> loss_defined(*opts.host),
    ensures
        s@ == recv_text(
            *opts.host,
            opts.ping_index,
            opts.rtt,
            opts.raw_len,
            opts.max_len,
            prefix@,
            opts.json,
            opts.verbose_count,
        ),
{
    let h = opts.host;
    let rtt_str = sprint_tm(opts.rtt);
    let mut s = String::new();
    if opts.json {
        s.append("{\"resp\": {\"host\": \"");
        s.append(h.display.as_str());
        s.append("\", \"seq\": ");
        push_decimal(&mut s, opts.ping_index as u128);
        s.append(", \"rtt\": ");
        s.append(rtt_str.as_str());
        s.append("}}");
    } else if opts.verbose_count {
        s.append(prefix);
        push_padded_right(&mut s, h.display.as_str(), opts.max_len);
        s.append(" : [");
        push_decimal(&mut s, opts.ping_index as u128);
        s.append("], ");
        s.append(rtt_str.as_str());
        s.append(" ms");
    } else {
        let payload = if opts.raw_len >= 28 { opts.raw_len - 28 } else { 0 };
        s.append(prefix);
        push_padded_right(&mut s, h.display.as_str(), opts.max_len);
        s.append(" : [");
        push_decimal(&mut s, opts.ping_index as u128);
        s.append("], ");
        push_decimal(&mut s, payload as u128);
        s.append(" bytes, ");
        s.append(rtt_str.as_str());
        s.append(" ms (");
        push_avg(&mut s, h);
        s.append(" avg, ");
        push_decimal(&mut s, h.loss_pct() as u128);
        s.append("% loss)");
    }
    proof {
        assert(s@ =~= recv_text(
            *opts.host,
            opts.ping_index,
            opts.rtt,
            opts.raw_len,
            opts.max_len,
            prefix@,
            opts.json,
            opts.verbose_count,
        ));
    }
    s
}

/// What a timed-out probe is reported as.
pub struct TimeoutLineOpts<'a> {
    pub host: &'a HostEntry,
    pub ping_index: u32,
    pub max_len: usize,
    pub timestamp: bool,
    pub json: bool,
}

/// The share of replies in whole percent when more replies than probes
/// were counted.
pub open spec fn return_percent(h: HostEntry) -> nat {
    ((h.num_recv * 100) / (if h.num_sent >= 1 { h.num_sent as int } else { 1 })) as nat
}

/// The line reporting a probe that timed out.
pub open spec fn timeout_text(h: HostEntry, ping_index: u32, max_len: usize, prefix: Seq<char>, json: bool) -> Seq<char> {
    if json {
        "{\"timeout\": {\"host\": \""@ + h.display@ + "\", \"seq\": "@ + decimal(ping_index as nat) + "}}"@
    } else {
        prefix + pad_right(h.display@, max_len as nat) + " : ["@ + decimal(ping_index as nat) + "], timed out"@
            + (if h.num_recv > 0 {
            " ("@ + avg_text(h) + " avg, "@
        } else {
            " (NaN avg, "@
        }) + (if h.num_recv <= h.num_sent {
            decimal(loss_percent(h.num_sent, h.num_recv) as nat) + "% loss)"@
        } else {
            decimal(return_percent(h)) + "% return)"@
        })
    }
}

/// Whether the timeout line of `h` can be computed without overflow.
pub open spec fn timeout_defined(h: HostEntry) -> bool {
    if h.num_recv <= h.num_sent {
        loss_defined(h)
    } else {
        h.num_recv * 100 <= u32::MAX
    }
}

/// Builds the line reporting a probe that timed out.
pub fn timeout_line(opts: &TimeoutLineOpts, prefix: &str) -> (s: String)
    requires
        !opts.json ==> timeout_defined(*opts.host),
    ensures
        s@ == timeout_text(*opts.host, opts.ping_index, opts.max_len, prefix@, opts.json),
{
    let h = opts.host;
    let mut s = String::new();
    if opts.json {
        s.append("{\"timeout\": {\"host\": \"");
        s.append(h.display.as_str());
        s.append("\", \"seq\": ");
        push_decimal(&mut s, opts.ping_index as u128);
        s.append("}}");
    } else {
        s.append(prefix);
        push_padded_right(&mut s, h.display.as_str(), opts.max_len);
        s.append(" : [");
        push_decimal(&mut s, opts.ping_index as u128);
        s.append("], timed out");
        if h.num_recv > 0 {
            s.append(" (");
            push_avg(&mut s, h);
            s.append(" avg, ");
        } else {
            s.append(" (NaN avg, ");
        }
        if h.num_recv <= h.num_sent {
            push_decimal(&mut s, h.loss_pct() as u128);
            s.append("% loss)");
        } else {
            let base = if h.num_sent >= 1 { h.num_sent } else { 1 };
            push_decimal(&mut s, ((h.num_recv * 100) / base) as u128);
            s.append("% return)");
        }
    }
    proof {
        assert(s@ =~= timeout_text(*opts.host, opts.ping_index, opts.max_len, prefix@, opts.json));
    }
    s
}

/// A response time as listed per host: its time, or `missing` when no reply
/// came.
pub open spec fn slot_text(r: Option<Duration>, missing: Seq<char>) -> Seq<char> {
    match r {
        Some(d) => time_text(d@),
        None => missing,
    }
}

/// The response times joined by ", ", `null` for missing replies.
pub open spec fn joined_slots(rs: Seq<Option<Duration>>) -> Seq<char>
    decreases rs.len(),
{
    if rs.len() == 0 {
        Seq::empty()
    } else if rs.len() == 1 {
        slot_text(rs[0], "null"@)
    } else {
        joined_slots(rs.drop_last()) + ", "@ + slot_text(rs.last(), "null"@)
    }
}

/// The response times each preceded by a space, `-` for missing replies.
pub open spec fn spaced_slots(rs: Seq<Option<Duration>>) -> Seq<char>
    decreases rs.len(),
{
    if rs.len() == 0 {
        Seq::empty()
    } else {
        spaced_slots(rs.drop_last()) + " "@ + slot_text(rs.last(), "-"@)
    }
}

/// Whether all three of minimum, mean and maximum are known.
pub open spec fn has_extremes(h: HostEntry) -> bool {
    h.min_reply is Some && h.num_recv > 0 && h.max_reply is Some
}

/// The per-host summary line.
pub open spec fn per_host_stats_text(h: HostEntry, max_len: usize, json: bool, verbose: bool) -> Seq<char> {
    if verbose {
        if json {
            "{\"vSum\": {\"host\": \""@ + h.display@ + "\", \"values\": ["@ + joined_slots(h.resp_times@)
                + "]}}"@
        } else {
            pad_right(h.display@, max_len as nat) + " :"@ + spaced_slots(h.resp_times@)
        }
    } else if json {
        "{\"summary\": {\"host\": \""@ + h.display@ + "\", \"xmt\": "@ + decimal(h.num_sent as nat)
            + ", \"rcv\": "@ + decimal(h.num_recv as nat) + ", \"loss\": "@ + decimal(
            loss_percent(h.num_sent, h.num_recv) as nat,
        ) + (if has_extremes(h) {
            ", \"rttMin\": "@ + time_text(h.min_reply.unwrap()@) + ", \"rttAvg\": "@ + avg_text(h)
                + ", \"rttMax\": "@ + time_text(h.max_reply.unwrap()@)
        } else {
            Seq::empty()
        }) + "}}"@
    } else {
        pad_right(h.display@, max_len as nat) + " : xmt/rcv/%loss = "@ + decimal(h.num_sent as nat) + "/"@
            + decimal(h.num_recv as nat) + "/"@ + decimal(loss_percent(h.num_sent, h.num_recv) as nat)
            + "%"@ + (if has_extremes(h) {
            ", min/avg/max = "@ + time_text(h.min_reply.unwrap()@) + "/"@ + avg_text(h) + "/"@ + time_text(
                h.max_reply.unwrap()@,
            )
        } else {
            Seq::empty()
        })
    }
}

/// Appends the shown response time of a table slot.
fn push_slot(s: &mut String, r: Option<Duration>, missing: &str)
    ensures
        final(s)@ == old(s)@ + slot_text(r, missing@),
{
    match r {
        Some(d) => {
            let t = sprint_tm(d);
            s.append(t.as_str());
        },
        None => {
            s.append(missing);
        },
    }
}

/// Builds the per-host summary line: all response times when `verbose`,
/// the sent/received/loss counts and the extremes otherwise.
pub fn per_host_stats_line(host: &HostEntry, max_len: usize, json: bool, verbose: bool) -> (s: String)
    requires
        !verbose ==> loss_defined(*host),
    ensures
        s@ == per_host_stats_text(*host, max_len, json, verbose),
{
    let mut s = String::new();
    if verbose {
        let rs = &host.resp_times;
        if json {
            s.append("{\"vSum\": {\"host\": \"");
            s.append(host.display.as_str());
            s.append("\", \"values\": [");
        } else {
            push_padded_right(&mut s, host.display.as_str(), max_len);
            s.append(" :");
        }
        let ghost s0 = s@;
        let mut i: usize = 0;
        while i < rs.len()
            invariant
                i <= rs@.len(),
                json ==> s@ =~= s0 + joined_slots(rs@.take(i as int)),
                !json ==> s@ =~= s0 + spaced_slots(rs@.take(i as int)),
            decreases rs.len() - i,
        {
            assert(rs@.take(i + 1).drop_last() =~= rs@.take(i as int));
            if json {
                if i > 0 {
                    s.append(", ");
                }
                push_slot(&mut s, rs[i], "null");
            } else {
                s.append(" ");
                push_slot(&mut s, rs[i], "-");
            }
            i += 1;
        }
        assert(rs@.take(i as int) =~= rs@);
        if json {
            s.append("]}}");
        }
    } else {
        let loss = host.loss_pct();
        let avg = host.avg_reply();
        if json {
            s.append("{\"summary\": {\"host\": \"");
            s.append(host.display.as_str());
            s.append("\", \"xmt\": ");
            push_decimal(&mut s, host.num_sent as u128);
            s.append(", \"rcv\": ");
            push_decimal(&mut s, host.num_recv as u128);
            s.append(", \"loss\": ");
            push_decimal(&mut s, loss as u128);
            if let (Some(mn), Some(_av), Some(mx)) = (host.min_reply, avg, host.max_reply) {
                s.append(", \"rttMin\": ");
                push_slot(&mut s, Some(mn), "");
                s.append(", \"rttAvg\": ");
                push_avg(&mut s, host);
                s.append(", \"rttMax\": ");
                push_slot(&mut s, Some(mx), "");
            }
            s.append("}}");
        } else {
            push_padded_right(&mut s, host.display.as_str(), max_len);
            s.append(" : xmt/rcv/%loss = ");
            push_decimal(&mut s, host.num_sent as u128);
            s.append("/");
            push_decimal(&mut s, host.num_recv as u128);
            s.append("/");
            push_decimal(&mut s, loss as u128);
            s.append("%");
            if let (Some(mn), Some(_av), Some(mx)) = (host.min_reply, avg, host.max_reply) {
                s.append(", min/avg/max = ");
                push_slot(&mut s, Some(mn), "");
                s.append("/");
                push_avg(&mut s, host);
                s.append("/");
                push_slot(&mut s, Some(mx), "");
            }
        }
    }
    proof {
        assert(s@ =~= per_host_stats_text(*host, max_len, json, verbose));
    }
    s
}

/// Totals reported at the end of a run.
pub struct GlobalStatsSummary {
    pub num_hosts: usize,
    pub num_alive: usize,
    pub num_unreachable: usize,
    pub total_sent: u32,
    pub total_recv: u32,
    pub min_rtt: Option<Duration>,
    pub avg_rtt: Option<Duration>,
    pub max_rtt: Option<Duration>,
    pub elapsed: Duration,
}

/// ` ` and `n` right-aligned in seven columns, then `label`.
pub open spec fn count_line(n: nat, label: Seq<char>) -> Seq<char> {
    " "@ + pad_left(decimal(n), 7) + label
}

/// The lines of the global statistics: one JSON line, or the plain report.
pub open spec fn global_stats_text(s: GlobalStatsSummary, json: bool) -> Seq<Seq<char>> {
    if json {
        seq![
            "{\"stats\": {\"targets\": "@ + decimal(s.num_hosts as nat) + ", \"alive\": "@ + decimal(
                s.num_alive as nat,
            ) + ", \"unreachable\": "@ + decimal(s.num_unreachable as nat) + ", \"icmpEchosSent\": "@
                + decimal(s.total_sent as nat) + ", \"icmpEchoRepliesReceived\": "@ + decimal(
                s.total_recv as nat,
            ) + ", \"elapsed\": "@ + fixed(s.elapsed@, 9, 3) + "}}"@,
        ]
    } else {
        seq![
            Seq::empty(),
            count_line(s.num_hosts as nat, " targets"@),
            count_line(s.num_alive as nat, " alive"@),
            count_line(s.num_unreachable as nat, " unreachable"@),
            Seq::empty(),
            count_line(s.total_sent as nat, " ICMP Echos sent"@),
            count_line(s.total_recv as nat, " ICMP Echo Replies received"@),
            Seq::empty(),
        ] + (if s.min_rtt is Some && s.avg_rtt is Some && s.max_rtt is Some {
            seq![
                " "@ + time_text(s.min_rtt.unwrap()@) + " ms (min round trip time)"@,
                " "@ + time_text(s.avg_rtt.unwrap()@) + " ms (avg round trip time)"@,
                " "@ + time_text(s.max_rtt.unwrap()@) + " ms (max round trip time)"@,
            ]
        } else {
            Seq::empty()
        }) + seq![
            " "@ + pad_left(fixed(s.elapsed@, 9, 3), 12) + " sec (elapsed real time)"@,
            Seq::empty(),
        ]
    }
}

/// The views of a list of lines.
pub open spec fn lines_view(lines: Seq<String>) -> Seq<Seq<char>> {
    lines.map_values(|l: String| l@)
}

fn count_string(n: u128, label: &str) -> (s: String)
    ensures
        s@ == count_line(n as nat, label@),
{
    let mut s = String::new();
    s.append(" ");
    let d = decimal_string(n);
    push_padded_left(&mut s, d.as_str(), 7);
    s.append(label);
    proof {
        assert(s@ =~= count_line(n as nat, label@));
    }
    s
}

fn rtt_string(d: Duration, label: &str) -> (s: String)
    ensures
        s@ == " "@ + time_text(d@) + label@,
{
    let mut s = String::new();
    s.append(" ");
    let t = sprint_tm(d);
    s.append(t.as_str());
    s.append(label);
    proof {
        assert(s@ =~= " "@ + time_text(d@) + label@);
    }
    s
}

/// Builds the lines of the global statistics.
pub fn global_stats_lines(st: &GlobalStatsSummary, json: bool) -> (lines: Vec<String>)
    ensures
        lines_view(lines@) == global_stats_text(*st, json),
{
    let mut lines: Vec<String> = Vec::new();
    let elapsed = st.elapsed.as_nanos();
    if json {
        let mut s = String::new();
        s.append("{\"stats\": {\"targets\": ");
        push_decimal(&mut s, st.num_hosts as u128);
        s.append(", \"alive\": ");
        push_decimal(&mut s, st.num_alive as u128);
        s.append(", \"unreachable\": ");
        push_decimal(&mut s, st.num_unreachable as u128);
        s.append(", \"icmpEchosSent\": ");
        push_decimal(&mut s, st.total_sent as u128);
        s.append(", \"icmpEchoRepliesReceived\": ");
        push_decimal(&mut s, st.total_recv as u128);
        s.append(", \"elapsed\": ");
        push_fixed(&mut s, elapsed, 9, 3);
        s.append("}}");
        lines.push(s);
    } else {
        lines.push(String::new());
        lines.push(count_string(st.num_hosts as u128, " targets"));
        lines.push(count_string(st.num_alive as u128, " alive"));
        lines.push(count_string(st.num_unreachable as u128, " unreachable"));
        lines.push(String::new());
        lines.push(count_string(st.total_sent as u128, " ICMP Echos sent"));
        lines.push(count_string(st.total_recv as u128, " ICMP Echo Replies received"));
        lines.push(String::new());
        if let (Some(mn), Some(av), Some(mx)) = (st.min_rtt, st.avg_rtt, st.max_rtt) {
            lines.push(rtt_string(mn, " ms (min round trip time)"));
            lines.push(rtt_string(av, " ms (avg round trip time)"));
            lines.push(rtt_string(mx, " ms (max round trip time)"));
        }
        let mut s = String::new();
        s.append(" ");
        let mut e = String::new();
        push_fixed(&mut e, elapsed, 9, 3);
        push_padded_left(&mut s, e.as_str(), 12);
        s.append(" sec (elapsed real time)");
        lines.push(s);
        lines.push(String::new());
    }
    proof {
        assert(lines_view(lines@) =~= global_stats_text(*st, json));
    }
    lines
}

/// Law: the timestamp prefix (`-D`) only ever stands in front of a plain
/// line, which is otherwise the line written without it; a JSON line carries
/// no prefix at all.
pub proof fn lemma_prefix_only_on_plain_lines(
    h: HostEntry,
    ping_index: u32,
    rtt: Duration,
    raw_len: usize,
    max_len: usize,
    prefix: Seq<char>,
    json: bool,
    verbose_count: bool,
    elapsed: Option<Duration>,
)
    ensures
        recv_text(h, ping_index, rtt, raw_len, max_len, prefix, json, verbose_count) == (if json {
            recv_text(h, ping_index, rtt, raw_len, max_len, Seq::empty(), json, verbose_count)
        } else {
            prefix + recv_text(h, ping_index, rtt, raw_len, max_len, Seq::empty(), json, verbose_count)
        }),
        timeout_text(h, ping_index, max_len, prefix, json) == (if json {
            timeout_text(h, ping_index, max_len, Seq::empty(), json)
        } else {
            prefix + timeout_text(h, ping_index, max_len, Seq::empty(), json)
        }),
        alive_text(h.display@, prefix, json, elapsed) == (if json {
            alive_text(h.display@, Seq::empty(), json, elapsed)
        } else {
            prefix + alive_text(h.display@, Seq::empty(), json, elapsed)
        }),
        unreachable_text(h.display@, prefix, json) == (if json {
            unreachable_text(h.display@, Seq::empty(), json)
        } else {
            prefix + unreachable_text(h.display@, Seq::empty(), json)
        }),
{
    let e = Seq::<char>::empty();
    if !json {
        assert(recv_text(h, ping_index, rtt, raw_len, max_len, prefix, json, verbose_count)
            =~= prefix + recv_text(h, ping_index, rtt, raw_len, max_len, e, json, verbose_count));
        assert(timeout_text(h, ping_index, max_len, prefix, json) =~= prefix + timeout_text(h, ping_index, max_len, e, json));
        assert(alive_text(h.display@, prefix, json, elapsed) =~= prefix + alive_text(h.display@, e, json, elapsed));
        assert(unreachable_text(h.display@, prefix, json) =~= prefix + unreachable_text(h.display@, e, json));
    }
}

/// Law: the plain reply line shows, in order, the host padded to the column
/// width, the probe number, the payload size (the bytes read less the 20
/// byte IP and 8 byte ICMP headers), this reply's time, the mean of all of
/// the host's replies so far (its total time over its reply count) and its
/// loss.
pub proof fn lemma_recv_line_fields(
    h: HostEntry,
    ping_index: u32,
    rtt: Duration,
    raw_len: usize,
    max_len: usize,
    prefix: Seq<char>,
)
    requires
        h.num_recv > 0,
    ensures
        recv_text(h, ping_index, rtt, raw_len, max_len, prefix, false, false) == prefix
            + pad_right(h.display@, max_len as nat) + " : ["@ + decimal(ping_index as nat) + "], "@
            + decimal(if raw_len >= 28 { (raw_len - 28) as nat } else { 0 }) + " bytes, "@
            + time_text(rtt@) + " ms ("@ + time_text(h.total_time@ / (h.num_recv as nat)) + " avg, "@
            + decimal(loss_percent(h.num_sent, h.num_recv) as nat) + "% loss)"@,
{
}

/// Law: the plain timeout line of a host with replies shows its mean reply
/// time (total time over reply count) and its loss.
pub proof fn lemma_timeout_line_fields(h: HostEntry, ping_index: u32, max_len: usize, prefix: Seq<char>)
    requires
        h.num_recv > 0,
        h.num_recv <= h.num_sent,
    ensures
        timeout_text(h, ping_index, max_len, prefix, false) == prefix + pad_right(h.display@, max_len as nat)
            + " : ["@ + decimal(ping_index as nat) + "], timed out"@ + " ("@
            + time_text(h.total_time@ / (h.num_recv as nat)) + " avg, "@
            + decimal(loss_percent(h.num_sent, h.num_recv) as nat) + "% loss)"@,
{
    assert(timeout_text(h, ping_index, max_len, prefix, false) =~= prefix + pad_right(h.display@, max_len as nat)
        + " : ["@ + decimal(ping_index as nat) + "], timed out"@ + " ("@
        + time_text(h.total_time@ / (h.num_recv as nat)) + " avg, "@
        + decimal(loss_percent(h.num_sent, h.num_recv) as nat) + "% loss)"@);
}

/// Law: the plain per-host summary of a host with replies shows sent,
/// received and loss, then its shortest, mean and longest reply times.
pub proof fn lemma_per_host_summary_fields(h: HostEntry, max_len: usize)
    requires
        h.num_recv > 0,
        h.min_reply is Some,
        h.max_reply is Some,
    ensures
        per_host_stats_text(h, max_len, false, false) == pad_right(h.display@, max_len as nat)
            + " : xmt/rcv/%loss = "@ + decimal(h.num_sent as nat) + "/"@ + decimal(h.num_recv as nat) + "/"@
            + decimal(loss_percent(h.num_sent, h.num_recv) as nat) + "%"@ + ", min/avg/max = "@
            + time_text(h.min_reply.unwrap()@) + "/"@ + time_text(h.total_time@ / (h.num_recv as nat)) + "/"@
            + time_text(h.max_reply.unwrap()@),
{
    assert(per_host_stats_text(h, max_len, false, false) =~= pad_right(h.display@, max_len as nat)
        + " : xmt/rcv/%loss = "@ + decimal(h.num_sent as nat) + "/"@ + decimal(h.num_recv as nat) + "/"@
        + decimal(loss_percent(h.num_sent, h.num_recv) as nat) + "%"@ + ", min/avg/max = "@
        + time_text(h.min_reply.unwrap()@) + "/"@ + time_text(h.total_time@ / (h.num_recv as nat)) + "/"@
        + time_text(h.max_reply.unwrap()@));
}

/// Decides `loss_defined`.
pub fn loss_computable(h: &HostEntry) -> (b: bool)
    ensures
        b == loss_defined(*h),
{
    if h.num_sent == 0 {
        true
    } else {
        h.num_recv <= h.num_sent && ((h.num_sent - h.num_recv) as u64) * 100 <= 4294967295
    }
}

/// Decides `timeout_defined`.
pub fn timeout_computable(h: &HostEntry) -> (b: bool)
    ensures
        b == timeout_defined(*h),
{
    if h.num_recv <= h.num_sent {
        loss_computable(h)
    } else {
        (h.num_recv as u64) * 100 <= 4294967295
    }
}

} // verus!
