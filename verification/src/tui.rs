use vstd::prelude::*;

use crate::output::loss_defined;
use crate::text::{
    decimal, fixed, pad_left, pad_right, push_char, push_decimal, push_fixed, push_padded_left,
    push_padded_right,
};
use crate::time::Duration;
use crate::types::{loss_percent, HostEntry};

verus! {

/// What the user asked of the live table.
#[derive(Clone, Copy, Debug, PartialEq, Eq, Structural)]
pub enum TuiAction {
    Continue,
    Quit,
    Reset,
}

/// A pending request is answered once: `Reset` is handed out and the stored
/// request goes back to `Continue`; other requests stay as they are.
pub fn take_action(stored: TuiAction) -> (r: (TuiAction, TuiAction))
    ensures
        r.0 == stored,
        r.1 == (if stored == TuiAction::Reset { TuiAction::Continue } else { stored }),
{
    match stored {
        TuiAction::Reset => (TuiAction::Reset, TuiAction::Continue),
        other => (other, other),
    }
}

/// A rule of 103 copies of `c`.
pub open spec fn rule(c: char) -> Seq<char> {
    Seq::new(103, |i: int| c)
}

/// A time of `n` nanoseconds in milliseconds with one decimal and `ms`.
pub open spec fn ms_text(n: nat) -> Seq<char> {
    fixed(n, 6, 1) + "ms"@
}

/// An optional time as shown in the table, `-` when absent.
pub open spec fn opt_ms_text(d: Option<Duration>) -> Seq<char> {
    match d {
        Some(x) => ms_text(x@),
        None => "-"@,
    }
}

/// The most recent recorded response time.
pub open spec fn last_reply(rs: Seq<Option<Duration>>) -> Option<Duration>
    decreases rs.len(),
{
    if rs.len() == 0 {
        None
    } else {
        match rs.last() {
            Some(d) => Some(d),
            None => last_reply(rs.drop_last()),
        }
    }
}

/// The name of a host as shown in the table: names longer than 20 bytes
/// are cut to their first 17 bytes and marked with `...`.
pub open spec fn shown_name(d: Seq<char>) -> Seq<char> {
    let bytes = vstd::utf8::encode_utf8(d);
    if (bytes.len() as usize) > 20 {
        vstd::utf8::decode_utf8(bytes.subrange(0, 17)) + "..."@
    } else {
        d
    }
}

/// Whether a host name can be shown: a name that is cut must be cut at a
/// character boundary.
pub open spec fn name_showable(d: Seq<char>) -> bool {
    let bytes = vstd::utf8::encode_utf8(d);
    (bytes.len() as usize) > 20 ==> vstd::utf8::is_char_boundary(bytes, 17)
}

/// Height, from 0 to 7, of the bar for a response time `d` when the
/// longest reply took `max`: `7 * d / max` rounded half up, at most 7.
pub open spec fn trend_level(d: nat, max: nat) -> nat {
    if max == 0 {
        if d == 0 {
            0
        } else {
            7
        }
    } else {
        let l = (14 * d + max) / (2 * max);
        if l > 7 {
            7
        } else {
            l
        }
    }
}

/// The bar character of a level.
pub open spec fn trend_char(level: nat) -> char {
    if level == 0 {
        ' '
    } else if level == 1 {
        '\u{2582}'
    } else if level == 2 {
        '\u{2583}'
    } else if level == 3 {
        '\u{2584}'
    } else if level == 4 {
        '\u{2585}'
    } else if level == 5 {
        '\u{2586}'
    } else if level == 6 {
        '\u{2587}'
    } else {
        '\u{2588}'
    }
}

/// Bars for a list of response times, `x` for missing replies.
pub open spec fn bars(rs: Seq<Option<Duration>>, max: nat) -> Seq<char>
    decreases rs.len(),
{
    if rs.len() == 0 {
        Seq::empty()
    } else {
        bars(rs.drop_last(), max).push(
            match rs.last() {
                Some(d) => trend_char(trend_level(d@, max)),
                None => 'x',
            },
        )
    }
}

/// The reference for bar heights: the longest reply, or 1 ms without one.
pub open spec fn trend_max(h: HostEntry) -> nat {
    match h.max_reply {
        Some(m) => m@,
        None => 1_000_000,
    }
}

/// The trend of a host: bars for its last ten response time slots.
pub open spec fn trend_text(h: HostEntry) -> Seq<char> {
    let rs = h.resp_times@;
    let skip: int = if rs.len() >= 10 { rs.len() - 10 } else { 0 };
    bars(rs.skip(skip), trend_max(h))
}

/// The first columns of a row: name, sent, received, loss.
pub open spec fn row_counts_text(h: HostEntry) -> Seq<char> {
    pad_right(shown_name(h.display@), 20) + " | "@ + pad_left(decimal(h.num_sent as nat), 6) + " | "@
        + pad_left(decimal(h.num_recv as nat), 6) + " | "@ + pad_left(
        decimal(loss_percent(h.num_sent, h.num_recv) as nat),
        5,
    ) + "% | "@
}

/// The mean reply time as shown in the table.
pub open spec fn avg_ms_text(h: HostEntry) -> Seq<char> {
    if h.num_recv > 0 {
        ms_text(h.total_time@ / (h.num_recv as nat))
    } else {
        "-"@
    }
}

/// The last columns of a row: min, avg, max, last and trend.
pub open spec fn row_times_text(h: HostEntry) -> Seq<char> {
    pad_left(opt_ms_text(h.min_reply), 8) + " | "@ + pad_left(avg_ms_text(h), 8) + " | "@ + pad_left(
        opt_ms_text(h.max_reply),
        8,
    ) + " | "@ + pad_left(opt_ms_text(last_reply(h.resp_times@)), 8) + " | "@ + pad_right(trend_text(h), 10)
        + "\n"@
}

/// One row of the table.
pub open spec fn row_text(h: HostEntry) -> Seq<char> {
    row_counts_text(h) + row_times_text(h)
}

/// The rows of all hosts.
pub open spec fn rows_text(hs: Seq<HostEntry>) -> Seq<char>
    decreases hs.len(),
{
    if hs.len() == 0 {
        Seq::empty()
    } else {
        rows_text(hs.drop_last()) + row_text(hs.last())
    }
}

/// The header line of the table.
pub open spec fn header_text() -> Seq<char> {
    "Host                 |   Sent |   Recv |  Loss% |      Min |      Avg |      Max |     Last | Trend     \n"@
}

/// The whole table for `hosts`, `elapsed` after the start, updated at
/// wall-clock time `clock`.
pub open spec fn table_text(hs: Seq<HostEntry>, elapsed: Duration, clock: Seq<char>) -> Seq<char> {
    table_head(hs.len(), elapsed) + rows_text(hs) + table_foot(hs.len(), clock)
}

/// Whether every row of the table can be built: names cut at character
/// boundaries, losses computable.
pub open spec fn table_showable(hs: Seq<HostEntry>) -> bool {
    forall|i: int| 0 <= i < hs.len() ==> name_showable(#[trigger] hs[i].display@) && loss_defined(hs[i])
}

fn push_rule(s: &mut String, c: char)
    ensures
        final(s)@ == old(s)@ + rule(c),
{
    let ghost s0 = s@;
    let mut i: usize = 0;
    while i < 103
        invariant
            i <= 103,
            s@ =~= s0 + Seq::new(i as nat, |k: int| c),
        decreases 103 - i,
    {
        push_char(s, c);
        i += 1;
    }
    assert(s@ =~= s0 + rule(c));
}

fn ms_string(n: u128) -> (t: String)
    requires
        n <= u128::MAX / 2,
    ensures
        t@ == ms_text(n as nat),
{
    let mut t = String::new();
    push_fixed(&mut t, n, 6, 1);
    t.append("ms");
    proof {
        assert(t@ =~= ms_text(n as nat));
    }
    t
}

fn opt_ms_string(d: Option<Duration>) -> (t: String)
    ensures
        t@ == opt_ms_text(d),
{
    match d {
        Some(x) => ms_string(x.as_nanos()),
        None => {
            let mut t = String::new();
            t.append("-");
            t
        },
    }
}

fn last_reply_exec(rs: &Vec<Option<Duration>>) -> (r: Option<Duration>)
    ensures
        r == last_reply(rs@),
{
    let mut i: usize = rs.len();
    assert(rs@.take(i as int) =~= rs@);
    while i > 0
        invariant
            i <= rs@.len(),
            last_reply(rs@) == last_reply(rs@.take(i as int)),
        decreases i,
    {
        proof {
            assert(rs@.take(i as int).drop_last() =~= rs@.take(i - 1));
        }
        match rs[i - 1] {
            Some(d) => {
                return Some(d);
            },
            None => {},
        }
        i -= 1;
    }
    None
}

fn trend_char_exec(level: u128) -> (c: char)
    ensures
        c == trend_char(level as nat),
{
    if level == 0 {
        ' '
    } else if level == 1 {
        '\u{2582}'
    } else if level == 2 {
        '\u{2583}'
    } else if level == 3 {
        '\u{2584}'
    } else if level == 4 {
        '\u{2585}'
    } else if level == 5 {
        '\u{2586}'
    } else if level == 6 {
        '\u{2587}'
    } else {
        '\u{2588}'
    }
}

fn trend_string(h: &HostEntry) -> (t: String)
    ensures
        t@ == trend_text(*h),
{
    let rs = &h.resp_times;
    let max: u128 = match h.max_reply {
        Some(m) => m.as_nanos(),
        None => 1_000_000,
    };
    let skip: usize = if rs.len() >= 10 { rs.len() - 10 } else { 0 };
    let ghost tail = rs@.skip(skip as int);
    let mut t = String::new();
    let mut i: usize = skip;
    while i < rs.len()
        invariant
            skip <= i <= rs@.len(),
            tail == rs@.skip(skip as int),
            max == trend_max(*h),
            rs == &h.resp_times,
            max <= crate::time::MAX_DURATION_NANOS,
            t@ =~= bars(tail.take(i - skip), max as nat),
        decreases rs.len() - i,
    {
        proof {
            assert(tail.take(i + 1 - skip).drop_last() =~= tail.take(i - skip));
            assert(tail.take(i + 1 - skip).last() == rs@[i as int]);
        }
        match rs[i] {
            Some(d) => {
                let n = d.as_nanos();
                let level: u128 = if max == 0 {
                    if n == 0 { 0 } else { 7 }
                } else {
                    let l = (14 * n + max) / (2 * max);
                    if l > 7 { 7 } else { l }
                };
                push_char(&mut t, trend_char_exec(level));
            },
            None => {
                push_char(&mut t, 'x');
            },
        }
        i += 1;
    }
    proof {
        assert(tail.take(i - skip) =~= tail);
    }
    t
}

fn name_string(d: &String) -> (t: String)
    requires
        name_showable(d@),
    ensures
        t@ == shown_name(d@),
{
    let s = d.as_str();
    if s.len() > 20 {
        let (head, _) = s.split_at(17);
        proof {
            vstd::utf8::encode_utf8_decode_utf8(head@);
        }
        let mut t = String::new();
        t.append(head);
        t.append("...");
        proof {
            assert(t@ =~= shown_name(d@));
        }
        t
    } else {
        d.clone()
    }
}

fn push_row_counts(s: &mut String, h: &HostEntry)
    requires
        name_showable(h.display@),
        loss_defined(*h),
    ensures
        final(s)@ == old(s)@ + row_counts_text(*h),
{
    let loss = h.loss_pct();
    let name = name_string(&h.display);
    push_padded_right(s, name.as_str(), 20);
    s.append(" | ");
    let sent = crate::text::decimal_string(h.num_sent as u128);
    push_padded_left(s, sent.as_str(), 6);
    s.append(" | ");
    let recv = crate::text::decimal_string(h.num_recv as u128);
    push_padded_left(s, recv.as_str(), 6);
    s.append(" | ");
    let l = crate::text::decimal_string(loss as u128);
    push_padded_left(s, l.as_str(), 5);
    s.append("% | ");
    proof {
        assert(final(s)@ =~= old(s)@ + row_counts_text(*h));
    }
}

fn avg_ms_string(h: &HostEntry) -> (t: String)
    ensures
        t@ == avg_ms_text(*h),
{
    match h.avg_reply() {
        Some(a) => ms_string(a.as_nanos()),
        None => {
            let mut t = String::new();
            t.append("-");
            t
        },
    }
}

fn push_row_times(s: &mut String, h: &HostEntry)
    ensures
        final(s)@ == old(s)@ + row_times_text(*h),
{
    let mn = opt_ms_string(h.min_reply);
    push_padded_left(s, mn.as_str(), 8);
    s.append(" | ");
    let av = avg_ms_string(h);
    push_padded_left(s, av.as_str(), 8);
    s.append(" | ");
    let mx = opt_ms_string(h.max_reply);
    push_padded_left(s, mx.as_str(), 8);
    s.append(" | ");
    let last = opt_ms_string(last_reply_exec(&h.resp_times));
    push_padded_left(s, last.as_str(), 8);
    s.append(" | ");
    let tr = trend_string(h);
    push_padded_right(s, tr.as_str(), 10);
    s.append("\n");
    proof {
        assert(final(s)@ =~= old(s)@ + row_times_text(*h));
    }
}

fn push_row(s: &mut String, h: &HostEntry)
    requires
        name_showable(h.display@),
        loss_defined(*h),
    ensures
        final(s)@ == old(s)@ + row_text(*h),
{
    push_row_counts(s, h);
    push_row_times(s, h);
    proof {
        assert(final(s)@ =~= old(s)@ + row_text(*h));
    }
}

/// The title, controls, column header and rule above the rows.
pub open spec fn table_head(n: nat, elapsed: Duration) -> Seq<char> {
    rule('=') + "\n"@ + " fping-rs TUI | Hosts: "@ + decimal(n) + " | Elapsed: "@ + fixed(elapsed@, 9, 1)
        + "s\n"@ + " Controls: [q] / [ESC] Quit TUI  |  [r] Reset Statistics\n"@ + rule('=') + "\n\n"@
        + header_text() + rule('-') + "\n"@
}

/// The footer below the rows.
pub open spec fn table_foot(n: nat, clock: Seq<char>) -> Seq<char> {
    "\n"@ + rule('=') + "\n"@ + " Updated: "@ + clock + " | Interval: 200ms | Hosts: "@ + decimal(n) + "/"@
        + decimal(n) + " visible\n"@
}

fn push_head(s: &mut String, n: usize, elapsed: Duration)
    ensures
        final(s)@ == old(s)@ + table_head(n as nat, elapsed),
{
    push_rule(s, '=');
    s.append("\n");
    s.append(" fping-rs TUI | Hosts: ");
    push_decimal(s, n as u128);
    s.append(" | Elapsed: ");
    push_fixed(s, elapsed.as_nanos(), 9, 1);
    s.append("s\n");
    s.append(" Controls: [q] / [ESC] Quit TUI  |  [r] Reset Statistics\n");
    push_rule(s, '=');
    s.append("\n\n");
    s.append("Host                 |   Sent |   Recv |  Loss% |      Min |      Avg |      Max |     Last | Trend     \n");
    push_rule(s, '-');
    s.append("\n");
    proof {
        assert(final(s)@ =~= old(s)@ + table_head(n as nat, elapsed));
    }
}

fn push_foot(s: &mut String, n: usize, clock: &str)
    ensures
        final(s)@ == old(s)@ + table_foot(n as nat, clock@),
{
    s.append("\n");
    push_rule(s, '=');
    s.append("\n");
    s.append(" Updated: ");
    s.append(clock);
    s.append(" | Interval: 200ms | Hosts: ");
    push_decimal(s, n as u128);
    s.append("/");
    push_decimal(s, n as u128);
    s.append(" visible\n");
    proof {
        assert(final(s)@ =~= old(s)@ + table_foot(n as nat, clock@));
    }
}

/// Builds the live table of the run: a title with the number of hosts and
/// the elapsed seconds, the column header, one row per host (sent,
/// received, loss, min/avg/max/last in milliseconds and a bar trend of the
/// last ten slots) and a footer with the update time `clock`.
pub fn render_table(hosts: &[HostEntry], elapsed: Duration, clock: &str) -> (s: String)
    requires
        table_showable(hosts@),
    ensures
        s@ == table_text(hosts@, elapsed, clock@),
{
    let mut s = String::new();
    push_head(&mut s, hosts.len(), elapsed);
    let ghost s0 = s@;
    let mut i: usize = 0;
    while i < hosts.len()
        invariant
            i <= hosts@.len(),
            table_showable(hosts@),
            s@ =~= s0 + rows_text(hosts@.take(i as int)),
        decreases hosts.len() - i,
    {
        proof {
            assert(hosts@.take(i + 1).drop_last() =~= hosts@.take(i as int));
            assert(name_showable(hosts@[i as int].display@));
        }
        push_row(&mut s, &hosts[i]);
        i += 1;
    }
    proof {
        assert(hosts@.take(i as int) =~= hosts@);
    }
    push_foot(&mut s, hosts.len(), clock);
    proof {
        assert(s@ =~= table_text(hosts@, elapsed, clock@));
    }
    s
}

/// Decides `table_showable`.
pub fn table_showable_hosts(hosts: &[HostEntry]) -> (b: bool)
    ensures
        b == table_showable(hosts@),
{
    let mut i: usize = 0;
    while i < hosts.len()
        invariant
            i <= hosts@.len(),
            forall|k: int| 0 <= k < i ==> name_showable(#[trigger] hosts@[k].display@) && loss_defined(hosts@[k]),
        decreases hosts.len() - i,
    {
        let d = hosts[i].display.as_str();
        if d.len() > 20 && !d.is_char_boundary(17) {
            return false;
        }
        if !crate::output::loss_computable(&hosts[i]) {
            return false;
        }
        i += 1;
    }
    true
}

} // verus!
