use fping::dns::{literal_choice, lookup_choice};
use fping::hostfile::{host_file_entries, trim};
use fping::output::{
    alive_line, global_stats_lines, per_host_stats_line, recv_line, timeout_line, unreachable_line,
    GlobalStatsSummary, RecvLineOpts, TimeoutLineOpts,
};
use fping::time::Duration;
use fping::tui::{render_table, take_action, TuiAction};
use fping::types::{HostEntry, IpAddress};

fn host(name: &str, count: u32) -> HostEntry {
    HostEntry::new(name.to_string(), IpAddress::V4([127, 0, 0, 1]), false, count)
}

#[test]
fn alive_and_unreachable_lines() {
    let h = host("127.0.0.1", 0);
    assert_eq!(alive_line(&h, "", false, None), "127.0.0.1 is alive");
    assert_eq!(alive_line(&h, "[1.00000] ", false, None), "[1.00000] 127.0.0.1 is alive");
    assert_eq!(alive_line(&h, "", true, None), "{\"alive\": {\"host\": \"127.0.0.1\"}}");
    assert_eq!(
        alive_line(&h, "", false, Some(Duration::from_micros(1234))),
        "127.0.0.1 is alive (1.23 ms)"
    );
    assert_eq!(
        alive_line(&h, "", true, Some(Duration::from_micros(1234))),
        "{\"alive\": {\"host\": \"127.0.0.1\"}}"
    );
    assert_eq!(unreachable_line(&h, "", false), "127.0.0.1 is unreachable");
    assert_eq!(unreachable_line(&h, "", true), "{\"unreachable\": {\"host\": \"127.0.0.1\"}}");
}

#[test]
fn recv_line_formats() {
    let mut h = host("127.0.0.1", 1);
    h.num_sent = 1;
    h.record_reply(Duration::from_micros(45), 0);
    let opts = RecvLineOpts {
        host: &h,
        ping_index: 0,
        rtt: Duration::from_micros(45),
        raw_len: 84,
        max_len: 12,
        timestamp: false,
        json: false,
        verbose_count: false,
    };
    assert_eq!(
        recv_line(&opts, ""),
        "127.0.0.1    : [0], 56 bytes, 0.045 ms (0.045 avg, 0% loss)"
    );
    let v = RecvLineOpts { verbose_count: true, ..opts };
    assert_eq!(recv_line(&v, ""), "127.0.0.1    : [0], 0.045 ms");
    let j = RecvLineOpts { json: true, ..v };
    assert_eq!(recv_line(&j, ""), "{\"resp\": {\"host\": \"127.0.0.1\", \"seq\": 0, \"rtt\": 0.045}}");
}

#[test]
fn timeout_line_formats() {
    let mut h = host("h", 0);
    h.num_sent = 2;
    let o = TimeoutLineOpts { host: &h, ping_index: 1, max_len: 3, timestamp: false, json: false };
    assert_eq!(timeout_line(&o, ""), "h   : [1], timed out (NaN avg, 100% loss)");
    h.record_reply(Duration::from_millis(12), 0);
    let o = TimeoutLineOpts { host: &h, ping_index: 1, max_len: 3, timestamp: false, json: false };
    assert_eq!(timeout_line(&o, ""), "h   : [1], timed out (12.0 avg, 50% loss)");
    let o = TimeoutLineOpts { host: &h, ping_index: 1, max_len: 3, timestamp: false, json: true };
    assert_eq!(timeout_line(&o, ""), "{\"timeout\": {\"host\": \"h\", \"seq\": 1}}");
}

#[test]
fn per_host_stats_formats() {
    let mut h = host("127.0.0.1", 3);
    h.num_sent = 3;
    h.record_reply(Duration::from_millis(1), 0);
    h.record_reply(Duration::from_millis(3), 2);
    assert_eq!(
        per_host_stats_line(&h, 10, false, false),
        "127.0.0.1  : xmt/rcv/%loss = 3/2/33%, min/avg/max = 1.00/2.00/3.00"
    );
    assert_eq!(
        per_host_stats_line(&h, 10, true, false),
        "{\"summary\": {\"host\": \"127.0.0.1\", \"xmt\": 3, \"rcv\": 2, \"loss\": 33, \"rttMin\": 1.00, \"rttAvg\": 2.00, \"rttMax\": 3.00}}"
    );
    assert_eq!(per_host_stats_line(&h, 10, false, true), "127.0.0.1  : 1.00 - 3.00");
    assert_eq!(
        per_host_stats_line(&h, 10, true, true),
        "{\"vSum\": {\"host\": \"127.0.0.1\", \"values\": [1.00, null, 3.00]}}"
    );
    let e = host("x", 0);
    assert_eq!(per_host_stats_line(&e, 1, false, false), "x : xmt/rcv/%loss = 0/0/0%");
}

#[test]
fn global_stats_formats() {
    let s = GlobalStatsSummary {
        num_hosts: 2,
        num_alive: 1,
        num_unreachable: 1,
        total_sent: 4,
        total_recv: 3,
        min_rtt: Some(Duration::from_micros(100)),
        avg_rtt: Some(Duration::from_micros(200)),
        max_rtt: Some(Duration::from_micros(300)),
        elapsed: Duration::from_millis(1234),
    };
    let lines = global_stats_lines(&s, false);
    assert_eq!(
        lines,
        vec![
            "",
            "       2 targets",
            "       1 alive",
            "       1 unreachable",
            "",
            "       4 ICMP Echos sent",
            "       3 ICMP Echo Replies received",
            "",
            " 0.100 ms (min round trip time)",
            " 0.200 ms (avg round trip time)",
            " 0.300 ms (max round trip time)",
            "        1.234 sec (elapsed real time)",
            "",
        ]
    );
    let j = global_stats_lines(&s, true);
    assert_eq!(
        j,
        vec!["{\"stats\": {\"targets\": 2, \"alive\": 1, \"unreachable\": 1, \"icmpEchosSent\": 4, \"icmpEchoRepliesReceived\": 3, \"elapsed\": 1.234}}"]
    );
}

#[test]
fn now_ts_shape() {
    let t = fping::output::now_ts();
    assert!(t.starts_with('[') && t.ends_with(']'));
    let inner = &t[1..t.len() - 1];
    let dot = inner.find('.').expect("a decimal point");
    assert_eq!(inner.len() - dot - 1, 5);
    let v: f64 = inner.parse().unwrap();
    assert!(v > 1.0e9);
}

#[test]
fn address_choice() {
    let v4 = IpAddress::V4([127, 0, 0, 1]);
    let v6 = IpAddress::V6([0, 0, 0, 0, 0, 0, 0, 0, 0, 0, 0, 0, 0, 0, 0, 1]);
    assert_eq!(literal_choice(v4, false, false), Some(v4));
    assert_eq!(literal_choice(v4, false, true), None);
    assert_eq!(literal_choice(v6, true, false), None);
    assert_eq!(literal_choice(v6, false, false), Some(v6));
    assert_eq!(lookup_choice(&vec![v6, v4], false, false), Some(v4));
    assert_eq!(lookup_choice(&vec![v6], false, false), Some(v6));
    assert_eq!(lookup_choice(&vec![v4, v6], false, true), Some(v6));
    assert_eq!(lookup_choice(&vec![v4], false, true), None);
    assert_eq!(lookup_choice(&vec![v6], true, false), None);
    assert_eq!(lookup_choice(&vec![v6, v4], true, false), Some(v4));
    assert_eq!(lookup_choice(&vec![v4, v6], true, true), None);
    assert_eq!(lookup_choice(&vec![], false, false), None);
}

#[test]
fn host_file_lines() {
    assert_eq!(trim("  a.example \t"), "a.example");
    assert_eq!(trim("\u{3000}x\u{a0}"), "x");
    let lines: Vec<String> = vec!["host1", "", "   ", "# comment", "  host2  ", " #x", "host3"]
        .into_iter()
        .map(String::from)
        .collect();
    assert_eq!(host_file_entries(&lines), vec!["host1", "host2", "host3"]);
}

#[test]
fn tui_table_and_actions() {
    assert_eq!(take_action(TuiAction::Reset), (TuiAction::Reset, TuiAction::Continue));
    assert_eq!(take_action(TuiAction::Quit), (TuiAction::Quit, TuiAction::Quit));
    let mut h = host("a-very-long-host-name.example.org", 3);
    h.num_sent = 2;
    h.record_reply(Duration::from_millis(10), 0);
    h.record_reply(Duration::from_millis(20), 1);
    let t = render_table(&[h], Duration::from_millis(1500), "12:00:00");
    let lines: Vec<&str> = t.lines().collect();
    assert_eq!(lines[0], "=".repeat(103));
    assert_eq!(lines[1], " fping-rs TUI | Hosts: 1 | Elapsed: 1.5s");
    assert_eq!(
        lines[7],
        "a-very-long-host-... |      2 |      2 |     0% |   10.0ms |   15.0ms |   20.0ms |   20.0ms | \u{2585}\u{2588}x       "
    );
    assert_eq!(lines[10], " Updated: 12:00:00 | Interval: 200ms | Hosts: 1/1 visible");
}
