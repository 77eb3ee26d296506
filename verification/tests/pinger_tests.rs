use fping::args::Args;
use fping::pinger::{choose_ident, expected_ident, PingConfig, Pinger, ReplyOutcome, Report, Target};
use fping::time::{Duration, Instant};
use fping::types::IpAddress;

fn ms(n: u64) -> Duration {
    Duration::from_millis(n)
}

fn at(n: u64) -> Instant {
    Instant::after_start(ms(n))
}

fn targets(n: usize) -> Vec<Target> {
    (0..n)
        .map(|i| Target {
            name: format!("host{}", i),
            addr: IpAddress::V4([10, 0, 0, i as u8]),
            addr_text: format!("10.0.0.{}", i),
        })
        .collect()
}

fn pinger(args: Args, n: usize) -> Pinger {
    Pinger::new(PingConfig::from_args(&args), targets(n), Instant::start())
}

#[test]
fn hosts_are_staggered_by_interval() {
    let p = pinger(Args::new(vec![]), 3);
    assert_eq!(p.hosts[0].next_send, at(0));
    assert_eq!(p.hosts[1].next_send, at(10));
    assert_eq!(p.hosts[2].next_send, at(20));
    assert_eq!(p.hosts[2].retries_left, 3);
    assert_eq!(p.hosts[1].display, "host1");
    assert!(p.is_due(0, at(0)));
    assert!(!p.is_due(1, at(5)));
}

#[test]
fn display_by_address_with_addr_flag() {
    let mut a = Args::new(vec![]);
    a.addr = true;
    let p = pinger(a, 2);
    assert_eq!(p.hosts[1].display, "10.0.0.1");
    assert_eq!(p.hosts[1].name, "host1");
    assert_eq!(p.max_len, 8);
}

#[test]
fn count_mode_probe_reply_and_finish() {
    let mut a = Args::new(vec![]);
    a.count = Some(1);
    let mut p = pinger(a, 1);
    assert_eq!(p.hosts[0].resp_times.len(), 1);
    let seq = p.next_sequence();
    assert_eq!(seq, 0);
    p.record_send(0, seq, true, at(0), at(0), Duration::zero());
    assert_eq!(p.hosts[0].num_sent, 1);
    assert_eq!(p.hosts[0].current_ping_index, 1);
    // the single probe was sent: pushed back a day
    assert_eq!(p.hosts[0].next_send, Instant::after_start(Duration::from_secs(86400)));
    assert!(p.is_pending(0));

    match p.handle_reply(0, at(7)) {
        ReplyOutcome::Recorded { host_index, ping_index, rtt, first_reply, report } => {
            assert_eq!(host_index, 0);
            assert_eq!(ping_index, 0);
            assert_eq!(rtt, ms(7));
            assert!(first_reply);
            assert_eq!(report, Report::Recv);
        }
        other => panic!("unexpected {:?}", other),
    }
    assert_eq!(p.hosts[0].resp_times[0], Some(ms(7)));
    assert!(!p.is_pending(0));
    // a duplicate reply is not counted again
    assert!(matches!(p.handle_reply(0, at(8)), ReplyOutcome::Unknown));
    assert_eq!(p.hosts[0].num_recv, 1);

    p.update_done(at(100));
    assert!(!p.hosts[0].done);
    p.update_done(at(501));
    assert!(p.hosts[0].done);
    assert!(p.is_finished());
    assert!(p.exit_ok());
    assert!(p.shows_per_host_stats());
}

#[test]
fn late_reply_is_dropped_and_expiry_reports() {
    let mut a = Args::new(vec![]);
    a.count = Some(3);
    let mut p = pinger(a, 2);
    let s0 = p.next_sequence();
    p.record_send(0, s0, true, at(0), at(0), Duration::zero());
    assert_eq!(p.hosts[0].next_send, at(1000));
    let s1 = p.next_sequence();
    p.record_send(1, s1, true, at(10), at(10), Duration::zero());
    assert!(matches!(p.handle_reply(s0, at(600)), ReplyOutcome::Late));
    assert_eq!(p.hosts[0].num_recv, 0);
    let notices = p.expire(at(511));
    assert_eq!(notices, vec![(1usize, 0u32)]);
    assert!(p.pending.is_empty());
}

#[test]
fn timeouts_not_reported_when_quiet() {
    let mut a = Args::new(vec![]);
    a.count = Some(3);
    a.quiet = true;
    let mut p = pinger(a, 1);
    let s0 = p.next_sequence();
    p.record_send(0, s0, true, at(0), at(0), Duration::zero());
    assert!(p.expire(at(501)).is_empty());
    assert!(p.pending.is_empty());
}

#[test]
fn default_mode_first_reply_makes_host_alive_and_done() {
    let mut p = pinger(Args::new(vec![]), 2);
    let s0 = p.next_sequence();
    p.record_send(0, s0, true, at(0), at(0), ms(500));
    assert_eq!(p.hosts[0].next_send, at(500));
    match p.handle_reply(s0, at(3)) {
        ReplyOutcome::Recorded { report, first_reply, .. } => {
            assert!(first_reply);
            assert_eq!(report, Report::Alive);
        }
        other => panic!("unexpected {:?}", other),
    }
    assert!(p.hosts[0].done);
    assert!(p.unreachable_report() == vec![1]);
    assert!(!p.exit_ok());
}

#[test]
fn default_mode_gives_up_after_retries() {
    let mut a = Args::new(vec![]);
    a.retry = 1;
    let mut p = pinger(a, 1);
    let s0 = p.next_sequence();
    p.record_send(0, s0, true, at(0), at(0), ms(500));
    let s1 = p.next_sequence();
    p.record_send(0, s1, true, at(500), at(500), ms(750));
    assert_eq!(p.hosts[0].num_sent, 2);
    assert_eq!(p.hosts[0].next_send, Instant::after_start(ms(500).add(Duration::from_secs(86400))));
    p.expire(at(1001));
    p.update_done(at(1001));
    assert!(p.hosts[0].done);
    assert!(p.is_finished());
    assert_eq!(p.unreachable_report(), vec![0]);
}

#[test]
fn sequence_collision_falls_back_to_ffff() {
    let mut p = pinger(Args::new(vec![]), 1);
    let s0 = p.next_sequence();
    p.record_send(0, s0, true, at(0), at(0), ms(500));
    p.seq_counter = 65536;
    assert_eq!(p.next_sequence(), 65535);
    assert_eq!(p.seq_counter, 65537);
    p.seq_counter = u32::MAX;
    assert_eq!(p.next_sequence(), 65535);
    assert_eq!(p.seq_counter, 0);
}

#[test]
fn unsent_probe_is_not_recorded() {
    let mut p = pinger(Args::new(vec![]), 1);
    let s0 = p.next_sequence();
    p.record_send(0, s0, false, at(0), at(0), ms(500));
    assert_eq!(p.hosts[0].num_sent, 0);
    assert!(p.pending.is_empty());
}

#[test]
fn listed_hosts_and_global_summary() {
    let mut a = Args::new(vec![]);
    a.count = Some(2);
    a.alive = true;
    a.reachable = Some(1);
    let mut p = pinger(a, 2);
    let s0 = p.next_sequence();
    p.record_send(0, s0, true, at(0), at(0), Duration::zero());
    let s1 = p.next_sequence();
    p.record_send(0, s1, true, at(1000), at(1000), Duration::zero());
    p.handle_reply(s0, at(4));
    p.handle_reply(s1, at(1010));
    assert_eq!(p.listed_report(), vec![0]);
    assert!(!p.shows_per_host_stats());
    assert!(p.can_summarize());
    let g = p.global_summary(Duration::from_secs(2));
    assert_eq!(g.num_hosts, 2);
    assert_eq!(g.num_alive, 1);
    assert_eq!(g.num_unreachable, 1);
    assert_eq!(g.total_sent, 2);
    assert_eq!(g.total_recv, 2);
    assert_eq!(g.min_rtt, Some(ms(4)));
    assert_eq!(g.max_rtt, Some(ms(10)));
    assert_eq!(g.avg_rtt, Some(ms(7)));
    assert!(p.exit_ok());
}

#[test]
fn identifiers() {
    assert_eq!(choose_ident(Some(5), Some(6), 0x12345), 5);
    assert_eq!(choose_ident(None, Some(6), 0x12345), 6);
    assert_eq!(choose_ident(None, None, 0x12345), 0x2345);
    assert_eq!(expected_ident(Some(9), 1), 9);
    assert_eq!(expected_ident(None, 1), 1);
}

#[test]
fn default_mode_replies_feed_global_stats() {
    let mut p = pinger(Args::new(vec![]), 2);
    let s0 = p.next_sequence();
    p.record_send(0, s0, true, at(0), at(0), ms(500));
    p.handle_reply(s0, at(6));
    assert_eq!(p.hosts[0].resp_times, vec![Some(ms(6))]);
    assert!(p.can_summarize());
    let g = p.global_summary(Duration::from_secs(1));
    assert_eq!(g.min_rtt, Some(ms(6)));
    assert_eq!(g.avg_rtt, Some(ms(6)));
    assert_eq!(g.max_rtt, Some(ms(6)));
}

#[test]
fn loop_mode_logs_replies_in_arrival_order() {
    let mut a = Args::new(vec![]);
    a.loop_mode = true;
    let mut p = pinger(a, 1);
    let s0 = p.next_sequence();
    p.record_send(0, s0, true, at(0), at(0), Duration::zero());
    let s1 = p.next_sequence();
    p.record_send(0, s1, true, at(1000), at(1000), Duration::zero());
    p.handle_reply(s1, at(1003));
    p.handle_reply(s0, at(400));
    assert_eq!(p.hosts[0].resp_times, vec![Some(ms(3)), Some(ms(400))]);
}

#[test]
fn alive_only_run_lists_no_unreachable_host() {
    let mut a = Args::new(vec![]);
    a.alive = true;
    let mut p = pinger(a, 2);
    let s0 = p.next_sequence();
    p.record_send(0, s0, true, at(0), at(0), ms(500));
    p.handle_reply(s0, at(3));
    assert!(p.unreachable_report().is_empty());
}

#[test]
fn unreach_only_run_reports_timeouts_of_silent_hosts_only() {
    let mut a = Args::new(vec![]);
    a.count = Some(3);
    a.unreach = true;
    let mut p = pinger(a, 2);
    let s0 = p.next_sequence();
    p.record_send(0, s0, true, at(0), at(0), Duration::zero());
    let s1 = p.next_sequence();
    p.record_send(1, s1, true, at(0), at(0), Duration::zero());
    p.handle_reply(s0, at(5));
    let s2 = p.next_sequence();
    p.record_send(0, s2, true, at(1000), at(1000), Duration::zero());
    let notices = p.expire(at(2000));
    assert_eq!(notices, vec![(1usize, 0u32)]);
    assert!(p.pending.is_empty());
}

#[test]
fn elapsed_flag_shows_reply_time() {
    let mut a = Args::new(vec![]);
    a.elapsed = true;
    let p = pinger(a, 1);
    assert_eq!(p.alive_elapsed(ms(2)), Some(ms(2)));
    let q = pinger(Args::new(vec![]), 1);
    assert_eq!(q.alive_elapsed(ms(2)), None);
}

#[test]
fn probes_keep_schedule() {
    let mut a = Args::new(vec![]);
    a.count = Some(3);
    let mut p = pinger(a, 2);
    assert!(!p.is_due(1, at(9)));
    assert!(p.is_due(1, at(10)));
    let s0 = p.next_sequence();
    p.record_send(0, s0, true, at(2), at(0), Duration::zero());
    assert!(!p.is_due(0, at(1001)));
    assert!(p.is_due(0, at(1002)));
}
