use fping::args::Args;

fn parse(targets: &[&str]) -> Args {
    Args::new(targets.iter().map(|t| t.to_string()).collect())
}

#[test]
fn defaults_are_correct() {
    let a = parse(&["1.2.3.4"]);
    assert_eq!(a.interval, 10);
    assert_eq!(a.period, 1000);
    assert_eq!(a.timeout, 500);
    assert_eq!(a.retry, 3);
    assert!((f64::from_bits(a.backoff_bits) - 1.5).abs() < f64::EPSILON);
    assert_eq!(a.size, 56);
    assert!(!a.loop_mode);
    assert!(!a.quiet);
    assert!(!a.alive);
    assert!(!a.unreach);
    assert!(!a.stats);
    assert!(!a.json);
    assert!(!a.ipv4);
    assert!(!a.ipv6);
    assert!(!a.addr);
    assert!(!a.timestamp);
}

#[test]
fn effective_count_none_by_default() {
    let a = parse(&["1.2.3.4"]);
    assert!(a.effective_count().is_none());
}

#[test]
fn effective_count_uses_count() {
    let mut a = parse(&["1.2.3.4"]);
    a.count = Some(5);
    assert_eq!(a.effective_count(), Some(5));
}

#[test]
fn effective_count_uses_vcount() {
    let mut a = parse(&["1.2.3.4"]);
    a.vcount = Some(3);
    assert_eq!(a.effective_count(), Some(3));
}

#[test]
fn effective_count_vcount_overrides_count() {
    let mut a = parse(&["1.2.3.4"]);
    a.vcount = Some(7);
    assert_eq!(a.effective_count(), Some(7));
    assert!(a.is_verbose_count());
}

#[test]
fn is_verbose_count_false_without_vcount() {
    let mut a = parse(&["1.2.3.4"]);
    a.count = Some(4);
    assert!(!a.is_verbose_count());
}

#[test]
fn is_verbose_count_true_with_vcount() {
    let mut a = parse(&["1.2.3.4"]);
    a.vcount = Some(4);
    assert!(a.is_verbose_count());
}

#[test]
fn vcount_wins_over_count_when_both_given() {
    let mut a = parse(&["1.2.3.4"]);
    a.count = Some(2);
    a.vcount = Some(9);
    assert_eq!(a.effective_count(), Some(9));
}

#[test]
fn new_keeps_targets_in_order() {
    let a = parse(&["1.1.1.1", "8.8.8.8", "9.9.9.9"]);
    assert_eq!(a.targets, vec!["1.1.1.1", "8.8.8.8", "9.9.9.9"]);
}

#[test]
fn json_needs_count_or_loop() {
    let mut a = Args::new(vec!["h".to_string()]);
    assert!(a.json_mode_valid());
    a.json = true;
    assert!(!a.json_mode_valid());
    a.count = Some(2);
    assert!(a.json_mode_valid());
    a.count = None;
    a.vcount = Some(2);
    assert!(a.json_mode_valid());
    a.vcount = None;
    a.loop_mode = true;
    assert!(a.json_mode_valid());
}
