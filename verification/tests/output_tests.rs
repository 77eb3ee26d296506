use fping::output::{max_host_len, sprint_tm};
use fping::time::Duration;
use fping::types::{HostEntry, IpAddress};

fn host(name: &str) -> HostEntry {
    HostEntry::new(name.to_string(), IpAddress::V4([1, 2, 3, 4]), false, 0)
}

#[test]
fn sprint_tm_sub_millisecond() {
    let s = sprint_tm(Duration::from_micros(500));
    assert!(s.contains('.'), "Expects a decimal point: {}", s);
    let val: f64 = s.parse().expect("No float");
    assert!((val - 0.500).abs() < 0.001);
}

#[test]
fn sprint_tm_single_digit_ms() {
    let s = sprint_tm(Duration::from_millis(5));
    let val: f64 = s.parse().expect("No float");
    assert!((val - 5.0).abs() < 0.01);
}

#[test]
fn sprint_tm_double_digit_ms() {
    let s = sprint_tm(Duration::from_millis(50));
    let val: f64 = s.parse().expect("No float");
    assert!((val - 50.0).abs() < 0.1);
}

#[test]
fn sprint_tm_triple_digit_ms() {
    let s = sprint_tm(Duration::from_millis(500));
    let val: f64 = s.parse().expect("No float");
    assert!((val - 500.0).abs() < 1.0);
}

#[test]
fn sprint_tm_zero() {
    let s = sprint_tm(Duration::zero());
    let val: f64 = s.parse().expect("No float");
    assert_eq!(val, 0.0);
}

#[test]
fn sprint_tm_exact_texts() {
    assert_eq!(sprint_tm(Duration::zero()), "0.000");
    assert_eq!(sprint_tm(Duration::from_micros(500)), "0.500");
    assert_eq!(sprint_tm(Duration::from_nanos(123_456)), "0.123");
    assert_eq!(sprint_tm(Duration::from_nanos(999_600)), "1.000");
    assert_eq!(sprint_tm(Duration::from_millis(5)), "5.00");
    assert_eq!(sprint_tm(Duration::from_nanos(1_234_567)), "1.23");
    assert_eq!(sprint_tm(Duration::from_millis(50)), "50.0");
    assert_eq!(sprint_tm(Duration::from_nanos(12_345_678)), "12.3");
    assert_eq!(sprint_tm(Duration::from_millis(500)), "500");
    assert_eq!(sprint_tm(Duration::from_nanos(123_456_789)), "123");
    assert_eq!(sprint_tm(Duration::from_secs(999)), "999000");
    assert_eq!(sprint_tm(Duration::from_secs(1000)), "1.000e6");
    assert_eq!(sprint_tm(Duration::from_secs(1234)), "1.234e6");
    assert_eq!(sprint_tm(Duration::from_nanos(1_234_567_000_000)), "1.235e6");
    assert_eq!(sprint_tm(Duration::from_nanos(9_999_600_000_000)), "1.000e7");
}

#[test]
fn max_host_len_empty_slice() {
    assert_eq!(max_host_len(&[]), 0);
}

#[test]
fn max_host_len_single() {
    let hosts = vec![host("example.com")];
    assert_eq!(max_host_len(&hosts), "example.com".len());
}

#[test]
fn max_host_len_multiple() {
    let hosts = vec![host("a.de"), host("very-long-hostname.example.org"), host("b.com")];
    assert_eq!(max_host_len(&hosts), "very-long-hostname.example.org".len());
}

#[test]
fn max_host_len_uses_display_field() {
    let mut h = HostEntry::new("example.com".to_string(), IpAddress::V4([1, 2, 3, 4]), false, 0);
    h.display = "1.2.3.4".to_string();
    assert_eq!(max_host_len(&[h]), "1.2.3.4".len());
}

#[test]
fn sprint_tm_exact_half_goes_to_even() {
    assert_eq!(sprint_tm(Duration::from_nanos(312_500_000)), "312");
    assert_eq!(sprint_tm(Duration::from_nanos(313_500_000)), "314");
    assert_eq!(sprint_tm(Duration::from_nanos(1_005_000)), "1.00");
    assert_eq!(sprint_tm(Duration::from_nanos(5_499)), "0.005");
    assert_eq!(sprint_tm(Duration::from_nanos(2_500)), "0.002");
}

/// The float formatting of a time that an `f64` holds exactly.
fn float_text(d: std::time::Duration) -> String {
    let ms = d.as_secs_f64() * 1000.0;
    if ms < 1.0 {
        format!("{:.3}", ms)
    } else if ms < 10.0 {
        format!("{:.2}", ms)
    } else if ms < 100.0 {
        format!("{:.1}", ms)
    } else if ms < 1_000_000.0 {
        format!("{:.0}", ms)
    } else {
        format!("{:.3e}", ms)
    }
}

#[test]
fn sprint_tm_agrees_with_float_formatting_on_exact_times() {
    // multiples of 1/512 s: as f64 seconds and milliseconds they are exact
    for k in 1u64..=2048 {
        let n = k * 1_953_125;
        let expected = float_text(std::time::Duration::from_nanos(n));
        assert_eq!(sprint_tm(Duration::from_nanos(n)), expected, "at {} ns", n);
    }
    for ms in [0u64, 1, 2, 5, 10, 50, 100, 999, 123_456] {
        let expected = float_text(std::time::Duration::from_millis(ms));
        assert_eq!(sprint_tm(Duration::from_millis(ms)), expected, "at {} ms", ms);
    }
}
