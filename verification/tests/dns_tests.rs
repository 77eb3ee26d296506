// The address literals of these cases are given already parsed: reading
// the text of an address is done by the program, with std::net, before the
// library decides whether the address is used.

use fping::dns::literal_choice;
use fping::types::IpAddress;

fn loopback4() -> IpAddress {
    IpAddress::V4([127, 0, 0, 1])
}

fn loopback6() -> IpAddress {
    IpAddress::V6([0, 0, 0, 0, 0, 0, 0, 0, 0, 0, 0, 0, 0, 0, 0, 1])
}

#[test]
fn resolve_ipv4_literal() {
    let result = literal_choice(loopback4(), false, false);
    assert_eq!(result, Some(loopback4()));
}

#[test]
fn resolve_ipv6_literal() {
    let result = literal_choice(loopback6(), false, false);
    assert_eq!(result, Some(loopback6()));
}

#[test]
fn resolve_ipv4_literal_rejected_when_ipv6_only() {
    let result = literal_choice(loopback4(), false, true);
    assert!(result.is_none(), "The IPv4 address should be rejected when --ipv6 is specified");
}

#[test]
fn resolve_ipv6_literal_rejected_when_ipv4_only() {
    let result = literal_choice(loopback6(), true, false);
    assert!(result.is_none(), "An IPv6 address should be rejected when using --ipv4");
}
