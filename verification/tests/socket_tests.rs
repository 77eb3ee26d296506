use fping::constants::{ICMP6_ECHO_REQUEST, ICMP_ECHO_REQUEST, ICMP_HEADER_LEN};
use fping::socket::{build_icmp_packet, echo_request_fits, parse_icmp_packet, SocketKind};

fn folded_sum(pkt: &[u8]) -> u32 {
    let mut sum: u32 = 0;
    let mut i = 0;
    while i + 1 < pkt.len() {
        sum += u16::from_be_bytes([pkt[i], pkt[i + 1]]) as u32;
        i += 2;
    }
    if i < pkt.len() {
        sum += (pkt[i] as u32) << 8;
    }
    while sum >> 16 != 0 {
        sum = (sum & 0xFFFF) + (sum >> 16);
    }
    sum
}

#[test]
fn build_packet_correct_length_ipv4() {
    let pkt = build_icmp_packet(1234, 42, 56, false, SocketKind::Raw);
    assert_eq!(pkt.len(), ICMP_HEADER_LEN + 56);
}

#[test]
fn build_packet_correct_length_ipv6() {
    let pkt = build_icmp_packet(1234, 42, 56, true, SocketKind::Raw);
    assert_eq!(pkt.len(), ICMP_HEADER_LEN + 56);
}

#[test]
fn build_packet_zero_data_size() {
    let pkt = build_icmp_packet(0, 0, 0, false, SocketKind::Raw);
    assert_eq!(pkt.len(), ICMP_HEADER_LEN);
}

#[test]
fn build_packet_ipv4_type_field() {
    let pkt = build_icmp_packet(0, 0, 0, false, SocketKind::Raw);
    assert_eq!(pkt[0], ICMP_ECHO_REQUEST);
}

#[test]
fn build_packet_ipv6_type_field() {
    let pkt = build_icmp_packet(0, 0, 0, true, SocketKind::Raw);
    assert_eq!(pkt[0], ICMP6_ECHO_REQUEST);
}

#[test]
fn build_packet_id_encoded_correctly() {
    let id: u16 = 0xABCD;
    let pkt = build_icmp_packet(id, 0, 0, false, SocketKind::Raw);
    let id_read = u16::from_be_bytes([pkt[4], pkt[5]]);
    assert_eq!(id_read, id);
}

#[test]
fn build_packet_seq_encoded_correctly() {
    let seq: u16 = 0x1234;
    let pkt = build_icmp_packet(0, seq, 0, false, SocketKind::Raw);
    let seq_read = u16::from_be_bytes([pkt[6], pkt[7]]);
    assert_eq!(seq_read, seq);
}

#[test]
fn build_packet_seq_wraps_at_u16_max() {
    let pkt = build_icmp_packet(0, u16::MAX, 0, false, SocketKind::Raw);
    let seq_read = u16::from_be_bytes([pkt[6], pkt[7]]);
    assert_eq!(seq_read, u16::MAX);
}

#[test]
fn build_packet_ipv4_checksum_is_valid() {
    let pkt = build_icmp_packet(0x1234, 0x0001, 56, false, SocketKind::Raw);
    assert_eq!(folded_sum(&pkt) as u16, 0xFFFF, "Invalid ICMP checksum");
}

#[test]
fn build_packet_ipv6_checksum_field_is_zero() {
    let pkt = build_icmp_packet(0x1234, 0x0001, 56, true, SocketKind::Raw);
    assert_eq!(pkt[2], 0);
    assert_eq!(pkt[3], 0);
}

#[test]
fn build_packet_payload_pattern() {
    let pkt = build_icmp_packet(0, 0, 8, false, SocketKind::Raw);
    for (i, &b) in pkt[ICMP_HEADER_LEN..].iter().enumerate() {
        assert_eq!(b, (i & 0xFF) as u8, "Payload byte {} is incorrect", i);
    }
}

#[test]
fn checksum_valid_for_odd_length_and_other_fields() {
    for size in [0usize, 1, 7, 55, 57, 300, 1000] {
        let pkt = build_icmp_packet(0xFFFF, 0xFFFE, size, false, SocketKind::Dgram);
        assert_eq!(folded_sum(&pkt), 0xFFFF, "size {}", size);
    }
}

#[test]
fn checksum_exact_value_for_empty_request() {
    // type 8 << 8 = 0x0800, id 1, seq 2: sum 0x0803, checksum !0x0803 = 0xF7FC
    let pkt = build_icmp_packet(1, 2, 0, false, SocketKind::Raw);
    assert_eq!(pkt, vec![8, 0, 0xF7, 0xFC, 0, 1, 0, 2]);
}

#[test]
fn payload_pattern_wraps_after_256_bytes() {
    let pkt = build_icmp_packet(0, 0, 300, true, SocketKind::Dgram);
    assert_eq!(pkt[ICMP_HEADER_LEN + 255], 255);
    assert_eq!(pkt[ICMP_HEADER_LEN + 256], 0);
    assert_eq!(pkt[ICMP_HEADER_LEN + 299], 43);
}

#[test]
fn fits_for_usual_sizes_not_for_huge() {
    assert!(echo_request_fits(0x1234, 1, 56));
    assert!(echo_request_fits(0xFFFF, 0xFFFF, 65_000));
    assert!(!echo_request_fits(0xFFFF, 0xFFFF, 400_000));
}

fn reply_of(mut pkt: Vec<u8>, is_ipv6: bool) -> Vec<u8> {
    pkt[0] = if is_ipv6 { 129 } else { 0 };
    pkt
}

#[test]
fn parse_reply_on_dgram_socket() {
    let r = reply_of(build_icmp_packet(77, 4242, 56, false, SocketKind::Dgram), false);
    assert_eq!(parse_icmp_packet(&r, false, SocketKind::Dgram, Some(77)), Some(4242));
    assert_eq!(parse_icmp_packet(&r, false, SocketKind::Dgram, None), Some(4242));
}

#[test]
fn parse_reply_on_raw_socket_skips_ip_header() {
    let r = reply_of(build_icmp_packet(77, 9, 56, false, SocketKind::Raw), false);
    let mut data = vec![0x46u8];
    data.extend(std::iter::repeat(0u8).take(23));
    data.extend(r);
    assert_eq!(parse_icmp_packet(&data, false, SocketKind::Raw, Some(77)), Some(9));
}

#[test]
fn parse_ipv6_reply() {
    let r = reply_of(build_icmp_packet(5, 6, 0, true, SocketKind::Raw), true);
    assert_eq!(parse_icmp_packet(&r, true, SocketKind::Raw, Some(5)), Some(6));
    assert_eq!(parse_icmp_packet(&r, false, SocketKind::Dgram, Some(5)), None);
}

#[test]
fn parse_rejects_foreign_id_request_and_short() {
    let r = reply_of(build_icmp_packet(77, 9, 56, false, SocketKind::Dgram), false);
    assert_eq!(parse_icmp_packet(&r, false, SocketKind::Dgram, Some(78)), None);
    let q = build_icmp_packet(77, 9, 56, false, SocketKind::Dgram);
    assert_eq!(parse_icmp_packet(&q, false, SocketKind::Dgram, Some(77)), None);
    assert_eq!(parse_icmp_packet(&r[..7], false, SocketKind::Dgram, None), None);
    assert_eq!(parse_icmp_packet(&r[..20], false, SocketKind::Raw, None), None);
}

#[test]
fn message_carrying_its_checksum_verifies() {
    for len in [4usize, 5, 9, 64, 1001] {
        let mut d: Vec<u8> = (0..len).map(|i| (i * 37 + 11) as u8).collect();
        d[2] = 0;
        d[3] = 0;
        let c = fping::socket::icmp_checksum(&d);
        d[2] = (c >> 8) as u8;
        d[3] = (c & 0xFF) as u8;
        assert_eq!(fping::socket::icmp_checksum(&d), 0);
    }
}
