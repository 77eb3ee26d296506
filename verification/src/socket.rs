use vstd::prelude::*;

use crate::constants::{
    ICMP6_ECHO_REPLY, ICMP6_ECHO_REQUEST, ICMP_ECHO_REPLY, ICMP_ECHO_REQUEST, ICMP_HEADER_LEN,
    ICMP_ID_OFFSET, ICMP_MIN_LEN, ICMP_SEQ_OFFSET, ICMP_TYPE_OFFSET, IPV4_MIN_HDR_LEN,
};

verus! {

/// How the ICMP socket was opened: raw (IPv4 replies carry the IP header)
/// or datagram (unprivileged, the kernel strips the IP header).
#[derive(Clone, Copy, PartialEq, Eq, Structural, Debug)]
pub enum SocketKind {
    Raw,
    Dgram,
}

/// A reply that was read from a socket and recognised as ours.
pub struct ReceivedPing {
    pub seq: u16,
    pub raw_len: usize,
}

/// The 16-bit big-endian word number `k` of `data`; a trailing odd byte is
/// padded with a zero low byte, and words past the end are zero.
pub open spec fn word(data: Seq<u8>, k: nat) -> nat {
    if 2 * k + 1 < data.len() {
        data[2 * (k as int)] as nat * 256 + data[2 * k + 1int] as nat
    } else if 2 * k < data.len() {
        data[2 * (k as int)] as nat * 256
    } else {
        0
    }
}

/// Sum of the first `n` words of `data`.
pub open spec fn sum_words(data: Seq<u8>, n: nat) -> nat
    decreases n,
{
    if n == 0 {
        0
    } else {
        sum_words(data, (n - 1) as nat) + word(data, (n - 1) as nat)
    }
}

/// Number of 16-bit words that cover `data`.
pub open spec fn word_count(data: Seq<u8>) -> nat {
    ((data.len() + 1) / 2) as nat
}

/// Plain (not yet folded) sum of all 16-bit words of `data`.
pub open spec fn ones_sum(data: Seq<u8>) -> nat {
    sum_words(data, word_count(data))
}

/// End-around-carry folding of a sum into 16 bits.
pub open spec fn fold(s: nat) -> nat
    decreases s,
{
    if s < 65536 {
        s
    } else {
        proof {
            lemma_fold_step_smaller(s);
        }
        fold(s % 65536 + s / 65536)
    }
}

/// The Internet checksum (RFC 1071) of `data`: the one's complement of the
/// folded sum of its 16-bit big-endian words.
pub open spec fn checksum(data: Seq<u8>) -> u16 {
    (65535 - fold(ones_sum(data))) as u16
}

pub proof fn lemma_fold_step_smaller(s: nat)
    requires
        s >= 65536,
    ensures
        s % 65536 + s / 65536 < s,
{
    vstd::arithmetic::div_mod::lemma_fundamental_div_mod(s as int, 65536);
    assert(s / 65536 >= 1) by {
        vstd::arithmetic::div_mod::lemma_div_is_ordered(65536, s as int, 65536);
    }
}

/// Folding yields a 16-bit value congruent to its input modulo 65535, and it
/// is zero only for a zero input.
pub proof fn lemma_fold_props(s: nat)
    ensures
        fold(s) <= 65535,
        fold(s) % 65535 == s % 65535,
        s > 0 ==> fold(s) > 0,
    decreases s,
{
    if s >= 65536 {
        lemma_fold_step_smaller(s);
        let t = s % 65536 + s / 65536;
        lemma_fold_props(t);
        vstd::arithmetic::div_mod::lemma_fundamental_div_mod(s as int, 65536);
        let q = s / 65536;
        let r = s % 65536;
        assert(s == 65535 * q + (q + r)) by (nonlinear_arith)
            requires
                s == 65536 * q + r,
        ;
        vstd::arithmetic::div_mod::lemma_mod_multiples_vanish(q as int, (q + r) as int, 65535);
        assert(q >= 1) by {
            vstd::arithmetic::div_mod::lemma_div_is_ordered(65536, s as int, 65536);
        }
    }
}

proof fn lemma_sum_words_monotone(data: Seq<u8>, a: nat, b: nat)
    requires
        a <= b,
    ensures
        sum_words(data, a) <= sum_words(data, b),
    decreases b,
{
    if a < b {
        lemma_sum_words_monotone(data, a, (b - 1) as nat);
    }
}

/// The words past the end of `data` contribute nothing.
proof fn lemma_sum_words_past_end(data: Seq<u8>, n: nat)
    requires
        n >= word_count(data),
    ensures
        sum_words(data, n) == ones_sum(data),
    decreases n,
{
    if n > word_count(data) {
        lemma_sum_words_past_end(data, (n - 1) as nat);
    }
}

/// Changing bytes that lie outside the first `n` words leaves their sum alone.
proof fn lemma_sum_words_agree(a: Seq<u8>, b: Seq<u8>, n: nat)
    requires
        forall|k: nat| k < n ==> word(a, k) == word(b, k),
    ensures
        sum_words(a, n) == sum_words(b, n),
    decreases n,
{
    if n > 0 {
        lemma_sum_words_agree(a, b, (n - 1) as nat);
    }
}

/// The big-endian 16-bit word made of `hi` and `lo`, widened.
fn be_word(hi: u8, lo: u8) -> (w: u32)
    ensures
        w == hi as nat * 256 + lo as nat,
{
    (hi as u32) * 256 + lo as u32
}

/// One's complement of a sum already folded into 16 bits.
fn complement16(s: u32) -> (c: u16)
    requires
        s <= 65535,
    ensures
        c == (65535 - s) as u16,
{
    let folded = s as u16;
    assert(!folded == 65535 - folded) by (bit_vector);
    !folded
}

proof fn lemma_sum_words_bound(data: Seq<u8>, n: nat)
    ensures
        sum_words(data, n) <= n * 65535,
    decreases n,
{
    if n > 0 {
        lemma_sum_words_bound(data, (n - 1) as nat);
    }
}

/// The plain word sum of a message grows with its length: it is at most
/// 0xFFFF per word, so a message of at most 131_074 bytes sums to no more
/// than `u32::MAX`.
pub proof fn lemma_ones_sum_bound(data: Seq<u8>)
    ensures
        ones_sum(data) <= word_count(data) * 65535,
        data.len() <= 131074 ==> ones_sum(data) <= u32::MAX,
{
    lemma_sum_words_bound(data, word_count(data));
    if data.len() <= 131074 {
        assert(word_count(data) <= 65537);
        assert(word_count(data) * 65535 <= 65537 * 65535) by (nonlinear_arith)
            requires
                word_count(data) <= 65537,
        ;
    }
}

/// Sums the 16-bit words of `data`, folds the carries and complements.
fn ones_complement_checksum(data: &[u8]) -> (c: u16)
    requires
        ones_sum(data@) <= u32::MAX,
    ensures
        c == checksum(data@),
{
    let mut sum: u32 = 0;
    let mut i: usize = 0;
    while i + 1 < data.len()
        invariant
            i % 2 == 0,
            i <= data.len(),
            sum == sum_words(data@, (i / 2) as nat),
            ones_sum(data@) <= u32::MAX,
        decreases data.len() - i,
    {
        proof {
            lemma_sum_words_monotone(data@, (i / 2 + 1) as nat, word_count(data@));
        }
        sum += be_word(data[i], data[i + 1]);
        i += 2;
    }
    if i < data.len() {
        proof {
            lemma_sum_words_monotone(data@, (i / 2 + 1) as nat, word_count(data@));
        }
        sum += be_word(data[i], 0);
        proof {
            lemma_sum_words_past_end(data@, (i / 2 + 1) as nat);
        }
    } else {
        proof {
            lemma_sum_words_past_end(data@, (i / 2) as nat);
        }
    }
    while sum / 65536 != 0
        invariant
            fold(sum as nat) == fold(ones_sum(data@)),
        decreases sum,
    {
        proof {
            lemma_fold_step_smaller(sum as nat);
        }
        sum = sum % 65536 + sum / 65536;
    }
    complement16(sum)
}

/// Computes the Internet checksum of an ICMP message. Every message of at
/// most 131_074 bytes meets the bound on the word sum (see
/// `lemma_ones_sum_bound`).
pub fn icmp_checksum(data: &[u8]) -> (c: u16)
    requires
        ones_sum(data@) <= 4294967295,
    ensures
        c == checksum(data@),
{
    ones_complement_checksum(data)
}


/// Byte `i` of an echo message of type `msg_type` with zero checksum field:
/// type, code 0, checksum 0, identifier and sequence big-endian, then a
/// payload whose byte `j` is `j mod 256`.
pub open spec fn template_byte(msg_type: u8, id: u16, seq: u16, i: int) -> u8 {
    if i == 0 {
        msg_type
    } else if i == 4 {
        (id / 256) as u8
    } else if i == 5 {
        (id % 256) as u8
    } else if i == 6 {
        (seq / 256) as u8
    } else if i == 7 {
        (seq % 256) as u8
    } else if i >= 8 {
        ((i - 8) % 256) as u8
    } else {
        0
    }
}

/// An echo message with `data_size` payload bytes and a zero checksum field.
pub open spec fn echo_template(msg_type: u8, id: u16, seq: u16, data_size: usize) -> Seq<u8> {
    Seq::new((8 + data_size) as nat, |i: int| template_byte(msg_type, id, seq, i))
}

/// The first `n` bytes of an echo template.
pub open spec fn template_prefix(msg_type: u8, id: u16, seq: u16, n: usize) -> Seq<u8> {
    Seq::new(n as nat, |i: int| template_byte(msg_type, id, seq, i))
}

/// `msg` with its checksum field (bytes 2 and 3) set to `c`, big-endian.
pub open spec fn with_checksum(msg: Seq<u8>, c: u16) -> Seq<u8> {
    msg.update(2, (c / 256) as u8).update(3, (c % 256) as u8)
}

/// The echo request that is sent: for IPv4 the checksum is filled in, for
/// IPv6 it is left zero (the kernel computes it for ICMPv6).
pub open spec fn echo_request(id: u16, seq: u16, data_size: usize, is_ipv6: bool) -> Seq<u8> {
    if is_ipv6 {
        echo_template(ICMP6_ECHO_REQUEST, id, seq, data_size)
    } else {
        let t = echo_template(ICMP_ECHO_REQUEST, id, seq, data_size);
        with_checksum(t, checksum(t))
    }
}

/// Whether the plain word sum of the IPv4 echo request fits the 32-bit
/// accumulator used to compute its checksum.
pub open spec fn echo_sum_fits(id: u16, seq: u16, data_size: usize) -> bool {
    ones_sum(echo_template(ICMP_ECHO_REQUEST, id, seq, data_size)) <= u32::MAX
}

fn high_byte(x: u16) -> (b: u8)
    ensures
        b == (x / 256) as u8,
{
    (x / 256) as u8
}

fn low_byte(x: u16) -> (b: u8)
    ensures
        b == (x % 256) as u8,
{
    (x % 256) as u8
}

/// Exec counterpart of `template_byte`.
fn echo_byte(msg_type: u8, id: u16, seq: u16, i: usize) -> (b: u8)
    ensures
        b == template_byte(msg_type, id, seq, i as int),
{
    if i == 0 {
        msg_type
    } else if i == 4 {
        high_byte(id)
    } else if i == 5 {
        low_byte(id)
    } else if i == 6 {
        high_byte(seq)
    } else if i == 7 {
        low_byte(seq)
    } else if i >= 8 {
        ((i - 8) % 256) as u8
    } else {
        0
    }
}

/// Builds the ICMP echo request with identifier `id`, sequence number `seq`
/// and `data_size` payload bytes.
pub fn build_icmp_packet(id: u16, seq: u16, data_size: usize, is_ipv6: bool, kind: SocketKind) -> (pkt: Vec<u8>)
    requires
        data_size <= usize::MAX - ICMP_HEADER_LEN,
        !is_ipv6 ==> echo_sum_fits(id, seq, data_size),
    ensures
        pkt@ == echo_request(id, seq, data_size, is_ipv6),
{
    let total = ICMP_HEADER_LEN + data_size;
    let msg_type = if is_ipv6 { ICMP6_ECHO_REQUEST } else { ICMP_ECHO_REQUEST };
    let mut pkt: Vec<u8> = Vec::new();
    let mut i: usize = 0;
    while i < total
        invariant
            total == ICMP_HEADER_LEN + data_size,
            i <= total,
            pkt@ =~= template_prefix(msg_type, id, seq, i),
        decreases total - i,
    {
        let b = echo_byte(msg_type, id, seq, i);
        pkt.push(b);
        i += 1;
    }
    assert(pkt@ =~= echo_template(msg_type, id, seq, data_size));
    if !is_ipv6 {
        let cksum = icmp_checksum(pkt.as_slice());
        pkt.set(2, high_byte(cksum));
        pkt.set(3, low_byte(cksum));
    }
    pkt
}

/// Replacing one zero word of `a` by the value `c` adds `c` to the word sum.
proof fn lemma_sum_words_replace(a: Seq<u8>, b: Seq<u8>, j: nat, c: nat, n: nat)
    requires
        j < n,
        word(a, j) == 0,
        word(b, j) == c,
        forall|k: nat| k != j ==> word(a, k) == word(b, k),
    ensures
        sum_words(b, n) == sum_words(a, n) + c,
    decreases n,
{
    if n - 1 == j {
        lemma_sum_words_agree(a, b, j);
    } else {
        lemma_sum_words_replace(a, b, j, c, (n - 1) as nat);
    }
}

/// Law: a message carrying its own checksum verifies. When the checksum of
/// a message whose checksum field (bytes 2 and 3) is zero is written into
/// that field, the folded word sum of the message becomes 0xFFFF, so its
/// checksum is zero.
pub proof fn lemma_checksum_self_verifies(d: Seq<u8>)
    requires
        d.len() >= 4,
        d[2] == 0,
        d[3] == 0,
    ensures
        fold(ones_sum(with_checksum(d, checksum(d)))) == 65535,
        checksum(with_checksum(d, checksum(d))) == 0,
{
    let c = checksum(d);
    let p = with_checksum(d, c);
    let s = ones_sum(d);
    lemma_fold_props(s);
    assert(c as nat == 65535 - fold(s));
    assert(p.len() == d.len());
    assert forall|k: nat| k != 1 implies word(d, k) == word(p, k) by {
        if 2 * k + 1 < d.len() {
            assert(p[2 * (k as int)] == d[2 * (k as int)]);
            assert(p[2 * (k as int) + 1int] == d[2 * (k as int) + 1int]);
        } else if 2 * k < d.len() {
            assert(p[2 * (k as int)] == d[2 * (k as int)]);
        }
    }
    assert(word(d, 1) == 0);
    assert(word(p, 1) == c as nat) by {
        assert(p[2] == (c / 256) as u8);
        assert(p[3] == (c % 256) as u8);
    }
    lemma_sum_words_replace(d, p, 1, c as nat, word_count(d));
    let total = s + c as nat;
    if s == 0 {
        assert(fold(s) == 0);
        assert(total == 65535);
    } else {
        lemma_fold_props(total);
        assert(total % 65535 == 0) by {
            vstd::arithmetic::div_mod::lemma_fundamental_div_mod(s as int, 65535);
            vstd::arithmetic::div_mod::lemma_fundamental_div_mod(fold(s) as int, 65535);
            assert(fold(s) % 65535 == s % 65535);
            let q1 = s / 65535;
            let q2 = fold(s) / 65535;
            assert(total == 65535 * (q1 - q2 + 1)) by (nonlinear_arith)
                requires
                    s == 65535 * q1 + s % 65535,
                    fold(s) == 65535 * q2 + fold(s) % 65535,
                    fold(s) % 65535 == s % 65535,
                    total == s + 65535 - fold(s),
            ;
            vstd::arithmetic::div_mod::lemma_mod_multiples_basic(q1 - q2 + 1, 65535);
        }
    }
    assert(word_count(p) == word_count(d));
}

/// Law: the IPv4 echo request that is sent carries a valid Internet
/// checksum, i.e. the folded word sum of the whole message is 0xFFFF.
pub proof fn lemma_echo_request_checksum_valid(id: u16, seq: u16, data_size: usize)
    requires
        data_size <= usize::MAX - ICMP_HEADER_LEN,
    ensures
        fold(ones_sum(echo_request(id, seq, data_size, false))) == 65535,
{
    let t = echo_template(ICMP_ECHO_REQUEST, id, seq, data_size);
    assert(t[2] == 0 && t[3] == 0);
    lemma_checksum_self_verifies(t);
}

/// Length in bytes of the IPv4 header whose first byte is `b` (IHL field).
pub open spec fn ipv4_header_len(b: u8) -> nat {
    ((b % 16) * 4) as nat
}

/// Big-endian 16-bit value of two bytes.
pub open spec fn be16(hi: u8, lo: u8) -> u16 {
    (hi as nat * 256 + lo as nat) as u16
}

/// Whether `data` as read from the socket starts with an IPv4 header: only
/// raw IPv4 sockets deliver it.
pub open spec fn has_ip_header(is_ipv6: bool, kind: SocketKind) -> bool {
    !is_ipv6 && kind == SocketKind::Raw
}

/// Where the ICMP message starts in `data`.
pub open spec fn message_offset(data: Seq<u8>, is_ipv6: bool, kind: SocketKind) -> nat {
    if has_ip_header(is_ipv6, kind) {
        ipv4_header_len(data[0])
    } else {
        0
    }
}

/// The echo reply type of the address family.
pub open spec fn reply_type(is_ipv6: bool) -> u8 {
    if is_ipv6 {
        ICMP6_ECHO_REPLY
    } else {
        ICMP_ECHO_REPLY
    }
}

/// What a packet read from an ICMP socket means: `Some(seq)` when it is an
/// echo reply (with the expected identifier, when one is expected), `None`
/// when it is too short, of another type or for another identifier.
pub open spec fn parse_reply(data: Seq<u8>, is_ipv6: bool, kind: SocketKind, expected_id: Option<u16>) -> Option<u16> {
    if has_ip_header(is_ipv6, kind) && data.len() < 28 {
        None
    } else if data.len() < message_offset(data, is_ipv6, kind) + 8 {
        None
    } else {
        let off = message_offset(data, is_ipv6, kind) as int;
        if data[off] != reply_type(is_ipv6) {
            None
        } else {
            let id = be16(data[off + 4], data[off + 5]);
            match expected_id {
                Some(e) if id != e => None,
                _ => Some(be16(data[off + 6], data[off + 7])),
            }
        }
    }
}

fn header_len(b: u8) -> (n: usize)
    ensures
        n == ipv4_header_len(b),
{
    let low = b & 0x0F;
    assert(b & 0x0F == b % 16) by (bit_vector);
    (low as usize) * 4
}

fn be_u16(hi: u8, lo: u8) -> (v: u16)
    ensures
        v == be16(hi, lo),
{
    ((hi as u16) * 256) + lo as u16
}

/// Recognises an echo reply in a packet read from an ICMP socket and returns
/// its sequence number.
pub fn parse_icmp_packet(data: &[u8], is_ipv6: bool, kind: SocketKind, expected_id: Option<u16>) -> (res: Option<u16>)
    ensures
        res == parse_reply(data@, is_ipv6, kind, expected_id),
{
    let off: usize = if !is_ipv6 && kind == SocketKind::Raw {
        if data.len() < IPV4_MIN_HDR_LEN + ICMP_MIN_LEN {
            return None;
        }
        let ihl = header_len(data[0]);
        if data.len() < ihl + ICMP_MIN_LEN {
            return None;
        }
        ihl
    } else {
        if data.len() < ICMP_MIN_LEN {
            return None;
        }
        0
    };
    let kind_byte = data[off + ICMP_TYPE_OFFSET];
    let is_reply = if is_ipv6 {
        kind_byte == ICMP6_ECHO_REPLY
    } else {
        kind_byte == ICMP_ECHO_REPLY
    };
    if !is_reply {
        return None;
    }
    let id = be_u16(data[off + ICMP_ID_OFFSET], data[off + ICMP_ID_OFFSET + 1]);
    if let Some(eid) = expected_id {
        if id != eid {
            return None;
        }
    }
    Some(be_u16(data[off + ICMP_SEQ_OFFSET], data[off + ICMP_SEQ_OFFSET + 1]))
}

/// The echo reply a peer sends back for `request`: the same message with the
/// reply type (the checksum is not examined on receipt).
pub open spec fn reply_to(request: Seq<u8>, is_ipv6: bool) -> Seq<u8> {
    request.update(0, reply_type(is_ipv6))
}

/// The bytes a socket delivers for `reply`: raw IPv4 sockets prefix the IP
/// header `hdr`.
pub open spec fn as_delivered(reply: Seq<u8>, hdr: Seq<u8>, is_ipv6: bool, kind: SocketKind) -> Seq<u8> {
    if has_ip_header(is_ipv6, kind) {
        hdr + reply
    } else {
        reply
    }
}

/// A well-formed IPv4 header: at least 20 bytes, as long as its IHL says.
pub open spec fn valid_ipv4_header(hdr: Seq<u8>) -> bool {
    hdr.len() >= 20 && hdr.len() == ipv4_header_len(hdr[0])
}

proof fn lemma_request_fields(id: u16, seq: u16, data_size: usize, is_ipv6: bool)
    requires
        data_size <= usize::MAX - ICMP_HEADER_LEN,
    ensures
        echo_request(id, seq, data_size, is_ipv6).len() == 8 + data_size,
        echo_request(id, seq, data_size, is_ipv6)[0] == (if is_ipv6 { ICMP6_ECHO_REQUEST } else { ICMP_ECHO_REQUEST }),
        be16(echo_request(id, seq, data_size, is_ipv6)[4], echo_request(id, seq, data_size, is_ipv6)[5]) == id,
        be16(echo_request(id, seq, data_size, is_ipv6)[6], echo_request(id, seq, data_size, is_ipv6)[7]) == seq,
{
    let r = echo_request(id, seq, data_size, is_ipv6);
    assert(be16((id / 256) as u8, (id % 256) as u8) == id);
    assert(be16((seq / 256) as u8, (seq % 256) as u8) == seq);
}

/// Law: the reply to an echo request that was built with identifier `id` and
/// sequence number `seq` is recognised, with that sequence number, on every
/// kind of socket.
pub proof fn lemma_reply_recognized(
    id: u16,
    seq: u16,
    data_size: usize,
    is_ipv6: bool,
    kind: SocketKind,
    hdr: Seq<u8>,
)
    requires
        data_size <= usize::MAX - ICMP_HEADER_LEN,
        has_ip_header(is_ipv6, kind) ==> valid_ipv4_header(hdr),
    ensures
        parse_reply(as_delivered(reply_to(echo_request(id, seq, data_size, is_ipv6), is_ipv6), hdr, is_ipv6, kind), is_ipv6, kind, Some(id)) == Some(seq),
        parse_reply(as_delivered(reply_to(echo_request(id, seq, data_size, is_ipv6), is_ipv6), hdr, is_ipv6, kind), is_ipv6, kind, None) == Some(seq),
{
    lemma_request_fields(id, seq, data_size, is_ipv6);
    let r = reply_to(echo_request(id, seq, data_size, is_ipv6), is_ipv6);
    let d = as_delivered(r, hdr, is_ipv6, kind);
    if has_ip_header(is_ipv6, kind) {
        assert(d[0] == hdr[0]);
        let off = hdr.len() as int;
        assert(d[off] == r[0]);
        assert(d[off + 4] == r[4]);
        assert(d[off + 5] == r[5]);
        assert(d[off + 6] == r[6]);
        assert(d[off + 7] == r[7]);
    }
}

/// Law: replies that carry another identifier than the expected one are not
/// taken for ours.
pub proof fn lemma_foreign_reply_ignored(
    id: u16,
    other: u16,
    seq: u16,
    data_size: usize,
    is_ipv6: bool,
    kind: SocketKind,
    hdr: Seq<u8>,
)
    requires
        data_size <= usize::MAX - ICMP_HEADER_LEN,
        id != other,
        has_ip_header(is_ipv6, kind) ==> valid_ipv4_header(hdr),
    ensures
        parse_reply(as_delivered(reply_to(echo_request(other, seq, data_size, is_ipv6), is_ipv6), hdr, is_ipv6, kind), is_ipv6, kind, Some(id)) == None::<u16>,
{
    lemma_reply_recognized(other, seq, data_size, is_ipv6, kind, hdr);
    lemma_request_fields(other, seq, data_size, is_ipv6);
    let r = reply_to(echo_request(other, seq, data_size, is_ipv6), is_ipv6);
    let d = as_delivered(r, hdr, is_ipv6, kind);
    if has_ip_header(is_ipv6, kind) {
        let off = hdr.len() as int;
        assert(d[off + 4] == r[4]);
        assert(d[off + 5] == r[5]);
    }
}

/// Law: an echo request (such as our own, looped back) is never taken for a
/// reply.
pub proof fn lemma_request_not_reply(id: u16, seq: u16, data_size: usize, is_ipv6: bool, kind: SocketKind, hdr: Seq<u8>, expected_id: Option<u16>)
    requires
        data_size <= usize::MAX - ICMP_HEADER_LEN,
        has_ip_header(is_ipv6, kind) ==> valid_ipv4_header(hdr),
    ensures
        parse_reply(as_delivered(echo_request(id, seq, data_size, is_ipv6), hdr, is_ipv6, kind), is_ipv6, kind, expected_id) == None::<u16>,
{
    lemma_request_fields(id, seq, data_size, is_ipv6);
    let r = echo_request(id, seq, data_size, is_ipv6);
    let d = as_delivered(r, hdr, is_ipv6, kind);
    if has_ip_header(is_ipv6, kind) {
        assert(d[0] == hdr[0]);
        let off = hdr.len() as int;
        assert(d[off] == r[0]);
    }
}

/// Decides `echo_sum_fits`: whether the checksum of the IPv4 echo request
/// with these fields can be computed without overflowing its accumulator.
pub fn echo_request_fits(id: u16, seq: u16, data_size: usize) -> (b: bool)
    requires
        data_size <= usize::MAX - ICMP_HEADER_LEN,
    ensures
        b == echo_sum_fits(id, seq, data_size),
{
    let ghost t = echo_template(ICMP_ECHO_REQUEST, id, seq, data_size);
    let total = ICMP_HEADER_LEN + data_size;
    let mut sum: u64 = 0;
    let mut k: usize = 0;
    while k + 1 < total
        invariant
            t == echo_template(ICMP_ECHO_REQUEST, id, seq, data_size),
            total == t.len(),
            k % 2 == 0,
            k <= total,
            sum == sum_words(t, (k / 2) as nat),
            sum <= u32::MAX,
        decreases total - k,
    {
        let w = (echo_byte(ICMP_ECHO_REQUEST, id, seq, k) as u64) * 256
            + echo_byte(ICMP_ECHO_REQUEST, id, seq, k + 1) as u64;
        assert(w == word(t, (k / 2) as nat));
        if sum + w > 4294967295 {
            proof {
                lemma_sum_words_monotone(t, (k / 2 + 1) as nat, word_count(t));
            }
            return false;
        }
        sum += w;
        k += 2;
    }
    if k < total {
        let w = (echo_byte(ICMP_ECHO_REQUEST, id, seq, k) as u64) * 256;
        assert(w == word(t, (k / 2) as nat));
        proof {
            lemma_sum_words_past_end(t, (k / 2 + 1) as nat);
        }
        sum + w <= 4294967295
    } else {
        proof {
            lemma_sum_words_past_end(t, (k / 2) as nat);
        }
        true
    }
}

} // verus!
