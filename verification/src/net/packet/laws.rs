//! Properties that hold across the inspectors and rewriters: what a
//! rewriter writes, the matching inspector reads back, and a checksum that
//! a rewriter computes is accepted by the matching validation.
use vstd::prelude::*;

use super::ARP_HWADDR_LEN;
use super::ARP_HW_ETHERNET;
use super::ARP_IPADDR_LEN;
use super::ETHTYPE_IPV4;
use super::IPPROTO_TCP;
use super::arp_supported;
use super::ipv4;
use super::ipv4_header_error;
use super::ipv4_ihl_len;
use super::ipv4_validation_error;
use super::ipv4_with_checksum;
use super::tcp_pseudo_sum;
use super::tcp_with_checksum;
use super::udp;
use super::wire::be16;
use super::wire::be32;
use super::wire::checksum_of;
use super::wire::checksum_ok;
use super::wire::lemma_checksum_of_checks;
use super::wire::lemma_word_sum_put16;
use super::wire::lemma_u16_bytes;
use super::wire::lemma_u32_bytes;
use super::wire::pseudo_sum;
use super::wire::put16;
use super::wire::put32;
use super::wire::splice;
use super::wire::word_sum;

verus! {

/// A 16-bit field reads back as written, and no other byte changes.
pub proof fn law_put16_read_back(s: Seq<u8>, off: int, v: int)
    requires
        0 <= off,
        off + 2 <= s.len(),
        0 <= v < 0x1_0000,
    ensures
        put16(s, off, v).len() == s.len(),
        be16(put16(s, off, v), off) == v,
        forall|i: int| 0 <= i < s.len() && !(off <= i < off + 2) ==> put16(s, off, v)[i] == s[i],
{
    lemma_u16_bytes(v);
}

/// A 32-bit field reads back as written, and no other byte changes.
pub proof fn law_put32_read_back(s: Seq<u8>, off: int, v: int)
    requires
        0 <= off,
        off + 4 <= s.len(),
        0 <= v < 0x1_0000_0000,
    ensures
        put32(s, off, v).len() == s.len(),
        be32(put32(s, off, v), off) == v,
        forall|i: int| 0 <= i < s.len() && !(off <= i < off + 4) ==> put32(s, off, v)[i] == s[i],
{
    lemma_u32_bytes(v);
}

/// Copied bytes read back as written, and no other byte changes.
pub proof fn law_splice_read_back(s: Seq<u8>, off: int, v: Seq<u8>)
    requires
        0 <= off,
        off + v.len() <= s.len(),
    ensures
        splice(s, off, v).len() == s.len(),
        splice(s, off, v).subrange(off, off + v.len()) == v,
        forall|i: int|
            0 <= i < s.len() && !(off <= i < off + v.len()) ==> splice(s, off, v)[i] == s[i],
{
    assert(splice(s, off, v).subrange(off, off + v.len()) =~= v);
}

/// The bytes of an ARP reply as the rewriter writes it into `s`: Ethernet
/// hardware, IPv4 protocol, the two address lengths, the operation and the
/// four addresses.
pub open spec fn arp_packet(
    s: Seq<u8>,
    op: u16,
    src_mac: Seq<u8>,
    src_ip: u32,
    dst_mac: Seq<u8>,
    dst_ip: u32,
) -> Seq<u8> {
    let t = put16(put16(s, 0, ARP_HW_ETHERNET as int), 2, ETHTYPE_IPV4 as int);
    let t = t.update(4, ARP_HWADDR_LEN).update(5, ARP_IPADDR_LEN);
    let t = put16(t, 6, op as int);
    let t = splice(splice(t, 8, src_mac), 14, super::wire::u32_bytes(src_ip as int));
    splice(splice(t, 18, dst_mac), 24, super::wire::u32_bytes(dst_ip as int))
}

/// An ARP packet written field by field is accepted by the inspector, which
/// reads back every field.
pub proof fn law_arp_round_trip(
    s: Seq<u8>,
    op: u16,
    src_mac: Seq<u8>,
    src_ip: u32,
    dst_mac: Seq<u8>,
    dst_ip: u32,
)
    requires
        s.len() >= 28,
        src_mac.len() == 6,
        dst_mac.len() == 6,
    ensures
        ({
            let p = arp_packet(s, op, src_mac, src_ip, dst_mac, dst_ip);
            &&& p.len() == s.len()
            &&& arp_supported(p)
            &&& be16(p, 6) == op
            &&& p.subrange(8, 14) == src_mac
            &&& be32(p, 14) == src_ip
            &&& p.subrange(18, 24) == dst_mac
            &&& be32(p, 24) == dst_ip
        }),
{
    let p = arp_packet(s, op, src_mac, src_ip, dst_mac, dst_ip);
    lemma_u16_bytes(ARP_HW_ETHERNET as int);
    lemma_u16_bytes(ETHTYPE_IPV4 as int);
    lemma_u16_bytes(op as int);
    lemma_u32_bytes(src_ip as int);
    lemma_u32_bytes(dst_ip as int);
    assert(p.subrange(8, 14) =~= src_mac);
    assert(p.subrange(18, 24) =~= dst_mac);
}

/// A header whose checksum the rewriter recomputed over the length that its
/// IHL field states passes the checksum check of validation, and inspection
/// sees the same header fields as before.
pub proof fn law_ipv4_checksum_accepted(s: Seq<u8>)
    requires
        ipv4_header_error(s) is None,
    ensures
        ({
            let t = ipv4_with_checksum(s, ipv4_ihl_len(s));
            &&& ipv4_header_error(t) is None
            &&& ipv4_ihl_len(t) == ipv4_ihl_len(s)
            &&& be16(t, 2) == be16(s, 2)
            &&& be16(t, 6) == be16(s, 6)
            &&& ipv4_validation_error(t) != Some(super::Error::InvalidIpv4Checksum)
            &&& (be16(s, 2) <= s.len() && be16(s, 6) % 0x4000 == 0 ==> ipv4_validation_error(
                t,
            ) is None)
        }),
{
    let hl = ipv4_ihl_len(s);
    let zeroed = put16(s, 10, 0);
    let t = ipv4_with_checksum(s, hl);
    let c = super::wire::checksum_of(word_sum(zeroed.take(hl)));
    super::wire::lemma_checksum_of_checks(word_sum(zeroed.take(hl)));
    lemma_u16_bytes(0);
    lemma_u16_bytes(c);
    assert(t.take(hl) =~= put16(zeroed.take(hl), 10, c));
    super::wire::lemma_word_sum_put16(zeroed.take(hl), 10, c);
}

/// The same for the 20-byte header that the submodule rewriter writes.
pub proof fn law_ipv4_update_checksum_accepted(s: Seq<u8>)
    requires
        ipv4::header_error(s) is None,
        ipv4_ihl_len(s) == 20,
    ensures
        ({
            let t = ipv4_with_checksum(s, 20);
            &&& ipv4::header_error(t) is None
            &&& ipv4::validation_error(t) != Some(ipv4::Error::InvalidChecksum)
            &&& (be16(s, 2) <= s.len() && be16(s, 6) % 0x4000 == 0 ==> ipv4::validation_error(
                t,
            ) is None)
        }),
{
    let zeroed = put16(s, 10, 0);
    let t = ipv4_with_checksum(s, 20);
    let c = super::wire::checksum_of(word_sum(zeroed.take(20)));
    super::wire::lemma_checksum_of_checks(word_sum(zeroed.take(20)));
    lemma_u16_bytes(0);
    lemma_u16_bytes(c);
    assert(t.take(20) =~= put16(zeroed.take(20), 10, c));
    super::wire::lemma_word_sum_put16(zeroed.take(20), 10, c);
}

/// A segment made of a header whose checksum the rewriter recomputed and
/// the payload it was computed over passes TCP validation inside an IPv4
/// packet from the same source to the same destination.
pub proof fn law_tcp_checksum_accepted(ip: Seq<u8>, header: Seq<u8>, payload: Seq<u8>)
    requires
        ip.len() >= 20,
        ip[9] == IPPROTO_TCP,
        header.len() >= 20,
        20 <= super::tcp_data_offset_len(header) <= header.len(),
        super::tcp_data_offset_len(header) + payload.len() <= u16::MAX,
    ensures
        ({
            let hl = super::tcp_data_offset_len(header);
            let pseudo = pseudo_sum(be32(ip, 12), be32(ip, 16), IPPROTO_TCP as int, hl
                + payload.len());
            let segment = tcp_with_checksum(header, hl, pseudo, payload).take(hl) + payload;
            &&& tcp_pseudo_sum(ip, segment) == pseudo
            &&& checksum_ok((tcp_pseudo_sum(ip, segment) + word_sum(segment)) as nat)
        }),
{
    let hl = super::tcp_data_offset_len(header);
    let pseudo = pseudo_sum(be32(ip, 12), be32(ip, 16), IPPROTO_TCP as int, hl + payload.len());
    let zeroed = put16(header, 16, 0);
    let total = pseudo + word_sum(zeroed.take(hl)) + word_sum(payload);
    let c = super::wire::checksum_of(total as nat);
    let head = tcp_with_checksum(header, hl, pseudo, payload).take(hl);
    let segment = head + payload;
    super::wire::lemma_checksum_of_checks(total as nat);
    lemma_u16_bytes(0);
    lemma_u16_bytes(c);
    assert(head =~= put16(zeroed.take(hl), 16, c));
    super::wire::lemma_word_sum_put16(zeroed.take(hl), 16, c);
    super::wire::lemma_word_sum_concat(head, payload);
    vstd::arithmetic::div_mod::lemma_small_mod(segment.len(), 0x1_0000_0000);
}

/// A datagram whose checksum the rewriter recomputed, with its length field
/// set to its size, passes UDP validation inside an IPv4 packet from the
/// same source to the same destination.
pub proof fn law_udp_checksum_accepted(ip: Seq<u8>, s: Seq<u8>)
    requires
        ip.len() >= 20,
        8 <= s.len() <= u16::MAX,
        be16(s, 4) == s.len(),
    ensures
        ({
            let t = udp::udp_with_checksum(s, be32(ip, 12), be32(ip, 16));
            &&& udp::header_error(t) is None
            &&& be16(t, 6) != 0
            &&& checksum_ok(udp::datagram_sum(be32(ip, 12), be32(ip, 16), t, be16(t, 4)))
        }),
{
    let src = be32(ip, 12);
    let dst = be32(ip, 16);
    let zeroed = put16(s, 6, 0);
    let sum = udp::datagram_sum(src, dst, zeroed, s.len() as int);
    let c = super::wire::checksum_of(sum);
    let v = if c == 0 { 0xffff } else { c };
    let t = put16(zeroed, 6, v);
    super::wire::lemma_checksum_of_checks(sum);
    lemma_u16_bytes(0);
    lemma_u16_bytes(v);
    super::wire::lemma_word_sum_put16(zeroed, 6, v);
    assert(zeroed.take(s.len() as int) =~= zeroed);
    assert(t.take(s.len() as int) =~= t);
    if c == 0 {
        super::wire::lemma_checksum_ok_add_ffff(sum);
    }
}

/// Writing the checksum computed over a buffer whose checksum field, at an
/// even offset, holds zero into that field makes the buffer check; and a
/// buffer checks exactly when the checksum computed over it is zero.
pub proof fn law_written_checksum_checks(bytes: Seq<u8>, initial: nat, k: int)
    requires
        0 <= k,
        k % 2 == 0,
        k + 2 <= bytes.len(),
        be16(bytes, k) == 0,
    ensures
        ({
            let value = checksum_of(initial + word_sum(bytes));
            &&& 0 <= value <= 0xffff
            &&& checksum_ok(initial + word_sum(put16(bytes, k, value)))
        }),
        checksum_ok(initial + word_sum(bytes)) <==> checksum_of(initial + word_sum(bytes)) == 0,
{
    let sum = initial + word_sum(bytes);
    let value = checksum_of(sum);
    lemma_checksum_of_checks(sum);
    lemma_word_sum_put16(bytes, k, value);
    assert(initial + word_sum(put16(bytes, k, value)) == sum + value);
}

/// A TCP header whose checksum was recomputed for `src` and `dst` over
/// itself and `payload`, followed by that payload, is a segment that TCP
/// inspection accepts and that validation passes inside every IPv4 packet
/// carrying TCP from `src` to `dst`. Only the checksum field changed.
pub proof fn law_recomputed_tcp_segment_validates(
    header: Seq<u8>,
    src: int,
    dst: int,
    payload: Seq<u8>,
    ip: Seq<u8>,
)
    requires
        header.len() >= 20,
        20 <= super::tcp_data_offset_len(header) <= header.len(),
        super::tcp_data_offset_len(header) + payload.len() <= u16::MAX,
        ip.len() >= 20,
        ip[9] == IPPROTO_TCP,
        be32(ip, 12) == src,
        be32(ip, 16) == dst,
    ensures
        ({
            let hl = super::tcp_data_offset_len(header);
            let pseudo = pseudo_sum(src, dst, IPPROTO_TCP as int, hl + payload.len());
            let rewritten = tcp_with_checksum(header, hl, pseudo, payload);
            let segment = rewritten.take(hl) + payload;
            &&& rewritten.len() == header.len()
            &&& forall|i: int| 0 <= i < header.len() && !(16 <= i < 18) ==> rewritten[i] == header[i]
            &&& super::tcp_header_error(segment) is None
            &&& checksum_ok((tcp_pseudo_sum(ip, segment) + word_sum(segment)) as nat)
        }),
{
    let hl = super::tcp_data_offset_len(header);
    let pseudo = pseudo_sum(src, dst, IPPROTO_TCP as int, hl + payload.len());
    let rewritten = tcp_with_checksum(header, hl, pseudo, payload);
    let segment = rewritten.take(hl) + payload;
    law_tcp_checksum_accepted(ip, header, payload);
    let zeroed = put16(header, 16, 0);
    let c = checksum_of(pseudo + word_sum(zeroed.take(hl)) + word_sum(payload));
    lemma_checksum_of_checks((pseudo + word_sum(zeroed.take(hl)) + word_sum(payload)) as nat);
    lemma_u16_bytes(0);
    lemma_u16_bytes(c);
    assert(segment[12] == header[12]);
}

} // verus!
