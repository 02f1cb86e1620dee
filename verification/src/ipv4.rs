//! The IPv4 datagram around a packet: how its header is filled in before a
//! packet is sent, and what is read from it when one arrives. The fields are
//! written and read by the `pnet` crate; what this module states of each of
//! those calls is taken on trust.

use vstd::prelude::*;
use vstd::slice::slice_subrange;
use pnet::packet::ip::IpNextHeaderProtocol;
use pnet::packet::ipv4::{Ipv4Packet, MutableIpv4Packet};
use pnet::packet::Packet;
use crate::checksum::{internet_checksum, lemma_checksum_filled, with_check_bytes};
use crate::wire::{be16, be32, lemma_be16_read, lemma_be32_read, u16_at, u32_at};

verus! {

/// The size of the Ethernet header that stands before a captured datagram.
pub const ETHERNET_HEADER_SIZE: usize = 14;

/// The size of an IPv4 header without options.
pub const IPV4_HEADER_SIZE: usize = 20;

/// The version of the Internet Protocol that carries the packets.
pub const IP_VERSION: u8 = 4;

/// The length of an IPv4 header without options, in 32-bit words.
pub const HEADER_WORDS: u8 = 5;

/// The time to live of a datagram that is sent: it never leaves the link.
pub const OSPF_TTL: u8 = 1;

/// The protocol number of OSPF in an IPv4 header.
pub const OSPF_PROTOCOL: u8 = 89;

/// `s` with `bytes` written over it from position `pos` on.
pub open spec fn overwritten(s: Seq<u8>, pos: int, bytes: Seq<u8>) -> Seq<u8> {
    s.subrange(0, pos) + bytes + s.subrange(pos + bytes.len(), s.len() as int)
}

/// The twenty bytes of a header without options for a datagram of `total`
/// bytes from `src` to `dst`, with `sum` in the checksum field. Service
/// type, identification, flags and fragment offset are zero.
pub open spec fn header_bytes(total: u16, src: u32, dst: u32, sum: u16) -> Seq<u8> {
    seq![(16 * IP_VERSION + HEADER_WORDS) as u8, 0u8] + be16(total) + seq![
        0u8,
        0u8,
        0u8,
        0u8,
        OSPF_TTL,
        OSPF_PROTOCOL,
    ] + be16(sum) + be32(src) + be32(dst)
}

/// The header of a datagram that carries `len` bytes from `src` to `dst`:
/// the checksum field holds the checksum of the header taken with that field
/// at zero.
pub open spec fn datagram_header(len: nat, src: u32, dst: u32) -> Seq<u8> {
    let total = (IPV4_HEADER_SIZE + len) as u16;
    header_bytes(total, src, dst, internet_checksum(header_bytes(total, src, dst, 0)))
}

/// The datagram that carries `payload` from `src` to `dst`.
pub open spec fn datagram(src: u32, dst: u32, payload: Seq<u8>) -> Seq<u8> {
    datagram_header(payload.len(), src, dst) + payload
}

/// The payload of the datagram `d`: what stands behind its header and
/// options, as far as the total length in the header says and `d` reaches.
pub open spec fn payload_of(d: Seq<u8>) -> Seq<u8> {
    let header = 4 * (d[0] % 16);
    let start = if header > 20 {
        header
    } else {
        20
    };
    let length = if u16_at(d, 2) > header {
        u16_at(d, 2) - header
    } else {
        0
    };
    let end = if start + length < d.len() {
        start + length
    } else {
        d.len() as int
    };
    if d.len() <= start {
        Seq::empty()
    } else {
        d.subrange(start, end)
    }
}

/// What a captured frame holds for OSPF: the destination, the source and the
/// payload of the IPv4 datagram behind the Ethernet header, if there is a
/// whole header of version 4 that names OSPF as its protocol.
pub open spec fn carried(frame: Seq<u8>) -> Option<(u32, u32, Seq<u8>)> {
    let d = frame.subrange(ETHERNET_HEADER_SIZE as int, frame.len() as int);
    if frame.len() < ETHERNET_HEADER_SIZE + IPV4_HEADER_SIZE {
        None
    } else if d[0] / 16 != IP_VERSION || d[9] != OSPF_PROTOCOL {
        None
    } else {
        Some((u32_at(d, 16), u32_at(d, 12), payload_of(d)))
    }
}

/// `MutableIpv4Packet::set_version` of pnet, on the datagram in `buf`: the
/// version goes into the high four bits of the first byte, whose low four
/// bits stay. Nothing else changes.
#[verifier::external_body]
fn set_version(buf: &mut Vec<u8>, version: u8)
    requires
        old(buf)@.len() >= 20,
        version < 16,
    ensures
        final(buf)@ == old(buf)@.update(0, (16 * version + old(buf)@[0] % 16) as u8),
{
    MutableIpv4Packet::new(buf).unwrap().set_version(version)
}

/// `MutableIpv4Packet::set_header_length` of pnet, on the datagram in `buf`:
/// the length goes into the low four bits of the first byte, whose high four
/// bits stay. Nothing else changes.
#[verifier::external_body]
fn set_header_length(buf: &mut Vec<u8>, words: u8)
    requires
        old(buf)@.len() >= 20,
        words < 16,
    ensures
        final(buf)@ == old(buf)@.update(0, (old(buf)@[0] / 16 * 16 + words) as u8),
{
    MutableIpv4Packet::new(buf).unwrap().set_header_length(words)
}

/// `MutableIpv4Packet::set_total_length` of pnet, on the datagram in `buf`:
/// the length goes into bytes 2 and 3, high byte first.
#[verifier::external_body]
fn set_total_length(buf: &mut Vec<u8>, total: u16)
    requires
        old(buf)@.len() >= 20,
    ensures
        final(buf)@ == overwritten(old(buf)@, 2, be16(total)),
{
    MutableIpv4Packet::new(buf).unwrap().set_total_length(total)
}

/// `MutableIpv4Packet::set_ttl` of pnet, on the datagram in `buf`: the time
/// to live goes into byte 8.
#[verifier::external_body]
fn set_ttl(buf: &mut Vec<u8>, ttl: u8)
    requires
        old(buf)@.len() >= 20,
    ensures
        final(buf)@ == old(buf)@.update(8, ttl),
{
    MutableIpv4Packet::new(buf).unwrap().set_ttl(ttl)
}

/// `MutableIpv4Packet::set_next_level_protocol` of pnet, on the datagram in
/// `buf`: the protocol number goes into byte 9.
#[verifier::external_body]
fn set_protocol(buf: &mut Vec<u8>, protocol: u8)
    requires
        old(buf)@.len() >= 20,
    ensures
        final(buf)@ == old(buf)@.update(9, protocol),
{
    MutableIpv4Packet::new(buf).unwrap().set_next_level_protocol(IpNextHeaderProtocol(protocol))
}

/// `pnet::packet::ipv4::checksum`, on the datagram in `buf` whose header has
/// no options: the checksum of its twenty header bytes, with the checksum
/// field taken as zero. pnet adds the words up and folds the carries in at
/// the end; that gives the sum that folding after every word gives.
#[verifier::external_body]
fn header_checksum(buf: &Vec<u8>) -> (sum: u16)
    requires
        buf@.len() >= 20,
        buf@[0] % 16 == 5,
    ensures
        sum == internet_checksum(with_check_bytes(buf@.subrange(0, 20), 10, 0)),
{
    pnet::packet::ipv4::checksum(&Ipv4Packet::new(buf).unwrap())
}

/// `MutableIpv4Packet::set_checksum` of pnet, on the datagram in `buf`: the
/// checksum goes into bytes 10 and 11, high byte first.
#[verifier::external_body]
fn set_checksum(buf: &mut Vec<u8>, sum: u16)
    requires
        old(buf)@.len() >= 20,
    ensures
        final(buf)@ == overwritten(old(buf)@, 10, be16(sum)),
{
    MutableIpv4Packet::new(buf).unwrap().set_checksum(sum)
}

/// `MutableIpv4Packet::set_source` of pnet, on the datagram in `buf`: the
/// address goes into bytes 12 to 15, high byte first.
#[verifier::external_body]
fn set_source(buf: &mut Vec<u8>, addr: u32)
    requires
        old(buf)@.len() >= 20,
    ensures
        final(buf)@ == overwritten(old(buf)@, 12, be32(addr)),
{
    MutableIpv4Packet::new(buf).unwrap().set_source(addr.into())
}

/// `MutableIpv4Packet::set_destination` of pnet, on the datagram in `buf`:
/// the address goes into bytes 16 to 19, high byte first.
#[verifier::external_body]
fn set_destination(buf: &mut Vec<u8>, addr: u32)
    requires
        old(buf)@.len() >= 20,
    ensures
        final(buf)@ == overwritten(old(buf)@, 16, be32(addr)),
{
    MutableIpv4Packet::new(buf).unwrap().set_destination(addr.into())
}

/// `MutableIpv4Packet::set_payload` of pnet, on the datagram in `buf` whose
/// header has no options: the payload is copied in behind the twenty header
/// bytes. pnet refuses a payload longer than the header's total length
/// allows, or than `buf` has room for.
#[verifier::external_body]
fn set_payload(buf: &mut Vec<u8>, payload: &[u8])
    requires
        old(buf)@.len() >= 20 + payload@.len(),
        old(buf)@[0] % 16 == 5,
        u16_at(old(buf)@, 2) >= 20 + payload@.len(),
    ensures
        final(buf)@ == overwritten(old(buf)@, 20, payload@),
{
    MutableIpv4Packet::new(buf).unwrap().set_payload(payload)
}

/// `Ipv4Packet::get_version` of pnet, on the datagram `d`: the high four
/// bits of the first byte.
#[verifier::external_body]
fn version_of(d: &[u8]) -> (version: u8)
    requires
        d@.len() >= 20,
    ensures
        version == d@[0] / 16,
{
    Ipv4Packet::new(d).unwrap().get_version()
}

/// `Ipv4Packet::get_next_level_protocol` of pnet, on the datagram `d`: the
/// number in byte 9.
#[verifier::external_body]
fn protocol_of(d: &[u8]) -> (protocol: u8)
    requires
        d@.len() >= 20,
    ensures
        protocol == d@[9],
{
    Ipv4Packet::new(d).unwrap().get_next_level_protocol().0
}

/// `Ipv4Packet::get_source` of pnet, on the datagram `d`: the address in
/// bytes 12 to 15, high byte first.
#[verifier::external_body]
fn source_of(d: &[u8]) -> (addr: u32)
    requires
        d@.len() >= 20,
    ensures
        addr == u32_at(d@, 12),
{
    Ipv4Packet::new(d).unwrap().get_source().into()
}

/// `Ipv4Packet::get_destination` of pnet, on the datagram `d`: the address
/// in bytes 16 to 19, high byte first.
#[verifier::external_body]
fn destination_of(d: &[u8]) -> (addr: u32)
    requires
        d@.len() >= 20,
    ensures
        addr == u32_at(d@, 16),
{
    Ipv4Packet::new(d).unwrap().get_destination().into()
}

/// `Ipv4Packet::payload` of pnet, on the datagram `d`: a copy of the bytes
/// from the end of the header and its options up to the total length that
/// the header gives, or to the end of `d` where that comes first.
#[verifier::external_body]
fn payload_bytes(d: &[u8]) -> (payload: Vec<u8>)
    requires
        d@.len() >= 20,
    ensures
        payload@ == payload_of(d@),
{
    Ipv4Packet::new(d).unwrap().payload().to_vec()
}

/// A buffer of `n` zero bytes.
fn zeros(n: usize) -> (buf: Vec<u8>)
    ensures
        buf@ == Seq::new(n as nat, |i: int| 0u8),
{
    let mut buf: Vec<u8> = Vec::new();
    let mut i: usize = 0;
    while i < n
        invariant
            i <= n,
            buf@ == Seq::new(i as nat, |k: int| 0u8),
        decreases n - i,
    {
        buf.push(0);
        i += 1;
        assert(buf@ =~= Seq::new(i as nat, |k: int| 0u8));
    }
    buf
}

/// The header of every datagram that is sent checks out: the checksum over
/// its twenty bytes is zero.
pub proof fn lemma_header_checks_out(len: nat, src: u32, dst: u32)
    ensures
        datagram_header(len, src, dst).len() == 20,
        internet_checksum(datagram_header(len, src, dst)) == 0,
{
    let total = (IPV4_HEADER_SIZE + len) as u16;
    let blank = header_bytes(total, src, dst, 0);
    let sum = internet_checksum(blank);
    lemma_checksum_filled(blank, 10);
    assert(with_check_bytes(blank, 10, sum) =~= header_bytes(total, src, dst, sum));
}

/// Puts `payload` into an IPv4 datagram from `src` to `dst`: version 4, a
/// header of five words, the total length, a time to live of 1, OSPF as the
/// protocol, both addresses, and the header's checksum.
pub fn frame(payload: &[u8], src: u32, dst: u32) -> (bytes: Vec<u8>)
    requires
        payload@.len() + IPV4_HEADER_SIZE <= 0xFFFF,
    ensures
        bytes@ == datagram(src, dst, payload@),
        internet_checksum(bytes@.subrange(0, IPV4_HEADER_SIZE as int)) == 0,
{
    let total: usize = IPV4_HEADER_SIZE + payload.len();
    let mut buf = zeros(total);
    set_version(&mut buf, IP_VERSION);
    set_header_length(&mut buf, HEADER_WORDS);
    set_total_length(&mut buf, total as u16);
    set_ttl(&mut buf, OSPF_TTL);
    set_protocol(&mut buf, OSPF_PROTOCOL);
    set_source(&mut buf, src);
    set_destination(&mut buf, dst);
    let ghost blank = buf@.subrange(0, 20);
    assert(blank =~= header_bytes(total as u16, src, dst, 0));
    assert(with_check_bytes(blank, 10, 0) =~= blank);
    let sum = header_checksum(&buf);
    set_checksum(&mut buf, sum);
    assert(buf@.subrange(0, 20) =~= header_bytes(total as u16, src, dst, sum));
    assert(u16_at(buf@, 2) == total) by {
        assert(buf@.subrange(2, 4) =~= be16(total as u16));
        lemma_be16_read(total as u16, buf@, 2);
    }
    set_payload(&mut buf, payload);
    proof {
        lemma_header_checks_out(payload@.len(), src, dst);
        assert(buf@ =~= datagram(src, dst, payload@));
        assert(buf@.subrange(0, 20) =~= datagram_header(payload@.len(), src, dst));
    }
    buf
}

/// What was framed is carried: behind an Ethernet header, the datagram made
/// for a payload gives back its destination, its source and the payload.
pub proof fn lemma_framed_is_carried(ethernet: Seq<u8>, src: u32, dst: u32, payload: Seq<u8>)
    requires
        ethernet.len() == ETHERNET_HEADER_SIZE,
        payload.len() + IPV4_HEADER_SIZE <= 0xFFFF,
    ensures
        carried(ethernet + datagram(src, dst, payload)) == Some((dst, src, payload)),
{
    let whole = ethernet + datagram(src, dst, payload);
    let d = whole.subrange(ETHERNET_HEADER_SIZE as int, whole.len() as int);
    let total = (IPV4_HEADER_SIZE + payload.len()) as u16;
    assert(d =~= datagram(src, dst, payload));
    assert(d.subrange(2, 4) =~= be16(total));
    assert(d.subrange(12, 16) =~= be32(src));
    assert(d.subrange(16, 20) =~= be32(dst));
    lemma_be16_read(total, d, 2);
    lemma_be32_read(src, d, 12);
    lemma_be32_read(dst, d, 16);
    assert(payload_of(d) =~= payload);
}

/// Reads a captured frame: the destination, the source and the payload of
/// the IPv4 datagram behind the Ethernet header. A frame too short for both
/// headers, of another version of the protocol, or not for OSPF gives
/// nothing.
pub fn unframe(frame: &[u8]) -> (got: Option<(u32, u32, Vec<u8>)>)
    ensures
        got is Some <==> carried(frame@) is Some,
        got matches Some(g) ==> carried(frame@) == Some((g.0, g.1, g.2@)),
{
    if frame.len() < ETHERNET_HEADER_SIZE + IPV4_HEADER_SIZE {
        return None;
    }
    let d = slice_subrange(frame, ETHERNET_HEADER_SIZE, frame.len());
    if version_of(d) != IP_VERSION || protocol_of(d) != OSPF_PROTOCOL {
        return None;
    }
    Some((destination_of(d), source_of(d), payload_bytes(d)))
}

} // verus!
