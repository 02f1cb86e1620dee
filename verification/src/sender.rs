//! The sender's part: making a packet ready for the wire, and what the
//! sender reports back.

use vstd::prelude::*;
use crate::checksum::internet_checksum;
use crate::ipv4::{datagram, frame, IPV4_HEADER_SIZE};
use crate::packets::{lemma_packet_encoding_splits, Header, OSPFPacket};

verus! {

/// The outcome of handing one packet to the transport.
#[derive(Debug, Clone, Copy, PartialEq, Eq, Structural)]
pub enum SenderResponse {
    PacketSent,
    Failed,
}

/// The size of the buffer that a datagram is put together in.
pub const SENDER_BUFFER_SIZE: usize = 200;

/// Makes a packet ready for the wire: sets its length field, then its
/// checksum field, and gives its bytes. A packet that does not fit into the
/// sender's buffer behind the IPv4 header is left as it is, and `None` is
/// given.
pub fn prepare(packet: &mut OSPFPacket) -> (bytes: Option<Vec<u8>>)
    ensures
        match bytes {
            Some(b) => old(packet)@.encoding().len() + IPV4_HEADER_SIZE <= SENDER_BUFFER_SIZE
                && final(packet)@ == old(packet)@.with_length().summed()
                && b@ == final(packet)@.encoding() && b@.len() == old(packet)@.encoding().len()
                && internet_checksum(b@) == 0,
            None => old(packet)@.encoding().len() + IPV4_HEADER_SIZE > SENDER_BUFFER_SIZE
                && final(packet)@ == old(packet)@,
        },
{
    let len = packet.encode().len();
    if len > SENDER_BUFFER_SIZE - IPV4_HEADER_SIZE {
        return None;
    }
    packet.set_packet_length();
    let ghost measured = packet@;
    packet.set_checksum();
    proof {
        lemma_packet_encoding_splits(
            old(packet)@,
            Header { packet_length: old(packet)@.encoding().len() as u16, ..old(packet)@.header() },
        );
        lemma_packet_encoding_splits(measured, packet@.header());
    }
    Some(packet.encode())
}

/// The IPv4 datagram that carries a packet from `src` to `dst`: the packet
/// is made ready as by `prepare` and put behind an IPv4 header. A packet that
/// does not fit into the sender's buffer is left as it is, and `None` is
/// given.
pub fn datagram_for(packet: &mut OSPFPacket, src: u32, dst: u32) -> (bytes: Option<Vec<u8>>)
    ensures
        match bytes {
            Some(b) => old(packet)@.encoding().len() + IPV4_HEADER_SIZE <= SENDER_BUFFER_SIZE
                && final(packet)@ == old(packet)@.with_length().summed() && b@ == datagram(
                src,
                dst,
                final(packet)@.encoding(),
            ),
            None => old(packet)@.encoding().len() + IPV4_HEADER_SIZE > SENDER_BUFFER_SIZE
                && final(packet)@ == old(packet)@,
        },
{
    match prepare(packet) {
        Some(encoded) => {
            Some(frame(encoded.as_slice(), src, dst))
        },
        None => None,
    }
}

} // verus!
