//! The five packets of the protocol: their data and their bytes on the wire.

use vstd::prelude::*;
use crate::checksum::{internet_checksum, lemma_checksum_filled, packet_checksum, with_check_bytes};
use crate::lsa::{encode_u32_list, u32_list_encoding, Lsa, LsaHeader, LsaModel};
use crate::wire::{be16, be32, be64, put_u8, put_u16, put_u32, put_u64};

verus! {

/// Version byte of every packet.
pub const OSPF_VERSION: u8 = 2;

/// Type byte of a Hello packet.
pub const PACKET_HELLO: u8 = 1;

/// Type byte of a Database Description packet.
pub const PACKET_DBD: u8 = 2;

/// Type byte of a Link State Request packet.
pub const PACKET_LSR: u8 = 3;

/// Type byte of a Link State Update packet.
pub const PACKET_LSU: u8 = 4;

/// Type byte of a Link State Acknowledgment packet.
pub const PACKET_LSACK: u8 = 5;

/// The five kinds of packet.
#[derive(Debug, Clone, Copy, PartialEq, Eq, Structural)]
pub enum PacketType {
    Hello,
    DBD,
    LSR,
    LSU,
    LSAck,
}

impl PacketType {
    /// The type byte that stands for this kind on the wire.
    pub open spec fn code(self) -> u8 {
        match self {
            PacketType::Hello => PACKET_HELLO,
            PacketType::DBD => PACKET_DBD,
            PacketType::LSR => PACKET_LSR,
            PacketType::LSU => PACKET_LSU,
            PacketType::LSAck => PACKET_LSACK,
        }
    }

    /// The byte that stands for this kind on the wire.
    pub fn to_byte(self) -> (b: u8)
        ensures
            b == self.code(),
    {
        match self {
            PacketType::Hello => PACKET_HELLO,
            PacketType::DBD => PACKET_DBD,
            PacketType::LSR => PACKET_LSR,
            PacketType::LSU => PACKET_LSU,
            PacketType::LSAck => PACKET_LSACK,
        }
    }
}

/// The 24-byte header that every packet starts with.
#[derive(Debug, Clone, Copy, PartialEq, Eq, Structural)]
pub struct Header {
    pub version: u8,
    pub packet_type: u8,
    pub packet_length: u16,
    pub router_id: u32,
    pub area_id: u32,
    pub checksum: u16,
    pub auth_type: u16,
    pub auth: u64,
}

impl Header {
    /// The 24 bytes of the header on the wire.
    pub open spec fn encoding(self) -> Seq<u8> {
        seq![self.version, self.packet_type] + be16(self.packet_length) + be32(self.router_id)
            + be32(self.area_id) + be16(self.checksum) + be16(self.auth_type) + be64(self.auth)
    }

    /// A version 2 header of the given kind for the given router and area,
    /// with length, checksum and authentication zero.
    pub open spec fn blank(kind: PacketType, router_id: u32, area_id: u32) -> Header {
        Header {
            version: OSPF_VERSION,
            packet_type: kind.code(),
            packet_length: 0,
            router_id,
            area_id,
            checksum: 0,
            auth_type: 0,
            auth: 0,
        }
    }

    /// A version 2 header of the given kind for the given router and area.
    pub fn new(kind: PacketType, router_id: u32, area_id: u32) -> (h: Header)
        ensures
            h == Header::blank(kind, router_id, area_id),
    {
        Header {
            version: OSPF_VERSION,
            packet_type: kind.to_byte(),
            packet_length: 0,
            router_id,
            area_id,
            checksum: 0,
            auth_type: 0,
            auth: 0,
        }
    }

    /// Appends the header's 24 bytes to `buf`.
    pub fn encode_into(&self, buf: &mut Vec<u8>)
        ensures
            final(buf)@ == old(buf)@ + self.encoding(),
    {
        put_u8(buf, self.version);
        put_u8(buf, self.packet_type);
        put_u16(buf, self.packet_length);
        put_u32(buf, self.router_id);
        put_u32(buf, self.area_id);
        put_u16(buf, self.checksum);
        put_u16(buf, self.auth_type);
        put_u64(buf, self.auth);
        assert(buf@ =~= old(buf)@ + self.encoding());
    }

    /// The bytes on the wire.
    pub fn encode(&self) -> (bytes: Vec<u8>)
        ensures
            bytes@ == self.encoding(),
    {
        let mut buf: Vec<u8> = Vec::new();
        self.encode_into(&mut buf);
        assert(buf@ =~= self.encoding());
        buf
    }
}

/// The bytes of a list of advertisement headers, one after the other.
pub open spec fn headers_encoding(list: Seq<LsaHeader>) -> Seq<u8>
    decreases list.len(),
{
    if list.len() == 0 {
        Seq::empty()
    } else {
        headers_encoding(list.drop_last()) + list.last().encoding()
    }
}

/// Appends the bytes of each header of `list` to `buf`.
pub fn encode_headers(list: &Vec<LsaHeader>, buf: &mut Vec<u8>)
    ensures
        final(buf)@ == old(buf)@ + headers_encoding(list@),
{
    let ghost start = buf@;
    assert(buf@ =~= start + headers_encoding(list@.take(0)));
    let mut i: usize = 0;
    while i < list.len()
        invariant
            i <= list.len(),
            buf@ == start + headers_encoding(list@.take(i as int)),
        decreases list.len() - i,
    {
        list[i].encode_into(buf);
        proof {
            let next = list@.take(i + 1);
            assert(next.drop_last() =~= list@.take(i as int));
            assert(buf@ =~= start + headers_encoding(next));
        }
        i += 1;
    }
    assert(list@.take(i as int) =~= list@);
}

/// The bytes of a list of advertisements, one after the other.
pub open spec fn lsas_encoding(list: Seq<LsaModel>) -> Seq<u8>
    decreases list.len(),
{
    if list.len() == 0 {
        Seq::empty()
    } else {
        lsas_encoding(list.drop_last()) + list.last().encoding()
    }
}

/// The plain values of a list of advertisements.
pub open spec fn lsa_models(list: Seq<Lsa>) -> Seq<LsaModel> {
    list.map_values(|l: Lsa| l@)
}

/// Appends the bytes of each advertisement of `list` to `buf`.
pub fn encode_lsas(list: &Vec<Lsa>, buf: &mut Vec<u8>)
    ensures
        final(buf)@ == old(buf)@ + lsas_encoding(lsa_models(list@)),
{
    let ghost start = buf@;
    let ghost models = lsa_models(list@);
    assert(buf@ =~= start + lsas_encoding(models.take(0)));
    let mut i: usize = 0;
    while i < list.len()
        invariant
            i <= list.len(),
            models == lsa_models(list@),
            buf@ == start + lsas_encoding(models.take(i as int)),
        decreases list.len() - i,
    {
        list[i].encode_into(buf);
        proof {
            let next = models.take(i + 1);
            assert(next.drop_last() =~= models.take(i as int));
            assert(next.last() == list[i as int]@);
            assert(buf@ =~= start + lsas_encoding(next));
        }
        i += 1;
    }
    assert(models.take(i as int) =~= models);
}

/// A Hello packet.
#[derive(Debug)]
pub struct Hello {
    pub header: Header,
    pub network_mask: u32,
    pub hello_interval: u16,
    pub options: u8,
    pub router_priority: u8,
    pub router_dead_interval: u32,
    pub designated_router: u32,
    pub backup_designated_router: u32,
    pub neighbors: Vec<u32>,
}

/// What a Hello packet holds, as plain values.
pub struct HelloModel {
    pub header: Header,
    pub network_mask: u32,
    pub hello_interval: u16,
    pub options: u8,
    pub router_priority: u8,
    pub router_dead_interval: u32,
    pub designated_router: u32,
    pub backup_designated_router: u32,
    pub neighbors: Seq<u32>,
}

impl HelloModel {
    /// The bytes of the fields between the header and the neighbor list.
    pub open spec fn fixed_encoding(self) -> Seq<u8> {
        be32(self.network_mask) + be16(self.hello_interval) + seq![
            self.options,
            self.router_priority,
        ] + be32(self.router_dead_interval) + be32(self.designated_router) + be32(
            self.backup_designated_router,
        )
    }

    /// The bytes of the packet on the wire.
    pub open spec fn encoding(self) -> Seq<u8> {
        self.header.encoding() + self.fixed_encoding() + u32_list_encoding(self.neighbors)
    }
}

impl View for Hello {
    type V = HelloModel;

    open spec fn view(&self) -> HelloModel {
        HelloModel {
            header: self.header,
            network_mask: self.network_mask,
            hello_interval: self.hello_interval,
            options: self.options,
            router_priority: self.router_priority,
            router_dead_interval: self.router_dead_interval,
            designated_router: self.designated_router,
            backup_designated_router: self.backup_designated_router,
            neighbors: self.neighbors@,
        }
    }
}

impl Clone for Hello {
    fn clone(&self) -> (copy: Hello)
        ensures
            copy@ == self@,
    {
        let neighbors = self.neighbors.clone();
        assert(neighbors@ =~= self.neighbors@);
        Hello {
            header: self.header,
            network_mask: self.network_mask,
            hello_interval: self.hello_interval,
            options: self.options,
            router_priority: self.router_priority,
            router_dead_interval: self.router_dead_interval,
            designated_router: self.designated_router,
            backup_designated_router: self.backup_designated_router,
            neighbors,
        }
    }
}

impl Hello {
    /// Appends the packet's bytes to `buf`.
    pub fn encode_into(&self, buf: &mut Vec<u8>)
        ensures
            final(buf)@ == old(buf)@ + self@.encoding(),
    {
        self.header.encode_into(buf);
        put_u32(buf, self.network_mask);
        put_u16(buf, self.hello_interval);
        put_u8(buf, self.options);
        put_u8(buf, self.router_priority);
        put_u32(buf, self.router_dead_interval);
        put_u32(buf, self.designated_router);
        put_u32(buf, self.backup_designated_router);
        assert(buf@ =~= old(buf)@ + (self.header.encoding() + self@.fixed_encoding()));
        encode_u32_list(&self.neighbors, buf);
        assert(buf@ =~= old(buf)@ + self@.encoding());
    }

    /// The bytes on the wire.
    pub fn encode(&self) -> (bytes: Vec<u8>)
        ensures
            bytes@ == self@.encoding(),
    {
        let mut buf: Vec<u8> = Vec::new();
        self.encode_into(&mut buf);
        assert(buf@ =~= self@.encoding());
        buf
    }
}

/// The three flags of a Database Description packet.
#[derive(Debug, Clone, Copy, PartialEq, Eq, Structural)]
pub struct DBDFlag {
    pub init: bool,
    pub more: bool,
    pub masterslave: bool,
}

impl DBDFlag {
    /// The flags byte: `init` is worth 4, `more` 2 and `masterslave` 1.
    pub open spec fn byte(self) -> u8 {
        ((if self.init {
            4int
        } else {
            0int
        }) + (if self.more {
            2int
        } else {
            0int
        }) + (if self.masterslave {
            1int
        } else {
            0int
        })) as u8
    }

    /// The flags that the three low bits of `byte` stand for.
    pub open spec fn of_byte(byte: u8) -> DBDFlag {
        DBDFlag {
            init: (byte / 4) % 2 == 1,
            more: (byte / 2) % 2 == 1,
            masterslave: byte % 2 == 1,
        }
    }

    /// The three flags as given.
    pub fn new(init: bool, more: bool, masterslave: bool) -> (f: DBDFlag)
        ensures
            f == (DBDFlag { init, more, masterslave }),
    {
        DBDFlag { init, more, masterslave }
    }

    /// All three flags set.
    pub fn get_all_set() -> (f: DBDFlag)
        ensures
            f == (DBDFlag { init: true, more: true, masterslave: true }),
    {
        DBDFlag::from_byte(7)
    }

    /// The flags that the three low bits of `byte` stand for.
    pub fn from_byte(byte: u8) -> (f: DBDFlag)
        ensures
            f == DBDFlag::of_byte(byte),
    {
        DBDFlag {
            init: (byte / 4) % 2 == 1,
            more: (byte / 2) % 2 == 1,
            masterslave: byte % 2 == 1,
        }
    }

    /// The flags as one byte: `init` is worth 4, `more` 2 and `masterslave` 1.
    pub fn to_byte(&self) -> (byte: u8)
        ensures
            byte == self.byte(),
            byte <= 7,
    {
        let mut byte: u8 = 0;
        if self.init {
            byte += 4;
        }
        if self.more {
            byte += 2;
        }
        if self.masterslave {
            byte += 1;
        }
        byte
    }
}

/// Reading the byte of a set of flags gives the flags back.
pub proof fn lemma_flag_round_trip(f: DBDFlag)
    ensures
        DBDFlag::of_byte(f.byte()) == f,
{
}

/// A Database Description packet.
#[derive(Debug)]
pub struct DBDescription {
    pub header: Header,
    pub interface_mtu: u16,
    pub options: u8,
    pub flags: u8,
    pub dbd_seq_num: u32,
    pub lsa_hdrs: Vec<LsaHeader>,
}

/// What a Database Description packet holds, as plain values.
pub struct DbdModel {
    pub header: Header,
    pub interface_mtu: u16,
    pub options: u8,
    pub flags: u8,
    pub dbd_seq_num: u32,
    pub lsa_hdrs: Seq<LsaHeader>,
}

impl DbdModel {
    /// The bytes of the packet on the wire.
    pub open spec fn encoding(self) -> Seq<u8> {
        self.header.encoding() + be16(self.interface_mtu) + seq![self.options, self.flags] + be32(
            self.dbd_seq_num,
        ) + headers_encoding(self.lsa_hdrs)
    }

    /// The packet's three flags.
    pub open spec fn flag(self) -> DBDFlag {
        DBDFlag::of_byte(self.flags)
    }

    /// The init, more and master/slave flags are all set.
    pub open spec fn all_flags(self) -> bool {
        self.flag().init && self.flag().more && self.flag().masterslave
    }
}

impl View for DBDescription {
    type V = DbdModel;

    open spec fn view(&self) -> DbdModel {
        DbdModel {
            header: self.header,
            interface_mtu: self.interface_mtu,
            options: self.options,
            flags: self.flags,
            dbd_seq_num: self.dbd_seq_num,
            lsa_hdrs: self.lsa_hdrs@,
        }
    }
}

impl Clone for DBDescription {
    fn clone(&self) -> (copy: DBDescription)
        ensures
            copy@ == self@,
    {
        let lsa_hdrs = self.lsa_hdrs.clone();
        assert(lsa_hdrs@ =~= self.lsa_hdrs@);
        DBDescription {
            header: self.header,
            interface_mtu: self.interface_mtu,
            options: self.options,
            flags: self.flags,
            dbd_seq_num: self.dbd_seq_num,
            lsa_hdrs,
        }
    }
}

impl DBDescription {
    /// The packet's three flags.
    pub fn get_flag(&self) -> (f: DBDFlag)
        ensures
            f == self@.flag(),
    {
        DBDFlag::from_byte(self.flags)
    }

    /// Whether the init, more and master/slave flags are all set.
    pub fn all_flag_set(&self) -> (all: bool)
        ensures
            all == self@.all_flags(),
    {
        let f = self.get_flag();
        f.init && f.more && f.masterslave
    }

    /// Appends the packet's bytes to `buf`.
    pub fn encode_into(&self, buf: &mut Vec<u8>)
        ensures
            final(buf)@ == old(buf)@ + self@.encoding(),
    {
        self.header.encode_into(buf);
        put_u16(buf, self.interface_mtu);
        put_u8(buf, self.options);
        put_u8(buf, self.flags);
        put_u32(buf, self.dbd_seq_num);
        assert(buf@ =~= old(buf)@ + (self.header.encoding() + be16(self.interface_mtu) + seq![
            self.options,
            self.flags,
        ] + be32(self.dbd_seq_num)));
        encode_headers(&self.lsa_hdrs, buf);
        assert(buf@ =~= old(buf)@ + self@.encoding());
    }

    /// The bytes on the wire.
    pub fn encode(&self) -> (bytes: Vec<u8>)
        ensures
            bytes@ == self@.encoding(),
    {
        let mut buf: Vec<u8> = Vec::new();
        self.encode_into(&mut buf);
        assert(buf@ =~= self@.encoding());
        buf
    }
}

/// One request of a Link State Request packet.
#[derive(Debug, Clone, Copy, PartialEq, Eq, Structural)]
pub struct LinkStateRequestItem {
    pub link_state_type: u32,
    pub link_state_id: u32,
    pub advertising_router: u32,
}

impl LinkStateRequestItem {
    /// The 12 bytes of the request on the wire.
    pub open spec fn encoding(self) -> Seq<u8> {
        be32(self.link_state_type) + be32(self.link_state_id) + be32(self.advertising_router)
    }

    /// Appends the request's 12 bytes to `buf`.
    pub fn encode_into(&self, buf: &mut Vec<u8>)
        ensures
            final(buf)@ == old(buf)@ + self.encoding(),
    {
        put_u32(buf, self.link_state_type);
        put_u32(buf, self.link_state_id);
        put_u32(buf, self.advertising_router);
        assert(buf@ =~= old(buf)@ + self.encoding());
    }

    /// The bytes on the wire.
    pub fn encode(&self) -> (bytes: Vec<u8>)
        ensures
            bytes@ == self.encoding(),
    {
        let mut buf: Vec<u8> = Vec::new();
        self.encode_into(&mut buf);
        assert(buf@ =~= self.encoding());
        buf
    }
}

/// The bytes of a list of requests, one after the other.
pub open spec fn requests_encoding(list: Seq<LinkStateRequestItem>) -> Seq<u8>
    decreases list.len(),
{
    if list.len() == 0 {
        Seq::empty()
    } else {
        requests_encoding(list.drop_last()) + list.last().encoding()
    }
}

/// A Link State Request packet.
#[derive(Debug)]
pub struct LinkStateRequest {
    pub header: Header,
    pub requests: Vec<LinkStateRequestItem>,
}

/// What a Link State Request packet holds, as plain values.
pub struct LsrModel {
    pub header: Header,
    pub requests: Seq<LinkStateRequestItem>,
}

impl LsrModel {
    /// The bytes of the packet on the wire.
    pub open spec fn encoding(self) -> Seq<u8> {
        self.header.encoding() + requests_encoding(self.requests)
    }
}

impl View for LinkStateRequest {
    type V = LsrModel;

    open spec fn view(&self) -> LsrModel {
        LsrModel { header: self.header, requests: self.requests@ }
    }
}

impl Clone for LinkStateRequest {
    fn clone(&self) -> (copy: LinkStateRequest)
        ensures
            copy@ == self@,
    {
        let requests = self.requests.clone();
        assert(requests@ =~= self.requests@);
        LinkStateRequest { header: self.header, requests }
    }
}

impl LinkStateRequest {
    /// Appends the packet's bytes to `buf`.
    pub fn encode_into(&self, buf: &mut Vec<u8>)
        ensures
            final(buf)@ == old(buf)@ + self@.encoding(),
    {
        self.header.encode_into(buf);
        let ghost fixed = buf@;
        assert(buf@ =~= fixed + requests_encoding(self.requests@.take(0)));
        let mut i: usize = 0;
        while i < self.requests.len()
            invariant
                i <= self.requests.len(),
                buf@ == fixed + requests_encoding(self.requests@.take(i as int)),
            decreases self.requests.len() - i,
        {
            self.requests[i].encode_into(buf);
            proof {
                let next = self.requests@.take(i + 1);
                assert(next.drop_last() =~= self.requests@.take(i as int));
                assert(buf@ =~= fixed + requests_encoding(next));
            }
            i += 1;
        }
        assert(self.requests@.take(i as int) =~= self.requests@);
        assert(buf@ =~= old(buf)@ + self@.encoding());
    }

    /// The bytes on the wire.
    pub fn encode(&self) -> (bytes: Vec<u8>)
        ensures
            bytes@ == self@.encoding(),
    {
        let mut buf: Vec<u8> = Vec::new();
        self.encode_into(&mut buf);
        assert(buf@ =~= self@.encoding());
        buf
    }
}

/// A Link State Update packet.
#[derive(Debug)]
pub struct LinkStateUpdate {
    pub header: Header,
    pub num_lsa: u32,
    pub lsas: Vec<Lsa>,
}

/// What a Link State Update packet holds, as plain values.
pub struct LsuModel {
    pub header: Header,
    pub num_lsa: u32,
    pub lsas: Seq<LsaModel>,
}

impl LsuModel {
    /// The bytes of the packet on the wire.
    pub open spec fn encoding(self) -> Seq<u8> {
        self.header.encoding() + be32(self.num_lsa) + lsas_encoding(self.lsas)
    }
}

impl View for LinkStateUpdate {
    type V = LsuModel;

    open spec fn view(&self) -> LsuModel {
        LsuModel { header: self.header, num_lsa: self.num_lsa, lsas: lsa_models(self.lsas@) }
    }
}

impl Clone for LinkStateUpdate {
    fn clone(&self) -> (copy: LinkStateUpdate)
        ensures
            copy@ == self@,
    {
        let lsas = self.lsas.clone();
        assert(lsa_models(lsas@) =~= lsa_models(self.lsas@));
        LinkStateUpdate { header: self.header, num_lsa: self.num_lsa, lsas }
    }
}

impl LinkStateUpdate {
    /// Appends the packet's bytes to `buf`.
    pub fn encode_into(&self, buf: &mut Vec<u8>)
        ensures
            final(buf)@ == old(buf)@ + self@.encoding(),
    {
        self.header.encode_into(buf);
        put_u32(buf, self.num_lsa);
        encode_lsas(&self.lsas, buf);
        assert(buf@ =~= old(buf)@ + self@.encoding());
    }

    /// The bytes on the wire.
    pub fn encode(&self) -> (bytes: Vec<u8>)
        ensures
            bytes@ == self@.encoding(),
    {
        let mut buf: Vec<u8> = Vec::new();
        self.encode_into(&mut buf);
        assert(buf@ =~= self@.encoding());
        buf
    }
}

/// A Link State Acknowledgment packet.
#[derive(Debug)]
pub struct LinkStateAcknowledgment {
    pub header: Header,
    pub lsas: Vec<LsaHeader>,
}

/// What a Link State Acknowledgment packet holds, as plain values.
pub struct LsackModel {
    pub header: Header,
    pub lsas: Seq<LsaHeader>,
}

impl LsackModel {
    /// The bytes of the packet on the wire.
    pub open spec fn encoding(self) -> Seq<u8> {
        self.header.encoding() + headers_encoding(self.lsas)
    }
}

impl View for LinkStateAcknowledgment {
    type V = LsackModel;

    open spec fn view(&self) -> LsackModel {
        LsackModel { header: self.header, lsas: self.lsas@ }
    }
}

impl Clone for LinkStateAcknowledgment {
    fn clone(&self) -> (copy: LinkStateAcknowledgment)
        ensures
            copy@ == self@,
    {
        let lsas = self.lsas.clone();
        assert(lsas@ =~= self.lsas@);
        LinkStateAcknowledgment { header: self.header, lsas }
    }
}

impl LinkStateAcknowledgment {
    /// Appends the packet's bytes to `buf`.
    pub fn encode_into(&self, buf: &mut Vec<u8>)
        ensures
            final(buf)@ == old(buf)@ + self@.encoding(),
    {
        self.header.encode_into(buf);
        encode_headers(&self.lsas, buf);
        assert(buf@ =~= old(buf)@ + self@.encoding());
    }

    /// The bytes on the wire.
    pub fn encode(&self) -> (bytes: Vec<u8>)
        ensures
            bytes@ == self@.encoding(),
    {
        let mut buf: Vec<u8> = Vec::new();
        self.encode_into(&mut buf);
        assert(buf@ =~= self@.encoding());
        buf
    }
}

/// A packet of any of the five kinds.
#[derive(Debug)]
pub enum OSPFPacket {
    Hello(Hello),
    DBDescription(DBDescription),
    LinkStateRequest(LinkStateRequest),
    LinkStateUpdate(LinkStateUpdate),
    LinkStateAcknowledgment(LinkStateAcknowledgment),
}

/// What a packet holds, as plain values.
pub enum PacketModel {
    Hello(HelloModel),
    Dbd(DbdModel),
    Lsr(LsrModel),
    Lsu(LsuModel),
    Lsack(LsackModel),
}

impl PacketModel {
    /// The packet's header.
    pub open spec fn header(self) -> Header {
        match self {
            PacketModel::Hello(p) => p.header,
            PacketModel::Dbd(p) => p.header,
            PacketModel::Lsr(p) => p.header,
            PacketModel::Lsu(p) => p.header,
            PacketModel::Lsack(p) => p.header,
        }
    }

    /// The same packet under another header.
    pub open spec fn with_header(self, h: Header) -> PacketModel {
        match self {
            PacketModel::Hello(p) => PacketModel::Hello(HelloModel { header: h, ..p }),
            PacketModel::Dbd(p) => PacketModel::Dbd(DbdModel { header: h, ..p }),
            PacketModel::Lsr(p) => PacketModel::Lsr(LsrModel { header: h, ..p }),
            PacketModel::Lsu(p) => PacketModel::Lsu(LsuModel { header: h, ..p }),
            PacketModel::Lsack(p) => PacketModel::Lsack(LsackModel { header: h, ..p }),
        }
    }

    /// The bytes of the packet on the wire.
    pub open spec fn encoding(self) -> Seq<u8> {
        match self {
            PacketModel::Hello(p) => p.encoding(),
            PacketModel::Dbd(p) => p.encoding(),
            PacketModel::Lsr(p) => p.encoding(),
            PacketModel::Lsu(p) => p.encoding(),
            PacketModel::Lsack(p) => p.encoding(),
        }
    }

    /// The version is 2, the type byte names the kind that the packet is of,
    /// and an update holds as many advertisements as it says, each of them
    /// well-formed.
    pub open spec fn wf(self) -> bool {
        &&& self.header().version == OSPF_VERSION
        &&& match self {
            PacketModel::Hello(_) => self.header().packet_type == PACKET_HELLO,
            PacketModel::Dbd(_) => self.header().packet_type == PACKET_DBD,
            PacketModel::Lsr(_) => self.header().packet_type == PACKET_LSR,
            PacketModel::Lsu(p) => self.header().packet_type == PACKET_LSU && p.num_lsa
                == p.lsas.len() && forall|i: int|
                0 <= i < p.lsas.len() ==> (#[trigger] p.lsas[i]).wf(),
            PacketModel::Lsack(_) => self.header().packet_type == PACKET_LSACK,
        }
    }

    /// The packet with its length field set to the length of its bytes.
    pub open spec fn with_length(self) -> PacketModel {
        self.with_header(
            Header { packet_length: self.encoding().len() as u16, ..self.header() },
        )
    }

    /// The packet with its checksum field zero.
    pub open spec fn unsummed(self) -> PacketModel {
        self.with_header(Header { checksum: 0, ..self.header() })
    }

    /// The packet with its checksum field set to the checksum of its bytes,
    /// taken with the checksum field zero.
    pub open spec fn summed(self) -> PacketModel {
        self.with_header(
            Header {
                checksum: internet_checksum(self.unsummed().encoding()),
                ..self.header()
            },
        )
    }
}

impl View for OSPFPacket {
    type V = PacketModel;

    open spec fn view(&self) -> PacketModel {
        match self {
            OSPFPacket::Hello(p) => PacketModel::Hello(p@),
            OSPFPacket::DBDescription(p) => PacketModel::Dbd(p@),
            OSPFPacket::LinkStateRequest(p) => PacketModel::Lsr(p@),
            OSPFPacket::LinkStateUpdate(p) => PacketModel::Lsu(p@),
            OSPFPacket::LinkStateAcknowledgment(p) => PacketModel::Lsack(p@),
        }
    }
}

impl Clone for OSPFPacket {
    fn clone(&self) -> (copy: OSPFPacket)
        ensures
            copy@ == self@,
    {
        match self {
            OSPFPacket::Hello(p) => OSPFPacket::Hello(p.clone()),
            OSPFPacket::DBDescription(p) => OSPFPacket::DBDescription(p.clone()),
            OSPFPacket::LinkStateRequest(p) => OSPFPacket::LinkStateRequest(p.clone()),
            OSPFPacket::LinkStateUpdate(p) => OSPFPacket::LinkStateUpdate(p.clone()),
            OSPFPacket::LinkStateAcknowledgment(p) => OSPFPacket::LinkStateAcknowledgment(
                p.clone(),
            ),
        }
    }
}

/// The bytes of a packet are the 24 bytes of its header and then bytes that
/// do not depend on the header; the checksum field is the seventh 16-bit word.
#[verifier::rlimit(40)]
pub proof fn lemma_packet_encoding_splits(p: PacketModel, h: Header)
    ensures
        h.encoding().len() == 24,
        p.encoding().len() >= 24,
        p.with_header(h).encoding() == h.encoding() + p.encoding().skip(24),
        p.with_header(h).encoding().len() == p.encoding().len(),
        p.with_header(h).header() == h,
        p.with_header(p.header()) == p,
        h.encoding() == with_check_bytes(
            (Header { checksum: 0, ..h }).encoding(),
            12,
            h.checksum,
        ),
        (Header { checksum: 0, ..h }).encoding()[12] == 0,
        (Header { checksum: 0, ..h }).encoding()[13] == 0,
{
    assert(h.encoding().len() == 24);
    assert(p.header().encoding().len() == 24);
    assert(p.with_header(h).encoding() =~= h.encoding() + p.encoding().skip(24));
    assert(h.encoding() =~= with_check_bytes(
        (Header { checksum: 0, ..h }).encoding(),
        12,
        h.checksum,
    ));
}

impl OSPFPacket {
    /// The packet's header.
    pub fn get_hdr(&self) -> (hdr: &Header)
        ensures
            *hdr == self@.header(),
    {
        match self {
            OSPFPacket::Hello(p) => &p.header,
            OSPFPacket::DBDescription(p) => &p.header,
            OSPFPacket::LinkStateRequest(p) => &p.header,
            OSPFPacket::LinkStateUpdate(p) => &p.header,
            OSPFPacket::LinkStateAcknowledgment(p) => &p.header,
        }
    }

    /// The packet's header, for writing.
    pub fn get_mut_hdr(&mut self) -> (hdr: &mut Header)
        ensures
            *hdr == old(self)@.header(),
            final(self)@ == old(self)@.with_header(*final(hdr)),
    {
        match self {
            OSPFPacket::Hello(p) => &mut p.header,
            OSPFPacket::DBDescription(p) => &mut p.header,
            OSPFPacket::LinkStateRequest(p) => &mut p.header,
            OSPFPacket::LinkStateUpdate(p) => &mut p.header,
            OSPFPacket::LinkStateAcknowledgment(p) => &mut p.header,
        }
    }

    /// Replaces the packet's header.
    pub fn set_hdr(&mut self, hdr: Header)
        ensures
            final(self)@ == old(self)@.with_header(hdr),
    {
        match self {
            OSPFPacket::Hello(p) => {
                p.header = hdr;
            },
            OSPFPacket::DBDescription(p) => {
                p.header = hdr;
            },
            OSPFPacket::LinkStateRequest(p) => {
                p.header = hdr;
            },
            OSPFPacket::LinkStateUpdate(p) => {
                p.header = hdr;
            },
            OSPFPacket::LinkStateAcknowledgment(p) => {
                p.header = hdr;
            },
        }
    }

    /// The packet's bytes on the wire.
    pub fn encode(&self) -> (bytes: Vec<u8>)
        ensures
            bytes@ == self@.encoding(),
    {
        match self {
            OSPFPacket::Hello(p) => p.encode(),
            OSPFPacket::DBDescription(p) => p.encode(),
            OSPFPacket::LinkStateRequest(p) => p.encode(),
            OSPFPacket::LinkStateUpdate(p) => p.encode(),
            OSPFPacket::LinkStateAcknowledgment(p) => p.encode(),
        }
    }

    /// The packet's bytes on the wire.
    pub fn encode_bincode(&self) -> (bytes: Vec<u8>)
        ensures
            bytes@ == self@.encoding(),
    {
        self.encode()
    }

    /// Sets the length field to the length of the packet's bytes.
    pub fn set_packet_length(&mut self)
        requires
            old(self)@.encoding().len() <= 0xFFFF,
        ensures
            final(self)@ == old(self)@.with_length(),
            final(self)@.header().packet_length == final(self)@.encoding().len(),
    {
        let len = self.encode().len();
        let mut hdr = *self.get_hdr();
        hdr.packet_length = len as u16;
        proof {
            lemma_packet_encoding_splits(self@, hdr);
        }
        self.set_hdr(hdr);
    }

    /// Sets the checksum field to the checksum of the packet's bytes, taken
    /// with the checksum field zero. The checksum of the packet's bytes is
    /// zero afterwards.
    #[verifier::rlimit(40)]
    pub fn set_checksum(&mut self)
        ensures
            final(self)@ == old(self)@.summed(),
            internet_checksum(final(self)@.encoding()) == 0,
    {
        let mut hdr = *self.get_hdr();
        hdr.checksum = 0;
        self.set_hdr(hdr);
        let ghost zeroed = self@;
        let bytes = self.encode();
        let sum = packet_checksum(bytes.as_slice());
        hdr.checksum = sum;
        self.set_hdr(hdr);
        proof {
            lemma_packet_encoding_splits(old(self)@, Header { checksum: 0, ..hdr });
            lemma_packet_encoding_splits(zeroed, hdr);
            lemma_packet_encoding_splits(old(self)@, hdr);
            assert(self@ == old(self)@.summed());
            assert(self@.encoding() =~= with_check_bytes(zeroed.encoding(), 12, sum));
            lemma_checksum_filled(zeroed.encoding(), 12);
        }
    }

    /// Whether the checksum of the packet's bytes is zero, as it is for a
    /// packet that arrived unharmed.
    pub fn checksum_ok(&self) -> (ok: bool)
        ensures
            ok == (internet_checksum(self@.encoding()) == 0),
    {
        let bytes = self.encode();
        packet_checksum(bytes.as_slice()) == 0
    }
}

} // verus!
