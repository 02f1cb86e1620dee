//! Link-state advertisements: their data, identity, freshness order and byte form.

use vstd::prelude::*;
use vstd::slice::slice_subrange;
use crate::checksum::{fletcher16, fletcher16_checksum, fletcher16_verify, fletcher_valid,
    lemma_fletcher_checksum_valid, with_check_bytes};
use crate::config::{MAX_AGE, MAX_AGE_DIFF};
use crate::wire::{be16, be32, bits_of_i32, put_u8, put_u16, put_u32, i32_to_bits};

verus! {

/// The 20-byte header that every advertisement starts with.
#[derive(Debug, Clone, Copy, PartialEq, Eq, Structural)]
pub struct LsaHeader {
    pub age: u16,
    pub options: u8,
    pub ls_type: u8,
    pub link_state_id: u32,
    pub advertising_router: u32,
    pub sequence_number: i32,
    pub checksum: u16,
    pub length: u16,
}

/// Type byte of a router advertisement.
pub const LSA_ROUTER: u8 = 1;

/// Type byte of a network advertisement.
pub const LSA_NETWORK: u8 = 2;

/// Type byte of a network summary.
pub const LSA_SUMNET: u8 = 3;

/// Type byte of a boundary-router summary.
pub const LSA_SUMASB: u8 = 4;

/// Type byte of an external advertisement.
pub const LSA_ASEXTERNAL: u8 = 5;

/// Link type of a point-to-point link.
pub const LINK_P2P: u8 = 1;

/// Link type of a link to a transit network.
pub const LINK_TRANSIT: u8 = 2;

/// Link type of a link to a stub network.
pub const LINK_STUB: u8 = 3;

/// Link type of a virtual link.
pub const LINK_VIRTUAL: u8 = 4;

/// How one instance of an advertisement stands to another.
#[derive(Debug, Clone, Copy, PartialEq, Eq, Structural)]
pub enum LsaCmpResult {
    Same,
    Newer,
    Older,
}

/// The five kinds of advertisement.
#[derive(Debug, Clone, Copy, PartialEq, Eq, Structural)]
pub enum LsaType {
    LsaRouter,
    LsaNetwork,
    LsaSumnet,
    LsaSumasb,
    LsaAsexternal,
}

impl LsaType {
    /// The type byte that stands for this kind on the wire.
    pub open spec fn code(self) -> u8 {
        match self {
            LsaType::LsaRouter => LSA_ROUTER,
            LsaType::LsaNetwork => LSA_NETWORK,
            LsaType::LsaSumnet => LSA_SUMNET,
            LsaType::LsaSumasb => LSA_SUMASB,
            LsaType::LsaAsexternal => LSA_ASEXTERNAL,
        }
    }

    /// The byte that stands for this kind on the wire.
    pub fn to_byte(self) -> (b: u8)
        ensures
            b == self.code(),
            1 <= b <= 5,
    {
        match self {
            LsaType::LsaRouter => LSA_ROUTER,
            LsaType::LsaNetwork => LSA_NETWORK,
            LsaType::LsaSumnet => LSA_SUMNET,
            LsaType::LsaSumasb => LSA_SUMASB,
            LsaType::LsaAsexternal => LSA_ASEXTERNAL,
        }
    }

    /// The kind that the byte stands for, if it stands for one.
    pub fn from_byte(b: u8) -> (t: Option<LsaType>)
        ensures
            t is Some <==> 1 <= b <= 5,
            t is Some ==> t->0.code() == b,
    {
        if b == LSA_ROUTER {
            Some(LsaType::LsaRouter)
        } else if b == LSA_NETWORK {
            Some(LsaType::LsaNetwork)
        } else if b == LSA_SUMNET {
            Some(LsaType::LsaSumnet)
        } else if b == LSA_SUMASB {
            Some(LsaType::LsaSumasb)
        } else if b == LSA_ASEXTERNAL {
            Some(LsaType::LsaAsexternal)
        } else {
            None
        }
    }
}

/// The four kinds of link that a router advertisement describes.
#[derive(Debug, Clone, Copy, PartialEq, Eq, Structural)]
pub enum LinkType {
    P2P,
    Transit,
    Stub,
    Virtual,
}

impl LinkType {
    /// The link-type byte that stands for this kind on the wire.
    pub open spec fn code(self) -> u8 {
        match self {
            LinkType::P2P => LINK_P2P,
            LinkType::Transit => LINK_TRANSIT,
            LinkType::Stub => LINK_STUB,
            LinkType::Virtual => LINK_VIRTUAL,
        }
    }

    /// The byte that stands for this kind on the wire.
    pub fn to_byte(self) -> (b: u8)
        ensures
            b == self.code(),
    {
        match self {
            LinkType::P2P => LINK_P2P,
            LinkType::Transit => LINK_TRANSIT,
            LinkType::Stub => LINK_STUB,
            LinkType::Virtual => LINK_VIRTUAL,
        }
    }

    /// The kind that the byte stands for, if it stands for one.
    pub fn from_byte(b: u8) -> (t: Option<LinkType>)
        ensures
            t is Some <==> 1 <= b <= 4,
            t is Some ==> t->0.code() == b,
    {
        if b == LINK_P2P {
            Some(LinkType::P2P)
        } else if b == LINK_TRANSIT {
            Some(LinkType::Transit)
        } else if b == LINK_STUB {
            Some(LinkType::Stub)
        } else if b == LINK_VIRTUAL {
            Some(LinkType::Virtual)
        } else {
            None
        }
    }
}

impl LsaHeader {
    /// Two headers name the same advertisement: type, link-state id and
    /// advertising router agree.
    pub open spec fn same_identity(self, other: LsaHeader) -> bool {
        &&& self.ls_type == other.ls_type
        &&& self.link_state_id == other.link_state_id
        &&& self.advertising_router == other.advertising_router
    }

    /// Whether the two headers name the same advertisement.
    pub fn same_ids(&self, oth_hdr: &LsaHeader) -> (same: bool)
        ensures
            same == self.same_identity(*oth_hdr),
    {
        self.ls_type == oth_hdr.ls_type && self.link_state_id == oth_hdr.link_state_id
            && self.advertising_router == oth_hdr.advertising_router
    }

    /// The age has reached the maximum.
    pub open spec fn is_max_age(self) -> bool {
        self.age == MAX_AGE
    }

    /// Whether the age has reached the maximum.
    pub fn at_max_age(&self) -> (at: bool)
        ensures
            at == self.is_max_age(),
    {
        self.age as u32 == MAX_AGE
    }

    /// The ages of the two headers differ by more than `MAX_AGE_DIFF`.
    pub open spec fn ages_apart(self, other: LsaHeader) -> bool {
        self.age - other.age > MAX_AGE_DIFF || other.age - self.age > MAX_AGE_DIFF
    }

    /// Whether the ages of the two headers differ by more than `MAX_AGE_DIFF`.
    pub fn age_differs(&self, other: &LsaHeader) -> (apart: bool)
        ensures
            apart == self.ages_apart(*other),
    {
        if self.age > other.age {
            (self.age - other.age) as u32 > MAX_AGE_DIFF
        } else {
            (other.age - self.age) as u32 > MAX_AGE_DIFF
        }
    }

    /// How this instance of an advertisement stands to another instance of
    /// it: the higher sequence number is newer; then the higher checksum;
    /// then the one that alone has reached the maximum age; then, where the
    /// ages lie more than `MAX_AGE_DIFF` apart, the younger one. Otherwise
    /// the two are the same.
    pub open spec fn freshness(self, other: LsaHeader) -> LsaCmpResult {
        if self.sequence_number != other.sequence_number {
            if self.sequence_number > other.sequence_number {
                LsaCmpResult::Newer
            } else {
                LsaCmpResult::Older
            }
        } else if self.checksum != other.checksum {
            if self.checksum > other.checksum {
                LsaCmpResult::Newer
            } else {
                LsaCmpResult::Older
            }
        } else if self.is_max_age() != other.is_max_age() {
            if self.is_max_age() {
                LsaCmpResult::Newer
            } else {
                LsaCmpResult::Older
            }
        } else if self.ages_apart(other) {
            if self.age < other.age {
                LsaCmpResult::Newer
            } else {
                LsaCmpResult::Older
            }
        } else {
            LsaCmpResult::Same
        }
    }

    /// Compares two instances of one advertisement by freshness.
    pub fn cmp_with(&self, other: &LsaHeader) -> (r: LsaCmpResult)
        requires
            self.same_identity(*other),
        ensures
            r == self.freshness(*other),
    {
        if self.sequence_number != other.sequence_number {
            if self.sequence_number > other.sequence_number {
                LsaCmpResult::Newer
            } else {
                LsaCmpResult::Older
            }
        } else if self.checksum != other.checksum {
            if self.checksum > other.checksum {
                LsaCmpResult::Newer
            } else {
                LsaCmpResult::Older
            }
        } else if self.at_max_age() != other.at_max_age() {
            if self.at_max_age() {
                LsaCmpResult::Newer
            } else {
                LsaCmpResult::Older
            }
        } else if self.age_differs(other) {
            if self.age < other.age {
                LsaCmpResult::Newer
            } else {
                LsaCmpResult::Older
            }
        } else {
            LsaCmpResult::Same
        }
    }

    /// The 20 bytes of the header on the wire.
    pub open spec fn encoding(self) -> Seq<u8> {
        be16(self.age) + seq![self.options, self.ls_type] + be32(self.link_state_id) + be32(
            self.advertising_router,
        ) + be32(bits_of_i32(self.sequence_number)) + be16(self.checksum) + be16(self.length)
    }

    /// Appends the header's 20 bytes to `buf`.
    pub fn encode_into(&self, buf: &mut Vec<u8>)
        ensures
            final(buf)@ == old(buf)@ + self.encoding(),
    {
        put_u16(buf, self.age);
        put_u8(buf, self.options);
        put_u8(buf, self.ls_type);
        put_u32(buf, self.link_state_id);
        put_u32(buf, self.advertising_router);
        put_u32(buf, i32_to_bits(self.sequence_number));
        put_u16(buf, self.checksum);
        put_u16(buf, self.length);
        assert(buf@ =~= old(buf)@ + self.encoding());
    }

    /// The bytes on the wire.
    pub fn encode(&self) -> (bytes: Vec<u8>)
        ensures
            bytes@ == self.encoding(),
    {
        let mut buf: Vec<u8> = Vec::new();
        self.encode_into(&mut buf);
        assert(buf@ =~= self.encoding());
        buf
    }
}

/// One type-of-service metric of a router link.
#[derive(Debug, Clone, Copy, PartialEq, Eq, Structural)]
pub struct LsaRouterLinkTos {
    pub tos: u8,
    pub reserved: u8,
    pub metric: u16,
}

impl LsaRouterLinkTos {
    /// The 4 bytes of the entry on the wire.
    pub open spec fn encoding(self) -> Seq<u8> {
        seq![self.tos, self.reserved] + be16(self.metric)
    }

    /// Appends the entry's 4 bytes to `buf`.
    pub fn encode_into(&self, buf: &mut Vec<u8>)
        ensures
            final(buf)@ == old(buf)@ + self.encoding(),
    {
        put_u8(buf, self.tos);
        put_u8(buf, self.reserved);
        put_u16(buf, self.metric);
        assert(buf@ =~= old(buf)@ + self.encoding());
    }

    /// The bytes on the wire.
    pub fn encode(&self) -> (bytes: Vec<u8>)
        ensures
            bytes@ == self.encoding(),
    {
        let mut buf: Vec<u8> = Vec::new();
        self.encode_into(&mut buf);
        assert(buf@ =~= self.encoding());
        buf
    }
}

/// The bytes of a list of type-of-service entries, one after the other.
pub open spec fn tos_list_encoding(list: Seq<LsaRouterLinkTos>) -> Seq<u8>
    decreases list.len(),
{
    if list.len() == 0 {
        Seq::empty()
    } else {
        tos_list_encoding(list.drop_last()) + list.last().encoding()
    }
}

/// One link of a router advertisement.
#[derive(Debug)]
pub struct LsaRouterLink {
    pub link_id: u32,
    pub link_data: u32,
    pub link_type: u8,
    pub tos_num: u8,
    pub metric: u16,
    pub tos_list: Vec<LsaRouterLinkTos>,
}

/// What a router link holds, as plain values.
pub struct RouterLinkModel {
    pub link_id: u32,
    pub link_data: u32,
    pub link_type: u8,
    pub tos_num: u8,
    pub metric: u16,
    pub tos_list: Seq<LsaRouterLinkTos>,
}

impl RouterLinkModel {
    /// The count field agrees with the list.
    pub open spec fn wf(self) -> bool {
        self.tos_num == self.tos_list.len()
    }

    /// The bytes of the link on the wire: 12 fixed bytes, then the entries.
    pub open spec fn encoding(self) -> Seq<u8> {
        be32(self.link_id) + be32(self.link_data) + seq![self.link_type, self.tos_num] + be16(
            self.metric,
        ) + tos_list_encoding(self.tos_list)
    }
}

impl View for LsaRouterLink {
    type V = RouterLinkModel;

    open spec fn view(&self) -> RouterLinkModel {
        RouterLinkModel {
            link_id: self.link_id,
            link_data: self.link_data,
            link_type: self.link_type,
            tos_num: self.tos_num,
            metric: self.metric,
            tos_list: self.tos_list@,
        }
    }
}

impl Clone for LsaRouterLink {
    fn clone(&self) -> (copy: LsaRouterLink)
        ensures
            copy@ == self@,
    {
        let mut tos_list: Vec<LsaRouterLinkTos> = Vec::new();
        let mut i: usize = 0;
        while i < self.tos_list.len()
            invariant
                i <= self.tos_list.len(),
                tos_list@ == self.tos_list@.take(i as int),
            decreases self.tos_list.len() - i,
        {
            tos_list.push(self.tos_list[i]);
            i += 1;
            assert(tos_list@ =~= self.tos_list@.take(i as int));
        }
        assert(tos_list@ =~= self.tos_list@);
        LsaRouterLink {
            link_id: self.link_id,
            link_data: self.link_data,
            link_type: self.link_type,
            tos_num: self.tos_num,
            metric: self.metric,
            tos_list,
        }
    }
}

impl LsaRouterLink {
    /// A link with the given metric and every other field zero.
    pub fn new(metric: u16) -> (link: LsaRouterLink)
        ensures
            link@ == (RouterLinkModel {
                link_id: 0,
                link_data: 0,
                link_type: 0,
                tos_num: 0,
                metric,
                tos_list: Seq::empty(),
            }),
    {
        LsaRouterLink {
            link_id: 0,
            link_data: 0,
            link_type: 0,
            tos_num: 0,
            metric,
            tos_list: Vec::new(),
        }
    }

    /// Appends the link's bytes to `buf`.
    pub fn encode_into(&self, buf: &mut Vec<u8>)
        ensures
            final(buf)@ == old(buf)@ + self@.encoding(),
    {
        put_u32(buf, self.link_id);
        put_u32(buf, self.link_data);
        put_u8(buf, self.link_type);
        put_u8(buf, self.tos_num);
        put_u16(buf, self.metric);
        let ghost fixed = buf@;
        assert(fixed =~= old(buf)@ + (be32(self.link_id) + be32(self.link_data)
            + seq![self.link_type, self.tos_num] + be16(self.metric)));
        let mut i: usize = 0;
        while i < self.tos_list.len()
            invariant
                i <= self.tos_list.len(),
                buf@ == fixed + tos_list_encoding(self.tos_list@.take(i as int)),
            decreases self.tos_list.len() - i,
        {
            let ghost before = buf@;
            self.tos_list[i].encode_into(buf);
            proof {
                let next = self.tos_list@.take(i + 1);
                assert(next.drop_last() =~= self.tos_list@.take(i as int));
                assert(buf@ =~= fixed + tos_list_encoding(next));
            }
            i += 1;
        }
        assert(self.tos_list@.take(i as int) =~= self.tos_list@);
        assert(buf@ =~= old(buf)@ + self@.encoding());
    }

    /// The bytes on the wire.
    pub fn encode(&self) -> (bytes: Vec<u8>)
        ensures
            bytes@ == self@.encoding(),
    {
        let mut buf: Vec<u8> = Vec::new();
        self.encode_into(&mut buf);
        assert(buf@ =~= self@.encoding());
        buf
    }
}

/// The bytes of a list of router links, one after the other.
pub open spec fn links_encoding(links: Seq<RouterLinkModel>) -> Seq<u8>
    decreases links.len(),
{
    if links.len() == 0 {
        Seq::empty()
    } else {
        links_encoding(links.drop_last()) + links.last().encoding()
    }
}

/// The bytes of a list of 32-bit values, one after the other.
pub open spec fn u32_list_encoding(list: Seq<u32>) -> Seq<u8>
    decreases list.len(),
{
    if list.len() == 0 {
        Seq::empty()
    } else {
        u32_list_encoding(list.drop_last()) + be32(list.last())
    }
}

/// Appends the bytes of each value of `list` to `buf`.
pub fn encode_u32_list(list: &Vec<u32>, buf: &mut Vec<u8>)
    ensures
        final(buf)@ == old(buf)@ + u32_list_encoding(list@),
{
    let ghost start = buf@;
    assert(buf@ =~= start + u32_list_encoding(list@.take(0)));
    let mut i: usize = 0;
    while i < list.len()
        invariant
            i <= list.len(),
            buf@ == start + u32_list_encoding(list@.take(i as int)),
        decreases list.len() - i,
    {
        put_u32(buf, list[i]);
        proof {
            let next = list@.take(i + 1);
            assert(next.drop_last() =~= list@.take(i as int));
            assert(buf@ =~= start + u32_list_encoding(next));
        }
        i += 1;
    }
    assert(list@.take(i as int) =~= list@);
}

/// A router advertisement: the links of one router.
#[derive(Debug)]
pub struct LsaRouter {
    pub header: LsaHeader,
    pub flags: u16,
    pub num_links: u16,
    pub links: Vec<LsaRouterLink>,
}

/// What a router advertisement holds, as plain values.
pub struct RouterModel {
    pub header: LsaHeader,
    pub flags: u16,
    pub num_links: u16,
    pub links: Seq<RouterLinkModel>,
}

impl RouterModel {
    /// The type byte is that of a router advertisement and every count field
    /// agrees with its list.
    pub open spec fn wf(self) -> bool {
        &&& self.header.ls_type == LSA_ROUTER
        &&& self.num_links == self.links.len()
        &&& forall|i: int| 0 <= i < self.links.len() ==> (#[trigger] self.links[i]).wf()
    }

    /// The bytes of the advertisement on the wire.
    pub open spec fn encoding(self) -> Seq<u8> {
        self.header.encoding() + be16(self.flags) + be16(self.num_links) + links_encoding(
            self.links,
        )
    }
}

impl View for LsaRouter {
    type V = RouterModel;

    open spec fn view(&self) -> RouterModel {
        RouterModel {
            header: self.header,
            flags: self.flags,
            num_links: self.num_links,
            links: self.links@.map_values(|l: LsaRouterLink| l@),
        }
    }
}

impl Clone for LsaRouter {
    fn clone(&self) -> (copy: LsaRouter)
        ensures
            copy@ == self@,
    {
        let links = self.links.clone();
        assert(links@.map_values(|l: LsaRouterLink| l@) =~= self@.links);
        LsaRouter { header: self.header, flags: self.flags, num_links: self.num_links, links }
    }
}

impl LsaRouter {
    /// Appends the advertisement's bytes to `buf`.
    pub fn encode_into(&self, buf: &mut Vec<u8>)
        ensures
            final(buf)@ == old(buf)@ + self@.encoding(),
    {
        self.header.encode_into(buf);
        put_u16(buf, self.flags);
        put_u16(buf, self.num_links);
        let ghost fixed = buf@;
        assert(fixed =~= old(buf)@ + (self.header.encoding() + be16(self.flags) + be16(
            self.num_links,
        )));
        assert(buf@ =~= fixed + links_encoding(self@.links.take(0)));
        let mut i: usize = 0;
        while i < self.links.len()
            invariant
                i <= self.links.len(),
                buf@ == fixed + links_encoding(self@.links.take(i as int)),
            decreases self.links.len() - i,
        {
            self.links[i].encode_into(buf);
            proof {
                let next = self@.links.take(i + 1);
                assert(next.drop_last() =~= self@.links.take(i as int));
                assert(next.last() == self.links[i as int]@);
                assert(buf@ =~= fixed + links_encoding(next));
            }
            i += 1;
        }
        assert(self@.links.take(i as int) =~= self@.links);
        assert(buf@ =~= old(buf)@ + self@.encoding());
    }

    /// The bytes on the wire.
    pub fn encode(&self) -> (bytes: Vec<u8>)
        ensures
            bytes@ == self@.encoding(),
    {
        let mut buf: Vec<u8> = Vec::new();
        self.encode_into(&mut buf);
        assert(buf@ =~= self@.encoding());
        buf
    }
}

/// A network advertisement: the routers attached to one transit network.
#[derive(Debug)]
pub struct LsaNetwork {
    pub header: LsaHeader,
    pub network_mask: u32,
    pub attached_routers: Vec<u32>,
}

/// What a network advertisement holds, as plain values.
pub struct NetworkModel {
    pub header: LsaHeader,
    pub network_mask: u32,
    pub attached_routers: Seq<u32>,
}

impl NetworkModel {
    /// The type byte is that of a network advertisement and the length field
    /// covers the fixed 24 bytes and gives the number of attached routers.
    pub open spec fn wf(self) -> bool {
        &&& self.header.ls_type == LSA_NETWORK
        &&& self.header.length >= 24
        &&& (self.header.length - 24) / 4 == self.attached_routers.len()
    }

    /// The bytes of the advertisement on the wire.
    pub open spec fn encoding(self) -> Seq<u8> {
        self.header.encoding() + be32(self.network_mask) + u32_list_encoding(
            self.attached_routers,
        )
    }
}

impl View for LsaNetwork {
    type V = NetworkModel;

    open spec fn view(&self) -> NetworkModel {
        NetworkModel {
            header: self.header,
            network_mask: self.network_mask,
            attached_routers: self.attached_routers@,
        }
    }
}

impl Clone for LsaNetwork {
    fn clone(&self) -> (copy: LsaNetwork)
        ensures
            copy@ == self@,
    {
        let attached_routers = self.attached_routers.clone();
        assert(attached_routers@ =~= self.attached_routers@);
        LsaNetwork { header: self.header, network_mask: self.network_mask, attached_routers }
    }
}

impl LsaNetwork {
    /// Appends the advertisement's bytes to `buf`.
    pub fn encode_into(&self, buf: &mut Vec<u8>)
        ensures
            final(buf)@ == old(buf)@ + self@.encoding(),
    {
        self.header.encode_into(buf);
        put_u32(buf, self.network_mask);
        encode_u32_list(&self.attached_routers, buf);
        assert(buf@ =~= old(buf)@ + self@.encoding());
    }

    /// The bytes on the wire.
    pub fn encode(&self) -> (bytes: Vec<u8>)
        ensures
            bytes@ == self@.encoding(),
    {
        let mut buf: Vec<u8> = Vec::new();
        self.encode_into(&mut buf);
        assert(buf@ =~= self@.encoding());
        buf
    }
}

/// A summary advertisement, for a network or for a boundary router.
#[derive(Debug, Clone, Copy, PartialEq, Eq, Structural)]
pub struct LsaSum {
    pub header: LsaHeader,
    pub network_mask: u32,
    pub metric: u32,
}

impl LsaSum {
    /// The 28 bytes of the advertisement on the wire.
    pub open spec fn encoding(self) -> Seq<u8> {
        self.header.encoding() + be32(self.network_mask) + be32(self.metric)
    }

    /// Appends the advertisement's bytes to `buf`.
    pub fn encode_into(&self, buf: &mut Vec<u8>)
        ensures
            final(buf)@ == old(buf)@ + self.encoding(),
    {
        self.header.encode_into(buf);
        put_u32(buf, self.network_mask);
        put_u32(buf, self.metric);
        assert(buf@ =~= old(buf)@ + self.encoding());
    }

    /// The bytes on the wire.
    pub fn encode(&self) -> (bytes: Vec<u8>)
        ensures
            bytes@ == self.encoding(),
    {
        let mut buf: Vec<u8> = Vec::new();
        self.encode_into(&mut buf);
        assert(buf@ =~= self.encoding());
        buf
    }
}

/// An external advertisement: a destination outside the routing domain.
#[derive(Debug, Clone, Copy, PartialEq, Eq, Structural)]
pub struct LsaAsexternal {
    pub header: LsaHeader,
    pub network_mask: u32,
    pub metric: u32,
    pub forwarding_address: u32,
    pub external_route_tag: u32,
}

impl LsaAsexternal {
    /// The 36 bytes of the advertisement on the wire.
    pub open spec fn encoding(self) -> Seq<u8> {
        self.header.encoding() + be32(self.network_mask) + be32(self.metric) + be32(
            self.forwarding_address,
        ) + be32(self.external_route_tag)
    }

    /// Appends the advertisement's bytes to `buf`.
    pub fn encode_into(&self, buf: &mut Vec<u8>)
        ensures
            final(buf)@ == old(buf)@ + self.encoding(),
    {
        self.header.encode_into(buf);
        put_u32(buf, self.network_mask);
        put_u32(buf, self.metric);
        put_u32(buf, self.forwarding_address);
        put_u32(buf, self.external_route_tag);
        assert(buf@ =~= old(buf)@ + self.encoding());
    }

    /// The bytes on the wire.
    pub fn encode(&self) -> (bytes: Vec<u8>)
        ensures
            bytes@ == self.encoding(),
    {
        let mut buf: Vec<u8> = Vec::new();
        self.encode_into(&mut buf);
        assert(buf@ =~= self.encoding());
        buf
    }
}

/// A link-state advertisement of any of the five kinds.
#[derive(Debug)]
pub enum Lsa {
    LsaRouter(LsaRouter),
    LsaNetwork(LsaNetwork),
    LsaSumnet(LsaSum),
    LsaSumasb(LsaSum),
    LsaAsexternal(LsaAsexternal),
}

/// What an advertisement holds, as plain values.
pub enum LsaModel {
    Router(RouterModel),
    Network(NetworkModel),
    Sumnet(LsaSum),
    Sumasb(LsaSum),
    Asexternal(LsaAsexternal),
}

impl LsaModel {
    /// The advertisement's header.
    pub open spec fn header(self) -> LsaHeader {
        match self {
            LsaModel::Router(l) => l.header,
            LsaModel::Network(l) => l.header,
            LsaModel::Sumnet(l) => l.header,
            LsaModel::Sumasb(l) => l.header,
            LsaModel::Asexternal(l) => l.header,
        }
    }

    /// The same advertisement under another header.
    pub open spec fn with_header(self, h: LsaHeader) -> LsaModel {
        match self {
            LsaModel::Router(l) => LsaModel::Router(RouterModel { header: h, ..l }),
            LsaModel::Network(l) => LsaModel::Network(NetworkModel { header: h, ..l }),
            LsaModel::Sumnet(l) => LsaModel::Sumnet(LsaSum { header: h, ..l }),
            LsaModel::Sumasb(l) => LsaModel::Sumasb(LsaSum { header: h, ..l }),
            LsaModel::Asexternal(l) => LsaModel::Asexternal(LsaAsexternal { header: h, ..l }),
        }
    }

    /// The header's type byte names the kind that the advertisement is of,
    /// and the count and length fields agree with the lists.
    pub open spec fn wf(self) -> bool {
        match self {
            LsaModel::Router(l) => l.wf(),
            LsaModel::Network(l) => l.wf(),
            LsaModel::Sumnet(l) => l.header.ls_type == LSA_SUMNET,
            LsaModel::Sumasb(l) => l.header.ls_type == LSA_SUMASB,
            LsaModel::Asexternal(l) => l.header.ls_type == LSA_ASEXTERNAL,
        }
    }

    /// The advertisement with its length field set to the length of its
    /// bytes on the wire.
    pub open spec fn with_length(self) -> LsaModel {
        self.with_header(LsaHeader { length: self.encoding().len() as u16, ..self.header() })
    }

    /// The advertisement with its length field set and, after that, its
    /// checksum field set to the Fletcher checksum of its bytes from the
    /// options byte on.
    pub open spec fn sealed(self) -> LsaModel {
        let l = self.with_length();
        l.with_header(
            LsaHeader { checksum: fletcher16(l.encoding().skip(2), 14), ..l.header() },
        )
    }

    /// The bytes from the options byte on carry a correct Fletcher checksum.
    pub open spec fn checksum_valid(self) -> bool {
        fletcher_valid(self.encoding().skip(2))
    }

    /// The bytes of the advertisement on the wire.
    pub open spec fn encoding(self) -> Seq<u8> {
        match self {
            LsaModel::Router(l) => l.encoding(),
            LsaModel::Network(l) => l.encoding(),
            LsaModel::Sumnet(l) => l.encoding(),
            LsaModel::Sumasb(l) => l.encoding(),
            LsaModel::Asexternal(l) => l.encoding(),
        }
    }
}

impl View for Lsa {
    type V = LsaModel;

    open spec fn view(&self) -> LsaModel {
        match self {
            Lsa::LsaRouter(l) => LsaModel::Router(l@),
            Lsa::LsaNetwork(l) => LsaModel::Network(l@),
            Lsa::LsaSumnet(l) => LsaModel::Sumnet(*l),
            Lsa::LsaSumasb(l) => LsaModel::Sumasb(*l),
            Lsa::LsaAsexternal(l) => LsaModel::Asexternal(*l),
        }
    }
}

impl Clone for Lsa {
    fn clone(&self) -> (copy: Lsa)
        ensures
            copy@ == self@,
    {
        match self {
            Lsa::LsaRouter(lsa) => Lsa::LsaRouter(lsa.clone()),
            Lsa::LsaNetwork(lsa) => Lsa::LsaNetwork(lsa.clone()),
            Lsa::LsaSumnet(lsa) => Lsa::LsaSumnet(*lsa),
            Lsa::LsaSumasb(lsa) => Lsa::LsaSumasb(*lsa),
            Lsa::LsaAsexternal(lsa) => Lsa::LsaAsexternal(*lsa),
        }
    }
}

impl Lsa {
    /// The advertisement's header.
    pub fn get_hdr(&self) -> (hdr: &LsaHeader)
        ensures
            *hdr == self@.header(),
    {
        match self {
            Lsa::LsaRouter(lsa) => &lsa.header,
            Lsa::LsaNetwork(lsa) => &lsa.header,
            Lsa::LsaSumnet(lsa) => &lsa.header,
            Lsa::LsaSumasb(lsa) => &lsa.header,
            Lsa::LsaAsexternal(lsa) => &lsa.header,
        }
    }

    /// The advertisement's header, for writing.
    pub fn get_mut_hdr(&mut self) -> (hdr: &mut LsaHeader)
        ensures
            *hdr == old(self)@.header(),
            final(self)@ == old(self)@.with_header(*final(hdr)),
    {
        match self {
            Lsa::LsaRouter(lsa) => &mut lsa.header,
            Lsa::LsaNetwork(lsa) => &mut lsa.header,
            Lsa::LsaSumnet(lsa) => &mut lsa.header,
            Lsa::LsaSumasb(lsa) => &mut lsa.header,
            Lsa::LsaAsexternal(lsa) => &mut lsa.header,
        }
    }

    /// The router advertisement inside, for writing, if this is one.
    pub fn get_rtr(&mut self) -> (rtr: Option<&mut LsaRouter>)
        ensures
            rtr is Some <==> old(self)@ is Router,
            rtr is Some ==> (*rtr->0)@ == old(self)@->Router_0 && final(self)@
                == LsaModel::Router((*final(rtr->0))@),
            rtr is None ==> final(self)@ == old(self)@,
    {
        match self {
            Lsa::LsaRouter(lsa) => Some(lsa),
            _ => None,
        }
    }

    /// Replaces the advertisement's header.
    pub fn set_hdr(&mut self, hdr: LsaHeader)
        ensures
            final(self)@ == old(self)@.with_header(hdr),
    {
        match self {
            Lsa::LsaRouter(lsa) => {
                lsa.header = hdr;
            },
            Lsa::LsaNetwork(lsa) => {
                lsa.header = hdr;
            },
            Lsa::LsaSumnet(lsa) => {
                lsa.header = hdr;
            },
            Lsa::LsaSumasb(lsa) => {
                lsa.header = hdr;
            },
            Lsa::LsaAsexternal(lsa) => {
                lsa.header = hdr;
            },
        }
    }

    /// Whether the advertisement has the identity that `oth_hdr` names.
    pub fn same_ids(&self, oth_hdr: &LsaHeader) -> (same: bool)
        ensures
            same == self@.header().same_identity(*oth_hdr),
    {
        self.get_hdr().same_ids(oth_hdr)
    }

    /// Compares this advertisement with another instance of it by freshness.
    pub fn cmp_with(&self, other: &Lsa) -> (r: LsaCmpResult)
        requires
            self@.header().same_identity(other@.header()),
        ensures
            r == self@.header().freshness(other@.header()),
    {
        self.get_hdr().cmp_with(other.get_hdr())
    }

    /// Sets the length field to the length of the advertisement's bytes, and
    /// then the checksum field to the Fletcher checksum of those bytes from
    /// the options byte on. The advertisement then carries a correct checksum.
    pub fn set_checksum_length(&mut self)
        requires
            old(self)@.encoding().len() <= 0xFFFF,
        ensures
            final(self)@ == old(self)@.sealed(),
            final(self)@.checksum_valid(),
            final(self)@.header().length == old(self)@.encoding().len(),
    {
        let buf = self.encode();
        let mut hdr = *self.get_hdr();
        proof {
            lemma_encoding_splits(self@, hdr);
        }
        hdr.length = buf.len() as u16;
        self.set_hdr(hdr);
        let buf = self.encode();
        proof {
            lemma_encoding_splits(old(self)@, hdr);
        }
        let body = slice_subrange(buf.as_slice(), 2, buf.len());
        let sum = fletcher16_checksum(body, 14);
        let ghost unsealed = self@;
        hdr.checksum = sum;
        self.set_hdr(hdr);
        proof {
            lemma_encoding_splits(unsealed, hdr);
            lemma_fletcher_checksum_valid(unsealed.encoding().skip(2), 14);
            assert(self@.encoding().skip(2) =~= with_check_bytes(
                unsealed.encoding().skip(2),
                14,
                sum,
            ));
        }
    }

    /// Whether the advertisement's bytes from the options byte on carry a
    /// correct Fletcher checksum.
    pub fn checksum_ok(&self) -> (ok: bool)
        ensures
            ok == self@.checksum_valid(),
    {
        let buf = self.encode();
        proof {
            lemma_encoding_splits(self@, self@.header());
        }
        let body = slice_subrange(buf.as_slice(), 2, buf.len());
        fletcher16_verify(body)
    }

    /// Appends the advertisement's bytes to `buf`.
    pub fn encode_into(&self, buf: &mut Vec<u8>)
        ensures
            final(buf)@ == old(buf)@ + self@.encoding(),
    {
        match self {
            Lsa::LsaRouter(lsa) => lsa.encode_into(buf),
            Lsa::LsaNetwork(lsa) => lsa.encode_into(buf),
            Lsa::LsaSumnet(lsa) => lsa.encode_into(buf),
            Lsa::LsaSumasb(lsa) => lsa.encode_into(buf),
            Lsa::LsaAsexternal(lsa) => lsa.encode_into(buf),
        }
    }

    /// The bytes on the wire.
    pub fn encode(&self) -> (bytes: Vec<u8>)
        ensures
            bytes@ == self@.encoding(),
    {
        match self {
            Lsa::LsaRouter(lsa) => lsa.encode(),
            Lsa::LsaNetwork(lsa) => lsa.encode(),
            Lsa::LsaSumnet(lsa) => lsa.encode(),
            Lsa::LsaSumasb(lsa) => lsa.encode(),
            Lsa::LsaAsexternal(lsa) => lsa.encode(),
        }
    }
}

/// The bytes of an advertisement are the 20 bytes of its header and then
/// bytes that do not depend on the header.
pub proof fn lemma_encoding_splits(l: LsaModel, h: LsaHeader)
    ensures
        h.encoding().len() == 20,
        l.encoding().len() >= 20,
        l.with_header(h).encoding() == h.encoding() + l.encoding().skip(20),
        l.with_header(h).encoding().len() == l.encoding().len(),
        l.with_header(h).header() == h,
        l.with_header(l.header()) == l,
{
    assert(l.header().encoding().len() == 20);
    assert(l.with_header(h).encoding() =~= h.encoding() + l.encoding().skip(20));
}

/// Sealing an advertisement changes its header only, and there only the
/// length and the checksum: the length becomes that of its bytes, which
/// stays as it was.
pub proof fn lemma_sealed(l: LsaModel)
    ensures
        l.sealed() == l.with_header(l.sealed().header()),
        l.sealed().encoding().len() == l.encoding().len(),
        l.sealed().header() == (LsaHeader {
            length: l.encoding().len() as u16,
            checksum: l.sealed().header().checksum,
            ..l.header()
        }),
{
    let w = l.with_length();
    let h = LsaHeader { checksum: fletcher16(w.encoding().skip(2), 14), ..w.header() };
    lemma_encoding_splits(l, LsaHeader { length: l.encoding().len() as u16, ..l.header() });
    lemma_encoding_splits(w, h);
    assert(w.with_header(h) == l.with_header(h));
}

/// Swapping two instances of one advertisement swaps "newer" and "older",
/// and an instance is the same as itself.
pub proof fn lemma_freshness_antisymmetric(a: LsaModel, b: LsaModel)
    requires
        a.header().same_identity(b.header()),
    ensures
        a.header().freshness(b.header()) == LsaCmpResult::Newer <==> b.header().freshness(
            a.header(),
        ) == LsaCmpResult::Older,
        a.header().freshness(a.header()) == LsaCmpResult::Same,
{
}

} // verus!
