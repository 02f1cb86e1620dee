//! Reading packets from bytes.

use vstd::prelude::*;
use vstd::slice::slice_subrange;
use crate::lsa::{u32_list_encoding, Lsa, LsaHeader, LsaModel};
use crate::lsa_parse::{lemma_header_written, lemma_parsed_lsa, lemma_subrange_join,
    lemma_u32_list_written, lemma_header_len, parse_u32_list, lemma_header_round_trip, lemma_parse_encoded, lemma_subrange_concat,
    lemma_u32_list_len, lemma_u32_list_round_trip, header_at, parse_lsa, read_header, read_u32_list};
use crate::packets::{headers_encoding, lsas_encoding, requests_encoding, lsa_models, DBDescription, DbdModel, Header, Hello, HelloModel,
    LinkStateAcknowledgment, LinkStateRequest, LinkStateRequestItem, LinkStateUpdate, LsackModel,
    LsrModel, LsuModel, OSPFPacket, PacketModel, OSPF_VERSION, PACKET_DBD, PACKET_HELLO,
    PACKET_LSACK, PACKET_LSR, PACKET_LSU};
use crate::wire::{lemma_be16_write, lemma_be32_write, lemma_be64_write, be16, be32, be64, lemma_be16_read, lemma_be32_read, lemma_be64_read, get_u16, get_u32, get_u64, u16_at, u32_at, u64_at, ParseError};

verus! {

/// The packet header whose 24 bytes stand at `s[i ..]`.
pub open spec fn packet_header_at(s: Seq<u8>, i: int) -> Header {
    Header {
        version: s[i],
        packet_type: s[i + 1],
        packet_length: u16_at(s, i + 2),
        router_id: u32_at(s, i + 4),
        area_id: u32_at(s, i + 8),
        checksum: u16_at(s, i + 12),
        auth_type: u16_at(s, i + 14),
        auth: u64_at(s, i + 16),
    }
}

/// The `n` advertisement headers that stand at `s[pos ..]`, 20 bytes each.
pub open spec fn headers_at(s: Seq<u8>, pos: int, n: nat) -> Seq<LsaHeader> {
    Seq::new(n, |k: int| header_at(s, pos + 20 * k))
}

/// The request whose 12 bytes stand at `s[i ..]`.
pub open spec fn request_at(s: Seq<u8>, i: int) -> LinkStateRequestItem {
    LinkStateRequestItem {
        link_state_type: u32_at(s, i),
        link_state_id: u32_at(s, i + 4),
        advertising_router: u32_at(s, i + 8),
    }
}

/// The `n` requests that stand at `s[pos ..]`, 12 bytes each.
pub open spec fn requests_at(s: Seq<u8>, pos: int, n: nat) -> Seq<LinkStateRequestItem> {
    Seq::new(n, |k: int| request_at(s, pos + 12 * k))
}

/// Reads `n` advertisements at `pos`, one after the other.
pub open spec fn parse_lsas(s: Seq<u8>, pos: int, n: nat) -> Result<
    (Seq<LsaModel>, int),
    ParseError,
>
    decreases n,
{
    if n == 0 {
        Ok((Seq::empty(), pos))
    } else {
        match parse_lsas(s, pos, (n - 1) as nat) {
            Err(e) => Err(e),
            Ok((lsas, p)) => match parse_lsa(s, p) {
                Err(e) => Err(e),
                Ok((lsa, q)) => Ok((lsas.push(lsa), q)),
            },
        }
    }
}

/// Reads a Hello packet: 44 fixed bytes, then as many neighbors as the rest
/// of the bytes hold whole.
pub open spec fn parse_hello(s: Seq<u8>) -> Result<(HelloModel, int), ParseError> {
    if s.len() < 44 {
        Err(ParseError::Short)
    } else {
        let n = ((s.len() - 44) / 4) as nat;
        Ok(
            (
                HelloModel {
                    header: packet_header_at(s, 0),
                    network_mask: u32_at(s, 24),
                    hello_interval: u16_at(s, 28),
                    options: s[30],
                    router_priority: s[31],
                    router_dead_interval: u32_at(s, 32),
                    designated_router: u32_at(s, 36),
                    backup_designated_router: u32_at(s, 40),
                    neighbors: Seq::new(n, |k: int| u32_at(s, 44 + 4 * k)),
                },
                (44 + 4 * n) as int,
            ),
        )
    }
}

/// Reads a Database Description packet: 32 fixed bytes, then as many
/// advertisement headers as the rest of the bytes hold whole.
pub open spec fn parse_dbd(s: Seq<u8>) -> Result<(DbdModel, int), ParseError> {
    if s.len() < 32 {
        Err(ParseError::Short)
    } else {
        let n = ((s.len() - 32) / 20) as nat;
        Ok(
            (
                DbdModel {
                    header: packet_header_at(s, 0),
                    interface_mtu: u16_at(s, 24),
                    options: s[26],
                    flags: s[27],
                    dbd_seq_num: u32_at(s, 28),
                    lsa_hdrs: headers_at(s, 32, n),
                },
                (32 + 20 * n) as int,
            ),
        )
    }
}

/// Reads a Link State Request packet: the header, then as many requests as
/// the rest of the bytes hold whole.
pub open spec fn parse_lsr(s: Seq<u8>) -> Result<(LsrModel, int), ParseError> {
    if s.len() < 24 {
        Err(ParseError::Short)
    } else {
        let n = ((s.len() - 24) / 12) as nat;
        Ok(
            (
                LsrModel { header: packet_header_at(s, 0), requests: requests_at(s, 24, n) },
                (24 + 12 * n) as int,
            ),
        )
    }
}

/// Reads a Link State Update packet: the header, the number of
/// advertisements, and that many advertisements.
pub open spec fn parse_lsu(s: Seq<u8>) -> Result<(LsuModel, int), ParseError> {
    if s.len() < 28 {
        Err(ParseError::Short)
    } else {
        match parse_lsas(s, 28, u32_at(s, 24) as nat) {
            Err(e) => Err(e),
            Ok((lsas, end)) => Ok(
                (LsuModel { header: packet_header_at(s, 0), num_lsa: u32_at(s, 24), lsas }, end),
            ),
        }
    }
}

/// Reads a Link State Acknowledgment packet: the header, then as many
/// advertisement headers as the rest of the bytes hold whole.
pub open spec fn parse_lsack(s: Seq<u8>) -> Result<(LsackModel, int), ParseError> {
    if s.len() < 24 {
        Err(ParseError::Short)
    } else {
        let n = ((s.len() - 24) / 20) as nat;
        Ok(
            (
                LsackModel { header: packet_header_at(s, 0), lsas: headers_at(s, 24, n) },
                (24 + 20 * n) as int,
            ),
        )
    }
}

/// Reads one packet from the front of `s`: the packet and the number of
/// bytes it took. Fewer than two bytes are `Short`; a version byte other than
/// 2, or a type byte outside `1 ..= 5`, is rejected with `Tag`.
pub open spec fn parse_packet(s: Seq<u8>) -> Result<(PacketModel, int), ParseError> {
    if s.len() < 2 {
        Err(ParseError::Short)
    } else if s[0] != OSPF_VERSION {
        Err(ParseError::Tag)
    } else if s[1] == PACKET_HELLO {
        match parse_hello(s) {
            Ok((p, end)) => Ok((PacketModel::Hello(p), end)),
            Err(e) => Err(e),
        }
    } else if s[1] == PACKET_DBD {
        match parse_dbd(s) {
            Ok((p, end)) => Ok((PacketModel::Dbd(p), end)),
            Err(e) => Err(e),
        }
    } else if s[1] == PACKET_LSR {
        match parse_lsr(s) {
            Ok((p, end)) => Ok((PacketModel::Lsr(p), end)),
            Err(e) => Err(e),
        }
    } else if s[1] == PACKET_LSU {
        match parse_lsu(s) {
            Ok((p, end)) => Ok((PacketModel::Lsu(p), end)),
            Err(e) => Err(e),
        }
    } else if s[1] == PACKET_LSACK {
        match parse_lsack(s) {
            Ok((p, end)) => Ok((PacketModel::Lsack(p), end)),
            Err(e) => Err(e),
        }
    } else {
        Err(ParseError::Tag)
    }
}

/// Reads the packet header at the front of `input`.
pub fn read_packet_header(input: &[u8]) -> (h: Header)
    requires
        24 <= input@.len(),
    ensures
        h == packet_header_at(input@, 0),
{
    Header {
        version: input[0],
        packet_type: input[1],
        packet_length: get_u16(input, 2),
        router_id: get_u32(input, 4),
        area_id: get_u32(input, 8),
        checksum: get_u16(input, 12),
        auth_type: get_u16(input, 14),
        auth: get_u64(input, 16),
    }
}

/// Reads `n` advertisement headers at `pos`.
pub fn read_headers(input: &[u8], pos: usize, n: usize) -> (list: Vec<LsaHeader>)
    requires
        pos + 20 * n <= input@.len(),
    ensures
        list@ == headers_at(input@, pos as int, n as nat),
{
    assert(input.len() == input@.len());
    let mut list: Vec<LsaHeader> = Vec::new();
    let mut k: usize = 0;
    while k < n
        invariant
            k <= n,
            pos + 20 * n <= input@.len(),
            input@.len() <= usize::MAX,
            list@ == headers_at(input@, pos as int, k as nat),
        decreases n - k,
    {
        list.push(read_header(input, pos + 20 * k));
        k += 1;
        assert(list@ =~= headers_at(input@, pos as int, k as nat));
    }
    list
}

/// Reads `n` requests at `pos`.
pub fn read_requests(input: &[u8], pos: usize, n: usize) -> (list: Vec<LinkStateRequestItem>)
    requires
        pos + 12 * n <= input@.len(),
    ensures
        list@ == requests_at(input@, pos as int, n as nat),
{
    assert(input.len() == input@.len());
    let mut list: Vec<LinkStateRequestItem> = Vec::new();
    let mut k: usize = 0;
    while k < n
        invariant
            k <= n,
            pos + 12 * n <= input@.len(),
            input@.len() <= usize::MAX,
            list@ == requests_at(input@, pos as int, k as nat),
        decreases n - k,
    {
        let at = pos + 12 * k;
        list.push(
            LinkStateRequestItem {
                link_state_type: get_u32(input, at),
                link_state_id: get_u32(input, at + 4),
                advertising_router: get_u32(input, at + 8),
            },
        );
        k += 1;
        assert(list@ =~= requests_at(input@, pos as int, k as nat));
    }
    list
}

/// Once reading a number of advertisements has failed, reading more of them
/// fails in the same way.
pub proof fn lemma_parse_lsas_fails(s: Seq<u8>, pos: int, k: nat, n: nat)
    requires
        k <= n,
        parse_lsas(s, pos, k) is Err,
    ensures
        parse_lsas(s, pos, n) == parse_lsas(s, pos, k),
    decreases n,
{
    if k < n {
        lemma_parse_lsas_fails(s, pos, k, (n - 1) as nat);
    }
}

/// Reads `n` advertisements at `pos`.
pub fn read_lsas(input: &[u8], pos: usize, n: usize) -> (r: Result<(Vec<Lsa>, usize), ParseError>)
    requires
        pos <= input@.len(),
    ensures
        match r {
            Ok((lsas, end)) => parse_lsas(input@, pos as int, n as nat) == Ok::<
                (Seq<LsaModel>, int),
                ParseError,
            >((lsa_models(lsas@), end as int)) && end <= input@.len(),
            Err(e) => parse_lsas(input@, pos as int, n as nat) == Err::<
                (Seq<LsaModel>, int),
                ParseError,
            >(e),
        },
{
    let mut lsas: Vec<Lsa> = Vec::new();
    let mut at: usize = pos;
    let mut k: usize = 0;
    assert(lsa_models(lsas@) =~= Seq::<LsaModel>::empty());
    while k < n
        invariant
            k <= n,
            at <= input@.len(),
            parse_lsas(input@, pos as int, k as nat) == Ok::<(Seq<LsaModel>, int), ParseError>(
                (lsa_models(lsas@), at as int),
            ),
        decreases n - k,
    {
        let ghost before = lsa_models(lsas@);
        match Lsa::parse_at(input, at) {
            Err(e) => {
                proof {
                    assert(parse_lsas(input@, pos as int, (k + 1) as nat) == Err::<
                        (Seq<LsaModel>, int),
                        ParseError,
                    >(e));
                    lemma_parse_lsas_fails(input@, pos as int, (k + 1) as nat, n as nat);
                }
                return Err(e);
            },
            Ok((lsa, end)) => {
                lsas.push(lsa);
                at = end;
                assert(lsa_models(lsas@) =~= before.push(lsa@));
            },
        }
        k += 1;
    }
    Ok((lsas, at))
}

impl Hello {
    /// Reads a Hello packet that fills `input`: the packet and the number of
    /// bytes it took.
    pub fn parse_from(input: &[u8]) -> (r: Result<(Hello, usize), ParseError>)
        ensures
            match r {
                Ok((p, end)) => parse_hello(input@) == Ok::<(HelloModel, int), ParseError>(
                    (p@, end as int),
                ) && end <= input@.len(),
                Err(e) => parse_hello(input@) == Err::<(HelloModel, int), ParseError>(e),
            },
    {
        let len = input.len();
        if len < 44 {
            return Err(ParseError::Short);
        }
        let n = (len - 44) / 4;
        match read_u32_list(input, 44, n) {
            Err(e) => Err(e),
            Ok((neighbors, end)) => Ok(
                (
                    Hello {
                        header: read_packet_header(input),
                        network_mask: get_u32(input, 24),
                        hello_interval: get_u16(input, 28),
                        options: input[30],
                        router_priority: input[31],
                        router_dead_interval: get_u32(input, 32),
                        designated_router: get_u32(input, 36),
                        backup_designated_router: get_u32(input, 40),
                        neighbors,
                    },
                    end,
                ),
            ),
        }
    }
}

impl DBDescription {
    /// Reads a Database Description packet that fills `input`.
    pub fn parse_from(input: &[u8]) -> (r: Result<(DBDescription, usize), ParseError>)
        ensures
            match r {
                Ok((p, end)) => parse_dbd(input@) == Ok::<(DbdModel, int), ParseError>(
                    (p@, end as int),
                ) && end <= input@.len(),
                Err(e) => parse_dbd(input@) == Err::<(DbdModel, int), ParseError>(e),
            },
    {
        let len = input.len();
        if len < 32 {
            return Err(ParseError::Short);
        }
        let n = (len - 32) / 20;
        Ok(
            (
                DBDescription {
                    header: read_packet_header(input),
                    interface_mtu: get_u16(input, 24),
                    options: input[26],
                    flags: input[27],
                    dbd_seq_num: get_u32(input, 28),
                    lsa_hdrs: read_headers(input, 32, n),
                },
                32 + 20 * n,
            ),
        )
    }
}

impl LinkStateRequest {
    /// Reads a Link State Request packet that fills `input`.
    pub fn parse_from(input: &[u8]) -> (r: Result<(LinkStateRequest, usize), ParseError>)
        ensures
            match r {
                Ok((p, end)) => parse_lsr(input@) == Ok::<(LsrModel, int), ParseError>(
                    (p@, end as int),
                ) && end <= input@.len(),
                Err(e) => parse_lsr(input@) == Err::<(LsrModel, int), ParseError>(e),
            },
    {
        let len = input.len();
        if len < 24 {
            return Err(ParseError::Short);
        }
        let n = (len - 24) / 12;
        Ok(
            (
                LinkStateRequest {
                    header: read_packet_header(input),
                    requests: read_requests(input, 24, n),
                },
                24 + 12 * n,
            ),
        )
    }
}

impl LinkStateUpdate {
    /// Reads a Link State Update packet from the front of `input`.
    pub fn parse_from(input: &[u8]) -> (r: Result<(LinkStateUpdate, usize), ParseError>)
        ensures
            match r {
                Ok((p, end)) => parse_lsu(input@) == Ok::<(LsuModel, int), ParseError>(
                    (p@, end as int),
                ) && end <= input@.len(),
                Err(e) => parse_lsu(input@) == Err::<(LsuModel, int), ParseError>(e),
            },
    {
        let len = input.len();
        if len < 28 {
            return Err(ParseError::Short);
        }
        let num_lsa = get_u32(input, 24);
        match read_lsas(input, 28, num_lsa as usize) {
            Err(e) => Err(e),
            Ok((lsas, end)) => Ok(
                (LinkStateUpdate { header: read_packet_header(input), num_lsa, lsas }, end),
            ),
        }
    }
}

impl LinkStateAcknowledgment {
    /// Reads a Link State Acknowledgment packet that fills `input`.
    pub fn parse_from(input: &[u8]) -> (r: Result<(LinkStateAcknowledgment, usize), ParseError>)
        ensures
            match r {
                Ok((p, end)) => parse_lsack(input@) == Ok::<(LsackModel, int), ParseError>(
                    (p@, end as int),
                ) && end <= input@.len(),
                Err(e) => parse_lsack(input@) == Err::<(LsackModel, int), ParseError>(e),
            },
    {
        let len = input.len();
        if len < 24 {
            return Err(ParseError::Short);
        }
        let n = (len - 24) / 20;
        Ok(
            (
                LinkStateAcknowledgment {
                    header: read_packet_header(input),
                    lsas: read_headers(input, 24, n),
                },
                24 + 20 * n,
            ),
        )
    }
}

impl OSPFPacket {
    /// Reads one packet from the front of `input`: the bytes that follow it,
    /// and the packet.
    pub fn parse(input: &[u8]) -> (r: Result<(&[u8], OSPFPacket), ParseError>)
        ensures
            match r {
                Ok((rest, p)) => parse_packet(input@) == Ok::<(PacketModel, int), ParseError>(
                    (p@, input@.len() - rest@.len()),
                ) && rest@ == input@.skip(input@.len() - rest@.len()),
                Err(e) => parse_packet(input@) == Err::<(PacketModel, int), ParseError>(e),
            },
    {
        let len = input.len();
        if len < 2 {
            return Err(ParseError::Short);
        }
        if input[0] != OSPF_VERSION {
            return Err(ParseError::Tag);
        }
        let kind = input[1];
        let parsed: Result<(OSPFPacket, usize), ParseError> = if kind == PACKET_HELLO {
            match Hello::parse_from(input) {
                Ok((p, end)) => Ok((OSPFPacket::Hello(p), end)),
                Err(e) => Err(e),
            }
        } else if kind == PACKET_DBD {
            match DBDescription::parse_from(input) {
                Ok((p, end)) => Ok((OSPFPacket::DBDescription(p), end)),
                Err(e) => Err(e),
            }
        } else if kind == PACKET_LSR {
            match LinkStateRequest::parse_from(input) {
                Ok((p, end)) => Ok((OSPFPacket::LinkStateRequest(p), end)),
                Err(e) => Err(e),
            }
        } else if kind == PACKET_LSU {
            match LinkStateUpdate::parse_from(input) {
                Ok((p, end)) => Ok((OSPFPacket::LinkStateUpdate(p), end)),
                Err(e) => Err(e),
            }
        } else if kind == PACKET_LSACK {
            match LinkStateAcknowledgment::parse_from(input) {
                Ok((p, end)) => Ok((OSPFPacket::LinkStateAcknowledgment(p), end)),
                Err(e) => Err(e),
            }
        } else {
            Err(ParseError::Tag)
        };
        match parsed {
            Ok((p, end)) => {
                let rest = slice_subrange(input, end, len);
                assert(rest@ =~= input@.skip(end as int));
                Ok((rest, p))
            },
            Err(e) => Err(e),
        }
    }
}

/// Reading the bytes of a packet header gives the header.
#[verifier::rlimit(40)]
pub proof fn lemma_packet_header_round_trip(h: Header, body: Seq<u8>, s: Seq<u8>)
    requires
        s == h.encoding() + body,
    ensures
        h.encoding().len() == 24,
        packet_header_at(s, 0) == h,
        s.subrange(24, s.len() as int) == body,
        s[0] == h.version,
        s[1] == h.packet_type,
{
    let e = h.encoding();
    assert(e.len() == 24);
    assert(s.subrange(0, 24) =~= e);
    assert(s.subrange(24, s.len() as int) =~= body);
    assert(s.len() == 24 + body.len());
    let kinds = seq![h.version, h.packet_type];
    let a = kinds + be16(h.packet_length);
    let b = a + be32(h.router_id);
    let c = b + be32(h.area_id);
    let d = c + be16(h.checksum);
    let f = d + be16(h.auth_type);
    assert(e == f + be64(h.auth));
    lemma_subrange_concat(s, 0, f, be64(h.auth));
    lemma_subrange_concat(s, 0, d, be16(h.auth_type));
    lemma_subrange_concat(s, 0, c, be16(h.checksum));
    lemma_subrange_concat(s, 0, b, be32(h.area_id));
    lemma_subrange_concat(s, 0, a, be32(h.router_id));
    lemma_subrange_concat(s, 0, kinds, be16(h.packet_length));
    lemma_be16_read(h.packet_length, s, 2);
    lemma_be32_read(h.router_id, s, 4);
    lemma_be32_read(h.area_id, s, 8);
    lemma_be16_read(h.checksum, s, 12);
    lemma_be16_read(h.auth_type, s, 14);
    lemma_be64_read(h.auth, s, 16);
    assert(s.subrange(0, 2)[0] == s[0] && s.subrange(0, 2)[1] == s[1]);
}

/// A list of headers takes 20 bytes for each header.
pub proof fn lemma_headers_len(list: Seq<LsaHeader>)
    ensures
        headers_encoding(list).len() == 20 * list.len(),
    decreases list.len(),
{
    if list.len() > 0 {
        lemma_headers_len(list.drop_last());
        lemma_header_len(list.last());
    }
}

/// Reading the bytes of a list of headers gives the list.
pub proof fn lemma_headers_round_trip(list: Seq<LsaHeader>, s: Seq<u8>, pos: int)
    requires
        0 <= pos,
        pos + 20 * list.len() <= s.len(),
        s.subrange(pos, pos + 20 * list.len()) == headers_encoding(list),
    ensures
        headers_at(s, pos, list.len()) == list,
    decreases list.len(),
{
    let n = list.len();
    if n > 0 {
        let init = list.drop_last();
        lemma_headers_len(init);
        lemma_header_len(list.last());
        lemma_subrange_concat(s, pos, headers_encoding(init), list.last().encoding());
        lemma_headers_round_trip(init, s, pos);
        lemma_header_round_trip(list.last(), s, pos + 20 * (n - 1));
        assert forall|k: int| 0 <= k < n implies headers_at(s, pos, n)[k] == list[k] by {
            if k < n - 1 {
                assert(headers_at(s, pos, (n - 1) as nat)[k] == init[k]);
            }
        }
    }
    assert(headers_at(s, pos, n) =~= list);
}

/// A list of requests takes 12 bytes for each request.
pub proof fn lemma_requests_len(list: Seq<LinkStateRequestItem>)
    ensures
        requests_encoding(list).len() == 12 * list.len(),
    decreases list.len(),
{
    if list.len() > 0 {
        lemma_requests_len(list.drop_last());
    }
}

/// Reading the bytes of a list of requests gives the list.
#[verifier::rlimit(40)]
pub proof fn lemma_requests_round_trip(list: Seq<LinkStateRequestItem>, s: Seq<u8>, pos: int)
    requires
        0 <= pos,
        pos + 12 * list.len() <= s.len(),
        s.subrange(pos, pos + 12 * list.len()) == requests_encoding(list),
    ensures
        requests_at(s, pos, list.len()) == list,
    decreases list.len(),
{
    let n = list.len();
    if n > 0 {
        let init = list.drop_last();
        let last = list.last();
        lemma_requests_len(init);
        lemma_subrange_concat(s, pos, requests_encoding(init), last.encoding());
        lemma_requests_round_trip(init, s, pos);
        let at = pos + 12 * (n - 1);
        let ab = be32(last.link_state_type) + be32(last.link_state_id);
        lemma_subrange_concat(s, at, ab, be32(last.advertising_router));
        lemma_subrange_concat(s, at, be32(last.link_state_type), be32(last.link_state_id));
        lemma_be32_read(last.link_state_type, s, at);
        lemma_be32_read(last.link_state_id, s, at + 4);
        lemma_be32_read(last.advertising_router, s, at + 8);
        assert forall|k: int| 0 <= k < n implies requests_at(s, pos, n)[k] == list[k] by {
            if k < n - 1 {
                assert(requests_at(s, pos, (n - 1) as nat)[k] == init[k]);
            }
        }
    }
    assert(requests_at(s, pos, n) =~= list);
}

/// Reading the bytes of a list of well-formed advertisements gives the
/// list.
pub proof fn lemma_lsas_round_trip(list: Seq<LsaModel>, s: Seq<u8>, pos: int)
    requires
        forall|i: int| 0 <= i < list.len() ==> (#[trigger] list[i]).wf(),
        0 <= pos,
        pos + lsas_encoding(list).len() <= s.len(),
        s.subrange(pos, pos + lsas_encoding(list).len()) == lsas_encoding(list),
    ensures
        parse_lsas(s, pos, list.len()) == Ok::<(Seq<LsaModel>, int), ParseError>(
            (list, pos + lsas_encoding(list).len()),
        ),
    decreases list.len(),
{
    if list.len() > 0 {
        let init = list.drop_last();
        let last = list.last();
        assert(last.wf());
        assert forall|i: int| 0 <= i < init.len() implies (#[trigger] init[i]).wf() by {
            assert(init[i] == list[i]);
        }
        lemma_subrange_concat(s, pos, lsas_encoding(init), last.encoding());
        lemma_lsas_round_trip(init, s, pos);
        lemma_parse_encoded(last, s, pos + lsas_encoding(init).len());
        assert(init.push(last) =~= list);
    } else {
        assert(list =~= Seq::<LsaModel>::empty());
    }
}

/// Where the fixed fields of a Hello packet stand at byte 24 of `s`, they
/// are read back from there.
#[verifier::rlimit(40)]
pub proof fn lemma_hello_fixed(p: HelloModel, s: Seq<u8>)
    requires
        44 <= s.len(),
        s.subrange(24, 44) == p.fixed_encoding(),
    ensures
        u32_at(s, 24) == p.network_mask,
        u16_at(s, 28) == p.hello_interval,
        s[30] == p.options,
        s[31] == p.router_priority,
        u32_at(s, 32) == p.router_dead_interval,
        u32_at(s, 36) == p.designated_router,
        u32_at(s, 40) == p.backup_designated_router,
{
    let kinds = seq![p.options, p.router_priority];
    let a = be32(p.network_mask) + be16(p.hello_interval);
    let b = a + kinds;
    let c = b + be32(p.router_dead_interval);
    let d = c + be32(p.designated_router);
    assert(p.fixed_encoding() == d + be32(p.backup_designated_router));
    lemma_subrange_concat(s, 24, d, be32(p.backup_designated_router));
    lemma_subrange_concat(s, 24, c, be32(p.designated_router));
    lemma_subrange_concat(s, 24, b, be32(p.router_dead_interval));
    lemma_subrange_concat(s, 24, a, kinds);
    lemma_subrange_concat(s, 24, be32(p.network_mask), be16(p.hello_interval));
    lemma_be32_read(p.network_mask, s, 24);
    lemma_be16_read(p.hello_interval, s, 28);
    lemma_be32_read(p.router_dead_interval, s, 32);
    lemma_be32_read(p.designated_router, s, 36);
    lemma_be32_read(p.backup_designated_router, s, 40);
    assert(s.subrange(30, 32)[0] == s[30] && s.subrange(30, 32)[1] == s[31]);
}

/// The neighbors that are read from a Hello packet are the values that are
/// read one after the other from byte 44 on.
pub proof fn lemma_hello_neighbors(s: Seq<u8>, list: Seq<u32>)
    requires
        s.len() == 44 + 4 * list.len(),
        parse_u32_list(s, 44, list.len()) == Ok::<(Seq<u32>, int), ParseError>(
            (list, s.len() as int),
        ),
    ensures
        Seq::new(((s.len() - 44) / 4) as nat, |k: int| u32_at(s, 44 + 4 * k)) == list,
{
    let n = ((s.len() - 44) / 4) as nat;
    assert(n == list.len());
    assert(Seq::new(n, |k: int| u32_at(s, 44 + 4 * k)) =~= list);
}

/// Reading the bytes of a Hello packet gives the packet.
#[verifier::rlimit(40)]
pub proof fn lemma_hello_round_trip(p: HelloModel)
    ensures
        parse_hello(p.encoding()) == Ok::<(HelloModel, int), ParseError>(
            (p, p.encoding().len() as int),
        ),
        p.encoding()[0] == p.header.version,
        p.encoding()[1] == p.header.packet_type,
{
    let s = p.encoding();
    let tail = u32_list_encoding(p.neighbors);
    let body = p.fixed_encoding() + tail;
    lemma_concat_assoc(p.header.encoding(), p.fixed_encoding(), tail);
    assert(s == p.header.encoding() + body);
    lemma_packet_header_round_trip(p.header, body, s);
    lemma_u32_list_len(p.neighbors);
    assert(p.fixed_encoding().len() == 20);
    lemma_subrange_concat(s, 24, p.fixed_encoding(), tail);
    lemma_hello_fixed(p, s);
    lemma_u32_list_round_trip(p.neighbors, s, 44);
    lemma_hello_neighbors(s, p.neighbors);
}

/// Joining three byte strings is the same in either grouping.
pub proof fn lemma_concat_assoc(a: Seq<u8>, b: Seq<u8>, c: Seq<u8>)
    ensures
        (a + b) + c == a + (b + c),
{
    assert((a + b) + c =~= a + (b + c));
}

/// Where the fixed fields of a Database Description packet stand at byte 24
/// of `s`, they are read back from there.
pub proof fn lemma_dbd_fixed(p: DbdModel, s: Seq<u8>)
    requires
        32 <= s.len(),
        s.subrange(24, 32) == be16(p.interface_mtu) + seq![p.options, p.flags] + be32(
            p.dbd_seq_num,
        ),
    ensures
        u16_at(s, 24) == p.interface_mtu,
        s[26] == p.options,
        s[27] == p.flags,
        u32_at(s, 28) == p.dbd_seq_num,
{
    let kinds = seq![p.options, p.flags];
    let a = be16(p.interface_mtu) + kinds;
    lemma_subrange_concat(s, 24, a, be32(p.dbd_seq_num));
    lemma_subrange_concat(s, 24, be16(p.interface_mtu), kinds);
    lemma_be16_read(p.interface_mtu, s, 24);
    lemma_be32_read(p.dbd_seq_num, s, 28);
    assert(s.subrange(26, 28)[0] == s[26] && s.subrange(26, 28)[1] == s[27]);
}

/// A Database Description packet is what is read from bytes that hold its
/// header, its fixed fields and its headers at their places.
pub proof fn lemma_dbd_assembled(p: DbdModel, s: Seq<u8>)
    requires
        s.len() == 32 + 20 * p.lsa_hdrs.len(),
        packet_header_at(s, 0) == p.header,
        u16_at(s, 24) == p.interface_mtu,
        s[26] == p.options,
        s[27] == p.flags,
        u32_at(s, 28) == p.dbd_seq_num,
        headers_at(s, 32, p.lsa_hdrs.len()) == p.lsa_hdrs,
    ensures
        parse_dbd(s) == Ok::<(DbdModel, int), ParseError>((p, s.len() as int)),
{
    assert(((s.len() - 32) / 20) as nat == p.lsa_hdrs.len());
}

/// Reading the bytes of a Database Description packet gives the packet.
#[verifier::rlimit(40)]
pub proof fn lemma_dbd_round_trip(p: DbdModel)
    ensures
        parse_dbd(p.encoding()) == Ok::<(DbdModel, int), ParseError>(
            (p, p.encoding().len() as int),
        ),
        p.encoding()[0] == p.header.version,
        p.encoding()[1] == p.header.packet_type,
{
    let s = p.encoding();
    let h = p.header.encoding();
    let tail = headers_encoding(p.lsa_hdrs);
    let kinds = seq![p.options, p.flags];
    let m = be16(p.interface_mtu);
    let q = be32(p.dbd_seq_num);
    let fixed = m + kinds + q;
    let body = fixed + tail;
    lemma_concat_assoc(h, m, kinds);
    lemma_concat_assoc(h, m + kinds, q);
    lemma_concat_assoc(h, fixed, tail);
    assert(s == h + body);
    lemma_packet_header_round_trip(p.header, body, s);
    lemma_headers_len(p.lsa_hdrs);
    assert(fixed.len() == 8);
    lemma_subrange_concat(s, 24, fixed, tail);
    lemma_dbd_fixed(p, s);
    lemma_headers_round_trip(p.lsa_hdrs, s, 32);
    lemma_dbd_assembled(p, s);
}

/// Reading the bytes of a Link State Request packet gives the packet.
pub proof fn lemma_lsr_round_trip(p: LsrModel)
    ensures
        parse_lsr(p.encoding()) == Ok::<(LsrModel, int), ParseError>(
            (p, p.encoding().len() as int),
        ),
        p.encoding()[0] == p.header.version,
        p.encoding()[1] == p.header.packet_type,
{
    let s = p.encoding();
    let body = requests_encoding(p.requests);
    lemma_packet_header_round_trip(p.header, body, s);
    lemma_requests_len(p.requests);
    lemma_requests_round_trip(p.requests, s, 24);
}

/// Reading the bytes of a Link State Update packet that holds as many
/// advertisements as it says, all well-formed, gives the packet.
pub proof fn lemma_lsu_round_trip(p: LsuModel)
    requires
        p.num_lsa == p.lsas.len(),
        forall|i: int| 0 <= i < p.lsas.len() ==> (#[trigger] p.lsas[i]).wf(),
    ensures
        parse_lsu(p.encoding()) == Ok::<(LsuModel, int), ParseError>(
            (p, p.encoding().len() as int),
        ),
        p.encoding()[0] == p.header.version,
        p.encoding()[1] == p.header.packet_type,
{
    let s = p.encoding();
    let tail = lsas_encoding(p.lsas);
    let body = be32(p.num_lsa) + tail;
    lemma_concat_assoc(p.header.encoding(), be32(p.num_lsa), tail);
    assert(s == p.header.encoding() + body);
    lemma_packet_header_round_trip(p.header, body, s);
    lemma_subrange_concat(s, 24, be32(p.num_lsa), tail);
    lemma_be32_read(p.num_lsa, s, 24);
    lemma_lsas_round_trip(p.lsas, s, 28);
}

/// Reading the bytes of a Link State Acknowledgment packet gives the
/// packet.
pub proof fn lemma_lsack_round_trip(p: LsackModel)
    ensures
        parse_lsack(p.encoding()) == Ok::<(LsackModel, int), ParseError>(
            (p, p.encoding().len() as int),
        ),
        p.encoding()[0] == p.header.version,
        p.encoding()[1] == p.header.packet_type,
{
    let s = p.encoding();
    let body = headers_encoding(p.lsas);
    lemma_packet_header_round_trip(p.header, body, s);
    lemma_headers_len(p.lsas);
    lemma_headers_round_trip(p.lsas, s, 24);
}

/// Parsing the bytes of a well-formed packet gives the packet back and
/// leaves no byte over.
pub proof fn lemma_packet_round_trip(p: PacketModel)
    requires
        p.wf(),
    ensures
        parse_packet(p.encoding()) == Ok::<(PacketModel, int), ParseError>(
            (p, p.encoding().len() as int),
        ),
{
    match p {
        PacketModel::Hello(h) => {
            lemma_hello_round_trip(h);
        },
        PacketModel::Dbd(d) => {
            lemma_dbd_round_trip(d);
        },
        PacketModel::Lsr(r) => {
            lemma_lsr_round_trip(r);
        },
        PacketModel::Lsu(u) => {
            lemma_lsu_round_trip(u);
        },
        PacketModel::Lsack(a) => {
            lemma_lsack_round_trip(a);
        },
    }
}

/// The packet header read at the front of `s` encodes to the 24 bytes it
/// was read from.
#[verifier::rlimit(40)]
pub proof fn lemma_packet_header_written(s: Seq<u8>)
    requires
        24 <= s.len(),
    ensures
        packet_header_at(s, 0).encoding() == s.subrange(0, 24),
{
    let h = packet_header_at(s, 0);
    lemma_be16_write(s, 2);
    lemma_be32_write(s, 4);
    lemma_be32_write(s, 8);
    lemma_be16_write(s, 12);
    lemma_be16_write(s, 14);
    lemma_be64_write(s, 16);
    assert(seq![h.version, h.packet_type] =~= s.subrange(0, 2));
    lemma_subrange_join(s, 0, 2, 4);
    lemma_subrange_join(s, 0, 4, 8);
    lemma_subrange_join(s, 0, 8, 12);
    lemma_subrange_join(s, 0, 12, 14);
    lemma_subrange_join(s, 0, 14, 16);
    lemma_subrange_join(s, 0, 16, 24);
}

/// The headers read at `pos` encode to the bytes they were read from.
pub proof fn lemma_headers_written(s: Seq<u8>, pos: int, n: nat)
    requires
        0 <= pos,
        pos + 20 * n <= s.len(),
    ensures
        headers_encoding(headers_at(s, pos, n)) == s.subrange(pos, pos + 20 * n),
    decreases n,
{
    let list = headers_at(s, pos, n);
    if n > 0 {
        assert(list.drop_last() =~= headers_at(s, pos, (n - 1) as nat));
        lemma_headers_written(s, pos, (n - 1) as nat);
        let at = pos + 20 * (n - 1);
        lemma_header_written(s, at);
        assert(list.last() == header_at(s, at));
        lemma_subrange_join(s, pos, at, at + 20);
    } else {
        assert(s.subrange(pos, pos) =~= Seq::<u8>::empty());
    }
}

/// The requests read at `pos` encode to the bytes they were read from.
pub proof fn lemma_requests_written(s: Seq<u8>, pos: int, n: nat)
    requires
        0 <= pos,
        pos + 12 * n <= s.len(),
    ensures
        requests_encoding(requests_at(s, pos, n)) == s.subrange(pos, pos + 12 * n),
    decreases n,
{
    let list = requests_at(s, pos, n);
    if n > 0 {
        assert(list.drop_last() =~= requests_at(s, pos, (n - 1) as nat));
        lemma_requests_written(s, pos, (n - 1) as nat);
        let at = pos + 12 * (n - 1);
        lemma_be32_write(s, at);
        lemma_be32_write(s, at + 4);
        lemma_be32_write(s, at + 8);
        assert(list.last() == request_at(s, at));
        lemma_subrange_join(s, at, at + 4, at + 8);
        lemma_subrange_join(s, at, at + 8, at + 12);
        lemma_subrange_join(s, pos, at, at + 12);
    } else {
        assert(s.subrange(pos, pos) =~= Seq::<u8>::empty());
    }
}

/// The advertisements that were read are as many as were asked for, each is
/// well-formed, and together they encode to the bytes they were read from.
pub proof fn lemma_lsas_written(s: Seq<u8>, pos: int, n: nat)
    requires
        0 <= pos <= s.len(),
        parse_lsas(s, pos, n) is Ok,
    ensures
        parse_lsas(s, pos, n)->Ok_0.0.len() == n,
        forall|i: int| 0 <= i < n ==> (#[trigger] parse_lsas(s, pos, n)->Ok_0.0[i]).wf(),
        pos <= parse_lsas(s, pos, n)->Ok_0.1 <= s.len(),
        lsas_encoding(parse_lsas(s, pos, n)->Ok_0.0) == s.subrange(
            pos,
            parse_lsas(s, pos, n)->Ok_0.1,
        ),
    decreases n,
{
    if n > 0 {
        let before = parse_lsas(s, pos, (n - 1) as nat);
        lemma_lsas_written(s, pos, (n - 1) as nat);
        let mid = before->Ok_0.1;
        lemma_parsed_lsa(s, mid);
        let lsas = parse_lsas(s, pos, n)->Ok_0.0;
        let end = parse_lsas(s, pos, n)->Ok_0.1;
        assert(lsas.drop_last() =~= before->Ok_0.0);
        assert forall|i: int| 0 <= i < n implies (#[trigger] lsas[i]).wf() by {
            if i < n - 1 {
                assert(lsas[i] == before->Ok_0.0[i]);
            }
        }
        lemma_subrange_join(s, pos, mid, end);
    } else {
        assert(s.subrange(pos, pos) =~= Seq::<u8>::empty());
    }
}

/// A Hello packet that was read encodes to the bytes it was read from.
#[verifier::rlimit(40)]
pub proof fn lemma_hello_written(s: Seq<u8>)
    requires
        parse_hello(s) is Ok,
    ensures
        0 <= parse_hello(s)->Ok_0.1 <= s.len(),
        parse_hello(s)->Ok_0.0.encoding() == s.subrange(0, parse_hello(s)->Ok_0.1),
{
    let p = parse_hello(s)->Ok_0.0;
    let end = parse_hello(s)->Ok_0.1;
    let n = ((s.len() - 44) / 4) as nat;
    lemma_packet_header_written(s);
    lemma_be32_write(s, 24);
    lemma_be16_write(s, 28);
    lemma_be32_write(s, 32);
    lemma_be32_write(s, 36);
    lemma_be32_write(s, 40);
    assert(seq![p.options, p.router_priority] =~= s.subrange(30, 32));
    lemma_subrange_join(s, 24, 28, 30);
    lemma_subrange_join(s, 24, 30, 32);
    lemma_subrange_join(s, 24, 32, 36);
    lemma_subrange_join(s, 24, 36, 40);
    lemma_subrange_join(s, 24, 40, 44);
    assert(p.fixed_encoding() == s.subrange(24, 44));
    lemma_u32_list_written(s, 44, n);
    assert(p.neighbors =~= Seq::new(n, |k: int| u32_at(s, 44 + 4 * k)));
    lemma_subrange_join(s, 0, 24, 44);
    lemma_subrange_join(s, 0, 44, end);
}

/// A Database Description packet that was read encodes to the bytes it was
/// read from.
#[verifier::rlimit(40)]
pub proof fn lemma_dbd_written(s: Seq<u8>)
    requires
        parse_dbd(s) is Ok,
    ensures
        0 <= parse_dbd(s)->Ok_0.1 <= s.len(),
        parse_dbd(s)->Ok_0.0.encoding() == s.subrange(0, parse_dbd(s)->Ok_0.1),
{
    let p = parse_dbd(s)->Ok_0.0;
    let end = parse_dbd(s)->Ok_0.1;
    let n = ((s.len() - 32) / 20) as nat;
    lemma_packet_header_written(s);
    lemma_be16_write(s, 24);
    lemma_be32_write(s, 28);
    assert(seq![p.options, p.flags] =~= s.subrange(26, 28));
    lemma_headers_written(s, 32, n);
    lemma_subrange_join(s, 0, 24, 26);
    lemma_subrange_join(s, 0, 26, 28);
    lemma_subrange_join(s, 0, 28, 32);
    lemma_subrange_join(s, 0, 32, end);
}

/// A Link State Request packet that was read encodes to the bytes it was
/// read from.
pub proof fn lemma_lsr_written(s: Seq<u8>)
    requires
        parse_lsr(s) is Ok,
    ensures
        0 <= parse_lsr(s)->Ok_0.1 <= s.len(),
        parse_lsr(s)->Ok_0.0.encoding() == s.subrange(0, parse_lsr(s)->Ok_0.1),
{
    let end = parse_lsr(s)->Ok_0.1;
    let n = ((s.len() - 24) / 12) as nat;
    lemma_packet_header_written(s);
    lemma_requests_written(s, 24, n);
    lemma_subrange_join(s, 0, 24, end);
}

/// A Link State Update packet that was read holds as many advertisements as
/// it says, all well-formed, and encodes to the bytes it was read from.
pub proof fn lemma_lsu_written(s: Seq<u8>)
    requires
        parse_lsu(s) is Ok,
    ensures
        parse_lsu(s)->Ok_0.0.num_lsa == parse_lsu(s)->Ok_0.0.lsas.len(),
        forall|i: int|
            0 <= i < parse_lsu(s)->Ok_0.0.lsas.len() ==> (
            #[trigger] parse_lsu(s)->Ok_0.0.lsas[i]).wf(),
        0 <= parse_lsu(s)->Ok_0.1 <= s.len(),
        parse_lsu(s)->Ok_0.0.encoding() == s.subrange(0, parse_lsu(s)->Ok_0.1),
{
    let end = parse_lsu(s)->Ok_0.1;
    lemma_packet_header_written(s);
    lemma_be32_write(s, 24);
    lemma_lsas_written(s, 28, u32_at(s, 24) as nat);
    lemma_subrange_join(s, 0, 24, 28);
    lemma_subrange_join(s, 0, 28, end);
}

/// A Link State Acknowledgment packet that was read encodes to the bytes it
/// was read from.
pub proof fn lemma_lsack_written(s: Seq<u8>)
    requires
        parse_lsack(s) is Ok,
    ensures
        0 <= parse_lsack(s)->Ok_0.1 <= s.len(),
        parse_lsack(s)->Ok_0.0.encoding() == s.subrange(0, parse_lsack(s)->Ok_0.1),
{
    let end = parse_lsack(s)->Ok_0.1;
    let n = ((s.len() - 24) / 20) as nat;
    lemma_packet_header_written(s);
    lemma_headers_written(s, 24, n);
    lemma_subrange_join(s, 0, 24, end);
}

/// A packet that was read is well-formed and encodes to the bytes it was
/// read from: writing undoes reading.
pub proof fn lemma_parsed_packet(s: Seq<u8>)
    requires
        parse_packet(s) is Ok,
    ensures
        parse_packet(s)->Ok_0.0.wf(),
        0 <= parse_packet(s)->Ok_0.1 <= s.len(),
        parse_packet(s)->Ok_0.0.encoding() == s.subrange(0, parse_packet(s)->Ok_0.1),
{
    if s[1] == PACKET_HELLO {
        lemma_hello_written(s);
    } else if s[1] == PACKET_DBD {
        lemma_dbd_written(s);
    } else if s[1] == PACKET_LSR {
        lemma_lsr_written(s);
    } else if s[1] == PACKET_LSU {
        lemma_lsu_written(s);
    } else {
        lemma_lsack_written(s);
    }
}

} // verus!
