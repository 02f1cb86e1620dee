//! Reading advertisements from bytes, and the proof that reading undoes
//! writing.

use vstd::prelude::*;
use vstd::slice::slice_subrange;
use crate::lsa::{links_encoding, tos_list_encoding, u32_list_encoding, Lsa, LsaAsexternal,
    LsaHeader, LsaModel, LsaNetwork, LsaRouter, LsaRouterLink, LsaRouterLinkTos, LsaSum,
    NetworkModel, RouterLinkModel, RouterModel, LSA_ASEXTERNAL, LSA_NETWORK, LSA_ROUTER, LSA_SUMASB,
    LSA_SUMNET};
use crate::wire::{lemma_be16_write, lemma_be32_write, lemma_i32_bits, be16, be32, bits_of_i32, get_u16, get_u32, i32_from_bits, i32_of_bits,
    lemma_be16_read, lemma_be32_read, u16_at, u32_at, ParseError};

verus! {

/// The header whose 20 bytes stand at `s[i ..]`.
pub open spec fn header_at(s: Seq<u8>, i: int) -> LsaHeader {
    LsaHeader {
        age: u16_at(s, i),
        options: s[i + 2],
        ls_type: s[i + 3],
        link_state_id: u32_at(s, i + 4),
        advertising_router: u32_at(s, i + 8),
        sequence_number: i32_of_bits(u32_at(s, i + 12)),
        checksum: u16_at(s, i + 16),
        length: u16_at(s, i + 18),
    }
}

/// The type-of-service entry whose 4 bytes stand at `s[i ..]`.
pub open spec fn tos_at(s: Seq<u8>, i: int) -> LsaRouterLinkTos {
    LsaRouterLinkTos { tos: s[i], reserved: s[i + 1], metric: u16_at(s, i + 2) }
}

/// Reads `n` type-of-service entries at `pos`: the entries and the position
/// after them, or `Short` where the bytes end before the last entry does.
pub open spec fn parse_tos_list(s: Seq<u8>, pos: int, n: nat) -> Result<
    (Seq<LsaRouterLinkTos>, int),
    ParseError,
> {
    if pos + 4 * n <= s.len() {
        Ok((Seq::new(n, |k: int| tos_at(s, pos + 4 * k)), pos + 4 * n))
    } else {
        Err(ParseError::Short)
    }
}

/// Reads `n` 32-bit values at `pos`: the values and the position after them,
/// or `Short` where the bytes end before the last value does.
pub open spec fn parse_u32_list(s: Seq<u8>, pos: int, n: nat) -> Result<
    (Seq<u32>, int),
    ParseError,
> {
    if pos + 4 * n <= s.len() {
        Ok((Seq::new(n, |k: int| u32_at(s, pos + 4 * k)), pos + 4 * n))
    } else {
        Err(ParseError::Short)
    }
}

/// Reads one router link at `pos`: 12 fixed bytes, then as many
/// type-of-service entries as the count byte says.
pub open spec fn parse_link(s: Seq<u8>, pos: int) -> Result<(RouterLinkModel, int), ParseError> {
    if pos + 12 > s.len() {
        Err(ParseError::Short)
    } else {
        match parse_tos_list(s, pos + 12, s[pos + 9] as nat) {
            Ok((tos_list, end)) => Ok(
                (
                    RouterLinkModel {
                        link_id: u32_at(s, pos),
                        link_data: u32_at(s, pos + 4),
                        link_type: s[pos + 8],
                        tos_num: s[pos + 9],
                        metric: u16_at(s, pos + 10),
                        tos_list,
                    },
                    end,
                ),
            ),
            Err(e) => Err(e),
        }
    }
}

/// Reads `n` router links at `pos`, one after the other.
pub open spec fn parse_links(s: Seq<u8>, pos: int, n: nat) -> Result<
    (Seq<RouterLinkModel>, int),
    ParseError,
>
    decreases n,
{
    if n == 0 {
        Ok((Seq::empty(), pos))
    } else {
        match parse_links(s, pos, (n - 1) as nat) {
            Err(e) => Err(e),
            Ok((links, p)) => match parse_link(s, p) {
                Err(e) => Err(e),
                Ok((link, q)) => Ok((links.push(link), q)),
            },
        }
    }
}

/// Reads a router advertisement at `pos`: the header, the flags, the number
/// of links, and that many links.
pub open spec fn parse_router(s: Seq<u8>, pos: int) -> Result<(RouterModel, int), ParseError> {
    if pos + 24 > s.len() {
        Err(ParseError::Short)
    } else {
        match parse_links(s, pos + 24, u16_at(s, pos + 22) as nat) {
            Ok((links, end)) => Ok(
                (
                    RouterModel {
                        header: header_at(s, pos),
                        flags: u16_at(s, pos + 20),
                        num_links: u16_at(s, pos + 22),
                        links,
                    },
                    end,
                ),
            ),
            Err(e) => Err(e),
        }
    }
}

/// Reads a network advertisement at `pos`: the header, the mask, and as many
/// attached routers as the header's length field leaves room for after the
/// fixed 24 bytes. A length field under 24 is rejected with `Length`.
pub open spec fn parse_network(s: Seq<u8>, pos: int) -> Result<(NetworkModel, int), ParseError> {
    if pos + 24 > s.len() {
        Err(ParseError::Short)
    } else if header_at(s, pos).length < 24 {
        Err(ParseError::Length)
    } else {
        match parse_u32_list(s, pos + 24, ((header_at(s, pos).length - 24) / 4) as nat) {
            Ok((attached_routers, end)) => Ok(
                (
                    NetworkModel {
                        header: header_at(s, pos),
                        network_mask: u32_at(s, pos + 20),
                        attached_routers,
                    },
                    end,
                ),
            ),
            Err(e) => Err(e),
        }
    }
}

/// Reads a summary advertisement at `pos`: 28 bytes.
pub open spec fn parse_sum(s: Seq<u8>, pos: int) -> Result<(LsaSum, int), ParseError> {
    if pos + 28 > s.len() {
        Err(ParseError::Short)
    } else {
        Ok(
            (
                LsaSum {
                    header: header_at(s, pos),
                    network_mask: u32_at(s, pos + 20),
                    metric: u32_at(s, pos + 24),
                },
                pos + 28,
            ),
        )
    }
}

/// Reads an external advertisement at `pos`: 36 bytes.
pub open spec fn parse_asexternal(s: Seq<u8>, pos: int) -> Result<
    (LsaAsexternal, int),
    ParseError,
> {
    if pos + 36 > s.len() {
        Err(ParseError::Short)
    } else {
        Ok(
            (
                LsaAsexternal {
                    header: header_at(s, pos),
                    network_mask: u32_at(s, pos + 20),
                    metric: u32_at(s, pos + 24),
                    forwarding_address: u32_at(s, pos + 28),
                    external_route_tag: u32_at(s, pos + 32),
                },
                pos + 36,
            ),
        )
    }
}

/// Reads one advertisement at `pos`. The fourth byte, the type byte of the
/// header, selects the kind; a type outside `1 ..= 5` is rejected with `Tag`,
/// and bytes that end before the type byte with `Short`.
pub open spec fn parse_lsa(s: Seq<u8>, pos: int) -> Result<(LsaModel, int), ParseError> {
    if pos + 4 > s.len() {
        Err(ParseError::Short)
    } else if s[pos + 3] == LSA_ROUTER {
        match parse_router(s, pos) {
            Ok((l, end)) => Ok((LsaModel::Router(l), end)),
            Err(e) => Err(e),
        }
    } else if s[pos + 3] == LSA_NETWORK {
        match parse_network(s, pos) {
            Ok((l, end)) => Ok((LsaModel::Network(l), end)),
            Err(e) => Err(e),
        }
    } else if s[pos + 3] == LSA_SUMNET {
        match parse_sum(s, pos) {
            Ok((l, end)) => Ok((LsaModel::Sumnet(l), end)),
            Err(e) => Err(e),
        }
    } else if s[pos + 3] == LSA_SUMASB {
        match parse_sum(s, pos) {
            Ok((l, end)) => Ok((LsaModel::Sumasb(l), end)),
            Err(e) => Err(e),
        }
    } else if s[pos + 3] == LSA_ASEXTERNAL {
        match parse_asexternal(s, pos) {
            Ok((l, end)) => Ok((LsaModel::Asexternal(l), end)),
            Err(e) => Err(e),
        }
    } else {
        Err(ParseError::Tag)
    }
}

/// Reads the header at `pos`.
pub fn read_header(input: &[u8], pos: usize) -> (h: LsaHeader)
    requires
        pos + 20 <= input@.len(),
    ensures
        h == header_at(input@, pos as int),
{
    assert(input.len() == input@.len());
    LsaHeader {
        age: get_u16(input, pos),
        options: input[pos + 2],
        ls_type: input[pos + 3],
        link_state_id: get_u32(input, pos + 4),
        advertising_router: get_u32(input, pos + 8),
        sequence_number: i32_from_bits(get_u32(input, pos + 12)),
        checksum: get_u16(input, pos + 16),
        length: get_u16(input, pos + 18),
    }
}

/// Reads `n` 32-bit values at `pos`.
pub fn read_u32_list(input: &[u8], pos: usize, n: usize) -> (r: Result<(Vec<u32>, usize), ParseError>)
    requires
        pos <= input@.len(),
    ensures
        match r {
            Ok((list, end)) => parse_u32_list(input@, pos as int, n as nat) == Ok::<
                (Seq<u32>, int),
                ParseError,
            >((list@, end as int)),
            Err(e) => parse_u32_list(input@, pos as int, n as nat) == Err::<
                (Seq<u32>, int),
                ParseError,
            >(e),
        },
{
    let len = input.len();
    if n > (len - pos) / 4 {
        return Err(ParseError::Short);
    }
    let mut list: Vec<u32> = Vec::new();
    let mut k: usize = 0;
    while k < n
        invariant
            k <= n,
            len == input@.len(),
            pos + 4 * n <= len,
            list@ == Seq::new(k as nat, |j: int| u32_at(input@, pos + 4 * j)),
        decreases n - k,
    {
        list.push(get_u32(input, pos + 4 * k));
        k += 1;
        assert(list@ =~= Seq::new(k as nat, |j: int| u32_at(input@, pos + 4 * j)));
    }
    Ok((list, pos + 4 * n))
}

/// Reads `n` type-of-service entries at `pos`.
pub fn read_tos_list(input: &[u8], pos: usize, n: usize) -> (r: Result<
    (Vec<LsaRouterLinkTos>, usize),
    ParseError,
>)
    requires
        pos <= input@.len(),
    ensures
        match r {
            Ok((list, end)) => parse_tos_list(input@, pos as int, n as nat) == Ok::<
                (Seq<LsaRouterLinkTos>, int),
                ParseError,
            >((list@, end as int)),
            Err(e) => parse_tos_list(input@, pos as int, n as nat) == Err::<
                (Seq<LsaRouterLinkTos>, int),
                ParseError,
            >(e),
        },
{
    let len = input.len();
    if n > (len - pos) / 4 {
        return Err(ParseError::Short);
    }
    let mut list: Vec<LsaRouterLinkTos> = Vec::new();
    let mut k: usize = 0;
    while k < n
        invariant
            k <= n,
            len == input@.len(),
            pos + 4 * n <= len,
            list@ == Seq::new(k as nat, |j: int| tos_at(input@, pos + 4 * j)),
        decreases n - k,
    {
        let at = pos + 4 * k;
        list.push(
            LsaRouterLinkTos {
                tos: input[at],
                reserved: input[at + 1],
                metric: get_u16(input, at + 2),
            },
        );
        k += 1;
        assert(list@ =~= Seq::new(k as nat, |j: int| tos_at(input@, pos + 4 * j)));
    }
    Ok((list, pos + 4 * n))
}

/// Reads one router link at `pos`.
pub fn read_link(input: &[u8], pos: usize) -> (r: Result<(LsaRouterLink, usize), ParseError>)
    requires
        pos <= input@.len(),
    ensures
        match r {
            Ok((link, end)) => parse_link(input@, pos as int) == Ok::<
                (RouterLinkModel, int),
                ParseError,
            >((link@, end as int)) && end <= input@.len(),
            Err(e) => parse_link(input@, pos as int) == Err::<(RouterLinkModel, int), ParseError>(
                e,
            ),
        },
{
    let len = input.len();
    if len - pos < 12 {
        return Err(ParseError::Short);
    }
    let tos_num = input[pos + 9];
    match read_tos_list(input, pos + 12, tos_num as usize) {
        Err(e) => Err(e),
        Ok((tos_list, end)) => Ok(
            (
                LsaRouterLink {
                    link_id: get_u32(input, pos),
                    link_data: get_u32(input, pos + 4),
                    link_type: input[pos + 8],
                    tos_num,
                    metric: get_u16(input, pos + 10),
                    tos_list,
                },
                end,
            ),
        ),
    }
}

/// Once reading a number of links has failed, reading more of them fails in
/// the same way.
pub proof fn lemma_parse_links_fails(s: Seq<u8>, pos: int, k: nat, n: nat)
    requires
        k <= n,
        parse_links(s, pos, k) is Err,
    ensures
        parse_links(s, pos, n) == parse_links(s, pos, k),
    decreases n,
{
    if k < n {
        lemma_parse_links_fails(s, pos, k, (n - 1) as nat);
    }
}

/// Reads `n` router links at `pos`.
pub fn read_links(input: &[u8], pos: usize, n: usize) -> (r: Result<
    (Vec<LsaRouterLink>, usize),
    ParseError,
>)
    requires
        pos <= input@.len(),
    ensures
        match r {
            Ok((links, end)) => parse_links(input@, pos as int, n as nat) == Ok::<
                (Seq<RouterLinkModel>, int),
                ParseError,
            >((links@.map_values(|l: LsaRouterLink| l@), end as int)) && end <= input@.len(),
            Err(e) => parse_links(input@, pos as int, n as nat) == Err::<
                (Seq<RouterLinkModel>, int),
                ParseError,
            >(e),
        },
{
    let mut links: Vec<LsaRouterLink> = Vec::new();
    let mut at: usize = pos;
    let mut k: usize = 0;
    assert(links@.map_values(|l: LsaRouterLink| l@) =~= Seq::<RouterLinkModel>::empty());
    while k < n
        invariant
            k <= n,
            at <= input@.len(),
            parse_links(input@, pos as int, k as nat) == Ok::<
                (Seq<RouterLinkModel>, int),
                ParseError,
            >((links@.map_values(|l: LsaRouterLink| l@), at as int)),
        decreases n - k,
    {
        let ghost before = links@.map_values(|l: LsaRouterLink| l@);
        match read_link(input, at) {
            Err(e) => {
                proof {
                    assert(parse_links(input@, pos as int, (k + 1) as nat) == Err::<
                        (Seq<RouterLinkModel>, int),
                        ParseError,
                    >(e));
                    lemma_parse_links_fails(input@, pos as int, (k + 1) as nat, n as nat);
                }
                return Err(e);
            },
            Ok((link, end)) => {
                links.push(link);
                at = end;
                assert(links@.map_values(|l: LsaRouterLink| l@) =~= before.push(link@));
            },
        }
        k += 1;
    }
    Ok((links, at))
}

impl LsaRouter {
    /// Reads a router advertisement at `pos`.
    pub fn parse_at(input: &[u8], pos: usize) -> (r: Result<(LsaRouter, usize), ParseError>)
        requires
            pos <= input@.len(),
        ensures
            match r {
                Ok((l, end)) => parse_router(input@, pos as int) == Ok::<
                    (RouterModel, int),
                    ParseError,
                >((l@, end as int)) && end <= input@.len(),
                Err(e) => parse_router(input@, pos as int) == Err::<(RouterModel, int), ParseError>(
                    e,
                ),
            },
    {
        let len = input.len();
        if len - pos < 24 {
            return Err(ParseError::Short);
        }
        let header = read_header(input, pos);
        let flags = get_u16(input, pos + 20);
        let num_links = get_u16(input, pos + 22);
        match read_links(input, pos + 24, num_links as usize) {
            Err(e) => Err(e),
            Ok((links, end)) => Ok((LsaRouter { header, flags, num_links, links }, end)),
        }
    }
}

impl LsaNetwork {
    /// Reads a network advertisement at `pos`.
    pub fn parse_at(input: &[u8], pos: usize) -> (r: Result<(LsaNetwork, usize), ParseError>)
        requires
            pos <= input@.len(),
        ensures
            match r {
                Ok((l, end)) => parse_network(input@, pos as int) == Ok::<
                    (NetworkModel, int),
                    ParseError,
                >((l@, end as int)) && end <= input@.len(),
                Err(e) => parse_network(input@, pos as int) == Err::<
                    (NetworkModel, int),
                    ParseError,
                >(e),
            },
    {
        let len = input.len();
        if len - pos < 24 {
            return Err(ParseError::Short);
        }
        let header = read_header(input, pos);
        if header.length < 24 {
            return Err(ParseError::Length);
        }
        let network_mask = get_u32(input, pos + 20);
        let count = ((header.length - 24) / 4) as usize;
        match read_u32_list(input, pos + 24, count) {
            Err(e) => Err(e),
            Ok((attached_routers, end)) => Ok(
                (LsaNetwork { header, network_mask, attached_routers }, end),
            ),
        }
    }
}

impl LsaSum {
    /// Reads a summary advertisement at `pos`.
    pub fn parse_at(input: &[u8], pos: usize) -> (r: Result<(LsaSum, usize), ParseError>)
        requires
            pos <= input@.len(),
        ensures
            match r {
                Ok((l, end)) => parse_sum(input@, pos as int) == Ok::<(LsaSum, int), ParseError>(
                    (l, end as int),
                ) && end <= input@.len(),
                Err(e) => parse_sum(input@, pos as int) == Err::<(LsaSum, int), ParseError>(e),
            },
    {
        let len = input.len();
        if len - pos < 28 {
            return Err(ParseError::Short);
        }
        Ok(
            (
                LsaSum {
                    header: read_header(input, pos),
                    network_mask: get_u32(input, pos + 20),
                    metric: get_u32(input, pos + 24),
                },
                pos + 28,
            ),
        )
    }
}

impl LsaAsexternal {
    /// Reads an external advertisement at `pos`.
    pub fn parse_at(input: &[u8], pos: usize) -> (r: Result<(LsaAsexternal, usize), ParseError>)
        requires
            pos <= input@.len(),
        ensures
            match r {
                Ok((l, end)) => parse_asexternal(input@, pos as int) == Ok::<
                    (LsaAsexternal, int),
                    ParseError,
                >((l, end as int)) && end <= input@.len(),
                Err(e) => parse_asexternal(input@, pos as int) == Err::<
                    (LsaAsexternal, int),
                    ParseError,
                >(e),
            },
    {
        let len = input.len();
        if len - pos < 36 {
            return Err(ParseError::Short);
        }
        Ok(
            (
                LsaAsexternal {
                    header: read_header(input, pos),
                    network_mask: get_u32(input, pos + 20),
                    metric: get_u32(input, pos + 24),
                    forwarding_address: get_u32(input, pos + 28),
                    external_route_tag: get_u32(input, pos + 32),
                },
                pos + 36,
            ),
        )
    }
}

impl Lsa {
    /// Reads one advertisement at `pos`: the advertisement and the position
    /// after it.
    pub fn parse_at(input: &[u8], pos: usize) -> (r: Result<(Lsa, usize), ParseError>)
        requires
            pos <= input@.len(),
        ensures
            match r {
                Ok((l, end)) => parse_lsa(input@, pos as int) == Ok::<(LsaModel, int), ParseError>(
                    (l@, end as int),
                ) && end <= input@.len(),
                Err(e) => parse_lsa(input@, pos as int) == Err::<(LsaModel, int), ParseError>(e),
            },
    {
        let len = input.len();
        if len - pos < 4 {
            return Err(ParseError::Short);
        }
        let ls_type = input[pos + 3];
        if ls_type == LSA_ROUTER {
            match LsaRouter::parse_at(input, pos) {
                Ok((l, end)) => Ok((Lsa::LsaRouter(l), end)),
                Err(e) => Err(e),
            }
        } else if ls_type == LSA_NETWORK {
            match LsaNetwork::parse_at(input, pos) {
                Ok((l, end)) => Ok((Lsa::LsaNetwork(l), end)),
                Err(e) => Err(e),
            }
        } else if ls_type == LSA_SUMNET {
            match LsaSum::parse_at(input, pos) {
                Ok((l, end)) => Ok((Lsa::LsaSumnet(l), end)),
                Err(e) => Err(e),
            }
        } else if ls_type == LSA_SUMASB {
            match LsaSum::parse_at(input, pos) {
                Ok((l, end)) => Ok((Lsa::LsaSumasb(l), end)),
                Err(e) => Err(e),
            }
        } else if ls_type == LSA_ASEXTERNAL {
            match LsaAsexternal::parse_at(input, pos) {
                Ok((l, end)) => Ok((Lsa::LsaAsexternal(l), end)),
                Err(e) => Err(e),
            }
        } else {
            Err(ParseError::Tag)
        }
    }

    /// Reads one advertisement from the front of `input`: the bytes that
    /// follow it, and the advertisement.
    pub fn parse(input: &[u8]) -> (r: Result<(&[u8], Lsa), ParseError>)
        ensures
            match r {
                Ok((rest, l)) => parse_lsa(input@, 0) == Ok::<(LsaModel, int), ParseError>(
                    (l@, input@.len() - rest@.len()),
                ) && rest@ == input@.skip(input@.len() - rest@.len()),
                Err(e) => parse_lsa(input@, 0) == Err::<(LsaModel, int), ParseError>(e),
            },
    {
        match Lsa::parse_at(input, 0) {
            Ok((l, end)) => {
                let rest = slice_subrange(input, end, input.len());
                assert(rest@ =~= input@.skip(end as int));
                Ok((rest, l))
            },
            Err(e) => Err(e),
        }
    }
}

/// Where `a + b` stands in `s` at `pos`, `a` stands at `pos` and `b` after it.
pub proof fn lemma_subrange_concat(s: Seq<u8>, pos: int, a: Seq<u8>, b: Seq<u8>)
    requires
        0 <= pos,
        pos + a.len() + b.len() <= s.len(),
        s.subrange(pos, pos + a.len() + b.len()) == a + b,
    ensures
        s.subrange(pos, pos + a.len()) == a,
        s.subrange(pos + a.len(), pos + a.len() + b.len()) == b,
{
    let whole = s.subrange(pos, pos + a.len() + b.len());
    assert forall|k: int| 0 <= k < a.len() implies s.subrange(pos, pos + a.len())[k] == a[k] by {
        assert(whole[k] == (a + b)[k]);
    }
    assert(s.subrange(pos, pos + a.len()) =~= a);
    assert forall|k: int| 0 <= k < b.len() implies s.subrange(
        pos + a.len(),
        pos + a.len() + b.len(),
    )[k] == b[k] by {
        assert(whole[a.len() + k] == (a + b)[a.len() + k]);
    }
    assert(s.subrange(pos + a.len(), pos + a.len() + b.len()) =~= b);
}

/// Reading the bytes of a header gives the header.
#[verifier::rlimit(40)]
pub proof fn lemma_header_round_trip(h: LsaHeader, s: Seq<u8>, pos: int)
    requires
        0 <= pos,
        pos + 20 <= s.len(),
        s.subrange(pos, pos + 20) == h.encoding(),
    ensures
        header_at(s, pos) == h,
{
    let e = h.encoding();
    let t = s.subrange(pos, pos + 20);
    assert forall|k: int| 0 <= k < 20 implies s[pos + k] == e[k] by {
        assert(t[k] == s[pos + k]);
    }
    assert(e.subrange(0, 2) =~= be16(h.age));
    assert(e.subrange(4, 8) =~= be32(h.link_state_id));
    assert(e.subrange(8, 12) =~= be32(h.advertising_router));
    assert(e.subrange(12, 16) =~= be32(bits_of_i32(h.sequence_number)));
    assert(e.subrange(16, 18) =~= be16(h.checksum));
    assert(e.subrange(18, 20) =~= be16(h.length));
    assert(s.subrange(pos, pos + 2) =~= e.subrange(0, 2));
    assert(s.subrange(pos + 4, pos + 8) =~= e.subrange(4, 8));
    assert(s.subrange(pos + 8, pos + 12) =~= e.subrange(8, 12));
    assert(s.subrange(pos + 12, pos + 16) =~= e.subrange(12, 16));
    assert(s.subrange(pos + 16, pos + 18) =~= e.subrange(16, 18));
    assert(s.subrange(pos + 18, pos + 20) =~= e.subrange(18, 20));
    lemma_be16_read(h.age, s, pos);
    lemma_be32_read(h.link_state_id, s, pos + 4);
    lemma_be32_read(h.advertising_router, s, pos + 8);
    lemma_be32_read(bits_of_i32(h.sequence_number), s, pos + 12);
    lemma_be16_read(h.checksum, s, pos + 16);
    lemma_be16_read(h.length, s, pos + 18);
    assert(s[pos + 2] == e[2] && s[pos + 3] == e[3]);
}

/// A list of type-of-service entries takes 4 bytes for each entry.
pub proof fn lemma_tos_list_len(list: Seq<LsaRouterLinkTos>)
    ensures
        tos_list_encoding(list).len() == 4 * list.len(),
    decreases list.len(),
{
    if list.len() > 0 {
        lemma_tos_list_len(list.drop_last());
    }
}

/// Reading the bytes of a list of type-of-service entries gives the list.
pub proof fn lemma_tos_list_round_trip(list: Seq<LsaRouterLinkTos>, s: Seq<u8>, pos: int)
    requires
        0 <= pos,
        pos + 4 * list.len() <= s.len(),
        s.subrange(pos, pos + 4 * list.len()) == tos_list_encoding(list),
    ensures
        parse_tos_list(s, pos, list.len()) == Ok::<(Seq<LsaRouterLinkTos>, int), ParseError>(
            (list, pos + 4 * list.len()),
        ),
    decreases list.len(),
{
    let n = list.len();
    let parsed = Seq::new(n, |k: int| tos_at(s, pos + 4 * k));
    if n > 0 {
        let init = list.drop_last();
        lemma_tos_list_len(init);
        lemma_subrange_concat(s, pos, tos_list_encoding(init), list.last().encoding());
        lemma_tos_list_round_trip(init, s, pos);
        let at = pos + 4 * (n - 1);
        let last = list.last();
        let head = seq![last.tos, last.reserved];
        lemma_subrange_concat(s, at, head, be16(last.metric));
        assert(s.subrange(at, at + 2)[0] == s[at] && s.subrange(at, at + 2)[1] == s[at + 1]);
        lemma_be16_read(last.metric, s, at + 2);
        assert(tos_at(s, at) == list.last());
        let shorter = Seq::new((n - 1) as nat, |k: int| tos_at(s, pos + 4 * k));
        assert(shorter == init);
        assert forall|k: int| 0 <= k < n implies parsed[k] == list[k] by {
            if k < n - 1 {
                assert(shorter[k] == init[k]);
            }
        }
    }
    assert(parsed =~= list);
}

/// A list of 32-bit values takes 4 bytes for each value.
pub proof fn lemma_u32_list_len(list: Seq<u32>)
    ensures
        u32_list_encoding(list).len() == 4 * list.len(),
    decreases list.len(),
{
    if list.len() > 0 {
        lemma_u32_list_len(list.drop_last());
    }
}

/// Reading the bytes of a list of 32-bit values gives the list.
pub proof fn lemma_u32_list_round_trip(list: Seq<u32>, s: Seq<u8>, pos: int)
    requires
        0 <= pos,
        pos + 4 * list.len() <= s.len(),
        s.subrange(pos, pos + 4 * list.len()) == u32_list_encoding(list),
    ensures
        parse_u32_list(s, pos, list.len()) == Ok::<(Seq<u32>, int), ParseError>(
            (list, pos + 4 * list.len()),
        ),
    decreases list.len(),
{
    let n = list.len();
    let parsed = Seq::new(n, |k: int| u32_at(s, pos + 4 * k));
    if n > 0 {
        let init = list.drop_last();
        lemma_u32_list_len(init);
        lemma_subrange_concat(s, pos, u32_list_encoding(init), be32(list.last()));
        lemma_u32_list_round_trip(init, s, pos);
        let at = pos + 4 * (n - 1);
        lemma_be32_read(list.last(), s, at);
        let shorter = Seq::new((n - 1) as nat, |k: int| u32_at(s, pos + 4 * k));
        assert(shorter == init);
        assert forall|k: int| 0 <= k < n implies parsed[k] == list[k] by {
            if k < n - 1 {
                assert(shorter[k] == init[k]);
            }
        }
    }
    assert(parsed =~= list);
}

/// Reading the bytes of a well-formed router link gives the link.
#[verifier::rlimit(40)]
pub proof fn lemma_link_round_trip(l: RouterLinkModel, s: Seq<u8>, pos: int)
    requires
        l.wf(),
        0 <= pos,
        pos + l.encoding().len() <= s.len(),
        s.subrange(pos, pos + l.encoding().len()) == l.encoding(),
    ensures
        l.encoding().len() == 12 + 4 * l.tos_list.len(),
        parse_link(s, pos) == Ok::<(RouterLinkModel, int), ParseError>(
            (l, pos + l.encoding().len()),
        ),
{
    let fixed = be32(l.link_id) + be32(l.link_data) + seq![l.link_type, l.tos_num] + be16(
        l.metric,
    );
    let tail = tos_list_encoding(l.tos_list);
    lemma_tos_list_len(l.tos_list);
    assert(l.encoding() =~= fixed + tail);
    lemma_subrange_concat(s, pos, fixed, tail);
    lemma_tos_list_round_trip(l.tos_list, s, pos + 12);
    let ids = be32(l.link_id) + be32(l.link_data);
    let kinds = seq![l.link_type, l.tos_num];
    assert(fixed =~= (ids + kinds) + be16(l.metric));
    lemma_subrange_concat(s, pos, ids + kinds, be16(l.metric));
    lemma_subrange_concat(s, pos, ids, kinds);
    lemma_subrange_concat(s, pos, be32(l.link_id), be32(l.link_data));
    lemma_be32_read(l.link_id, s, pos);
    lemma_be32_read(l.link_data, s, pos + 4);
    lemma_be16_read(l.metric, s, pos + 10);
    assert(s.subrange(pos + 8, pos + 10)[0] == s[pos + 8] && s.subrange(pos + 8, pos + 10)[1]
        == s[pos + 9]);
}

/// Reading the bytes of a list of well-formed router links gives the list.
pub proof fn lemma_links_round_trip(links: Seq<RouterLinkModel>, s: Seq<u8>, pos: int)
    requires
        forall|i: int| 0 <= i < links.len() ==> (#[trigger] links[i]).wf(),
        0 <= pos,
        pos + links_encoding(links).len() <= s.len(),
        s.subrange(pos, pos + links_encoding(links).len()) == links_encoding(links),
    ensures
        parse_links(s, pos, links.len()) == Ok::<(Seq<RouterLinkModel>, int), ParseError>(
            (links, pos + links_encoding(links).len()),
        ),
    decreases links.len(),
{
    if links.len() > 0 {
        let init = links.drop_last();
        let last = links.last();
        assert(last.wf());
        assert forall|i: int| 0 <= i < init.len() implies (#[trigger] init[i]).wf() by {
            assert(init[i] == links[i]);
        }
        lemma_subrange_concat(s, pos, links_encoding(init), last.encoding());
        lemma_links_round_trip(init, s, pos);
        lemma_link_round_trip(last, s, pos + links_encoding(init).len());
        assert(init.push(last) =~= links);
    } else {
        assert(links =~= Seq::<RouterLinkModel>::empty());
    }
}

/// A header takes 20 bytes.
pub proof fn lemma_header_len(h: LsaHeader)
    ensures
        h.encoding().len() == 20,
{
}

/// Where the bytes of a header and then `body` stand in `s` at `pos`, the
/// header is read back at `pos` and `body` stands 20 bytes on.
pub proof fn lemma_header_then_body(h: LsaHeader, body: Seq<u8>, s: Seq<u8>, pos: int)
    requires
        0 <= pos,
        pos + 20 + body.len() <= s.len(),
        s.subrange(pos, pos + 20 + body.len()) == h.encoding() + body,
    ensures
        header_at(s, pos) == h,
        s[pos + 3] == h.ls_type,
        s.subrange(pos + 20, pos + 20 + body.len()) == body,
{
    lemma_header_len(h);
    lemma_subrange_concat(s, pos, h.encoding(), body);
    lemma_header_round_trip(h, s, pos);
}

/// Reading the bytes of a well-formed router advertisement gives it back.
#[verifier::rlimit(40)]
pub proof fn lemma_router_round_trip(r: RouterModel, s: Seq<u8>, pos: int)
    requires
        r.wf(),
        0 <= pos,
        pos + r.encoding().len() <= s.len(),
        s.subrange(pos, pos + r.encoding().len()) == r.encoding(),
    ensures
        parse_router(s, pos) == Ok::<(RouterModel, int), ParseError>(
            (r, pos + r.encoding().len()),
        ),
        s[pos + 3] == LSA_ROUTER,
        r.encoding().len() >= 24,
{
    let fixed = be16(r.flags) + be16(r.num_links);
    let tail = links_encoding(r.links);
    let body = fixed + tail;
    lemma_header_len(r.header);
    assert(r.encoding() =~= r.header.encoding() + body);
    lemma_header_then_body(r.header, body, s, pos);
    lemma_subrange_concat(s, pos + 20, fixed, tail);
    lemma_subrange_concat(s, pos + 20, be16(r.flags), be16(r.num_links));
    lemma_be16_read(r.flags, s, pos + 20);
    lemma_be16_read(r.num_links, s, pos + 22);
    lemma_links_round_trip(r.links, s, pos + 24);
}

/// Reading the bytes of a well-formed network advertisement gives it back.
pub proof fn lemma_network_round_trip(n: NetworkModel, s: Seq<u8>, pos: int)
    requires
        n.wf(),
        0 <= pos,
        pos + n.encoding().len() <= s.len(),
        s.subrange(pos, pos + n.encoding().len()) == n.encoding(),
    ensures
        parse_network(s, pos) == Ok::<(NetworkModel, int), ParseError>(
            (n, pos + n.encoding().len()),
        ),
        s[pos + 3] == LSA_NETWORK,
        n.encoding().len() >= 24,
{
    let tail = u32_list_encoding(n.attached_routers);
    let body = be32(n.network_mask) + tail;
    lemma_header_len(n.header);
    lemma_u32_list_len(n.attached_routers);
    assert(n.encoding() =~= n.header.encoding() + body);
    lemma_header_then_body(n.header, body, s, pos);
    lemma_subrange_concat(s, pos + 20, be32(n.network_mask), tail);
    lemma_be32_read(n.network_mask, s, pos + 20);
    lemma_u32_list_round_trip(n.attached_routers, s, pos + 24);
}

/// Reading the bytes of a summary advertisement gives it back.
pub proof fn lemma_sum_round_trip(m: LsaSum, s: Seq<u8>, pos: int)
    requires
        0 <= pos,
        pos + m.encoding().len() <= s.len(),
        s.subrange(pos, pos + m.encoding().len()) == m.encoding(),
    ensures
        parse_sum(s, pos) == Ok::<(LsaSum, int), ParseError>((m, pos + m.encoding().len())),
        s[pos + 3] == m.header.ls_type,
        m.encoding().len() == 28,
{
    let body = be32(m.network_mask) + be32(m.metric);
    lemma_header_len(m.header);
    assert(m.encoding() =~= m.header.encoding() + body);
    lemma_header_then_body(m.header, body, s, pos);
    lemma_subrange_concat(s, pos + 20, be32(m.network_mask), be32(m.metric));
    lemma_be32_read(m.network_mask, s, pos + 20);
    lemma_be32_read(m.metric, s, pos + 24);
}

/// Reading the bytes of an external advertisement gives it back.
#[verifier::rlimit(40)]
pub proof fn lemma_asexternal_round_trip(x: LsaAsexternal, s: Seq<u8>, pos: int)
    requires
        0 <= pos,
        pos + x.encoding().len() <= s.len(),
        s.subrange(pos, pos + x.encoding().len()) == x.encoding(),
    ensures
        parse_asexternal(s, pos) == Ok::<(LsaAsexternal, int), ParseError>(
            (x, pos + x.encoding().len()),
        ),
        s[pos + 3] == x.header.ls_type,
        x.encoding().len() == 36,
{
    let a = be32(x.network_mask) + be32(x.metric);
    let b = be32(x.forwarding_address) + be32(x.external_route_tag);
    let body = a + b;
    lemma_header_len(x.header);
    assert(x.encoding() =~= x.header.encoding() + body);
    lemma_header_then_body(x.header, body, s, pos);
    lemma_subrange_concat(s, pos + 20, a, b);
    lemma_subrange_concat(s, pos + 20, be32(x.network_mask), be32(x.metric));
    lemma_subrange_concat(s, pos + 28, be32(x.forwarding_address), be32(x.external_route_tag));
    lemma_be32_read(x.network_mask, s, pos + 20);
    lemma_be32_read(x.metric, s, pos + 24);
    lemma_be32_read(x.forwarding_address, s, pos + 28);
    lemma_be32_read(x.external_route_tag, s, pos + 32);
}

/// Reading the bytes of a well-formed advertisement gives the advertisement
/// and ends where its bytes end.
pub proof fn lemma_parse_encoded(l: LsaModel, s: Seq<u8>, pos: int)
    requires
        l.wf(),
        0 <= pos,
        pos + l.encoding().len() <= s.len(),
        s.subrange(pos, pos + l.encoding().len()) == l.encoding(),
    ensures
        parse_lsa(s, pos) == Ok::<(LsaModel, int), ParseError>((l, pos + l.encoding().len())),
{
    match l {
        LsaModel::Router(r) => {
            lemma_router_round_trip(r, s, pos);
        },
        LsaModel::Network(n) => {
            lemma_network_round_trip(n, s, pos);
        },
        LsaModel::Sumnet(m) => {
            lemma_sum_round_trip(m, s, pos);
        },
        LsaModel::Sumasb(m) => {
            lemma_sum_round_trip(m, s, pos);
        },
        LsaModel::Asexternal(x) => {
            lemma_asexternal_round_trip(x, s, pos);
        },
    }
}

/// Parsing the bytes of a well-formed advertisement gives the advertisement
/// back and leaves no byte over, so that encoding what was parsed gives the
/// same bytes again.
pub proof fn lemma_lsa_round_trip(l: LsaModel)
    requires
        l.wf(),
    ensures
        parse_lsa(l.encoding(), 0) == Ok::<(LsaModel, int), ParseError>(
            (l, l.encoding().len() as int),
        ),
        parse_lsa(l.encoding(), 0) matches Ok((m, _)) && m.encoding() == l.encoding(),
{
    let e = l.encoding();
    assert(e.subrange(0, e.len() as int) =~= e);
    lemma_parse_encoded(l, e, 0);
}

/// The header read at `pos` encodes to the 20 bytes it was read from.
#[verifier::rlimit(40)]
pub proof fn lemma_header_written(s: Seq<u8>, pos: int)
    requires
        0 <= pos,
        pos + 20 <= s.len(),
    ensures
        header_at(s, pos).encoding() == s.subrange(pos, pos + 20),
{
    let h = header_at(s, pos);
    lemma_be16_write(s, pos);
    lemma_be32_write(s, pos + 4);
    lemma_be32_write(s, pos + 8);
    lemma_be32_write(s, pos + 12);
    lemma_be16_write(s, pos + 16);
    lemma_be16_write(s, pos + 18);
    lemma_i32_bits(0, u32_at(s, pos + 12));
    assert(seq![h.options, h.ls_type] =~= s.subrange(pos + 2, pos + 4));
    assert(h.encoding() =~= s.subrange(pos, pos + 2) + s.subrange(pos + 2, pos + 4) + s.subrange(
        pos + 4,
        pos + 8,
    ) + s.subrange(pos + 8, pos + 12) + s.subrange(pos + 12, pos + 16) + s.subrange(
        pos + 16,
        pos + 18,
    ) + s.subrange(pos + 18, pos + 20));
    assert(h.encoding() =~= s.subrange(pos, pos + 20));
}

/// The type-of-service entries read at `pos` encode to the bytes they were
/// read from.
pub proof fn lemma_tos_list_written(s: Seq<u8>, pos: int, n: nat)
    requires
        0 <= pos,
        pos + 4 * n <= s.len(),
    ensures
        tos_list_encoding(Seq::new(n, |k: int| tos_at(s, pos + 4 * k))) == s.subrange(
            pos,
            pos + 4 * n,
        ),
    decreases n,
{
    let list = Seq::new(n, |k: int| tos_at(s, pos + 4 * k));
    if n > 0 {
        let init = Seq::new((n - 1) as nat, |k: int| tos_at(s, pos + 4 * k));
        assert(list.drop_last() =~= init);
        lemma_tos_list_written(s, pos, (n - 1) as nat);
        let at = pos + 4 * (n - 1);
        lemma_be16_write(s, at + 2);
        assert(list.last() == tos_at(s, at));
        assert(seq![s[at], s[at + 1]] =~= s.subrange(at, at + 2));
        assert(list.last().encoding() =~= s.subrange(at, at + 4));
        assert(s.subrange(pos, at) + s.subrange(at, at + 4) =~= s.subrange(pos, pos + 4 * n));
    } else {
        assert(s.subrange(pos, pos) =~= Seq::<u8>::empty());
    }
}

/// The 32-bit values read at `pos` encode to the bytes they were read from.
pub proof fn lemma_u32_list_written(s: Seq<u8>, pos: int, n: nat)
    requires
        0 <= pos,
        pos + 4 * n <= s.len(),
    ensures
        u32_list_encoding(Seq::new(n, |k: int| u32_at(s, pos + 4 * k))) == s.subrange(
            pos,
            pos + 4 * n,
        ),
    decreases n,
{
    let list = Seq::new(n, |k: int| u32_at(s, pos + 4 * k));
    if n > 0 {
        let init = Seq::new((n - 1) as nat, |k: int| u32_at(s, pos + 4 * k));
        assert(list.drop_last() =~= init);
        lemma_u32_list_written(s, pos, (n - 1) as nat);
        let at = pos + 4 * (n - 1);
        lemma_be32_write(s, at);
        assert(list.last() == u32_at(s, at));
        assert(s.subrange(pos, at) + s.subrange(at, at + 4) =~= s.subrange(pos, pos + 4 * n));
    } else {
        assert(s.subrange(pos, pos) =~= Seq::<u8>::empty());
    }
}

/// A link that was read is well-formed and encodes to the bytes it was read
/// from.
#[verifier::rlimit(40)]
pub proof fn lemma_link_written(s: Seq<u8>, pos: int)
    requires
        0 <= pos <= s.len(),
        parse_link(s, pos) is Ok,
    ensures
        parse_link(s, pos)->Ok_0.0.wf(),
        pos <= parse_link(s, pos)->Ok_0.1 <= s.len(),
        parse_link(s, pos)->Ok_0.0.encoding() == s.subrange(pos, parse_link(s, pos)->Ok_0.1),
{
    let l = parse_link(s, pos)->Ok_0.0;
    let end = parse_link(s, pos)->Ok_0.1;
    let n = s[pos + 9] as nat;
    lemma_tos_list_written(s, pos + 12, n);
    lemma_be32_write(s, pos);
    lemma_be32_write(s, pos + 4);
    lemma_be16_write(s, pos + 10);
    assert(seq![l.link_type, l.tos_num] =~= s.subrange(pos + 8, pos + 10));
    assert(l.encoding() =~= s.subrange(pos, pos + 4) + s.subrange(pos + 4, pos + 8) + s.subrange(
        pos + 8,
        pos + 10,
    ) + s.subrange(pos + 10, pos + 12) + s.subrange(pos + 12, end));
    assert(l.encoding() =~= s.subrange(pos, end));
}

/// The links that were read are as many as were asked for, each is
/// well-formed, and together they encode to the bytes they were read from.
pub proof fn lemma_links_written(s: Seq<u8>, pos: int, n: nat)
    requires
        0 <= pos <= s.len(),
        parse_links(s, pos, n) is Ok,
    ensures
        parse_links(s, pos, n)->Ok_0.0.len() == n,
        forall|i: int| 0 <= i < n ==> (#[trigger] parse_links(s, pos, n)->Ok_0.0[i]).wf(),
        pos <= parse_links(s, pos, n)->Ok_0.1 <= s.len(),
        links_encoding(parse_links(s, pos, n)->Ok_0.0) == s.subrange(
            pos,
            parse_links(s, pos, n)->Ok_0.1,
        ),
    decreases n,
{
    if n > 0 {
        let before = parse_links(s, pos, (n - 1) as nat);
        lemma_links_written(s, pos, (n - 1) as nat);
        let mid = before->Ok_0.1;
        lemma_link_written(s, mid);
        let links = parse_links(s, pos, n)->Ok_0.0;
        let end = parse_links(s, pos, n)->Ok_0.1;
        assert(links.drop_last() =~= before->Ok_0.0);
        assert forall|i: int| 0 <= i < n implies (#[trigger] links[i]).wf() by {
            if i < n - 1 {
                assert(links[i] == before->Ok_0.0[i]);
            }
        }
        assert(s.subrange(pos, mid) + s.subrange(mid, end) =~= s.subrange(pos, end));
    } else {
        assert(s.subrange(pos, pos) =~= Seq::<u8>::empty());
    }
}

/// A router advertisement that was read is well-formed but for its type
/// byte, and encodes to the bytes it was read from.
#[verifier::rlimit(40)]
pub proof fn lemma_router_written(s: Seq<u8>, pos: int)
    requires
        0 <= pos <= s.len(),
        parse_router(s, pos) is Ok,
    ensures
        parse_router(s, pos)->Ok_0.0.header.ls_type == s[pos + 3],
        s[pos + 3] == LSA_ROUTER ==> parse_router(s, pos)->Ok_0.0.wf(),
        pos <= parse_router(s, pos)->Ok_0.1 <= s.len(),
        parse_router(s, pos)->Ok_0.0.encoding() == s.subrange(
            pos,
            parse_router(s, pos)->Ok_0.1,
        ),
{
    let r = parse_router(s, pos)->Ok_0.0;
    let end = parse_router(s, pos)->Ok_0.1;
    lemma_header_written(s, pos);
    lemma_links_written(s, pos + 24, u16_at(s, pos + 22) as nat);
    lemma_be16_write(s, pos + 20);
    lemma_be16_write(s, pos + 22);
    assert(r.encoding() =~= s.subrange(pos, pos + 20) + s.subrange(pos + 20, pos + 22)
        + s.subrange(pos + 22, pos + 24) + s.subrange(pos + 24, end));
    assert(r.encoding() =~= s.subrange(pos, end));
}

/// A network advertisement that was read is well-formed but for its type
/// byte, and encodes to the bytes it was read from.
pub proof fn lemma_network_written(s: Seq<u8>, pos: int)
    requires
        0 <= pos <= s.len(),
        parse_network(s, pos) is Ok,
    ensures
        parse_network(s, pos)->Ok_0.0.header.ls_type == s[pos + 3],
        s[pos + 3] == LSA_NETWORK ==> parse_network(s, pos)->Ok_0.0.wf(),
        pos <= parse_network(s, pos)->Ok_0.1 <= s.len(),
        parse_network(s, pos)->Ok_0.0.encoding() == s.subrange(
            pos,
            parse_network(s, pos)->Ok_0.1,
        ),
{
    let n = parse_network(s, pos)->Ok_0.0;
    let end = parse_network(s, pos)->Ok_0.1;
    lemma_header_written(s, pos);
    lemma_u32_list_written(s, pos + 24, ((header_at(s, pos).length - 24) / 4) as nat);
    lemma_be32_write(s, pos + 20);
    assert(n.encoding() =~= s.subrange(pos, pos + 20) + s.subrange(pos + 20, pos + 24)
        + s.subrange(pos + 24, end));
    assert(n.encoding() =~= s.subrange(pos, end));
}

/// A summary advertisement that was read encodes to the 28 bytes it was
/// read from.
pub proof fn lemma_sum_written(s: Seq<u8>, pos: int)
    requires
        0 <= pos <= s.len(),
        parse_sum(s, pos) is Ok,
    ensures
        parse_sum(s, pos)->Ok_0.0.header.ls_type == s[pos + 3],
        parse_sum(s, pos)->Ok_0.1 == pos + 28 <= s.len(),
        parse_sum(s, pos)->Ok_0.0.encoding() == s.subrange(pos, pos + 28),
{
    let m = parse_sum(s, pos)->Ok_0.0;
    lemma_header_written(s, pos);
    lemma_be32_write(s, pos + 20);
    lemma_be32_write(s, pos + 24);
    assert(m.encoding() =~= s.subrange(pos, pos + 20) + s.subrange(pos + 20, pos + 24)
        + s.subrange(pos + 24, pos + 28));
    assert(m.encoding() =~= s.subrange(pos, pos + 28));
}

/// An external advertisement that was read encodes to the 36 bytes it was
/// read from.
#[verifier::rlimit(40)]
pub proof fn lemma_asexternal_written(s: Seq<u8>, pos: int)
    requires
        0 <= pos <= s.len(),
        parse_asexternal(s, pos) is Ok,
    ensures
        parse_asexternal(s, pos)->Ok_0.0.header.ls_type == s[pos + 3],
        parse_asexternal(s, pos)->Ok_0.1 == pos + 36 <= s.len(),
        parse_asexternal(s, pos)->Ok_0.0.encoding() == s.subrange(pos, pos + 36),
{
    let x = parse_asexternal(s, pos)->Ok_0.0;
    lemma_header_written(s, pos);
    lemma_be32_write(s, pos + 20);
    lemma_be32_write(s, pos + 24);
    lemma_be32_write(s, pos + 28);
    lemma_be32_write(s, pos + 32);
    lemma_subrange_join(s, pos, pos + 20, pos + 24);
    lemma_subrange_join(s, pos, pos + 24, pos + 28);
    lemma_subrange_join(s, pos, pos + 28, pos + 32);
    lemma_subrange_join(s, pos, pos + 32, pos + 36);
}

/// Two stretches of `s` that meet make one stretch.
pub proof fn lemma_subrange_join(s: Seq<u8>, a: int, b: int, c: int)
    requires
        0 <= a <= b <= c <= s.len(),
    ensures
        s.subrange(a, b) + s.subrange(b, c) == s.subrange(a, c),
{
    assert(s.subrange(a, b) + s.subrange(b, c) =~= s.subrange(a, c));
}

/// An advertisement that was read is well-formed and encodes to the bytes it
/// was read from: writing undoes reading.
pub proof fn lemma_parsed_lsa(s: Seq<u8>, pos: int)
    requires
        0 <= pos <= s.len(),
        parse_lsa(s, pos) is Ok,
    ensures
        parse_lsa(s, pos)->Ok_0.0.wf(),
        pos <= parse_lsa(s, pos)->Ok_0.1 <= s.len(),
        parse_lsa(s, pos)->Ok_0.0.encoding() == s.subrange(pos, parse_lsa(s, pos)->Ok_0.1),
{
    if s[pos + 3] == LSA_ROUTER {
        lemma_router_written(s, pos);
    } else if s[pos + 3] == LSA_NETWORK {
        lemma_network_written(s, pos);
    } else if s[pos + 3] == LSA_SUMNET || s[pos + 3] == LSA_SUMASB {
        lemma_sum_written(s, pos);
    } else {
        lemma_asexternal_written(s, pos);
    }
}

} // verus!
