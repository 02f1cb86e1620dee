//! Election of the designated router and its backup on one network.

use vstd::prelude::*;

verus! {

/// What one router brings to an election.
#[derive(Debug, Clone, Copy, PartialEq, Eq, Structural)]
pub struct Candidate {
    /// The router's address on the network.
    pub ip: u32,
    /// The router's identifier.
    pub id: u32,
    /// The router's priority; a router of priority 0 is never elected.
    pub pri: u8,
    /// The address of the router that this one declares designated router.
    pub dr: u32,
    /// The address of the router that this one declares backup.
    pub bdr: u32,
}

/// The office that a round of the election fills.
#[derive(Debug, Clone, Copy, PartialEq, Eq, Structural)]
pub enum Office {
    /// Backup designated router. With `need_declare`, only routers that
    /// declare themselves backup can win.
    Backup { need_declare: bool },
    /// Designated router.
    Designated,
}

/// What an election decides. An address of 0 stands for "none".
#[derive(Debug, Clone, Copy, PartialEq, Eq, Structural)]
pub struct Elected {
    pub dr: u32,
    pub bdr: u32,
}

impl Candidate {
    /// The router declares itself designated router.
    pub open spec fn declares_dr(self) -> bool {
        self.ip == self.dr
    }

    /// The router declares itself backup designated router.
    pub open spec fn declares_bdr(self) -> bool {
        self.ip == self.bdr
    }

    /// The router can win `office`: its priority is not 0; for designated
    /// router it declares itself that; for backup it does not declare itself
    /// designated router and, where that is asked for, declares itself backup.
    pub open spec fn eligible(self, office: Office) -> bool {
        self.pri > 0 && match office {
            Office::Designated => self.declares_dr(),
            Office::Backup { need_declare } => !self.declares_dr() && (self.declares_bdr()
                || !need_declare),
        }
    }

    /// The router comes before `other`: by higher priority, then by higher
    /// identifier.
    pub open spec fn beats(self, other: Candidate) -> bool {
        self.pri > other.pri || (self.pri == other.pri && self.id > other.id)
    }

    /// Whether the router can win `office`.
    pub fn is_eligible(&self, office: Office) -> (e: bool)
        ensures
            e == self.eligible(office),
    {
        self.pri > 0 && match office {
            Office::Designated => self.ip == self.dr,
            Office::Backup { need_declare } => self.ip != self.dr && (self.ip == self.bdr
                || !need_declare),
        }
    }

    /// Whether the router comes before `other`.
    pub fn comes_before(&self, other: &Candidate) -> (b: bool)
        ensures
            b == self.beats(*other),
    {
        self.pri > other.pri || (self.pri == other.pri && self.id > other.id)
    }
}

/// Candidate `i` wins `office`: it is eligible, no eligible candidate comes
/// before it, and it comes before every eligible candidate that stands
/// earlier in the list.
pub open spec fn wins(cands: Seq<Candidate>, i: int, office: Office) -> bool {
    &&& 0 <= i < cands.len()
    &&& cands[i].eligible(office)
    &&& forall|j: int|
        0 <= j < cands.len() && (#[trigger] cands[j]).eligible(office) ==> !cands[j].beats(
            cands[i],
        ) && (j < i ==> cands[i].beats(cands[j]))
}

/// The address of the candidate that wins `office`, if any candidate is
/// eligible.
pub open spec fn elected(cands: Seq<Candidate>, office: Office) -> Option<u32> {
    if exists|i: int| wins(cands, i, office) {
        Some(cands[choose|i: int| wins(cands, i, office)].ip)
    } else {
        None
    }
}

/// At most one candidate wins an office.
pub proof fn lemma_winner_unique(cands: Seq<Candidate>, i: int, k: int, office: Office)
    requires
        wins(cands, i, office),
        wins(cands, k, office),
    ensures
        i == k,
{
    if i < k {
        assert(cands[i].eligible(office));
        assert(cands[k].beats(cands[i]));
    } else if k < i {
        assert(cands[k].eligible(office));
        assert(cands[i].beats(cands[k]));
    }
}

/// One round of the election: the address of the winner of `office` among
/// `cands`, or `None` where no candidate is eligible.
#[verifier::rlimit(40)]
pub fn elect_once(cands: &Vec<Candidate>, office: Office) -> (winner: Option<u32>)
    ensures
        winner == elected(cands@, office),
        winner is None <==> forall|j: int|
            0 <= j < cands@.len() ==> !(#[trigger] cands@[j]).eligible(office),
{
    let mut best: Option<usize> = None;
    let mut k: usize = 0;
    while k < cands.len()
        invariant
            k <= cands.len(),
            match best {
                None => forall|j: int| 0 <= j < k ==> !(#[trigger] cands@[j]).eligible(office),
                Some(b) => b < k && wins(cands@.take(k as int), b as int, office),
            },
        decreases cands.len() - k,
    {
        let c = &cands[k];
        let ghost before = cands@.take(k as int);
        let ghost after = cands@.take(k + 1);
        proof {
            assert forall|j: int| 0 <= j < k implies after[j] == before[j] by {}
            assert(after[k as int] == cands@[k as int]);
        }
        if c.is_eligible(office) {
            match best {
                None => {
                    best = Some(k);
                    assert(wins(after, k as int, office));
                },
                Some(b) => {
                    if c.comes_before(&cands[b]) {
                        proof {
                            assert forall|j: int|
                                0 <= j < after.len() && (#[trigger] after[j]).eligible(
                                    office,
                                ) implies !after[j].beats(after[k as int]) && (j < k
                                ==> after[k as int].beats(after[j])) by {
                                if j < k {
                                    assert(before[j].eligible(office));
                                    assert(!before[j].beats(before[b as int]));
                                }
                            }
                            assert(wins(after, k as int, office));
                        }
                        best = Some(k);
                    } else {
                        proof {
                            assert forall|j: int|
                                0 <= j < after.len() && (#[trigger] after[j]).eligible(
                                    office,
                                ) implies !after[j].beats(after[b as int]) && (j < b
                                ==> after[b as int].beats(after[j])) by {
                                if j < k {
                                    assert(before[j].eligible(office));
                                }
                            }
                            assert(wins(after, b as int, office));
                        }
                    }
                },
            }
        } else {
            proof {
                match best {
                    None => {},
                    Some(b) => {
                        assert forall|j: int|
                            0 <= j < after.len() && (#[trigger] after[j]).eligible(
                                office,
                            ) implies !after[j].beats(after[b as int]) && (j < b
                            ==> after[b as int].beats(after[j])) by {
                            if j < k {
                                assert(before[j].eligible(office));
                            }
                        }
                        assert(wins(after, b as int, office));
                    },
                }
            }
        }
        k += 1;
    }
    proof {
        assert(cands@.take(k as int) =~= cands@);
    }
    match best {
        None => {
            proof {
                assert forall|i: int| !wins(cands@, i, office) by {
                    if 0 <= i < cands@.len() {
                        assert(!cands@[i].eligible(office));
                    }
                }
            }
            None
        },
        Some(b) => {
            proof {
                let w = choose|i: int| wins(cands@, i, office);
                lemma_winner_unique(cands@, b as int, w, office);
                assert(cands@[b as int].eligible(office));
            }
            Some(cands[b].ip)
        },
    }
}

/// The backup that `cands` elect: the winner among those that declare
/// themselves backup, or, where nobody does, among all that do not declare
/// themselves designated router.
pub open spec fn elected_backup(cands: Seq<Candidate>) -> Option<u32> {
    match elected(cands, Office::Backup { need_declare: true }) {
        Some(ip) => Some(ip),
        None => elected(cands, Office::Backup { need_declare: false }),
    }
}

/// The address inside, or 0 for none.
pub open spec fn or_zero(a: Option<u32>) -> u32 {
    match a {
        Some(ip) => ip,
        None => 0,
    }
}

/// What the routers `others` and this router, `me`, elect. `me.dr` and
/// `me.bdr` are what this router held before the election.
///
/// The backup is elected first, then the designated router, which is the
/// backup where nobody declares itself designated router. Where no backup
/// was found, this router takes that office if it can be elected and is not
/// the designated router; if it is, the designated router is elected again
/// without this router's own declaration, and where that finds another
/// router, that one becomes designated router and this router the backup.
/// Where this router was not the designated router before and is now, the
/// backup is elected again with this router declaring itself designated
/// router, so that it does not hold both offices.
pub open spec fn election(others: Seq<Candidate>, me: Candidate) -> Elected {
    let cands = others.push(me);
    let bdr1 = elected_backup(cands);
    let dr1 = match elected(cands, Office::Designated) {
        Some(ip) => Some(ip),
        None => bdr1,
    };
    let without_me = elected(others.push(Candidate { dr: 0, ..me }), Office::Designated);
    let promote = bdr1 is None && me.pri > 0;
    let dr2 = if promote && dr1 == Some(me.ip) && without_me is Some {
        without_me
    } else {
        dr1
    };
    let bdr2 = if promote && (dr1 != Some(me.ip) || without_me is Some) {
        Some(me.ip)
    } else {
        bdr1
    };
    let bdr3 = if dr2 == Some(me.ip) && me.dr != me.ip {
        elected_backup(others.push(Candidate { dr: me.ip, ..me }))
    } else {
        bdr2
    };
    Elected { dr: or_zero(dr2), bdr: or_zero(bdr3) }
}

/// Elects the backup among `cands`.
pub fn elect_backup(cands: &Vec<Candidate>) -> (winner: Option<u32>)
    ensures
        winner == elected_backup(cands@),
{
    match elect_once(cands, Office::Backup { need_declare: true }) {
        Some(ip) => Some(ip),
        None => elect_once(cands, Office::Backup { need_declare: false }),
    }
}

/// A copy of `others` with `me` added at the end.
pub fn with_candidate(others: &Vec<Candidate>, me: Candidate) -> (cands: Vec<Candidate>)
    ensures
        cands@ == others@.push(me),
{
    let mut cands = others.clone();
    assert(cands@ =~= others@);
    cands.push(me);
    cands
}

/// Runs the election among `others` and this router.
pub fn elect(others: &Vec<Candidate>, me: Candidate) -> (r: Elected)
    ensures
        r == election(others@, me),
{
    let cands = with_candidate(others, me);
    let bdr1 = elect_backup(&cands);
    let dr1 = match elect_once(&cands, Office::Designated) {
        Some(ip) => Some(ip),
        None => bdr1,
    };
    let mut dr = dr1;
    let mut bdr = bdr1;
    let me_is_dr = match dr1 {
        Some(ip) => ip == me.ip,
        None => false,
    };
    if bdr1.is_none() && me.pri > 0 {
        if !me_is_dr {
            bdr = Some(me.ip);
        } else {
            let undeclared = Candidate { ip: me.ip, id: me.id, pri: me.pri, dr: 0, bdr: me.bdr };
            let again = with_candidate(others, undeclared);
            let without_me = elect_once(&again, Office::Designated);
            if without_me.is_some() {
                bdr = Some(me.ip);
                dr = without_me;
            }
        }
    }
    let now_dr = match dr {
        Some(ip) => ip == me.ip,
        None => false,
    };
    if now_dr && me.dr != me.ip {
        let declared = Candidate { ip: me.ip, id: me.id, pri: me.pri, dr: me.ip, bdr: me.bdr };
        let again = with_candidate(others, declared);
        bdr = elect_backup(&again);
    }
    Elected {
        dr: match dr {
            Some(ip) => ip,
            None => 0,
        },
        bdr: match bdr {
            Some(ip) => ip,
            None => 0,
        },
    }
}

/// No two candidates have the same identifier.
pub open spec fn distinct_ids(cands: Seq<Candidate>) -> bool {
    forall|i: int, j: int|
        0 <= i < cands.len() && 0 <= j < cands.len() && i != j ==> (#[trigger] cands[i]).id != (
        #[trigger] cands[j]).id
}

/// Among candidates with distinct identifiers, one round of the election
/// depends only on who the candidates are, not on the order they are listed
/// in.
#[verifier::rlimit(40)]
pub proof fn lemma_round_order_free(a: Seq<Candidate>, b: Seq<Candidate>, office: Office)
    requires
        a.to_multiset() == b.to_multiset(),
        distinct_ids(a),
    ensures
        elected(a, office) == elected(b, office),
{
    a.to_multiset_ensures();
    b.to_multiset_ensures();
    assert forall|c: Candidate| a.contains(c) <==> b.contains(c) by {
        assert(a.to_multiset().count(c) == b.to_multiset().count(c));
        assert(a.contains(c) <==> a.to_multiset().count(c) > 0);
        assert(b.contains(c) <==> b.to_multiset().count(c) > 0);
    }
    if exists|i: int| wins(a, i, office) {
        let i = choose|i: int| wins(a, i, office);
        let c = a[i];
        assert(a.contains(c));
        assert(b.contains(c));
        let k = choose|k: int| 0 <= k < b.len() && b[k] == c;
        assert forall|j: int| 0 <= j < b.len() && (#[trigger] b[j]).eligible(office) implies !b[j].beats(
            b[k],
        ) && (j < k ==> b[k].beats(b[j])) by {
            assert(b.contains(b[j]));
            assert(a.contains(b[j]));
            let m = choose|m: int| 0 <= m < a.len() && a[m] == b[j];
            assert(a[m].eligible(office));
            assert(!a[m].beats(a[i]));
            if j < k {
                if b[j] == c {
                    assert(b.to_multiset().count(c) >= 2) by {
                        lemma_count_two(b, j, k);
                    }
                    assert(a.to_multiset().count(c) >= 2);
                    let at = lemma_two_places(a, c);
                    assert(a[at.0].id != a[at.1].id);
                } else if m != i {
                    assert(a[m].id != a[i].id);
                }
            }
        }
        assert(wins(b, k, office));
        let w = choose|w: int| wins(b, w, office);
        lemma_winner_unique(b, k, w, office);
    } else {
        if exists|k: int| wins(b, k, office) {
            let k = choose|k: int| wins(b, k, office);
            let c = b[k];
            assert(b.contains(c));
            assert(a.contains(c));
            let i = choose|i: int| 0 <= i < a.len() && a[i] == c;
            assert forall|j: int|
                0 <= j < a.len() && (#[trigger] a[j]).eligible(office) implies !a[j].beats(a[i])
                && (j < i ==> a[i].beats(a[j])) by {
                assert(a.contains(a[j]));
                assert(b.contains(a[j]));
                let m = choose|m: int| 0 <= m < b.len() && b[m] == a[j];
                assert(b[m].eligible(office));
                assert(!b[m].beats(b[k]));
                if j < i {
                    assert(a[j].id != a[i].id);
                }
            }
            assert(wins(a, i, office));
        }
    }
}

/// A value that stands at two places of a sequence occurs at least twice in
/// it.
pub proof fn lemma_count_two(s: Seq<Candidate>, j: int, k: int)
    requires
        0 <= j < k < s.len(),
        s[j] == s[k],
    ensures
        s.to_multiset().count(s[j]) >= 2,
    decreases s.len(),
{
    let c = s[j];
    let init = s.drop_last();
    assert(s =~= init.push(s.last()));
    vstd::seq_lib::to_multiset_build(init, s.last());
    assert(s.to_multiset() =~= init.to_multiset().insert(s.last()));
    if k == s.len() - 1 {
        init.to_multiset_ensures();
        assert(init[j] == c);
        assert(init.contains(c));
        assert(init.to_multiset().count(c) >= 1);
    } else {
        lemma_count_two(init, j, k);
    }
}

/// A value that occurs at least twice in a sequence stands at two places of
/// it.
pub proof fn lemma_two_places(s: Seq<Candidate>, c: Candidate) -> (at: (int, int))
    requires
        s.to_multiset().count(c) >= 2,
    ensures
        0 <= at.0 < at.1 < s.len(),
        s[at.0] == c,
        s[at.1] == c,
    decreases s.len(),
{
    if s.len() == 0 {
        s.to_multiset_ensures();
        assert(s.to_multiset().len() == 0);
        assert(s.to_multiset().count(c) == 0);
        (0, 0)
    } else {
        let init = s.drop_last();
        assert(s =~= init.push(s.last()));
        vstd::seq_lib::to_multiset_build(init, s.last());
        assert(s.to_multiset() =~= init.to_multiset().insert(s.last()));
        if s.last() == c {
            init.to_multiset_ensures();
            assert(init.to_multiset().count(c) >= 1);
            assert(init.contains(c));
            let m = choose|m: int| 0 <= m < init.len() && init[m] == c;
            (m, s.len() - 1)
        } else {
            let at = lemma_two_places(init, c);
            at
        }
    }
}

/// The outcome of an election depends only on who the other candidates are,
/// not on the order they are listed in, as long as no two routers on the
/// network have the same identifier.
#[verifier::rlimit(40)]
pub proof fn lemma_election_order_free(a: Seq<Candidate>, b: Seq<Candidate>, me: Candidate)
    requires
        a.to_multiset() == b.to_multiset(),
        distinct_ids(a.push(me)),
    ensures
        election(a, me) == election(b, me),
{
    let undeclared = Candidate { dr: 0, ..me };
    let declared = Candidate { dr: me.ip, ..me };
    vstd::seq_lib::to_multiset_build(a, me);
    vstd::seq_lib::to_multiset_build(b, me);
    vstd::seq_lib::to_multiset_build(a, undeclared);
    vstd::seq_lib::to_multiset_build(b, undeclared);
    vstd::seq_lib::to_multiset_build(a, declared);
    vstd::seq_lib::to_multiset_build(b, declared);
    assert(a.push(me).to_multiset() =~= b.push(me).to_multiset());
    assert(a.push(undeclared).to_multiset() =~= b.push(undeclared).to_multiset());
    assert(a.push(declared).to_multiset() =~= b.push(declared).to_multiset());
    assert(distinct_ids(a.push(undeclared))) by {
        assert forall|i: int, j: int|
            0 <= i < a.len() + 1 && 0 <= j < a.len() + 1 && i != j implies (#[trigger] a.push(
                undeclared,
            )[i]).id != (#[trigger] a.push(undeclared)[j]).id by {
            assert(a.push(me)[i].id == a.push(undeclared)[i].id);
            assert(a.push(me)[j].id == a.push(undeclared)[j].id);
        }
    }
    assert(distinct_ids(a.push(declared))) by {
        assert forall|i: int, j: int|
            0 <= i < a.len() + 1 && 0 <= j < a.len() + 1 && i != j implies (#[trigger] a.push(
                declared,
            )[i]).id != (#[trigger] a.push(declared)[j]).id by {
            assert(a.push(me)[i].id == a.push(declared)[i].id);
            assert(a.push(me)[j].id == a.push(declared)[j].id);
        }
    }
    lemma_round_order_free(a.push(me), b.push(me), Office::Backup { need_declare: true });
    lemma_round_order_free(a.push(me), b.push(me), Office::Backup { need_declare: false });
    lemma_round_order_free(a.push(me), b.push(me), Office::Designated);
    lemma_round_order_free(a.push(undeclared), b.push(undeclared), Office::Designated);
    lemma_round_order_free(
        a.push(declared),
        b.push(declared),
        Office::Backup { need_declare: true },
    );
    lemma_round_order_free(
        a.push(declared),
        b.push(declared),
        Office::Backup { need_declare: false },
    );
}

} // verus!
