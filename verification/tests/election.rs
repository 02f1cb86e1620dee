use ospf_core::election::{elect, elect_backup, elect_once, Candidate, Elected, Office};

fn cand(ip: u32, id: u32, pri: u8, dr: u32, bdr: u32) -> Candidate {
    Candidate { ip, id, pri, dr, bdr }
}

fn permutations(items: &[Candidate]) -> Vec<Vec<Candidate>> {
    if items.len() <= 1 {
        return vec![items.to_vec()];
    }
    let mut out = Vec::new();
    for i in 0..items.len() {
        let mut rest = items.to_vec();
        let first = rest.remove(i);
        for mut p in permutations(&rest) {
            p.insert(0, first);
            out.push(p);
        }
    }
    out
}

#[test]
fn three_routers_of_equal_priority_elect_by_router_id() {
    let a = cand(0x0A000001, 1, 1, 0, 0);
    let b = cand(0x0A000002, 2, 1, 0, 0);
    let c = cand(0x0A000003, 3, 1, 0, 0);
    assert_eq!(elect(&vec![a, b], c), Elected { dr: c.ip, bdr: b.ip });
    assert_eq!(elect(&vec![a, c], b), Elected { dr: c.ip, bdr: c.ip });
    assert_eq!(elect(&vec![b, c], a), Elected { dr: c.ip, bdr: c.ip });
}

#[test]
fn three_routers_settle_on_highest_and_second_highest_id() {
    let dr = 0x0A000003;
    let bdr = 0x0A000002;
    let a = cand(0x0A000001, 1, 1, dr, bdr);
    let b = cand(0x0A000002, 2, 1, dr, bdr);
    let c = cand(0x0A000003, 3, 1, dr, bdr);
    assert_eq!(elect(&vec![b, c], a), Elected { dr, bdr });
    assert_eq!(elect(&vec![a, c], b), Elected { dr, bdr });
    assert_eq!(elect(&vec![a, b], c), Elected { dr, bdr });
}

#[test]
fn the_outcome_does_not_depend_on_the_order_of_the_candidates() {
    let others = [
        cand(11, 1, 1, 0, 0),
        cand(12, 2, 5, 12, 0),
        cand(13, 3, 5, 0, 13),
        cand(14, 4, 0, 14, 0),
        cand(15, 5, 2, 0, 15),
    ];
    for me in [cand(20, 9, 1, 0, 0), cand(20, 9, 9, 20, 0), cand(20, 9, 0, 0, 20)] {
        let want = elect(&others.to_vec(), me);
        for p in permutations(&others) {
            assert_eq!(elect(&p, me), want);
        }
    }
}

#[test]
fn one_round_does_not_depend_on_the_order_either() {
    let cands = [
        cand(11, 1, 1, 11, 0),
        cand(12, 2, 1, 12, 0),
        cand(13, 3, 1, 0, 13),
        cand(14, 4, 1, 0, 0),
    ];
    for office in [
        Office::Designated,
        Office::Backup { need_declare: true },
        Office::Backup { need_declare: false },
    ] {
        let want = elect_once(&cands.to_vec(), office);
        for p in permutations(&cands) {
            assert_eq!(elect_once(&p, office), want);
        }
    }
    assert_eq!(elect_once(&cands.to_vec(), Office::Designated), Some(12));
    assert_eq!(elect_once(&cands.to_vec(), Office::Backup { need_declare: true }), Some(13));
    assert_eq!(elect_once(&cands.to_vec(), Office::Backup { need_declare: false }), Some(14));
}

#[test]
fn priority_comes_before_router_id() {
    let low_id_high_pri = cand(11, 1, 2, 0, 0);
    let high_id_low_pri = cand(12, 200, 1, 0, 0);
    assert_eq!(
        elect_once(&vec![high_id_low_pri, low_id_high_pri], Office::Backup { need_declare: false }),
        Some(11)
    );
}

#[test]
fn a_router_of_priority_zero_is_never_elected() {
    let zero = cand(11, 100, 0, 11, 11);
    let one = cand(12, 1, 1, 0, 0);
    assert_eq!(elect_once(&vec![zero], Office::Designated), None);
    assert_eq!(elect_once(&vec![zero], Office::Backup { need_declare: false }), None);
    assert_eq!(elect(&vec![zero], one), Elected { dr: 12, bdr: 0 });
    assert_eq!(elect(&vec![one], cand(11, 100, 0, 0, 0)), Elected { dr: 12, bdr: 12 });
    assert_eq!(elect(&vec![], cand(11, 100, 0, 0, 0)), Elected { dr: 0, bdr: 0 });
}

#[test]
fn without_candidates_nobody_is_elected() {
    assert_eq!(elect_once(&vec![], Office::Designated), None);
    assert_eq!(elect_backup(&vec![]), None);
}

#[test]
fn a_lone_router_becomes_designated_router_and_not_its_own_backup() {
    assert_eq!(elect(&vec![], cand(20, 9, 1, 0, 0)), Elected { dr: 20, bdr: 0 });
}

#[test]
fn a_router_that_joins_does_not_push_the_designated_router_aside() {
    let dr = cand(11, 1, 1, 11, 0);
    let me = cand(20, 9, 1, 0, 0);
    assert_eq!(elect(&vec![dr], me), Elected { dr: 11, bdr: 20 });
}

#[test]
fn declared_backups_come_before_undeclared_routers() {
    let undeclared = cand(11, 50, 9, 0, 0);
    let declared = cand(12, 1, 1, 0, 12);
    assert_eq!(elect_backup(&vec![undeclared, declared]), Some(12));
    assert_eq!(elect_backup(&vec![undeclared]), Some(11));
}

#[test]
fn the_backup_takes_over_when_nobody_declares_itself_designated_router() {
    let backup = cand(11, 1, 1, 0, 11);
    let me = cand(20, 9, 1, 0, 11);
    assert_eq!(elect(&vec![backup], me), Elected { dr: 11, bdr: 11 });
}

#[test]
fn the_designated_router_without_a_backup_steps_down_for_another_claimant() {
    let claimant = cand(11, 1, 1, 11, 0);
    let me = cand(20, 9, 1, 20, 0);
    assert_eq!(elect(&vec![claimant], me), Elected { dr: 11, bdr: 20 });
    assert_eq!(elect(&vec![cand(11, 1, 1, 0, 0)], me), Elected { dr: 20, bdr: 11 });
}

#[test]
fn of_two_equal_candidates_the_first_wins() {
    let first = cand(11, 7, 1, 0, 0);
    let second = cand(12, 7, 1, 0, 0);
    assert_eq!(elect_once(&vec![first, second], Office::Backup { need_declare: false }), Some(11));
    assert_eq!(elect_once(&vec![second, first], Office::Backup { need_declare: false }), Some(12));
}
