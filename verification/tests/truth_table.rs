//! The whole input space of the shipped five-claimant table, walked and
//! tallied: 2^5 claim sets x 3 triggers x 2 work states = 192 cases.
use precedence_ladder::{ClaimSet, Hatch, Ladder, Rung, Situation, Verdict};
use std::collections::BTreeMap;

/// The five claimants of the shipped table, in precedence order.
const CLAIMANTS: [&str; 5] = ["palette", "vi-confirm", "vi-ex", "vi-insert", "vi-pending"];

/// `esc` (fallthrough), `ctrl-c` (reserved), and one unknown trigger.
const TRIGGERS: [&str; 3] = ["esc", "ctrl-c", "ctrl-x"];

fn newt_ladder() -> Ladder {
    Ladder::new(
        Hatch::new("interrupt", "ctrl-c", &[]),
        vec![
            Rung::new("palette", &["esc"], "close palette"),
            Rung::new("vi-confirm", &["esc"], "cancel [y/N]"),
            Rung::new("vi-ex", &["esc"], "cancel :"),
            Rung::new("vi-insert", &["esc"], "NORMAL"),
            Rung::new("vi-pending", &["esc"], "cancel operator"),
        ],
        &["esc"],
    )
}

/// The `bits`-th subset of `CLAIMANTS`.
fn claim_set(bits: u32) -> ClaimSet {
    let mut c = ClaimSet::default();
    for (i, name) in CLAIMANTS.iter().enumerate() {
        if bits & (1 << i) != 0 {
            c.claiming(name);
        }
    }
    c
}

#[derive(Debug, Default, PartialEq, Eq)]
struct Tally {
    cases: usize,
    claimed: usize,
    escape: usize,
    unbound: usize,
    winners: BTreeMap<String, usize>,
}

fn walk(ladder: &Ladder) -> Tally {
    let mut t = Tally::default();
    for bits in 0..(1u32 << CLAIMANTS.len()) {
        let claiming = claim_set(bits);
        for trigger in TRIGGERS {
            for work_running in [true, false] {
                let s = Situation {
                    claiming: &claiming,
                    work_running,
                };
                let verdict = ladder.resolve(trigger, &s);
                t.cases += 1;

                if work_running && ladder.hatch().reserved().iter().any(|r| *r == trigger) {
                    assert!(
                        matches!(verdict, Verdict::Escape { .. }),
                        "reserved trigger {:?} did not escape while work was running: {:?} {:?}",
                        trigger,
                        claiming.names(),
                        verdict
                    );
                }

                assert_eq!(
                    ladder.describe(trigger, &s),
                    verdict.action(),
                    "describe disagreed with resolve on {trigger:?} \
                     (work_running={work_running}, claiming {:?})",
                    claiming.names()
                );

                match verdict {
                    Verdict::Claimed { claimant, .. } => {
                        t.claimed += 1;
                        *t.winners.entry(claimant.to_string()).or_default() += 1;
                    }
                    Verdict::Escape { .. } => t.escape += 1,
                    Verdict::Unbound => t.unbound += 1,
                }
            }
        }
    }
    t
}

#[test]
fn the_whole_input_space() {
    let t = walk(&newt_ladder());

    assert_eq!(
        t.cases,
        (1usize << CLAIMANTS.len()) * TRIGGERS.len() * 2,
        "the grid did not cover the whole input space"
    );
    assert_eq!(t.cases, 192, "2^5 claim sets x 3 triggers x 2 work states");
    assert_eq!(t.escape, 33, "32 reserved-while-running + 1 esc fallthrough");
    assert_eq!(t.claimed, 62, "31 live-claimant subsets x 2 work states");
    assert_eq!(t.unbound, 97, "64 unbound trigger + 32 idle ctrl-c + 1 idle esc");
    assert_eq!(t.claimed + t.escape + t.unbound, t.cases, "cases unaccounted");

    for (name, n) in [
        ("claimed", t.claimed),
        ("escape", t.escape),
        ("unbound", t.unbound),
    ] {
        assert!(n > 0, "the grid never produced a single {name} verdict");
    }

    assert_eq!(
        t.winners,
        BTreeMap::from([
            ("palette".to_string(), 32),
            ("vi-confirm".to_string(), 16),
            ("vi-ex".to_string(), 8),
            ("vi-insert".to_string(), 4),
            ("vi-pending".to_string(), 2),
        ]),
        "first-match-wins distribution changed"
    );

    for c in CLAIMANTS {
        assert!(t.winners.contains_key(c), "rung {c:?} never fired");
    }
}

#[test]
fn reversing_the_rungs_inverts_the_distribution() {
    let mut rungs = newt_ladder().rungs().to_vec();
    rungs.reverse();
    let reversed = Ladder::new(Hatch::new("interrupt", "ctrl-c", &[]), rungs, &["esc"]);

    let t = walk(&reversed);
    assert_eq!((t.cases, t.claimed, t.escape, t.unbound), (192, 62, 33, 97));
    assert_eq!(
        t.winners,
        BTreeMap::from([
            ("vi-pending".to_string(), 32),
            ("vi-insert".to_string(), 16),
            ("vi-ex".to_string(), 8),
            ("vi-confirm".to_string(), 4),
            ("palette".to_string(), 2),
        ]),
        "reversing the table did not invert the winners"
    );
}

#[test]
fn moving_the_reservation_moves_the_escapes() {
    let moved = Ladder::new(
        Hatch::new("interrupt", "esc", &[]),
        newt_ladder().rungs().to_vec(),
        &["esc"],
    );
    let t = walk(&moved);

    assert_eq!(t.escape, 32, "every running esc must reach the hatch");
    assert_eq!(t.claimed, 31, "only the idle half can still be claimed");
    assert_eq!(t.unbound, 129);
    assert_eq!(t.cases, 192);
    assert_ne!(
        t.winners,
        walk(&newt_ladder()).winners,
        "moving the reservation left the distribution unchanged"
    );
}

#[test]
fn a_rogue_rung_cannot_swallow_the_hatch() {
    let mut rungs = vec![Rung::new("rogue", &["ctrl-c", "zz"], "swallow")];
    rungs.extend(newt_ladder().rungs().to_vec());
    let rogue = Ladder::new(Hatch::new("interrupt", "ctrl-c", &[]), rungs, &["esc"]);

    let mut checked = 0;
    for bits in 0..(1u32 << CLAIMANTS.len()) {
        let mut claiming = claim_set(bits);
        claiming.claiming("rogue");
        let running = Situation {
            claiming: &claiming,
            work_running: true,
        };
        assert_eq!(
            rogue.resolve("ctrl-c", &running),
            Verdict::Escape {
                action: "interrupt"
            },
            "the rogue rung swallowed the hatch with claims {:?}",
            claiming.names()
        );

        // The rogue rung is live and otherwise winning.
        assert_eq!(
            rogue.resolve("zz", &running),
            Verdict::Claimed {
                claimant: "rogue",
                action: "swallow"
            },
            "the rogue rung is not live"
        );
        checked += 1;
    }
    assert_eq!(checked, 32, "the rogue sweep did not cover the claim space");

    assert_eq!(rogue.collisions().len(), 1, "{:?}", rogue.collisions());
}
