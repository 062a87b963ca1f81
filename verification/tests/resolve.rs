use precedence_ladder::{ClaimSet, Hatch, Ladder, Rung, Situation, Verdict, NO_FALLTHROUGH};

fn hatch() -> Hatch {
    Hatch::new("interrupt", "ctrl-c", &[])
}

#[test]
fn a_hatch_cannot_be_empty() {
    // The only door takes a `first`, so the empty set has no spelling.
    assert_eq!(hatch().reserved(), vec!["ctrl-c"]);
}

#[test]
fn a_rung_claiming_a_reserved_trigger_is_inert_while_work_runs() {
    let rogue = Rung::new("rogue", &["ctrl-c", "zz"], "swallow");
    let l = Ladder::new(hatch(), vec![rogue], &["esc"]);
    let claims = ClaimSet::from_names(&["rogue"]);
    let running = Situation {
        claiming: &claims,
        work_running: true,
    };

    assert_eq!(
        l.resolve("ctrl-c", &running),
        Verdict::Escape {
            action: "interrupt"
        }
    );

    // The rogue rung is live and otherwise winning.
    assert_eq!(
        l.resolve("zz", &running),
        Verdict::Claimed {
            claimant: "rogue",
            action: "swallow"
        }
    );
}

#[test]
fn a_reserved_trigger_while_idle_is_unbound() {
    let l = Ladder::new(hatch(), vec![], &["esc"]);
    let none = ClaimSet::default();
    let idle = Situation {
        claiming: &none,
        work_running: false,
    };
    assert_eq!(l.resolve("ctrl-c", &idle), Verdict::Unbound);
    assert_eq!(l.describe("ctrl-c", &idle), None);
}

#[test]
fn order_is_load_bearing() {
    let a = Rung::new("a", &["esc"], "A");
    let b = Rung::new("b", &["esc"], "B");
    let claims = ClaimSet::from_names(&["a", "b"]);
    let s = Situation {
        claiming: &claims,
        work_running: true,
    };
    let ab = Ladder::new(hatch(), vec![a.clone(), b.clone()], &["esc"]);
    let ba = Ladder::new(hatch(), vec![b, a], &["esc"]);
    assert_eq!(
        ab.resolve("esc", &s),
        Verdict::Claimed {
            claimant: "a",
            action: "A"
        }
    );
    assert_eq!(
        ba.resolve("esc", &s),
        Verdict::Claimed {
            claimant: "b",
            action: "B"
        }
    );
}

#[test]
fn fallthrough_only_fires_when_every_claimant_declined() {
    let l = Ladder::new(hatch(), vec![Rung::new("vi", &["esc"], "NORMAL")], &["esc"]);
    let live = ClaimSet::from_names(&["vi"]);
    let none = ClaimSet::default();
    assert_eq!(
        l.resolve(
            "esc",
            &Situation {
                claiming: &live,
                work_running: true
            }
        ),
        Verdict::Claimed {
            claimant: "vi",
            action: "NORMAL"
        }
    );
    assert_eq!(
        l.resolve(
            "esc",
            &Situation {
                claiming: &none,
                work_running: true
            }
        ),
        Verdict::Escape {
            action: "interrupt"
        }
    );
    // Idle, the same declined Esc does not escape.
    assert_eq!(
        l.resolve(
            "esc",
            &Situation {
                claiming: &none,
                work_running: false
            }
        ),
        Verdict::Unbound
    );
}

#[test]
fn an_unregistered_claimant_never_wins() {
    let l = Ladder::new(hatch(), vec![Rung::new("vi", &["esc"], "NORMAL")], &NO_FALLTHROUGH);
    let other = ClaimSet::from_names(&["palette"]);
    assert_eq!(
        l.resolve(
            "esc",
            &Situation {
                claiming: &other,
                work_running: true
            }
        ),
        Verdict::Unbound
    );
}

#[test]
fn claimants_lists_the_table_in_order() {
    let l = Ladder::new(
        hatch(),
        vec![Rung::new("a", &["esc"], "A"), Rung::new("b", &["x"], "B")],
        &NO_FALLTHROUGH,
    );
    assert_eq!(l.claimants(), vec!["a", "b"]);
}

#[test]
fn claimants_keeps_repeated_names() {
    let l = Ladder::new(
        hatch(),
        vec![
            Rung::new("vi", &["esc"], "NORMAL"),
            Rung::new("pager", &["q"], "close"),
            Rung::new("vi", &["i"], "INSERT"),
        ],
        &[],
    );
    assert_eq!(l.claimants(), vec!["vi", "pager", "vi"]);
}

#[test]
fn the_readme_example() {
    let ladder = Ladder::new(
        Hatch::new("interrupt", "ctrl-c", &[]),
        vec![Rung::new("vi-insert", &["esc"], "NORMAL")],
        &["esc"],
    );
    let mut claiming = ClaimSet::default();
    claiming.claiming("vi-insert");
    let working = Situation {
        claiming: &claiming,
        work_running: true,
    };
    assert_eq!(
        ladder.resolve("esc", &working),
        Verdict::Claimed {
            claimant: "vi-insert",
            action: "NORMAL"
        }
    );
    assert_eq!(
        ladder.resolve("ctrl-c", &working),
        Verdict::Escape {
            action: "interrupt"
        }
    );
}

#[test]
fn describe_names_the_action_only_while_it_applies() {
    let l = Ladder::new(Hatch::new("interrupt", "ctrl-c", &[]), vec![], &["esc"]);
    let idle = ClaimSet::default();
    assert_eq!(
        l.describe(
            "ctrl-c",
            &Situation {
                claiming: &idle,
                work_running: false
            }
        ),
        None
    );
    assert_eq!(
        l.describe(
            "ctrl-c",
            &Situation {
                claiming: &idle,
                work_running: true
            }
        ),
        Some("interrupt")
    );
}

#[test]
fn hatch_sizes_and_order() {
    let one = Hatch::new("interrupt", "ctrl-c", &[]);
    let two = Hatch::new("interrupt", "ctrl-c", &["ctrl-\\"]);
    assert_eq!(one.reserved().len(), 1);
    assert_eq!(two.reserved().len(), 2);
    // Sorted, whatever order they were given in; a repeat counts once.
    let many = Hatch::new("stop", "q", &["ctrl-d", "b", "q", "ctrl-c"]);
    assert_eq!(many.reserved(), vec!["b", "ctrl-c", "ctrl-d", "q"]);
    assert_eq!(many.action(), "stop");
}

#[test]
fn claim_sets_are_chainable_and_sorted() {
    let mut c = ClaimSet::default();
    c.claiming("vi-insert").claiming("palette").claiming("vi-insert");
    assert!(c.is_live("palette"));
    assert!(c.is_live("vi-insert"));
    assert!(!c.is_live("vi"));
    assert_eq!(c.names(), vec!["palette", "vi-insert"]);
}

#[test]
fn names_order_by_code_point_with_prefix_first() {
    let r = Rung::new("x", &["ab", "a", "B", "é", "b", ""], "X");
    let l = Ladder::new(hatch(), vec![r], &["zz", "Z", "z"]);
    assert_eq!(l.fallthrough(), vec!["Z", "z", "zz"]);
    let rungs = l.rungs();
    assert_eq!(rungs.len(), 1);
    assert_eq!(rungs[0].triggers.names(), vec!["", "B", "a", "ab", "b", "é"]);
}

#[test]
fn verdict_action_labels() {
    assert_eq!(
        Verdict::Claimed {
            claimant: "c",
            action: "a"
        }
        .action(),
        Some("a")
    );
    assert_eq!(Verdict::Escape { action: "e" }.action(), Some("e"));
    assert_eq!(Verdict::Unbound.action(), None);
}

#[test]
fn getters_read_back_the_table() {
    let l = Ladder::new(
        Hatch::new("interrupt", "ctrl-c", &["ctrl-d"]),
        vec![Rung::new("palette", &["esc"], "close palette")],
        &["esc"],
    );
    assert_eq!(l.hatch().reserved(), vec!["ctrl-c", "ctrl-d"]);
    assert_eq!(l.hatch().action(), "interrupt");
    assert_eq!(l.rungs()[0].claimant, "palette");
    assert_eq!(l.rungs()[0].action, "close palette");
    assert_eq!(l.fallthrough(), vec!["esc"]);
}

#[test]
fn a_declining_rung_inserted_anywhere_changes_nothing() {
    let base = vec![
        Rung::new("palette", &["esc"], "close palette"),
        Rung::new("vi", &["esc"], "NORMAL"),
    ];
    let decliner = Rung::new("pager", &["esc"], "close pager");
    let claims = ClaimSet::from_names(&["vi"]);
    for running in [true, false] {
        let s = Situation {
            claiming: &claims,
            work_running: running,
        };
        let plain = Ladder::new(hatch(), base.clone(), &["esc"]);
        for k in 0..=base.len() {
            let mut rungs = base.clone();
            rungs.insert(k, decliner.clone());
            let grown = Ladder::new(hatch(), rungs, &["esc"]);
            for t in ["esc", "ctrl-c", "q"] {
                assert_eq!(grown.resolve(t, &s), plain.resolve(t, &s));
            }
        }
    }
}

#[test]
fn no_fallthrough_is_the_empty_set() {
    let l = Ladder::new(Hatch::new("interrupt", "ctrl-c", &[]), vec![], &NO_FALLTHROUGH);
    assert_eq!(l.fallthrough().len(), 0);
}
