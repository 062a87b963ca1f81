use precedence_ladder::{ClaimSet, Collision, Hatch, Ladder, Rung, Situation, Verdict, NO_FALLTHROUGH};

fn hatch() -> Hatch {
    Hatch::new("interrupt", "ctrl-c", &[])
}

#[test]
fn a_clean_table_has_no_collisions() {
    let l = Ladder::new(
        hatch(),
        vec![
            Rung::new("palette", &["esc"], "close palette"),
            Rung::new("vi-insert", &["esc"], "NORMAL"),
        ],
        &["esc"],
    );
    assert_eq!(l.collisions(), vec![]);
    assert_eq!(l.rungs().len(), 2, "the scan had rows to look at");
}

#[test]
fn a_rogue_table_is_reported_and_still_resolves_safely() {
    let l = Ladder::new(
        hatch(),
        vec![Rung::new("rogue", &["ctrl-c"], "swallow")],
        &["ctrl-c", "esc"],
    );
    assert_eq!(
        l.collisions(),
        vec![
            Collision::ReservedByHatch {
                claimant: "rogue".into(),
                trigger: "ctrl-c".into()
            },
            Collision::ReservedFallthrough {
                trigger: "ctrl-c".into()
            },
        ]
    );
    let claims = ClaimSet::from_names(&["rogue"]);
    assert_eq!(
        l.resolve(
            "ctrl-c",
            &Situation {
                claiming: &claims,
                work_running: true
            }
        ),
        Verdict::Escape {
            action: "interrupt"
        }
    );
}

#[test]
fn a_repeated_claimant_trigger_pair_is_dead() {
    let l = Ladder::new(
        hatch(),
        vec![
            Rung::new("vi", &["esc"], "NORMAL"),
            Rung::new("other", &["esc"], "close"),
            Rung::new("vi", &["esc"], "unreachable"),
        ],
        &NO_FALLTHROUGH,
    );
    assert_eq!(
        l.collisions(),
        vec![Collision::DeadRung {
            claimant: "vi".into(),
            trigger: "esc".into(),
            shadowed_by: 0,
        }]
    );
}

#[test]
fn two_claimants_sharing_a_trigger_is_not_a_collision() {
    let l = Ladder::new(
        hatch(),
        vec![Rung::new("a", &["esc"], "A"), Rung::new("b", &["esc"], "B")],
        &NO_FALLTHROUGH,
    );
    assert_eq!(l.collisions(), vec![]);
}

#[test]
fn the_pager_example_collides_with_the_hatch() {
    let l = Ladder::new(
        hatch(),
        vec![Rung::new("pager", &["ctrl-c"], "close")],
        &["esc"],
    );
    assert_eq!(
        l.collisions(),
        vec![Collision::ReservedByHatch {
            claimant: "pager".into(),
            trigger: "ctrl-c".into(),
        }]
    );
}

#[test]
fn findings_come_in_table_then_name_order() {
    let l = Ladder::new(
        Hatch::new("interrupt", "ctrl-c", &["ctrl-d"]),
        vec![
            Rung::new("vi", &["esc", "ctrl-d"], "NORMAL"),
            Rung::new("pager", &["q"], "close"),
            Rung::new("vi", &["q", "esc", "ctrl-d"], "again"),
            Rung::new("vi", &["esc"], "third"),
        ],
        &["esc", "ctrl-d", "ctrl-c"],
    );
    assert_eq!(
        l.collisions(),
        vec![
            Collision::ReservedByHatch {
                claimant: "vi".into(),
                trigger: "ctrl-d".into()
            },
            Collision::ReservedByHatch {
                claimant: "vi".into(),
                trigger: "ctrl-d".into()
            },
            Collision::DeadRung {
                claimant: "vi".into(),
                trigger: "ctrl-d".into(),
                shadowed_by: 0
            },
            Collision::DeadRung {
                claimant: "vi".into(),
                trigger: "esc".into(),
                shadowed_by: 0
            },
            Collision::DeadRung {
                claimant: "vi".into(),
                trigger: "esc".into(),
                shadowed_by: 0
            },
            Collision::ReservedFallthrough {
                trigger: "ctrl-c".into()
            },
            Collision::ReservedFallthrough {
                trigger: "ctrl-d".into()
            },
        ]
    );
}

#[test]
fn a_dead_rung_never_answers() {
    let rungs = vec![
        Rung::new("vi", &["esc"], "NORMAL"),
        Rung::new("other", &["esc"], "close"),
        Rung::new("vi", &["esc"], "unreachable"),
    ];
    let full = Ladder::new(hatch(), rungs.clone(), &["esc"]);
    let mut trimmed_rungs = rungs;
    trimmed_rungs.remove(2);
    let trimmed = Ladder::new(hatch(), trimmed_rungs, &["esc"]);
    for names in [&["vi"][..], &["other"][..], &[][..], &["vi", "other"][..]] {
        let claims = ClaimSet::from_names(names);
        for running in [true, false] {
            let s = Situation {
                claiming: &claims,
                work_running: running,
            };
            assert_eq!(full.resolve("esc", &s), trimmed.resolve("esc", &s));
        }
    }
}

#[test]
fn a_reserved_fallthrough_trigger_changes_no_verdict() {
    let rungs = vec![Rung::new("vi", &["esc", "ctrl-c"], "NORMAL")];
    let listed = Ladder::new(hatch(), rungs.clone(), &["ctrl-c", "esc"]);
    let unlisted = Ladder::new(hatch(), rungs, &["esc"]);
    for names in [&["vi"][..], &[][..]] {
        let claims = ClaimSet::from_names(names);
        for running in [true, false] {
            let s = Situation {
                claiming: &claims,
                work_running: running,
            };
            assert_eq!(listed.resolve("ctrl-c", &s), unlisted.resolve("ctrl-c", &s));
        }
    }
}
