//! What holds of every ladder.
//!
//! Each law is stated over [`resolve_spec`] and [`collisions_spec`], which
//! the `ensures` of [`crate::Ladder::resolve`], [`crate::Ladder::describe`]
//! and [`crate::Ladder::collisions`] name exactly.
use crate::collide::{
    collisions_spec, fallthrough_findings, first_owner, rung_findings, table_findings,
    trigger_findings, CollisionView,
};
use crate::ladder::{
    first_claim, resolve_spec, rung_claims, HatchView, LadderView, RungView, VerdictView,
};
use vstd::prelude::*;

verus! {

/// `l` with its rungs replaced by `rungs`.
pub open spec fn with_rungs(l: LadderView, rungs: Seq<RungView>) -> LadderView {
    LadderView { hatch: l.hatch, rungs, fallthrough: l.fallthrough }
}

/// `l` with its fallthrough triggers replaced by `fallthrough`.
pub open spec fn with_fallthrough(l: LadderView, fallthrough: Seq<Seq<char>>) -> LadderView {
    LadderView { hatch: l.hatch, rungs: l.rungs, fallthrough }
}

/// Where the first claim of a trigger comes from: the index of the first
/// claiming rung, every earlier rung declining; or no rung claims at all.
pub proof fn lemma_first_claim_index(
    rungs: Seq<RungView>,
    trigger: Seq<char>,
    claiming: Seq<Seq<char>>,
) -> (i: int)
    ensures
        match first_claim(rungs, trigger, claiming) {
            Some(r) => {
                &&& 0 <= i < rungs.len()
                &&& rungs[i] == r
                &&& rung_claims(r, trigger, claiming)
                &&& forall|j: int| 0 <= j < i ==> !rung_claims(#[trigger] rungs[j], trigger, claiming)
            },
            None => forall|j: int|
                0 <= j < rungs.len() ==> !rung_claims(#[trigger] rungs[j], trigger, claiming),
        },
    decreases rungs.len(),
{
    if rungs.len() == 0 {
        0
    } else if rung_claims(rungs[0], trigger, claiming) {
        0
    } else {
        let k = lemma_first_claim_index(rungs.drop_first(), trigger, claiming);
        assert forall|j: int| 1 <= j < rungs.len() implies rungs[j] == rungs.drop_first()[j - 1] by {}
        match first_claim(rungs, trigger, claiming) {
            Some(r) => {
                assert forall|j: int| 0 <= j < k + 1 implies !rung_claims(
                    #[trigger] rungs[j],
                    trigger,
                    claiming,
                ) by {
                    if j > 0 {
                        assert(rungs[j] == rungs.drop_first()[j - 1]);
                    }
                }
            },
            None => {
                assert forall|j: int| 0 <= j < rungs.len() implies !rung_claims(
                    #[trigger] rungs[j],
                    trigger,
                    claiming,
                ) by {
                    if j > 0 {
                        assert(rungs[j] == rungs.drop_first()[j - 1]);
                    }
                }
            },
        }
        k + 1
    }
}

/// Inserting a declining rung anywhere leaves the first claim unchanged.
proof fn lemma_first_claim_insert(
    rungs: Seq<RungView>,
    k: int,
    r: RungView,
    trigger: Seq<char>,
    claiming: Seq<Seq<char>>,
)
    requires
        0 <= k <= rungs.len(),
        !rung_claims(r, trigger, claiming),
    ensures
        first_claim(rungs.insert(k, r), trigger, claiming) == first_claim(rungs, trigger, claiming),
    decreases k,
{
    let grown = rungs.insert(k, r);
    if k == 0 {
        assert(grown[0] == r);
        assert(grown.drop_first() =~= rungs);
    } else {
        assert(grown[0] == rungs[0]);
        assert(grown.drop_first() =~= rungs.drop_first().insert(k - 1, r));
        lemma_first_claim_insert(rungs.drop_first(), k - 1, r, trigger, claiming);
    }
}

/// Removing a rung that stands after a claiming rung leaves the first claim
/// unchanged.
proof fn lemma_first_claim_remove_after(
    rungs: Seq<RungView>,
    j: int,
    k: int,
    trigger: Seq<char>,
    claiming: Seq<Seq<char>>,
)
    requires
        0 <= j < k < rungs.len(),
        rung_claims(rungs[j], trigger, claiming),
    ensures
        first_claim(rungs.remove(k), trigger, claiming) == first_claim(rungs, trigger, claiming),
    decreases j,
{
    let shrunk = rungs.remove(k);
    assert(shrunk[0] == rungs[0]);
    if !rung_claims(rungs[0], trigger, claiming) {
        assert(shrunk.drop_first() =~= rungs.drop_first().remove(k - 1));
        assert(rungs.drop_first()[j - 1] == rungs[j]);
        lemma_first_claim_remove_after(rungs.drop_first(), j - 1, k - 1, trigger, claiming);
    }
}

/// What the first owner of a `(claimant, trigger)` pair among the first `k`
/// rungs is: the earliest rung with that claimant owning that trigger.
pub proof fn lemma_first_owner(
    rungs: Seq<RungView>,
    claimant: Seq<char>,
    trigger: Seq<char>,
    k: int,
)
    requires
        0 <= k <= rungs.len(),
    ensures
        match first_owner(rungs, claimant, trigger, k) {
            Some(j) => {
                &&& j < k
                &&& rungs[j as int].claimant == claimant
                &&& rungs[j as int].triggers.contains(trigger)
                &&& forall|i: int|
                    0 <= i < j ==> !(#[trigger] rungs[i].claimant == claimant
                        && rungs[i].triggers.contains(trigger))
            },
            None => forall|i: int|
                0 <= i < k ==> !(#[trigger] rungs[i].claimant == claimant
                    && rungs[i].triggers.contains(trigger)),
        },
    decreases k,
{
    if k > 0 {
        lemma_first_owner(rungs, claimant, trigger, k - 1);
    }
}

/// The escape-hatch invariant: while work runs, a reserved trigger reaches
/// the hatch, whatever the rungs, the fallthrough and the live claimants.
pub proof fn escape_hatch_invariant(
    hatch: HatchView,
    rungs: Seq<RungView>,
    fallthrough: Seq<Seq<char>>,
    trigger: Seq<char>,
    claiming: Seq<Seq<char>>,
)
    requires
        hatch.reserved.contains(trigger),
    ensures
        resolve_spec(LadderView { hatch, rungs, fallthrough }, trigger, claiming, true)
            == (VerdictView::Escape { action: hatch.action }),
{
}

/// While no work runs nothing escapes: a trigger is claimed by the first
/// live rung that owns it, or it is unbound, reserved or not.
pub proof fn idle_never_escapes(l: LadderView, trigger: Seq<char>, claiming: Seq<Seq<char>>)
    ensures
        resolve_spec(l, trigger, claiming, false) == match first_claim(l.rungs, trigger, claiming) {
            Some(r) => VerdictView::Claimed { claimant: r.claimant, action: r.action },
            None => VerdictView::Unbound,
        },
{
}

/// First match wins: a claimed verdict names the first rung, in table order,
/// that owns the trigger and whose claimant is live; every earlier rung
/// declines, and the hatch did not answer first. So an unregistered claimant
/// never wins.
pub proof fn claimed_is_first_live_rung(
    l: LadderView,
    trigger: Seq<char>,
    claiming: Seq<Seq<char>>,
    work_running: bool,
    claimant: Seq<char>,
    action: Seq<char>,
)
    requires
        resolve_spec(l, trigger, claiming, work_running) == (VerdictView::Claimed {
            claimant,
            action,
        }),
    ensures
        !(work_running && l.hatch.reserved.contains(trigger)),
        claiming.contains(claimant),
        exists|i: int|
            {
                &&& 0 <= i < l.rungs.len()
                &&& #[trigger] l.rungs[i].claimant == claimant
                &&& l.rungs[i].action == action
                &&& l.rungs[i].triggers.contains(trigger)
                &&& forall|j: int|
                    0 <= j < i ==> !rung_claims(#[trigger] l.rungs[j], trigger, claiming)
            },
{
    let i = lemma_first_claim_index(l.rungs, trigger, claiming);
    assert(l.rungs[i].claimant == claimant);
}

/// An escape comes from the hatch or from the fallthrough, and only while
/// work runs: either the trigger is reserved, or it falls through and every
/// rung declined it.
pub proof fn escape_is_hatch_or_declined_fallthrough(
    l: LadderView,
    trigger: Seq<char>,
    claiming: Seq<Seq<char>>,
    work_running: bool,
    action: Seq<char>,
)
    requires
        resolve_spec(l, trigger, claiming, work_running) == (VerdictView::Escape { action }),
    ensures
        work_running,
        action == l.hatch.action,
        l.hatch.reserved.contains(trigger) || {
            &&& l.fallthrough.contains(trigger)
            &&& forall|j: int|
                0 <= j < l.rungs.len() ==> !rung_claims(#[trigger] l.rungs[j], trigger, claiming)
        },
{
    lemma_first_claim_index(l.rungs, trigger, claiming);
}

/// Rungs are consulted for every trigger the hatch did not take, whatever the
/// fallthrough set: when the trigger is not a reserved one while work runs,
/// and rung `i` owns it with a live claimant while no earlier rung does, the
/// verdict is rung `i`'s claim.
pub proof fn live_owner_claims(
    l: LadderView,
    trigger: Seq<char>,
    claiming: Seq<Seq<char>>,
    work_running: bool,
    i: int,
)
    requires
        !(work_running && l.hatch.reserved.contains(trigger)),
        0 <= i < l.rungs.len(),
        l.rungs[i].triggers.contains(trigger),
        claiming.contains(l.rungs[i].claimant),
        forall|j: int|
            0 <= j < i ==> !(#[trigger] l.rungs[j].triggers.contains(trigger) && claiming.contains(
                l.rungs[j].claimant,
            )),
    ensures
        resolve_spec(l, trigger, claiming, work_running) == (VerdictView::Claimed {
            claimant: l.rungs[i].claimant,
            action: l.rungs[i].action,
        }),
{
    let k = lemma_first_claim_index(l.rungs, trigger, claiming);
    assert(rung_claims(l.rungs[i], trigger, claiming));
    match first_claim(l.rungs, trigger, claiming) {
        Some(r) => {
            if k < i {
                assert(rung_claims(l.rungs[k], trigger, claiming));
            } else if k > i {
                assert(!rung_claims(l.rungs[i], trigger, claiming));
            }
            assert(k == i);
        },
        None => {
            assert(!rung_claims(l.rungs[i], trigger, claiming));
        },
    }
}

/// A fallthrough trigger, any member of the fallthrough set, that is not
/// reserved and that every rung declines (it does not own it, or its
/// claimant is not live) reaches the hatch's action while work runs, whoever
/// else is live.
pub proof fn declined_fallthrough_escapes(
    l: LadderView,
    trigger: Seq<char>,
    claiming: Seq<Seq<char>>,
)
    requires
        !l.hatch.reserved.contains(trigger),
        l.fallthrough.contains(trigger),
        forall|j: int|
            0 <= j < l.rungs.len() ==> !(#[trigger] l.rungs[j].triggers.contains(trigger)
                && claiming.contains(l.rungs[j].claimant)),
    ensures
        resolve_spec(l, trigger, claiming, true) == (VerdictView::Escape { action: l.hatch.action }),
{
    let k = lemma_first_claim_index(l.rungs, trigger, claiming);
    match first_claim(l.rungs, trigger, claiming) {
        Some(r) => {
            assert(rung_claims(l.rungs[k], trigger, claiming));
        },
        None => {},
    }
}

/// A trigger that no rung claims, that is neither reserved nor a fallthrough
/// trigger while work runs, is unbound.
pub proof fn nothing_applies_is_unbound(
    l: LadderView,
    trigger: Seq<char>,
    claiming: Seq<Seq<char>>,
    work_running: bool,
)
    requires
        !(work_running && l.hatch.reserved.contains(trigger)),
        !(work_running && l.fallthrough.contains(trigger)),
        forall|j: int|
            0 <= j < l.rungs.len() ==> !(#[trigger] l.rungs[j].triggers.contains(trigger)
                && claiming.contains(l.rungs[j].claimant)),
    ensures
        resolve_spec(l, trigger, claiming, work_running) == VerdictView::Unbound,
{
    let k = lemma_first_claim_index(l.rungs, trigger, claiming);
    match first_claim(l.rungs, trigger, claiming) {
        Some(r) => {
            assert(rung_claims(l.rungs[k], trigger, claiming));
        },
        None => {},
    }
}

/// A rung that does not claim the trigger, because it does not own it or its
/// claimant is not live, can be inserted at any index without changing the
/// verdict.
pub proof fn declining_rung_is_transparent(
    l: LadderView,
    k: int,
    r: RungView,
    trigger: Seq<char>,
    claiming: Seq<Seq<char>>,
    work_running: bool,
)
    requires
        0 <= k <= l.rungs.len(),
        !rung_claims(r, trigger, claiming),
    ensures
        resolve_spec(with_rungs(l, l.rungs.insert(k, r)), trigger, claiming, work_running)
            == resolve_spec(l, trigger, claiming, work_running),
{
    lemma_first_claim_insert(l.rungs, k, r, trigger, claiming);
}

/// A rung that repeats an earlier rung's `(claimant, trigger)` pair is dead
/// for that trigger: removing it changes no verdict for it.
pub proof fn repeated_pair_is_dead(
    l: LadderView,
    k: int,
    trigger: Seq<char>,
    claiming: Seq<Seq<char>>,
    work_running: bool,
)
    requires
        0 <= k < l.rungs.len(),
        first_owner(l.rungs, l.rungs[k].claimant, trigger, k) is Some,
    ensures
        resolve_spec(with_rungs(l, l.rungs.remove(k)), trigger, claiming, work_running)
            == resolve_spec(l, trigger, claiming, work_running),
{
    let rungs = l.rungs;
    lemma_first_owner(rungs, rungs[k].claimant, trigger, k);
    let j = first_owner(rungs, rungs[k].claimant, trigger, k)->0 as int;
    if claiming.contains(rungs[k].claimant) {
        lemma_first_claim_remove_after(rungs, j, k, trigger, claiming);
    } else {
        assert(rungs.remove(k).insert(k, rungs[k]) =~= rungs);
        lemma_first_claim_insert(rungs.remove(k), k, rungs[k], trigger, claiming);
    }
}

/// A fallthrough trigger that the hatch also reserves is noise: whether the
/// fallthrough lists it changes no verdict for it.
pub proof fn reserved_fallthrough_is_noise(
    l: LadderView,
    fallthrough: Seq<Seq<char>>,
    trigger: Seq<char>,
    claiming: Seq<Seq<char>>,
    work_running: bool,
)
    requires
        l.hatch.reserved.contains(trigger),
    ensures
        resolve_spec(with_fallthrough(l, fallthrough), trigger, claiming, work_running)
            == resolve_spec(l, trigger, claiming, work_running),
{
}

/// Trigger `t` of rung `k` is clean: not reserved, and not owned by an
/// earlier rung with the same claimant.
pub open spec fn trigger_is_clean(
    rungs: Seq<RungView>,
    reserved: Seq<Seq<char>>,
    k: int,
    t: Seq<char>,
) -> bool {
    !reserved.contains(t) && first_owner(rungs, rungs[k].claimant, t, k) is None
}

/// No row of `l` collides: no rung claims a reserved trigger, no rung repeats
/// an earlier rung's `(claimant, trigger)` pair, and no fallthrough trigger
/// is reserved. Two different claimants sharing a trigger is clean.
pub open spec fn table_is_clean(l: LadderView) -> bool {
    &&& forall|k: int, m: int|
        0 <= k < l.rungs.len() && 0 <= m < l.rungs[k].triggers.len() ==> trigger_is_clean(
            l.rungs,
            l.hatch.reserved,
            k,
            #[trigger] l.rungs[k].triggers[m],
        )
    &&& forall|m: int|
        0 <= m < l.fallthrough.len() ==> !l.hatch.reserved.contains(#[trigger] l.fallthrough[m])
}

proof fn lemma_rung_findings_empty(
    rungs: Seq<RungView>,
    reserved: Seq<Seq<char>>,
    k: int,
    m: int,
)
    requires
        0 <= m <= rungs[k].triggers.len(),
    ensures
        rung_findings(rungs, reserved, k, m).len() == 0 <==> forall|p: int|
            0 <= p < m ==> trigger_is_clean(rungs, reserved, k, #[trigger] rungs[k].triggers[p]),
    decreases m,
{
    if m > 0 {
        lemma_rung_findings_empty(rungs, reserved, k, m - 1);
        let t = rungs[k].triggers[m - 1];
        assert(trigger_findings(rungs, reserved, k, t).len() == 0 <==> trigger_is_clean(
            rungs,
            reserved,
            k,
            t,
        ));
    }
}

proof fn lemma_table_findings_empty(rungs: Seq<RungView>, reserved: Seq<Seq<char>>, n: int)
    requires
        0 <= n <= rungs.len(),
    ensures
        table_findings(rungs, reserved, n).len() == 0 <==> forall|k: int, m: int|
            0 <= k < n && 0 <= m < rungs[k].triggers.len() ==> trigger_is_clean(
                rungs,
                reserved,
                k,
                #[trigger] rungs[k].triggers[m],
            ),
    decreases n,
{
    if n > 0 {
        lemma_table_findings_empty(rungs, reserved, n - 1);
        lemma_rung_findings_empty(rungs, reserved, n - 1, rungs[n - 1].triggers.len() as int);
    }
}

proof fn lemma_fallthrough_findings_empty(
    fallthrough: Seq<Seq<char>>,
    reserved: Seq<Seq<char>>,
    m: int,
)
    requires
        0 <= m <= fallthrough.len(),
    ensures
        fallthrough_findings(fallthrough, reserved, m).len() == 0 <==> forall|p: int|
            0 <= p < m ==> !reserved.contains(#[trigger] fallthrough[p]),
    decreases m,
{
    if m > 0 {
        lemma_fallthrough_findings_empty(fallthrough, reserved, m - 1);
    }
}

/// The lint reports nothing exactly when the table is clean.
pub proof fn no_collisions_iff_clean(l: LadderView)
    ensures
        collisions_spec(l).len() == 0 <==> table_is_clean(l),
{
    lemma_table_findings_empty(l.rungs, l.hatch.reserved, l.rungs.len() as int);
    lemma_fallthrough_findings_empty(l.fallthrough, l.hatch.reserved, l.fallthrough.len() as int);
}

/// A finding names a row that can never fire: a rung that owns a reserved
/// trigger; a rung that repeats an earlier rung's `(claimant, trigger)` pair,
/// with the first such earlier rung; or a fallthrough trigger the hatch also
/// reserves.
pub open spec fn finding_is_dead_row(l: LadderView, f: CollisionView) -> bool {
    match f {
        CollisionView::ReservedByHatch { claimant, trigger } => {
            &&& l.hatch.reserved.contains(trigger)
            &&& exists|k: int|
                0 <= k < l.rungs.len() && #[trigger] l.rungs[k].claimant == claimant
                    && l.rungs[k].triggers.contains(trigger)
        },
        CollisionView::DeadRung { claimant, trigger, shadowed_by } => exists|k: int|
            0 <= k < l.rungs.len() && #[trigger] l.rungs[k].claimant == claimant
                && l.rungs[k].triggers.contains(trigger) && first_owner(
                l.rungs,
                claimant,
                trigger,
                k,
            ) == Some(shadowed_by),
        CollisionView::ReservedFallthrough { trigger } => {
            &&& l.fallthrough.contains(trigger)
            &&& l.hatch.reserved.contains(trigger)
        },
    }
}

proof fn lemma_concat_dead_rows(l: LadderView, a: Seq<CollisionView>, b: Seq<CollisionView>)
    requires
        forall|i: int| 0 <= i < a.len() ==> finding_is_dead_row(l, #[trigger] a[i]),
        forall|i: int| 0 <= i < b.len() ==> finding_is_dead_row(l, #[trigger] b[i]),
    ensures
        forall|i: int| 0 <= i < (a + b).len() ==> finding_is_dead_row(l, #[trigger] (a + b)[i]),
{
    assert forall|i: int| 0 <= i < (a + b).len() implies finding_is_dead_row(
        l,
        #[trigger] (a + b)[i],
    ) by {
        if i < a.len() {
            assert((a + b)[i] == a[i]);
        } else {
            assert((a + b)[i] == b[i - a.len()]);
        }
    }
}

proof fn lemma_rung_findings_dead_rows(l: LadderView, k: int, m: int)
    requires
        0 <= k < l.rungs.len(),
        0 <= m <= l.rungs[k].triggers.len(),
    ensures
        forall|i: int|
            0 <= i < rung_findings(l.rungs, l.hatch.reserved, k, m).len() ==> finding_is_dead_row(
                l,
                #[trigger] rung_findings(l.rungs, l.hatch.reserved, k, m)[i],
            ),
    decreases m,
{
    if m > 0 {
        lemma_rung_findings_dead_rows(l, k, m - 1);
        let t = l.rungs[k].triggers[m - 1];
        let c = l.rungs[k].claimant;
        assert(l.rungs[k].triggers.contains(t));
        let tf = trigger_findings(l.rungs, l.hatch.reserved, k, t);
        assert forall|i: int| 0 <= i < tf.len() implies finding_is_dead_row(l, #[trigger] tf[i]) by {
            match tf[i] {
                CollisionView::ReservedByHatch { claimant, trigger } => {
                    assert(l.rungs[k].claimant == claimant);
                },
                CollisionView::DeadRung { claimant, trigger, shadowed_by } => {
                    assert(l.rungs[k].claimant == claimant);
                },
                CollisionView::ReservedFallthrough { trigger } => {},
            }
        }
        lemma_concat_dead_rows(l, rung_findings(l.rungs, l.hatch.reserved, k, m - 1), tf);
    }
}

proof fn lemma_table_findings_dead_rows(l: LadderView, n: int)
    requires
        0 <= n <= l.rungs.len(),
    ensures
        forall|i: int|
            0 <= i < table_findings(l.rungs, l.hatch.reserved, n).len() ==> finding_is_dead_row(
                l,
                #[trigger] table_findings(l.rungs, l.hatch.reserved, n)[i],
            ),
    decreases n,
{
    if n > 0 {
        lemma_table_findings_dead_rows(l, n - 1);
        lemma_rung_findings_dead_rows(l, n - 1, l.rungs[n - 1].triggers.len() as int);
        lemma_concat_dead_rows(
            l,
            table_findings(l.rungs, l.hatch.reserved, n - 1),
            rung_findings(l.rungs, l.hatch.reserved, n - 1, l.rungs[n - 1].triggers.len() as int),
        );
    }
}

proof fn lemma_fallthrough_findings_dead_rows(l: LadderView, m: int)
    requires
        0 <= m <= l.fallthrough.len(),
    ensures
        forall|i: int|
            0 <= i < fallthrough_findings(l.fallthrough, l.hatch.reserved, m).len()
                ==> finding_is_dead_row(
                l,
                #[trigger] fallthrough_findings(l.fallthrough, l.hatch.reserved, m)[i],
            ),
    decreases m,
{
    if m > 0 {
        lemma_fallthrough_findings_dead_rows(l, m - 1);
        let t = l.fallthrough[m - 1];
        assert(l.fallthrough.contains(t));
        let step = if l.hatch.reserved.contains(t) {
            seq![CollisionView::ReservedFallthrough { trigger: t }]
        } else {
            Seq::empty()
        };
        assert forall|i: int| 0 <= i < step.len() implies finding_is_dead_row(
            l,
            #[trigger] step[i],
        ) by {}
        lemma_concat_dead_rows(l, fallthrough_findings(l.fallthrough, l.hatch.reserved, m - 1), step);
    }
}

/// The lint reports only rows that can never fire: each finding is a dead
/// row of the table (see [`finding_is_dead_row`]; [`escape_hatch_invariant`],
/// [`repeated_pair_is_dead`] and [`reserved_fallthrough_is_noise`] say why
/// each kind never fires).
pub proof fn every_finding_is_a_dead_row(l: LadderView, i: int)
    requires
        0 <= i < collisions_spec(l).len(),
    ensures
        finding_is_dead_row(l, collisions_spec(l)[i]),
{
    lemma_table_findings_dead_rows(l, l.rungs.len() as int);
    lemma_fallthrough_findings_dead_rows(l, l.fallthrough.len() as int);
    lemma_concat_dead_rows(
        l,
        table_findings(l.rungs, l.hatch.reserved, l.rungs.len() as int),
        fallthrough_findings(l.fallthrough, l.hatch.reserved, l.fallthrough.len() as int),
    );
}

} // verus!
