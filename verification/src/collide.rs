//! The authoring lint: rows of a ladder that can never fire.
//!
//! A ladder is infallible to construct, so a table can hold rows that never
//! fire. [`Ladder::collisions`] finds them, so the author learns at load time.
use crate::ladder::{Ladder, LadderView, RungView};
use crate::names::str_views;
use crate::text::same_text;
use vstd::prelude::*;

verus! {

/// A row of a ladder that can never fire, and why.
#[derive(Debug, Clone, PartialEq, Eq, PartialOrd, Ord)]
pub enum Collision {
    /// A rung claims a trigger the hatch reserves.
    ReservedByHatch {
        /// The rung's claimant.
        claimant: String,
        /// The reserved trigger it also claims.
        trigger: String,
    },
    /// A fallthrough trigger the hatch also reserves.
    ReservedFallthrough {
        /// The trigger listed in both places.
        trigger: String,
    },
    /// A later rung repeats an earlier rung's `(claimant, trigger)` pair.
    DeadRung {
        /// The repeated claimant.
        claimant: String,
        /// The repeated trigger.
        trigger: String,
        /// Index of the earlier rung that answers first.
        shadowed_by: usize,
    },
}

/// A collision as values.
pub enum CollisionView {
    ReservedByHatch { claimant: Seq<char>, trigger: Seq<char> },
    ReservedFallthrough { trigger: Seq<char> },
    DeadRung { claimant: Seq<char>, trigger: Seq<char>, shadowed_by: nat },
}

impl View for Collision {
    type V = CollisionView;

    open spec fn view(&self) -> CollisionView {
        match self {
            Collision::ReservedByHatch { claimant, trigger } => CollisionView::ReservedByHatch {
                claimant: claimant@,
                trigger: trigger@,
            },
            Collision::ReservedFallthrough { trigger } => CollisionView::ReservedFallthrough {
                trigger: trigger@,
            },
            Collision::DeadRung { claimant, trigger, shadowed_by } => CollisionView::DeadRung {
                claimant: claimant@,
                trigger: trigger@,
                shadowed_by: *shadowed_by as nat,
            },
        }
    }
}

/// The views of a list of collisions.
pub open spec fn collision_views(v: Seq<Collision>) -> Seq<CollisionView> {
    v.map_values(|c: Collision| c@)
}

/// Among the first `k` rungs, the index of the first one whose claimant is
/// `claimant` and which owns `trigger`.
pub open spec fn first_owner(
    rungs: Seq<RungView>,
    claimant: Seq<char>,
    trigger: Seq<char>,
    k: int,
) -> Option<nat>
    decreases k,
{
    if k <= 0 {
        None
    } else {
        match first_owner(rungs, claimant, trigger, k - 1) {
            Some(j) => Some(j),
            None => if rungs[k - 1].claimant == claimant && rungs[k - 1].triggers.contains(
                trigger,
            ) {
                Some((k - 1) as nat)
            } else {
                None
            },
        }
    }
}

/// What rung `k` owning `trigger` reports: the hatch reserving the trigger,
/// then an earlier rung with the same claimant and trigger.
pub open spec fn trigger_findings(
    rungs: Seq<RungView>,
    reserved: Seq<Seq<char>>,
    k: int,
    trigger: Seq<char>,
) -> Seq<CollisionView> {
    let claimant = rungs[k].claimant;
    let by_hatch = if reserved.contains(trigger) {
        seq![CollisionView::ReservedByHatch { claimant, trigger }]
    } else {
        Seq::empty()
    };
    let dead = match first_owner(rungs, claimant, trigger, k) {
        Some(j) => seq![CollisionView::DeadRung { claimant, trigger, shadowed_by: j }],
        None => Seq::empty(),
    };
    by_hatch + dead
}

/// The findings for the first `m` triggers of rung `k`, in name order.
pub open spec fn rung_findings(
    rungs: Seq<RungView>,
    reserved: Seq<Seq<char>>,
    k: int,
    m: int,
) -> Seq<CollisionView>
    decreases m,
{
    if m <= 0 {
        Seq::empty()
    } else {
        rung_findings(rungs, reserved, k, m - 1) + trigger_findings(
            rungs,
            reserved,
            k,
            rungs[k].triggers[m - 1],
        )
    }
}

/// The findings for the first `n` rungs, in table order.
pub open spec fn table_findings(
    rungs: Seq<RungView>,
    reserved: Seq<Seq<char>>,
    n: int,
) -> Seq<CollisionView>
    decreases n,
{
    if n <= 0 {
        Seq::empty()
    } else {
        table_findings(rungs, reserved, n - 1) + rung_findings(
            rungs,
            reserved,
            n - 1,
            rungs[n - 1].triggers.len() as int,
        )
    }
}

/// The findings for the first `m` fallthrough triggers, in name order.
pub open spec fn fallthrough_findings(
    fallthrough: Seq<Seq<char>>,
    reserved: Seq<Seq<char>>,
    m: int,
) -> Seq<CollisionView>
    decreases m,
{
    if m <= 0 {
        Seq::empty()
    } else {
        fallthrough_findings(fallthrough, reserved, m - 1) + if reserved.contains(
            fallthrough[m - 1],
        ) {
            seq![CollisionView::ReservedFallthrough { trigger: fallthrough[m - 1] }]
        } else {
            Seq::empty()
        }
    }
}

/// Every row of `l` that can never fire: for each rung in table order and
/// each of its triggers in name order, a reserved trigger and then a repeated
/// `(claimant, trigger)` pair; then each reserved fallthrough trigger.
pub open spec fn collisions_spec(l: LadderView) -> Seq<CollisionView> {
    table_findings(l.rungs, l.hatch.reserved, l.rungs.len() as int) + fallthrough_findings(
        l.fallthrough,
        l.hatch.reserved,
        l.fallthrough.len() as int,
    )
}

impl Ladder {
    /// Among the first `k` rungs, the first whose claimant is `claimant` and
    /// which owns `trigger`.
    fn earlier_owner(&self, k: usize, claimant: &str, trigger: &str) -> (r: Option<usize>)
        requires
            k <= self@.rungs.len(),
        ensures
            match r {
                Some(j) => first_owner(self@.rungs, claimant@, trigger@, k as int) == Some(
                    j as nat,
                ),
                None => first_owner(self@.rungs, claimant@, trigger@, k as int) == None::<nat>,
            },
    {
        let rungs = self.rungs();
        let mut found: Option<usize> = None;
        let mut j: usize = 0;
        while j < k
            invariant
                j <= k,
                k <= rungs@.len(),
                crate::ladder::rung_views(rungs@) == self@.rungs,
                match found {
                    Some(x) => first_owner(self@.rungs, claimant@, trigger@, j as int) == Some(
                        x as nat,
                    ),
                    None => first_owner(self@.rungs, claimant@, trigger@, j as int) == None::<nat>,
                },
            decreases k - j,
        {
            if found.is_none() {
                let rung = &rungs[j];
                assert(self@.rungs[j as int] == rung@);
                if same_text(rung.claimant.as_str(), claimant) && rung.triggers.contains(trigger) {
                    found = Some(j);
                }
            }
            j = j + 1;
        }
        found
    }

    /// Reports every row of this table that can never fire.
    ///
    /// An authoring lint, not an error: such a row is harmless because the
    /// hatch answers first while work runs.
    pub fn collisions(&self) -> (found: Vec<Collision>)
        ensures
            collision_views(found@) == collisions_spec(self@),
    {
        let hatch = self.hatch();
        let rungs = self.rungs();
        let ghost lv = self@;
        let ghost reserved = lv.hatch.reserved;
        let mut found: Vec<Collision> = Vec::new();
        let mut k: usize = 0;
        while k < rungs.len()
            invariant
                k <= rungs@.len(),
                lv == self@,
                reserved == lv.hatch.reserved,
                hatch@ == lv.hatch,
                crate::ladder::rung_views(rungs@) == lv.rungs,
                collision_views(found@) == table_findings(lv.rungs, reserved, k as int),
            decreases rungs.len() - k,
        {
            let rung = &rungs[k];
            assert(lv.rungs[k as int] == rung@);
            let triggers = rung.triggers.names();
            let mut m: usize = 0;
            while m < triggers.len()
                invariant
                    k < rungs@.len(),
                    m <= triggers@.len(),
                    lv == self@,
                    reserved == lv.hatch.reserved,
                    hatch@ == lv.hatch,
                    crate::ladder::rung_views(rungs@) == lv.rungs,
                    lv.rungs[k as int] == rung@,
                    str_views(triggers@) == rung@.triggers,
                    collision_views(found@) == table_findings(lv.rungs, reserved, k as int)
                        + rung_findings(lv.rungs, reserved, k as int, m as int),
                decreases triggers.len() - m,
            {
                let trigger = triggers[m];
                assert(rung@.triggers[m as int] == trigger@);
                let ghost before = collision_views(found@);
                if hatch.reserves(trigger) {
                    found.push(
                        Collision::ReservedByHatch {
                            claimant: rung.claimant.clone(),
                            trigger: trigger.to_owned(),
                        },
                    );
                }
                let ghost mid = collision_views(found@);
                match self.earlier_owner(k, rung.claimant.as_str(), trigger) {
                    Some(first) => {
                        found.push(
                            Collision::DeadRung {
                                claimant: rung.claimant.clone(),
                                trigger: trigger.to_owned(),
                                shadowed_by: first,
                            },
                        );
                    },
                    None => {},
                }
                proof {
                    let tf = trigger_findings(lv.rungs, reserved, k as int, trigger@);
                    assert(collision_views(found@) =~= before + tf);
                    assert(rung_findings(lv.rungs, reserved, k as int, m + 1) =~= rung_findings(
                        lv.rungs,
                        reserved,
                        k as int,
                        m as int,
                    ) + tf);
                }
                m = m + 1;
            }
            proof {
                assert(table_findings(lv.rungs, reserved, k + 1) =~= table_findings(
                    lv.rungs,
                    reserved,
                    k as int,
                ) + rung_findings(lv.rungs, reserved, k as int, m as int));
            }
            k = k + 1;
        }
        let fallthrough = self.fallthrough();
        let ghost head = collision_views(found@);
        assert(head + fallthrough_findings(lv.fallthrough, reserved, 0) =~= head);
        let mut m: usize = 0;
        while m < fallthrough.len()
            invariant
                m <= fallthrough@.len(),
                hatch@ == lv.hatch,
                reserved == lv.hatch.reserved,
                str_views(fallthrough@) == lv.fallthrough,
                collision_views(found@) == head + fallthrough_findings(
                    lv.fallthrough,
                    reserved,
                    m as int,
                ),
            decreases fallthrough.len() - m,
        {
            let trigger = fallthrough[m];
            assert(lv.fallthrough[m as int] == trigger@);
            let ghost before = collision_views(found@);
            if hatch.reserves(trigger) {
                found.push(Collision::ReservedFallthrough { trigger: trigger.to_owned() });
            }
            let ghost step = if reserved.contains(trigger@) {
                seq![CollisionView::ReservedFallthrough { trigger: trigger@ }]
            } else {
                Seq::empty()
            };
            assert(collision_views(found@) =~= before + step);
            assert(fallthrough_findings(lv.fallthrough, reserved, m + 1) =~= fallthrough_findings(
                lv.fallthrough,
                reserved,
                m as int,
            ) + step);
            assert(collision_views(found@) =~= head + fallthrough_findings(
                lv.fallthrough,
                reserved,
                m + 1,
            ));
            m = m + 1;
        }
        found
    }
}

} // verus!
