//! The ladder and its resolution.
//!
//! A [`Ladder`] is an ordered table of [`Rung`]s, each naming a claimant and
//! the triggers it owns, plus a [`Hatch`] whose reserved triggers are the
//! operator's escape. [`Ladder::resolve`] answers, for one trigger in one
//! [`Situation`], which of three things happened: a claimant owns it, the
//! escape hatch owns it, or nothing is bound.
//!
//! The meaning of every operation is stated over plain mathematical values:
//! [`LadderView`], [`HatchView`], [`RungView`] and [`VerdictView`], and the
//! spec function [`resolve_spec`].
use crate::names::{
    same_members, str_views, strictly_sorted, NameSet,
};
use vstd::prelude::*;

verus! {

/// A hatch as values: its reserved triggers in name order, and its action.
pub struct HatchView {
    pub reserved: Seq<Seq<char>>,
    pub action: Seq<char>,
}

/// A rung as values: claimant, owned triggers in name order, and action.
pub struct RungView {
    pub claimant: Seq<char>,
    pub triggers: Seq<Seq<char>>,
    pub action: Seq<char>,
}

/// A ladder as values: the hatch, the rungs in table order, and the
/// fallthrough triggers in name order.
pub struct LadderView {
    pub hatch: HatchView,
    pub rungs: Seq<RungView>,
    pub fallthrough: Seq<Seq<char>>,
}

/// A verdict as values.
pub enum VerdictView {
    Claimed { claimant: Seq<char>, action: Seq<char> },
    Escape { action: Seq<char> },
    Unbound,
}

/// Rung `r` owns `trigger` and its claimant is among `claiming`.
pub open spec fn rung_claims(r: RungView, trigger: Seq<char>, claiming: Seq<Seq<char>>) -> bool {
    r.triggers.contains(trigger) && claiming.contains(r.claimant)
}

/// The first rung, in table order, that claims `trigger` while `claiming`
/// holds the live claimants; `None` when every rung declines.
pub open spec fn first_claim(
    rungs: Seq<RungView>,
    trigger: Seq<char>,
    claiming: Seq<Seq<char>>,
) -> Option<RungView>
    decreases rungs.len(),
{
    if rungs.len() == 0 {
        None
    } else if rung_claims(rungs[0], trigger, claiming) {
        Some(rungs[0])
    } else {
        first_claim(rungs.drop_first(), trigger, claiming)
    }
}

/// What `trigger` means in a situation: the hatch while work runs, then the
/// rungs in table order restricted to live claimants, then the fallthrough
/// while work runs, and otherwise nothing.
pub open spec fn resolve_spec(
    l: LadderView,
    trigger: Seq<char>,
    claiming: Seq<Seq<char>>,
    work_running: bool,
) -> VerdictView {
    if work_running && l.hatch.reserved.contains(trigger) {
        VerdictView::Escape { action: l.hatch.action }
    } else {
        match first_claim(l.rungs, trigger, claiming) {
            Some(r) => VerdictView::Claimed { claimant: r.claimant, action: r.action },
            None => if work_running && l.fallthrough.contains(trigger) {
                VerdictView::Escape { action: l.hatch.action }
            } else {
                VerdictView::Unbound
            },
        }
    }
}

/// The action label of a verdict, if the trigger does anything at all.
pub open spec fn verdict_action(v: VerdictView) -> Option<Seq<char>> {
    match v {
        VerdictView::Claimed { claimant, action } => Some(action),
        VerdictView::Escape { action } => Some(action),
        VerdictView::Unbound => None,
    }
}

/// The characters of an optional label.
pub open spec fn label_view(o: Option<&str>) -> Option<Seq<char>> {
    match o {
        Some(s) => Some(s@),
        None => None,
    }
}

/// The operator's escape hatch: the triggers that always reach it while work
/// is running, and the action label the consumer shows for them.
///
/// Never empty: the only constructor takes a first trigger, and the type
/// invariant holds the reserved set non-empty.
#[derive(Debug, PartialEq, Eq)]
pub struct Hatch {
    reserved: NameSet,
    action: String,
}

impl View for Hatch {
    type V = HatchView;

    closed spec fn view(&self) -> HatchView {
        HatchView { reserved: self.reserved@, action: self.action@ }
    }
}

impl Clone for Hatch {
    fn clone(&self) -> (r: Hatch)
        ensures
            r@ == self@,
    {
        proof {
            use_type_invariant(self);
        }
        Hatch { reserved: self.reserved.clone(), action: self.action.clone() }
    }
}

impl Hatch {
    #[verifier::type_invariant]
    spec fn never_empty(self) -> bool {
        self.reserved@.len() > 0
    }

    /// Builds a hatch from an action label and a non-empty trigger set:
    /// `first` plus every trigger of `rest`.
    pub fn new(action: &str, first: &str, rest: &[&str]) -> (h: Hatch)
        ensures
            h@.action == action@,
            strictly_sorted(h@.reserved),
            same_members(h@.reserved, seq![first@] + str_views(rest@)),
            h@.reserved.len() > 0,
    {
        let mut reserved = NameSet::from_names(rest);
        reserved.insert(first);
        proof {
            let all = seq![first@] + str_views(rest@);
            assert forall|x: Seq<char>| #[trigger] reserved@.contains(x) <==> all.contains(x) by {
                if str_views(rest@).contains(x) {
                    let k = choose|k: int|
                        0 <= k < str_views(rest@).len() && str_views(rest@)[k] == x;
                    assert(all[k + 1] == x);
                }
                if all.contains(x) {
                    let k = choose|k: int| 0 <= k < all.len() && all[k] == x;
                    if k > 0 {
                        assert(str_views(rest@)[k - 1] == x);
                    }
                }
                assert(all[0] == first@);
            }
            assert(reserved@.contains(first@));
        }
        Hatch { reserved, action: action.to_owned() }
    }

    /// The reserved triggers, in name order. Never empty.
    pub fn reserved(&self) -> (r: Vec<&str>)
        ensures
            str_views(r@) == self@.reserved,
            strictly_sorted(self@.reserved),
            r@.len() > 0,
    {
        proof {
            use_type_invariant(self);
        }
        self.reserved.names()
    }

    /// Whether `trigger` is reserved.
    pub(crate) fn reserves(&self, trigger: &str) -> (r: bool)
        ensures
            r == self@.reserved.contains(trigger@),
    {
        self.reserved.contains(trigger)
    }

    /// The action label the consumer shows for a reserved trigger.
    pub fn action(&self) -> (r: &str)
        ensures
            r@ == self@.action,
    {
        self.action.as_str()
    }
}

/// One row of the table: a named claimant, the triggers it owns while it is
/// live, and the action label for them.
#[derive(Debug, Clone, PartialEq, Eq)]
pub struct Rung {
    /// The claimant's name, matched against a [`ClaimSet`] by equality.
    pub claimant: String,
    /// The triggers this rung owns.
    pub triggers: NameSet,
    /// What the consumer should say this rung's triggers do.
    pub action: String,
}

impl View for Rung {
    type V = RungView;

    open spec fn view(&self) -> RungView {
        RungView { claimant: self.claimant@, triggers: self.triggers@, action: self.action@ }
    }
}

impl Rung {
    /// Builds a rung.
    pub fn new(claimant: &str, triggers: &[&str], action: &str) -> (r: Rung)
        ensures
            r@.claimant == claimant@,
            r@.action == action@,
            strictly_sorted(r@.triggers),
            same_members(r@.triggers, str_views(triggers@)),
    {
        Rung {
            claimant: claimant.to_owned(),
            triggers: NameSet::from_names(triggers),
            action: action.to_owned(),
        }
    }
}

/// The views of a table of rungs, in table order.
pub open spec fn rung_views(rungs: Seq<Rung>) -> Seq<RungView> {
    rungs.map_values(|r: Rung| r@)
}

/// Which claimant names are claiming right now.
#[derive(Debug, PartialEq, Eq)]
pub struct ClaimSet(NameSet);

impl View for ClaimSet {
    type V = Seq<Seq<char>>;

    /// The claiming names, in name order.
    closed spec fn view(&self) -> Seq<Seq<char>> {
        self.0@
    }
}

impl Clone for ClaimSet {
    fn clone(&self) -> (r: ClaimSet)
        ensures
            r@ == self@,
    {
        ClaimSet(self.0.clone())
    }
}

impl Default for ClaimSet {
    fn default() -> (r: ClaimSet)
        ensures
            r@ == Seq::<Seq<char>>::empty(),
    {
        ClaimSet(NameSet::new())
    }
}

impl ClaimSet {
    /// The set of the given names.
    pub fn from_names(names: &[&str]) -> (r: ClaimSet)
        ensures
            strictly_sorted(r@),
            same_members(r@, str_views(names@)),
    {
        ClaimSet(NameSet::from_names(names))
    }

    /// Records that `name` is claiming. Chainable.
    pub fn claiming(&mut self, name: &str) -> (r: &mut ClaimSet)
        ensures
            strictly_sorted(r@),
            forall|x: Seq<char>|
                #![trigger r@.contains(x)]
                r@.contains(x) <==> (old(self)@.contains(x) || x == name@),
            *final(self) == *final(r),
    {
        self.0.insert(name);
        self
    }

    /// Whether `name` is claiming.
    pub fn is_live(&self, name: &str) -> (r: bool)
        ensures
            r == self@.contains(name@),
            strictly_sorted(self@),
    {
        self.0.contains(name)
    }

    /// The claiming names, in name order.
    pub fn names(&self) -> (r: Vec<&str>)
        ensures
            str_views(r@) == self@,
            strictly_sorted(self@),
    {
        self.0.names()
    }
}

/// Everything [`Ladder::resolve`] is allowed to know about the moment.
#[derive(Debug, Clone, Copy, PartialEq, Eq)]
pub struct Situation<'a> {
    /// Which claimants are live.
    pub claiming: &'a ClaimSet,
    /// Is a unit of work running?
    pub work_running: bool,
}

/// What a trigger means, in one situation, according to one ladder.
#[derive(Debug, Clone, Copy, PartialEq, Eq)]
pub enum Verdict<'l> {
    /// A live claimant owns the trigger.
    Claimed {
        /// The owning claimant's name.
        claimant: &'l str,
        /// What it does.
        action: &'l str,
    },
    /// The trigger reached the operator's escape hatch.
    Escape {
        /// What the hatch does.
        action: &'l str,
    },
    /// Nothing is bound; the consumer's default handling applies.
    Unbound,
}

impl<'l> View for Verdict<'l> {
    type V = VerdictView;

    open spec fn view(&self) -> VerdictView {
        match *self {
            Verdict::Claimed { claimant, action } => VerdictView::Claimed {
                claimant: claimant@,
                action: action@,
            },
            Verdict::Escape { action } => VerdictView::Escape { action: action@ },
            Verdict::Unbound => VerdictView::Unbound,
        }
    }
}

impl<'l> Verdict<'l> {
    /// The action label, if the trigger does anything at all.
    pub fn action(&self) -> (r: Option<&'l str>)
        ensures
            label_view(r) == verdict_action(self@),
    {
        match *self {
            Verdict::Claimed { claimant, action } => Some(action),
            Verdict::Escape { action } => Some(action),
            Verdict::Unbound => None,
        }
    }
}

/// The empty fallthrough set: a ladder whose declined triggers reach nothing.
pub const NO_FALLTHROUGH: [&'static str; 0] = [];

/// An ordered precedence table.
#[derive(Debug, Clone, PartialEq, Eq)]
pub struct Ladder {
    hatch: Hatch,
    rungs: Vec<Rung>,
    fallthrough: NameSet,
}

impl View for Ladder {
    type V = LadderView;

    closed spec fn view(&self) -> LadderView {
        LadderView {
            hatch: self.hatch@,
            rungs: rung_views(self.rungs@),
            fallthrough: self.fallthrough@,
        }
    }
}

impl Ladder {
    /// Builds a ladder. Infallible: a rung naming a reserved trigger is inert
    /// by resolution order, so there is nothing here to reject.
    pub fn new(hatch: Hatch, rungs: Vec<Rung>, fallthrough: &[&str]) -> (l: Ladder)
        ensures
            l@.hatch == hatch@,
            l@.rungs == rung_views(rungs@),
            strictly_sorted(l@.fallthrough),
            same_members(l@.fallthrough, str_views(fallthrough@)),
    {
        Ladder { hatch, rungs, fallthrough: NameSet::from_names(fallthrough) }
    }

    /// Resolves one trigger in one situation. First match wins: the hatch
    /// while work runs, then the rungs in table order restricted to live
    /// claimants, then the fallthrough while work runs; otherwise unbound.
    pub fn resolve<'l>(&'l self, trigger: &str, s: &Situation<'_>) -> (v: Verdict<'l>)
        ensures
            v@ == resolve_spec(self@, trigger@, s.claiming@, s.work_running),
    {
        if s.work_running && self.hatch.reserved.contains(trigger) {
            return Verdict::Escape { action: self.hatch.action.as_str() };
        }
        let ghost rungs = rung_views(self.rungs@);
        assert(rungs.skip(0) =~= rungs);
        let mut i: usize = 0;
        while i < self.rungs.len()
            invariant
                i <= self.rungs@.len(),
                rungs == rung_views(self.rungs@),
                !(s.work_running && self@.hatch.reserved.contains(trigger@)),
                first_claim(rungs, trigger@, s.claiming@) == first_claim(
                    rungs.skip(i as int),
                    trigger@,
                    s.claiming@,
                ),
            decreases self.rungs.len() - i,
        {
            let rung = &self.rungs[i];
            assert(rungs.skip(i as int)[0] == rung@);
            assert(rungs.skip(i as int).drop_first() =~= rungs.skip(i + 1));
            if rung.triggers.contains(trigger) && s.claiming.is_live(rung.claimant.as_str()) {
                return Verdict::Claimed {
                    claimant: rung.claimant.as_str(),
                    action: rung.action.as_str(),
                };
            }
            i = i + 1;
        }
        assert(rungs.skip(i as int).len() == 0);
        if s.work_running && self.fallthrough.contains(trigger) {
            return Verdict::Escape { action: self.hatch.action.as_str() };
        }
        Verdict::Unbound
    }

    /// What `trigger` would do, from the same table and traversal that
    /// decides it: the action label of [`Ladder::resolve`]'s verdict.
    pub fn describe(&self, trigger: &str, s: &Situation<'_>) -> (r: Option<&str>)
        ensures
            label_view(r) == verdict_action(resolve_spec(
                self@,
                trigger@,
                s.claiming@,
                s.work_running,
            )),
    {
        self.resolve(trigger, s).action()
    }

    /// The claimant names this ladder mentions, in table order, not
    /// deduplicated.
    pub fn claimants(&self) -> (r: Vec<&str>)
        ensures
            str_views(r@) == self@.rungs.map_values(|x: RungView| x.claimant),
    {
        let mut r: Vec<&str> = Vec::new();
        let mut i: usize = 0;
        while i < self.rungs.len()
            invariant
                i <= self.rungs@.len(),
                str_views(r@) == self@.rungs.take(i as int).map_values(|x: RungView| x.claimant),
            decreases self.rungs.len() - i,
        {
            let ghost prev = r@;
            let name = self.rungs[i].claimant.as_str();
            r.push(name);
            assert(str_views(r@) =~= str_views(prev).push(name@));
            assert(self@.rungs.take(i + 1).map_values(|x: RungView| x.claimant)
                =~= self@.rungs.take(i as int).map_values(|x: RungView| x.claimant).push(name@));
            i = i + 1;
        }
        assert(self@.rungs.take(i as int) =~= self@.rungs);
        r
    }

    /// The hatch.
    pub fn hatch(&self) -> (r: &Hatch)
        ensures
            r@ == self@.hatch,
    {
        &self.hatch
    }

    /// The rungs, in table order.
    pub fn rungs(&self) -> (r: &[Rung])
        ensures
            rung_views(r@) == self@.rungs,
    {
        self.rungs.as_slice()
    }

    /// The fallthrough triggers, in name order.
    pub fn fallthrough(&self) -> (r: Vec<&str>)
        ensures
            str_views(r@) == self@.fallthrough,
            strictly_sorted(self@.fallthrough),
    {
        self.fallthrough.names()
    }
}

} // verus!
