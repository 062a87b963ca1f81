//! Who owns this trigger, right now, and can the operator always get out?
//!
//! A pure predicate for resolving keystroke precedence in an interactive
//! program. A [`Ladder`] is declared as data; for one trigger in one
//! [`Situation`] it answers which registered claimant owns the trigger, or
//! whether the trigger is the operator's escape hatch, or whether nothing is
//! bound. It decodes no keys and performs no effect: it returns a
//! [`Verdict`], and the host acts on it.
//!
//! The escape-hatch invariant: for every ladder, every situation in which
//! work is running, and every trigger in the hatch's reserved set, the
//! verdict is the hatch's escape. It holds because the reserved check comes
//! before the rung scan, whatever the rungs are; [`laws::escape_hatch_invariant`]
//! states it over [`ladder::resolve_spec`], the exact meaning of
//! [`Ladder::resolve`].
pub mod collide;
pub mod ladder;
pub mod laws;
pub mod names;
pub mod table;
pub mod text;

pub use collide::{Collision, CollisionView};
pub use ladder::{
    ClaimSet, Hatch, HatchView, Ladder, LadderView, Rung, RungView, Situation, Verdict,
    VerdictView, NO_FALLTHROUGH,
};
pub use names::NameSet;
pub use table::{LadderError, SCHEMA};
