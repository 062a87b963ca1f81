//! The ladder as data: building a ladder from the fields of a parsed table.
//!
//! Reading the table's text into fields is the parser's work; what a table
//! must satisfy to be a ladder is decided here: the schema it declares, and a
//! non-empty reserved set.
use crate::ladder::{rung_views, Hatch, Ladder, Rung};
use crate::names::{same_members, str_views, strictly_sorted};
use vstd::prelude::*;

verus! {

/// The only table schema this version understands.
pub const SCHEMA: u32 = 1;

/// Why a table is not a ladder.
#[derive(Debug, Clone, PartialEq, Eq)]
pub enum LadderError {
    /// The source is not well-formed, or does not have the table's shape; the
    /// parser's own description of the problem.
    Parse(String),
    /// The table declares a schema this version does not understand.
    Schema {
        /// What the table declared.
        found: u32,
        /// What this version understands ([`SCHEMA`]).
        expected: u32,
    },
    /// `[hatch] reserved` was empty.
    EmptyReserved,
}

/// The decimal digit `d`.
pub open spec fn digit_char(d: nat) -> char {
    if d == 0 {
        '0'
    } else if d == 1 {
        '1'
    } else if d == 2 {
        '2'
    } else if d == 3 {
        '3'
    } else if d == 4 {
        '4'
    } else if d == 5 {
        '5'
    } else if d == 6 {
        '6'
    } else if d == 7 {
        '7'
    } else if d == 8 {
        '8'
    } else {
        '9'
    }
}

/// `n` written in decimal, with no sign and no leading zero.
pub open spec fn decimal_spec(n: nat) -> Seq<char>
    decreases n,
{
    if n < 10 {
        seq![digit_char(n)]
    } else {
        decimal_spec(n / 10).push(digit_char(n % 10))
    }
}

/// `n` in decimal, by `u32`'s `Display` (`ToString::to_string`).
#[verifier::external_body]
fn decimal(n: u32) -> (r: String)
    ensures
        r@ == decimal_spec(n as nat),
{
    n.to_string()
}

/// The description of each error that a reader is shown.
pub open spec fn error_message(e: LadderError) -> Seq<char> {
    match e {
        LadderError::Parse(m) => "the ladder table is not well-formed: "@ + m@,
        LadderError::Schema { found, expected } => "the ladder table declares schema "@
            + decimal_spec(found as nat) + ", but this version understands schema "@
            + decimal_spec(expected as nat),
        LadderError::EmptyReserved => "[hatch] reserved is empty: a hatch with no reserved trigger makes the escape-hatch invariant vacuous, so it cannot be built"@,
    }
}

impl LadderError {
    /// What went wrong, in words.
    pub fn message(&self) -> (r: String)
        ensures
            r@ == error_message(*self),
    {
        match self {
            LadderError::Parse(m) => {
                let mut r = String::from_str("the ladder table is not well-formed: ");
                r.append(m.as_str());
                r
            },
            LadderError::Schema { found, expected } => {
                let mut r = String::from_str("the ladder table declares schema ");
                let found_text = decimal(*found);
                r.append(found_text.as_str());
                r.append(", but this version understands schema ");
                let expected_text = decimal(*expected);
                r.append(expected_text.as_str());
                r
            },
            LadderError::EmptyReserved => String::from_str(
                "[hatch] reserved is empty: a hatch with no reserved trigger makes the escape-hatch invariant vacuous, so it cannot be built",
            ),
        }
    }
}

impl Ladder {
    /// Builds a ladder from the fields of a parsed table: its declared
    /// schema, the hatch's action and reserved triggers, the rungs in table
    /// order, and the fallthrough triggers.
    ///
    /// A table declaring another schema than [`SCHEMA`] is refused first;
    /// then one whose reserved set is empty.
    pub fn from_table(
        schema: u32,
        action: &str,
        reserved: &[&str],
        rungs: Vec<Rung>,
        fallthrough: &[&str],
    ) -> (r: Result<Ladder, LadderError>)
        ensures
            schema != SCHEMA ==> r == Err::<Ladder, LadderError>(
                LadderError::Schema { found: schema, expected: SCHEMA },
            ),
            schema == SCHEMA && reserved@.len() == 0 ==> r == Err::<Ladder, LadderError>(
                LadderError::EmptyReserved,
            ),
            schema == SCHEMA && reserved@.len() > 0 ==> r is Ok,
            r matches Ok(l) ==> {
                &&& l@.hatch.action == action@
                &&& strictly_sorted(l@.hatch.reserved)
                &&& same_members(l@.hatch.reserved, str_views(reserved@))
                &&& l@.rungs == rung_views(rungs@)
                &&& strictly_sorted(l@.fallthrough)
                &&& same_members(l@.fallthrough, str_views(fallthrough@))
            },
    {
        if schema != SCHEMA {
            return Err(LadderError::Schema { found: schema, expected: SCHEMA });
        }
        if reserved.len() == 0 {
            return Err(LadderError::EmptyReserved);
        }
        let first = reserved[0];
        let rest = slice_skip_first(reserved);
        let hatch = Hatch::new(action, first, rest);
        proof {
            assert(seq![first@] + str_views(rest@) =~= str_views(reserved@));
        }
        Ok(Ladder::new(hatch, rungs, fallthrough))
    }
}

/// All but the first element of a non-empty slice.
fn slice_skip_first<'a, 'b>(s: &'a [&'b str]) -> (r: &'a [&'b str])
    requires
        s@.len() > 0,
    ensures
        r@ == s@.drop_first(),
{
    let (_, rest) = s.split_at(1);
    rest
}

} // verus!
