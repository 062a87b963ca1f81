//! Comparing names.
//!
//! Names (claimants, triggers, action labels) are plain strings. Their order
//! is the lexicographic order of their characters, compared by code point.
//! Because UTF-8 keeps code-point order, this is the same order in which
//! Rust's `str` compares its bytes, so a sorted listing here is the listing a
//! `BTreeSet<String>` would give.
use vstd::prelude::*;

verus! {

/// `a` comes strictly before `b`: lexicographic order of characters by code
/// point, a proper prefix coming first.
pub open spec fn text_before(a: Seq<char>, b: Seq<char>) -> bool
    decreases a.len(),
{
    if a.len() == 0 {
        b.len() > 0
    } else if b.len() == 0 {
        false
    } else if a[0] != b[0] {
        a[0] < b[0]
    } else {
        text_before(a.drop_first(), b.drop_first())
    }
}

/// Where one name stands relative to another.
#[derive(Debug, Clone, Copy, PartialEq, Eq)]
pub enum TextOrder {
    /// The first name comes before the second.
    Before,
    /// The names are the same.
    Same,
    /// The first name comes after the second.
    After,
}

/// No name comes before itself.
pub proof fn lemma_before_irreflexive(a: Seq<char>)
    ensures
        !text_before(a, a),
    decreases a.len(),
{
    if a.len() > 0 {
        lemma_before_irreflexive(a.drop_first());
    }
}

/// Of two names, at most one comes before the other.
pub proof fn lemma_before_asymmetric(a: Seq<char>, b: Seq<char>)
    ensures
        text_before(a, b) ==> !text_before(b, a),
    decreases a.len(),
{
    if a.len() > 0 && b.len() > 0 && a[0] == b[0] {
        lemma_before_asymmetric(a.drop_first(), b.drop_first());
    }
}

/// Of two different names, one comes before the other.
pub proof fn lemma_before_total(a: Seq<char>, b: Seq<char>)
    ensures
        a != b ==> text_before(a, b) || text_before(b, a),
    decreases a.len(),
{
    if a.len() > 0 && b.len() > 0 && a[0] == b[0] {
        lemma_before_total(a.drop_first(), b.drop_first());
        if a.drop_first() == b.drop_first() {
            assert(a =~= seq![a[0]] + a.drop_first());
            assert(b =~= seq![b[0]] + b.drop_first());
        }
    } else if a.len() == 0 && b.len() == 0 {
        assert(a =~= b);
    }
}

/// The order is transitive.
pub proof fn lemma_before_transitive(a: Seq<char>, b: Seq<char>, c: Seq<char>)
    requires
        text_before(a, b),
        text_before(b, c),
    ensures
        text_before(a, c),
    decreases a.len(),
{
    if a.len() > 0 && b.len() > 0 && c.len() > 0 && a[0] == b[0] && b[0] == c[0] {
        lemma_before_transitive(a.drop_first(), b.drop_first(), c.drop_first());
    }
}

/// Comparing after a common prefix is comparing the whole.
proof fn lemma_before_after_prefix(a: Seq<char>, b: Seq<char>, i: int)
    requires
        0 <= i <= a.len(),
        i <= b.len(),
        a.take(i) == b.take(i),
    ensures
        text_before(a, b) == text_before(a.skip(i), b.skip(i)),
    decreases i,
{
    if i > 0 {
        assert(a[0] == a.take(i)[0]);
        assert(b[0] == b.take(i)[0]);
        assert(a.drop_first().take(i - 1) =~= a.take(i).drop_first());
        assert(b.drop_first().take(i - 1) =~= b.take(i).drop_first());
        lemma_before_after_prefix(a.drop_first(), b.drop_first(), i - 1);
        assert(a.drop_first().skip(i - 1) =~= a.skip(i));
        assert(b.drop_first().skip(i - 1) =~= b.skip(i));
    } else {
        assert(a.skip(0) =~= a);
        assert(b.skip(0) =~= b);
    }
}

/// Where `a` stands relative to `b` in name order. Walks both names once,
/// character by character, and stops at the first difference.
pub fn compare_text(a: &str, b: &str) -> (r: TextOrder)
    ensures
        (r == TextOrder::Same) == (a@ == b@),
        (r == TextOrder::Before) == text_before(a@, b@),
        (r == TextOrder::After) == text_before(b@, a@),
{
    proof {
        lemma_before_irreflexive(a@);
        lemma_before_asymmetric(a@, b@);
        lemma_before_total(a@, b@);
        assert(a@.skip(0) =~= a@);
        assert(b@.skip(0) =~= b@);
    }
    let mut ia = a.chars();
    let mut ib = b.chars();
    let ghost mut i: int = 0;
    loop
        invariant
            0 <= i <= a@.len(),
            i <= b@.len(),
            a@.take(i) == b@.take(i),
            vstd::std_specs::iter::IteratorSpec::remaining(&ia) == a@.skip(i),
            vstd::std_specs::iter::IteratorSpec::remaining(&ib) == b@.skip(i),
        decreases a@.len() - i,
    {
        let x = ia.next();
        let y = ib.next();
        proof {
            lemma_before_after_prefix(a@, b@, i);
            lemma_before_after_prefix(b@, a@, i);
        }
        match (x, y) {
            (None, None) => {
                assert(a@ =~= a@.take(i));
                assert(b@ =~= b@.take(i));
                return TextOrder::Same;
            },
            (None, Some(_)) => {
                assert(a@.len() != b@.len());
                return TextOrder::Before;
            },
            (Some(_), None) => {
                assert(a@.len() != b@.len());
                return TextOrder::After;
            },
            (Some(p), Some(q)) => {
                assert(a@.skip(i)[0] == a@[i]);
                assert(b@.skip(i)[0] == b@[i]);
                if p != q {
                    assert(a@[i] != b@[i]);
                    if p < q {
                        return TextOrder::Before;
                    } else {
                        return TextOrder::After;
                    }
                }
                proof {
                    assert(a@.take(i + 1) =~= a@.take(i).push(a@[i]));
                    assert(b@.take(i + 1) =~= b@.take(i).push(b@[i]));
                    assert(a@.skip(i).drop_first() =~= a@.skip(i + 1));
                    assert(b@.skip(i).drop_first() =~= b@.skip(i + 1));
                    i = i + 1;
                }
            },
        }
    }
}

/// Whether `a` and `b` are the same name.
pub fn same_text(a: &str, b: &str) -> (r: bool)
    ensures
        r == (a@ == b@),
{
    match compare_text(a, b) {
        TextOrder::Same => true,
        _ => false,
    }
}

} // verus!
