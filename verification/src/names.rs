//! A set of names, kept in name order.
//!
//! The set is held as a vector of distinct names in strictly increasing order
//! (see [`crate::text::text_before`]). Its view is that listing: membership is
//! `contains` on it, and the listing of a set's members is unique, so two name
//! sets with the same members have the same view.
use crate::text::{compare_text, lemma_before_irreflexive, lemma_before_transitive, text_before, TextOrder};
use vstd::prelude::*;

verus! {

/// Each name comes strictly before every later one: sorted, and no name twice.
pub open spec fn strictly_sorted(s: Seq<Seq<char>>) -> bool {
    forall|i: int, j: int| 0 <= i < j < s.len() ==> text_before(#[trigger] s[i], #[trigger] s[j])
}

/// The characters of each string slice.
pub open spec fn str_views(v: Seq<&str>) -> Seq<Seq<char>> {
    v.map_values(|s: &str| s@)
}

/// The characters of each owned string.
pub open spec fn string_views(v: Seq<String>) -> Seq<Seq<char>> {
    v.map_values(|s: String| s@)
}

/// `a` and `b` have the same members.
pub open spec fn same_members(a: Seq<Seq<char>>, b: Seq<Seq<char>>) -> bool {
    forall|x: Seq<char>| a.contains(x) <==> b.contains(x)
}

/// Two strictly sorted listings of the same members are the same listing.
pub proof fn lemma_sorted_listing_unique(a: Seq<Seq<char>>, b: Seq<Seq<char>>)
    requires
        strictly_sorted(a),
        strictly_sorted(b),
        same_members(a, b),
    ensures
        a == b,
    decreases a.len(),
{
    if a.len() == 0 {
        if b.len() > 0 {
            assert(b.contains(b[0]));
        }
        assert(a =~= b);
    } else {
        assert(a.contains(a[0]));
        assert(b.contains(a[0]));
        let j = choose|j: int| 0 <= j < b.len() && b[j] == a[0];
        assert(b.contains(b[0]));
        assert(a.contains(b[0]));
        let i = choose|i: int| 0 <= i < a.len() && a[i] == b[0];
        if j > 0 {
            // b[0] < b[j] == a[0], and a[0] <= a[i] == b[0]
            assert(text_before(b[0], b[j]));
            if i > 0 {
                assert(text_before(a[0], a[i]));
                lemma_before_transitive(b[0], a[0], b[0]);
            }
            lemma_before_irreflexive(b[0]);
        }
        assert(a[0] == b[0]);
        let ta = a.drop_first();
        let tb = b.drop_first();
        assert forall|x: Seq<char>| ta.contains(x) implies tb.contains(x) by {
            let k = choose|k: int| 0 <= k < ta.len() && ta[k] == x;
            assert(a[k + 1] == x);
            assert(text_before(a[0], a[k + 1]));
            assert(b.contains(x));
            let m = choose|m: int| 0 <= m < b.len() && b[m] == x;
            if m == 0 {
                lemma_before_irreflexive(x);
            }
            assert(tb[m - 1] == x);
        }
        assert forall|x: Seq<char>| tb.contains(x) implies ta.contains(x) by {
            let k = choose|k: int| 0 <= k < tb.len() && tb[k] == x;
            assert(b[k + 1] == x);
            assert(text_before(b[0], b[k + 1]));
            assert(a.contains(x));
            let m = choose|m: int| 0 <= m < a.len() && a[m] == x;
            if m == 0 {
                lemma_before_irreflexive(x);
            }
            assert(ta[m - 1] == x);
        }
        assert(strictly_sorted(ta)) by {
            assert forall|p: int, q: int| 0 <= p < q < ta.len() implies text_before(
                #[trigger] ta[p],
                #[trigger] ta[q],
            ) by {
                assert(ta[p] == a[p + 1] && ta[q] == a[q + 1]);
            }
        }
        assert(strictly_sorted(tb)) by {
            assert forall|p: int, q: int| 0 <= p < q < tb.len() implies text_before(
                #[trigger] tb[p],
                #[trigger] tb[q],
            ) by {
                assert(tb[p] == b[p + 1] && tb[q] == b[q + 1]);
            }
        }
        lemma_sorted_listing_unique(ta, tb);
        assert(a =~= seq![a[0]] + ta);
        assert(b =~= seq![b[0]] + tb);
    }
}

/// A set of names, listed in name order.
#[derive(Debug, PartialEq, Eq)]
pub struct NameSet {
    items: Vec<String>,
}

impl View for NameSet {
    type V = Seq<Seq<char>>;

    /// The members, in name order.
    closed spec fn view(&self) -> Seq<Seq<char>> {
        string_views(self.items@)
    }
}

impl Clone for NameSet {
    fn clone(&self) -> (r: NameSet)
        ensures
            r@ == self@,
    {
        proof {
            use_type_invariant(self);
        }
        let items = self.items.clone();
        assert(items@ =~= self.items@);
        NameSet { items }
    }
}

impl NameSet {
    #[verifier::type_invariant]
    spec fn listed_in_order(self) -> bool {
        strictly_sorted(string_views(self.items@))
    }

    /// The empty set.
    pub fn new() -> (r: NameSet)
        ensures
            r@ == Seq::<Seq<char>>::empty(),
    {
        let r = NameSet { items: Vec::new() };
        assert(string_views(r.items@) =~= Seq::<Seq<char>>::empty());
        r
    }

    /// Where `name` stands in the listing: the number of members before it,
    /// and whether it is itself a member. A binary search over the listing.
    fn position(&self, name: &str) -> (r: (usize, bool))
        ensures
            r.0 <= self@.len(),
            strictly_sorted(self@),
            forall|j: int| 0 <= j < r.0 ==> text_before(#[trigger] self@[j], name@),
            r.1 ==> r.0 < self@.len() && self@[r.0 as int] == name@,
            !r.1 ==> (r.0 < self@.len() ==> text_before(name@, self@[r.0 as int])),
    {
        proof {
            use_type_invariant(self);
        }
        let mut lo: usize = 0;
        let mut hi: usize = self.items.len();
        while lo < hi
            invariant
                lo <= hi <= self.items@.len(),
                self@.len() == self.items@.len(),
                strictly_sorted(self@),
                forall|j: int| 0 <= j < lo ==> text_before(#[trigger] self@[j], name@),
                forall|j: int| hi <= j < self@.len() ==> text_before(name@, #[trigger] self@[j]),
            decreases hi - lo,
        {
            let mid = lo + (hi - lo) / 2;
            assert(self@[mid as int] == self.items@[mid as int]@);
            match compare_text(self.items[mid].as_str(), name) {
                TextOrder::Before => {
                    assert forall|j: int| 0 <= j < mid + 1 implies text_before(
                        #[trigger] self@[j],
                        name@,
                    ) by {
                        if j < mid {
                            lemma_before_transitive(self@[j], self@[mid as int], name@);
                        }
                    }
                    lo = mid + 1;
                },
                TextOrder::Same => {
                    return (mid, true);
                },
                TextOrder::After => {
                    assert forall|j: int| mid <= j < self@.len() implies text_before(
                        name@,
                        #[trigger] self@[j],
                    ) by {
                        if j > mid {
                            lemma_before_transitive(name@, self@[mid as int], self@[j]);
                        }
                    }
                    hi = mid;
                },
            }
        }
        (lo, false)
    }

    /// Whether `name` is a member.
    pub fn contains(&self, name: &str) -> (r: bool)
        ensures
            r == self@.contains(name@),
            strictly_sorted(self@),
    {
        let (i, found) = self.position(name);
        proof {
            if !found && self@.contains(name@) {
                let k = choose|k: int| 0 <= k < self@.len() && self@[k] == name@;
                lemma_before_irreflexive(name@);
                if k >= i {
                    if k > i {
                        lemma_before_transitive(name@, self@[i as int], self@[k]);
                    }
                }
            }
        }
        found
    }

    /// Adds `name`; nothing changes where it is already a member.
    pub fn insert(&mut self, name: &str)
        ensures
            strictly_sorted(final(self)@),
            forall|x: Seq<char>|
                #![trigger final(self)@.contains(x)]
                final(self)@.contains(x) <==> (old(self)@.contains(x) || x == name@),
    {
        proof {
            use_type_invariant(&*self);
        }
        let (i, found) = self.position(name);
        if found {
            return;
        }
        let ghost before = self@;
        let owned = name.to_owned();
        let mut items: Vec<String> = Vec::new();
        std::mem::swap(&mut items, &mut self.items);
        items.insert(i, owned);
        proof {
            let after = string_views(items@);
            assert(after =~= before.insert(i as int, name@));
            assert forall|p: int, q: int| 0 <= p < q < after.len() implies text_before(
                #[trigger] after[p],
                #[trigger] after[q],
            ) by {
                if q < i {
                } else if q == i {
                } else if p < i {
                    // p < i < q
                    if q - 1 > i {
                        lemma_before_transitive(name@, before[i as int], before[q - 1]);
                    }
                    lemma_before_transitive(before[p], name@, before[q - 1]);
                } else if p == i {
                    if q - 1 > i {
                        lemma_before_transitive(name@, before[i as int], before[q - 1]);
                    }
                } else {
                    assert(after[p] == before[p - 1] && after[q] == before[q - 1]);
                }
            }
            assert forall|x: Seq<char>| #[trigger]
                after.contains(x) <==> (before.contains(x) || x == name@) by {
                if after.contains(x) {
                    let k = choose|k: int| 0 <= k < after.len() && after[k] == x;
                    if k < i {
                        assert(before[k] == x);
                    } else if k > i {
                        assert(before[k - 1] == x);
                    }
                }
                if before.contains(x) {
                    let k = choose|k: int| 0 <= k < before.len() && before[k] == x;
                    if k < i {
                        assert(after[k] == x);
                    } else {
                        assert(after[k + 1] == x);
                    }
                }
                if x == name@ {
                    assert(after[i as int] == x);
                }
            }
        }
        self.items = items;
    }

    /// The set of the given names.
    pub fn from_names(names: &[&str]) -> (r: NameSet)
        ensures
            strictly_sorted(r@),
            same_members(r@, str_views(names@)),
    {
        let mut r = NameSet::new();
        let mut i: usize = 0;
        while i < names.len()
            invariant
                i <= names@.len(),
                strictly_sorted(r@),
                same_members(r@, str_views(names@.take(i as int))),
            decreases names.len() - i,
        {
            let ghost prev = r@;
            r.insert(names[i]);
            proof {
                let done = str_views(names@.take(i as int));
                let next = str_views(names@.take(i + 1));
                assert(next =~= done.push(names@[i as int]@));
                assert forall|x: Seq<char>| #[trigger] r@.contains(x) <==> next.contains(x) by {
                    if next.contains(x) {
                        let k = choose|k: int| 0 <= k < next.len() && next[k] == x;
                        if k < i {
                            assert(done[k] == x);
                        }
                    }
                    if done.contains(x) {
                        let k = choose|k: int| 0 <= k < done.len() && done[k] == x;
                        assert(next[k] == x);
                    }
                    if x == names@[i as int]@ {
                        assert(next[i as int] == x);
                    }
                }
            }
            i = i + 1;
        }
        assert(names@.take(names@.len() as int) =~= names@);
        r
    }

    /// The members, in name order.
    pub fn names(&self) -> (r: Vec<&str>)
        ensures
            str_views(r@) == self@,
            strictly_sorted(self@),
    {
        proof {
            use_type_invariant(self);
        }
        let mut r: Vec<&str> = Vec::new();
        let mut i: usize = 0;
        while i < self.items.len()
            invariant
                i <= self.items@.len(),
                self@.len() == self.items@.len(),
                str_views(r@) == self@.take(i as int),
            decreases self.items.len() - i,
        {
            let item = self.items[i].as_str();
            assert(item@ == self@[i as int]);
            let ghost prev = r@;
            r.push(item);
            assert(str_views(r@) =~= str_views(prev).push(item@));
            assert(self@.take(i + 1) =~= self@.take(i as int).push(self@[i as int]));
            i = i + 1;
        }
        assert(self@.take(i as int) =~= self@);
        r
    }
}

} // verus!
