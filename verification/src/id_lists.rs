//! Ordered lists of mod ids: membership, group selection and insertion.
use vstd::prelude::*;

use crate::models::ModId;

verus! {

broadcast use vstd::seq_lib::group_seq_properties;

// ---------------------------------------------------------------------------
// Specifications
// ---------------------------------------------------------------------------

/// The members of `ids` that belong to `group`, in list order.
pub open spec fn picked(ids: Seq<ModId>, group: Seq<ModId>) -> Seq<ModId> {
    ids.filter(|m: ModId| group.contains(m))
}

/// The members of `ids` that do not belong to `group`, in list order.
pub open spec fn left_over(ids: Seq<ModId>, group: Seq<ModId>) -> Seq<ModId> {
    ids.filter(|m: ModId| !group.contains(m))
}

/// The position of the first occurrence of `x` in `s`, or `s.len()` when
/// `x` does not occur.
pub open spec fn first_index<A>(s: Seq<A>, x: A) -> int
    decreases s.len(),
{
    if s.len() == 0 {
        0
    } else if s[0] == x {
        0
    } else {
        1 + first_index(s.drop_first(), x)
    }
}

/// Where a group dropped before `before` lands in `ids`: just before the
/// first occurrence of `before`, or at the end when there is none.
pub open spec fn insertion_point(ids: Seq<ModId>, before: Option<ModId>) -> int {
    match before {
        Some(b) => first_index(ids, b),
        None => ids.len() as int,
    }
}

/// `s` with `g` inserted at position `at`.
pub open spec fn spliced(s: Seq<ModId>, at: int, g: Seq<ModId>) -> Seq<ModId> {
    s.subrange(0, at) + g + s.subrange(at, s.len() as int)
}

/// `ids` with the members of `group` moved, in their list order, in front
/// of `before` (or to the end).
pub open spec fn moved_before(ids: Seq<ModId>, group: Seq<ModId>, before: Option<ModId>) -> Seq<
    ModId,
> {
    let rest = left_over(ids, group);
    spliced(rest, insertion_point(rest, before), picked(ids, group))
}

/// The first member of `group` that does not occur in `ids`.
pub open spec fn first_missing(group: Seq<ModId>, ids: Seq<ModId>) -> Option<ModId>
    decreases group.len(),
{
    if group.len() == 0 {
        None
    } else if !ids.contains(group[0]) {
        Some(group[0])
    } else {
        first_missing(group.drop_first(), ids)
    }
}

// ---------------------------------------------------------------------------
// Lemmas
// ---------------------------------------------------------------------------

/// `first_index` is the first position holding `x`, or the length.
pub proof fn lemma_first_index<A>(s: Seq<A>, x: A)
    ensures
        0 <= first_index(s, x) <= s.len(),
        first_index(s, x) < s.len() ==> s[first_index(s, x)] == x,
        forall|j: int| 0 <= j < first_index(s, x) ==> s[j] != x,
        first_index(s, x) == s.len() <==> !s.contains(x),
    decreases s.len(),
{
    if s.len() > 0 && s[0] != x {
        lemma_first_index(s.drop_first(), x);
        let t = s.drop_first();
        assert forall|j: int| 0 <= j < first_index(s, x) implies s[j] != x by {
            if j > 0 {
                assert(s[j] == t[j - 1]);
            }
        }
        if s.contains(x) {
            let k = choose|k: int| 0 <= k < s.len() && s[k] == x;
            assert(t[k - 1] == x);
        }
    }
}

/// The first position of `x` is pinned down by the positions before it.
pub proof fn lemma_first_index_at<A>(s: Seq<A>, x: A, i: int)
    requires
        0 <= i <= s.len(),
        forall|j: int| 0 <= j < i ==> s[j] != x,
        i < s.len() ==> s[i] == x,
    ensures
        first_index(s, x) == i,
{
    lemma_first_index(s, x);
    let f = first_index(s, x);
    if f < i {
        assert(s[f] == x);
    } else if i < f {
        assert(s[i] != x);
    }
}

pub proof fn lemma_first_missing(group: Seq<ModId>, ids: Seq<ModId>)
    ensures
        first_missing(group, ids) is None <==> forall|k: int|
            0 <= k < group.len() ==> ids.contains(#[trigger] group[k]),
        first_missing(group, ids) matches Some(m) ==> group.contains(m) && !ids.contains(m),
    decreases group.len(),
{
    if group.len() > 0 {
        let t = group.drop_first();
        lemma_first_missing(t, ids);
        if ids.contains(group[0]) {
            assert forall|k: int| 0 <= k < group.len() && (forall|j: int|
                0 <= j < t.len() ==> ids.contains(#[trigger] t[j])) implies ids.contains(
                #[trigger] group[k],
            ) by {
                if k > 0 {
                    assert(group[k] == t[k - 1]);
                }
            }
            assert((forall|k: int| 0 <= k < group.len() ==> ids.contains(#[trigger] group[k]))
                ==> (forall|j: int| 0 <= j < t.len() ==> ids.contains(#[trigger] t[j]))) by {
                assert forall|j: int|
                    0 <= j < t.len() && (forall|k: int|
                        0 <= k < group.len() ==> ids.contains(#[trigger] group[k])) implies ids.contains(
                    #[trigger] t[j],
                ) by {
                    assert(t[j] == group[j + 1]);
                }
            }
            if let Some(m) = first_missing(t, ids) {
                let j = choose|j: int| 0 <= j < t.len() && t[j] == m;
                assert(group[j + 1] == m);
            }
        } else {
            assert(group[0] == group[0]);
        }
    }
}

/// A list is the same collection of ids as its picked and left-over parts
/// together.
pub proof fn lemma_split_multiset(ids: Seq<ModId>, group: Seq<ModId>)
    ensures
        ids.to_multiset() =~= picked(ids, group).to_multiset().add(
            left_over(ids, group).to_multiset(),
        ),
    decreases ids.len(),
{
    broadcast use vstd::seq_lib::group_to_multiset_ensures;

    if ids.len() == 0 {
        reveal(Seq::filter);
        assert(picked(ids, group) =~= Seq::<ModId>::empty());
        assert(left_over(ids, group) =~= Seq::<ModId>::empty());
    } else {
        let init = ids.drop_last();
        let x = ids.last();
        lemma_split_multiset(init, group);
        assert(init.push(x) == ids);
        init.lemma_filter_push(x, |m: ModId| group.contains(m));
        init.lemma_filter_push(x, |m: ModId| !group.contains(m));
    }
}

/// Every member of `picked(ids, group)` belongs to the group, so picking
/// again keeps it; none of `left_over` does.
pub proof fn lemma_pick_again(ids: Seq<ModId>, group: Seq<ModId>)
    ensures
        picked(picked(ids, group), group) == picked(ids, group),
        left_over(picked(ids, group), group) == Seq::<ModId>::empty(),
        picked(left_over(ids, group), group) == Seq::<ModId>::empty(),
        left_over(left_over(ids, group), group) == left_over(ids, group),
    decreases ids.len(),
{
    reveal(Seq::filter);
    if ids.len() > 0 {
        let init = ids.drop_last();
        let x = ids.last();
        lemma_pick_again(init, group);
        assert(init.push(x) == ids);
        init.lemma_filter_push(x, |m: ModId| group.contains(m));
        init.lemma_filter_push(x, |m: ModId| !group.contains(m));
        let p = picked(init, group);
        let l = left_over(init, group);
        p.lemma_filter_push(x, |m: ModId| group.contains(m));
        p.lemma_filter_push(x, |m: ModId| !group.contains(m));
        l.lemma_filter_push(x, |m: ModId| group.contains(m));
        l.lemma_filter_push(x, |m: ModId| !group.contains(m));
    } else {
        assert(picked(ids, group) =~= Seq::<ModId>::empty());
        assert(left_over(ids, group) =~= Seq::<ModId>::empty());
    }
}

/// Inserting a group at any position yields the same collection as putting
/// it at the end.
pub proof fn lemma_spliced_multiset(s: Seq<ModId>, at: int, g: Seq<ModId>)
    requires
        0 <= at <= s.len(),
    ensures
        spliced(s, at, g).to_multiset() =~= s.to_multiset().add(g.to_multiset()),
{
    broadcast use vstd::seq_lib::group_to_multiset_ensures;

    let a = s.subrange(0, at);
    let b = s.subrange(at, s.len() as int);
    assert(a + b == s);
    vstd::seq_lib::lemma_multiset_commutative(a + g, b);
    vstd::seq_lib::lemma_multiset_commutative(a, g);
    vstd::seq_lib::lemma_multiset_commutative(a, b);
}

// ---------------------------------------------------------------------------
// Executable helpers
// ---------------------------------------------------------------------------

/// Whether `x` occurs in `ids`.
pub fn contains_id(ids: &[ModId], x: ModId) -> (r: bool)
    ensures
        r == ids@.contains(x),
{
    let mut i: usize = 0;
    while i < ids.len()
        invariant
            i <= ids@.len(),
            forall|j: int| 0 <= j < i ==> ids@[j] != x,
        decreases ids@.len() - i,
    {
        if ids[i] == x {
            return true;
        }
        i = i + 1;
    }
    false
}

/// The position of the first `x` in `ids`, or `ids.len()`.
pub fn position_of(ids: &[ModId], x: ModId) -> (r: usize)
    ensures
        r == first_index(ids@, x),
{
    let mut i: usize = 0;
    while i < ids.len() && ids[i] != x
        invariant
            i <= ids@.len(),
            forall|j: int| 0 <= j < i ==> ids@[j] != x,
        decreases ids@.len() - i,
    {
        i = i + 1;
    }
    proof {
        lemma_first_index_at(ids@, x, i as int);
    }
    i
}

/// The insertion point for a group dropped before `before`.
pub fn insertion_index(ids: &[ModId], before: Option<ModId>) -> (r: usize)
    ensures
        r == insertion_point(ids@, before),
        r <= ids@.len(),
{
    proof {
        if let Some(b) = before {
            lemma_first_index(ids@, b);
        }
    }
    match before {
        Some(b) => position_of(ids, b),
        None => ids.len(),
    }
}

/// The members of `ids` inside (`keep_group`) or outside the group.
pub fn select(ids: &[ModId], group: &[ModId], keep_group: bool) -> (r: Vec<ModId>)
    ensures
        keep_group ==> r@ == picked(ids@, group@),
        !keep_group ==> r@ == left_over(ids@, group@),
{
    let mut r: Vec<ModId> = Vec::new();
    for i in 0..ids.len()
        invariant
            keep_group ==> r@ == picked(ids@.take(i as int), group@),
            !keep_group ==> r@ == left_over(ids@.take(i as int), group@),
    {
        let x = ids[i];
        let member = contains_id(group, x);
        proof {
            assert(ids@.take(i + 1) == ids@.take(i as int).push(x));
            ids@.take(i as int).lemma_filter_push(x, |m: ModId| group@.contains(m));
            ids@.take(i as int).lemma_filter_push(x, |m: ModId| !group@.contains(m));
        }
        if member == keep_group {
            r.push(x);
        }
    }
    assert(ids@.take(ids@.len() as int) == ids@);
    r
}

/// `s` with `g` inserted at position `at`.
pub fn splice(s: &[ModId], at: usize, g: &[ModId]) -> (r: Vec<ModId>)
    requires
        at <= s@.len(),
    ensures
        r@ == spliced(s@, at as int, g@),
{
    let mut r: Vec<ModId> = Vec::new();
    for i in 0..at
        invariant
            at <= s@.len(),
            r@ == s@.subrange(0, i as int),
    {
        r.push(s[i]);
    }
    for i in 0..g.len()
        invariant
            r@ == s@.subrange(0, at as int) + g@.subrange(0, i as int),
    {
        r.push(g[i]);
        assert(g@.subrange(0, i + 1) == g@.subrange(0, i as int).push(g@[i as int]));
    }
    assert(g@.subrange(0, g@.len() as int) == g@);
    let mut i = at;
    while i < s.len()
        invariant
            at <= i <= s@.len(),
            r@ == s@.subrange(0, at as int) + g@ + s@.subrange(at as int, i as int),
        decreases s@.len() - i,
    {
        r.push(s[i]);
        i = i + 1;
    }
    r
}

/// The first member of `group` that does not occur in `ids`.
pub fn find_missing(group: &[ModId], ids: &[ModId]) -> (r: Option<ModId>)
    ensures
        r == first_missing(group@, ids@),
{
    let mut i: usize = 0;
    while i < group.len()
        invariant
            i <= group@.len(),
            first_missing(group@, ids@) == first_missing(group@.skip(i as int), ids@),
        decreases group@.len() - i,
    {
        let x = group[i];
        assert(group@.skip(i as int)[0] == x);
        if !contains_id(ids, x) {
            return Some(x);
        }
        assert(group@.skip(i as int).drop_first() == group@.skip(i + 1));
        i = i + 1;
    }
    assert(group@.skip(i as int).len() == 0);
    None
}

/// Whether two id lists are equal.
pub fn same_ids(a: &[ModId], b: &[ModId]) -> (r: bool)
    ensures
        r == (a@ == b@),
{
    if a.len() != b.len() {
        return false;
    }
    let mut i: usize = 0;
    while i < a.len()
        invariant
            a@.len() == b@.len(),
            i <= a@.len(),
            forall|k: int| 0 <= k < i ==> a@[k] == b@[k],
        decreases a@.len() - i,
    {
        if a[i] != b[i] {
            return false;
        }
        i = i + 1;
    }
    assert(a@ == b@);
    true
}

/// A copy of an id list.
pub fn copy_ids(a: &[ModId]) -> (r: Vec<ModId>)
    ensures
        r@ == a@,
{
    let mut r: Vec<ModId> = Vec::new();
    for i in 0..a.len()
        invariant
            r@ == a@.take(i as int),
    {
        r.push(a[i]);
        assert(a@.take(i + 1) == a@.take(i as int).push(a@[i as int]));
    }
    assert(a@.take(a@.len() as int) == a@);
    r
}

} // verus!
