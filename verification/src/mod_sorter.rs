//! Automatic sorting of the active mods by their load rules, and detection
//! of active mods whose rules the current order breaks.
use vstd::prelude::*;

use std::collections::HashMap;

use crate::id_lists::{first_index, lemma_first_index};
use crate::models::{package_views, ModCollection, ModId, PackageId, RimworldMod};
use crate::text::{joined, push_str, string_views};

verus! {

// ---------------------------------------------------------------------------
// The load rules among the active mods
// ---------------------------------------------------------------------------

/// Every active id refers to a mod of the collection.
pub open spec fn valid_active(all: Seq<RimworldMod>, e: Seq<ModId>) -> bool {
    forall|k: int| 0 <= k < e.len() ==> (#[trigger] e[k]).0 < all.len()
}

/// Whether every active id names a mod, as sorting and the order checks
/// require.
pub fn active_ids_valid(mods: &ModCollection) -> (r: bool)
    ensures
        r == valid_active(mods.all@, mods.enabled_ids@),
{
    let mut k: usize = 0;
    while k < mods.enabled_ids.len()
        invariant
            k <= mods.enabled_ids@.len(),
            forall|j: int| 0 <= j < k ==> (#[trigger] mods.enabled_ids@[j]).0 < mods.all@.len(),
        decreases mods.enabled_ids@.len() - k,
    {
        if mods.enabled_ids[k].0 >= mods.all.len() {
            return false;
        }
        k = k + 1;
    }
    true
}

/// The package identifier of the active mod at position `k`.
pub open spec fn active_package(all: Seq<RimworldMod>, e: Seq<ModId>, k: int) -> Seq<char> {
    all[e[k].0 as int].package_id@
}

/// The package identifiers of the active mods, in load order.
pub open spec fn active_packages(all: Seq<RimworldMod>, e: Seq<ModId>) -> Seq<Seq<char>> {
    Seq::new(e.len(), |k: int| active_package(all, e, k))
}

/// The first active position whose package identifier already occurred
/// earlier in the load order.
pub open spec fn first_repeat(p: Seq<Seq<char>>) -> Option<int>
    decreases p.len(),
{
    if p.len() == 0 {
        None
    } else {
        match first_repeat(p.drop_last()) {
            Some(k) => Some(k),
            None => if p.drop_last().contains(p.last()) {
                Some(p.len() - 1)
            } else {
                None
            },
        }
    }
}

/// The mod at position `u` must load before the mod at position `v`: `v`
/// loads after `u`'s package, or `u` loads before `v`'s package.
pub open spec fn load_edge(all: Seq<RimworldMod>, e: Seq<ModId>, u: int, v: int) -> bool {
    ||| package_views(all[e[v].0 as int].loader_after@).contains(active_package(all, e, u))
    ||| package_views(all[e[u].0 as int].loader_before@).contains(active_package(all, e, v))
}

/// Position `v` can be placed next once the positions in `placed` are: it
/// is not placed yet and no unplaced position must come before it.
pub open spec fn is_ready(all: Seq<RimworldMod>, e: Seq<ModId>, placed: Seq<int>, v: int) -> bool {
    &&& 0 <= v < e.len()
    &&& !placed.contains(v)
    &&& forall|u: int|
        0 <= u < e.len() && !placed.contains(u) ==> !#[trigger] load_edge(all, e, u, v)
}

/// The earliest ready position at or after `w`, or the number of active mods.
pub open spec fn earliest_ready_from(
    all: Seq<RimworldMod>,
    e: Seq<ModId>,
    placed: Seq<int>,
    w: int,
) -> int
    decreases e.len() - w,
{
    if w >= e.len() {
        e.len() as int
    } else if is_ready(all, e, placed, w) {
        w
    } else {
        earliest_ready_from(all, e, placed, w + 1)
    }
}

/// The order that repeatedly places the earliest ready position, after `k`
/// steps (it stops growing once nothing is ready).
pub open spec fn greedy_run(all: Seq<RimworldMod>, e: Seq<ModId>, k: nat) -> Seq<int>
    decreases k,
{
    if k == 0 {
        Seq::empty()
    } else {
        let placed = greedy_run(all, e, (k - 1) as nat);
        let v = earliest_ready_from(all, e, placed, 0);
        if v < e.len() {
            placed.push(v)
        } else {
            placed
        }
    }
}

/// The sorted order of the active positions: each step places the earliest
/// active mod (in the current order) whose rules are all satisfied.
pub open spec fn sorted_positions(all: Seq<RimworldMod>, e: Seq<ModId>) -> Seq<int> {
    greedy_run(all, e, e.len())
}

/// The active ids in the sorted order.
pub open spec fn sorted_ids(all: Seq<RimworldMod>, e: Seq<ModId>) -> Seq<ModId> {
    sorted_positions(all, e).map_values(|p: int| e[p])
}

/// The package identifiers, in load order, of the active mods that the
/// sorted order cannot place.
pub open spec fn blocked_packages(all: Seq<RimworldMod>, e: Seq<ModId>) -> Seq<Seq<char>> {
    let placed = sorted_positions(all, e);
    Seq::new(e.len(), |k: int| k).filter(|k: int| !placed.contains(k)).map_values(
        |k: int| active_package(all, e, k),
    )
}

#[derive(Debug)]
pub enum SortError {
    DuplicatePackageId(String),
    DependencyCycle(Vec<String>),
}

impl SortError {
    /// The message shown for this error.
    pub fn message(&self) -> (r: String)
        ensures
            r@ == (match self {
                SortError::DuplicatePackageId(p) => "duplicate active package ID: "@ + p@,
                SortError::DependencyCycle(ps) => "dependency cycle involving: "@ + joined(
                    string_views(ps@),
                    ", "@,
                ),
            }),
    {
        let mut r = String::new();
        match self {
            SortError::DuplicatePackageId(p) => {
                push_str(&mut r, "duplicate active package ID: ");
                push_str(&mut r, p.as_str());
            },
            SortError::DependencyCycle(ps) => {
                push_str(&mut r, "dependency cycle involving: ");
                let ghost start = r@;
                let ghost views = string_views(ps@);
                for i in 0..ps.len()
                    invariant
                        views == string_views(ps@),
                        r@ == start + joined(views.take(i as int), ", "@),
                {
                    assert(views.take(i + 1).drop_last() == views.take(i as int));
                    if i > 0 {
                        push_str(&mut r, ", ");
                    } else {
                        assert(views.take(0) == Seq::<Seq<char>>::empty());
                    }
                    push_str(&mut r, ps[i].as_str());
                }
                assert(views.take(views.len() as int) == views);
            },
        }
        r
    }
}

// ---------------------------------------------------------------------------
// Facts about the sorted order
// ---------------------------------------------------------------------------

/// The number of unplaced positions below `k` that must come before `v`.
pub open spec fn pending_count(
    all: Seq<RimworldMod>,
    e: Seq<ModId>,
    done: Seq<bool>,
    v: int,
    k: int,
) -> nat
    decreases k,
{
    if k <= 0 {
        0
    } else {
        pending_count(all, e, done, v, k - 1) + (if load_edge(all, e, k - 1, v) && !done[k - 1] {
            1nat
        } else {
            0nat
        })
    }
}

proof fn lemma_pending_zero(all: Seq<RimworldMod>, e: Seq<ModId>, done: Seq<bool>, v: int, k: int)
    requires
        0 <= k,
    ensures
        pending_count(all, e, done, v, k) <= k,
        pending_count(all, e, done, v, k) == 0 <==> forall|u: int|
            0 <= u < k ==> !(load_edge(all, e, u, v) && !done[u]),
    decreases k,
{
    if k > 0 {
        lemma_pending_zero(all, e, done, v, k - 1);
    }
}

proof fn lemma_pending_place(
    all: Seq<RimworldMod>,
    e: Seq<ModId>,
    done: Seq<bool>,
    x: int,
    v: int,
    k: int,
)
    requires
        0 <= x < done.len(),
        !done[x],
        0 <= k <= done.len(),
    ensures
        pending_count(all, e, done.update(x, true), v, k) + (if x < k && load_edge(all, e, x, v) {
            1nat
        } else {
            0nat
        }) == pending_count(all, e, done, v, k),
    decreases k,
{
    if k > 0 {
        lemma_pending_place(all, e, done, x, v, k - 1);
        assert(done.update(x, true)[k - 1] == if k - 1 == x {
            true
        } else {
            done[k - 1]
        });
    }
}

proof fn lemma_earliest_ready(all: Seq<RimworldMod>, e: Seq<ModId>, placed: Seq<int>, w: int)
    requires
        0 <= w,
    ensures
        w <= earliest_ready_from(all, e, placed, w) || earliest_ready_from(all, e, placed, w)
            == e.len(),
        earliest_ready_from(all, e, placed, w) <= e.len() || w > e.len(),
        earliest_ready_from(all, e, placed, w) < e.len() ==> is_ready(
            all,
            e,
            placed,
            earliest_ready_from(all, e, placed, w),
        ),
        forall|j: int|
            w <= j < earliest_ready_from(all, e, placed, w) ==> !#[trigger] is_ready(
                all,
                e,
                placed,
                j,
            ),
    decreases e.len() - w,
{
    if w < e.len() && !is_ready(all, e, placed, w) {
        lemma_earliest_ready(all, e, placed, w + 1);
    }
}

/// Each step of the greedy run places a new position.
proof fn lemma_greedy_run(all: Seq<RimworldMod>, e: Seq<ModId>, k: nat)
    ensures
        greedy_run(all, e, k).len() <= k,
        greedy_run(all, e, k).no_duplicates(),
        forall|i: int|
            0 <= i < greedy_run(all, e, k).len() ==> 0 <= #[trigger] greedy_run(all, e, k)[i]
                < e.len(),
        forall|i: int|
            0 <= i < greedy_run(all, e, k).len() ==> is_ready(
                all,
                e,
                greedy_run(all, e, k).take(i),
                #[trigger] greedy_run(all, e, k)[i],
            ),
    decreases k,
{
    if k > 0 {
        let placed = greedy_run(all, e, (k - 1) as nat);
        lemma_greedy_run(all, e, (k - 1) as nat);
        lemma_earliest_ready(all, e, placed, 0);
        let v = earliest_ready_from(all, e, placed, 0);
        if v < e.len() {
            let s = placed.push(v);
            assert forall|i: int| 0 <= i < s.len() implies is_ready(
                all,
                e,
                s.take(i),
                #[trigger] s[i],
            ) by {
                if i < placed.len() {
                    assert(s.take(i) == placed.take(i));
                } else {
                    assert(s.take(i) == placed);
                }
            }
            assert forall|i: int, j: int| 0 <= i < s.len() && 0 <= j < s.len() && i != j implies s[i]
                != s[j] by {
                if i == placed.len() {
                    assert(placed.contains(s[j]));
                } else if j == placed.len() {
                    assert(placed.contains(s[i]));
                }
            }
        }
    }
}

/// Once nothing is ready, the greedy run stops growing.
proof fn lemma_greedy_stops(all: Seq<RimworldMod>, e: Seq<ModId>, k: nat, k2: nat)
    requires
        k <= k2,
        earliest_ready_from(all, e, greedy_run(all, e, k), 0) >= e.len(),
    ensures
        greedy_run(all, e, k2) == greedy_run(all, e, k),
    decreases k2 - k,
{
    if k2 > k {
        lemma_greedy_stops(all, e, k, (k2 - 1) as nat);
    }
}

/// A duplicate-free sequence of `n` positions below `n` holds every one.
proof fn lemma_covers_all(s: Seq<int>, n: int)
    requires
        s.no_duplicates(),
        forall|i: int| 0 <= i < s.len() ==> 0 <= #[trigger] s[i] < n,
        s.len() == n,
    ensures
        forall|v: int| 0 <= v < n ==> s.contains(v),
{
    broadcast use vstd::seq_lib::seq_to_set_is_finite;

    vstd::set_lib::lemma_int_range(0, n);
    s.unique_seq_to_set();
    let r = vstd::set_lib::set_int_range(0, n);
    assert(s.to_set().subset_of(r));
    vstd::set_lib::lemma_subset_equality(s.to_set(), r);
    assert forall|v: int| 0 <= v < n implies s.contains(v) by {
        assert(r.contains(v));
        assert(s.to_set().contains(v));
    }
}

/// Fewer than `n` positions below `n` miss one of them.
proof fn lemma_misses_one(s: Seq<int>, n: int) -> (v: int)
    requires
        s.len() < n,
    ensures
        0 <= v < n,
        !s.contains(v),
{
    broadcast use vstd::seq_lib::seq_to_set_is_finite;

    vstd::set_lib::lemma_int_range(0, n);
    s.lemma_cardinality_of_set();
    let r = vstd::set_lib::set_int_range(0, n);
    if forall|v: int| 0 <= v < n ==> s.contains(v) {
        assert(r.subset_of(s.to_set()));
        vstd::set_lib::lemma_len_subset(r, s.to_set());
        assert(false);
    }
    choose|v: int| 0 <= v < n && !s.contains(v)
}

// ---------------------------------------------------------------------------
// Laws
// ---------------------------------------------------------------------------

/// A complete sorted order places every active position exactly once.
pub proof fn lemma_sorted_order_is_a_permutation(all: Seq<RimworldMod>, e: Seq<ModId>)
    requires
        sorted_positions(all, e).len() == e.len(),
    ensures
        sorted_positions(all, e).no_duplicates(),
        forall|v: int| 0 <= v < e.len() ==> sorted_positions(all, e).contains(v),
        forall|i: int|
            0 <= i < e.len() ==> 0 <= #[trigger] sorted_positions(all, e)[i] < e.len(),
{
    let s = sorted_positions(all, e);
    lemma_greedy_run(all, e, e.len());
    lemma_covers_all(s, e.len() as int);
}

/// In a complete sorted order, no mod is placed after a mod that must come
/// after it, and no mod must come before itself.
pub proof fn lemma_sorted_order_keeps_the_rules(all: Seq<RimworldMod>, e: Seq<ModId>)
    ensures
        forall|i: int, j: int|
            0 <= i <= j < sorted_positions(all, e).len() ==> !load_edge(
                all,
                e,
                #[trigger] sorted_positions(all, e)[j],
                #[trigger] sorted_positions(all, e)[i],
            ),
{
    let s = sorted_positions(all, e);
    lemma_greedy_run(all, e, e.len());
    assert forall|i: int, j: int| 0 <= i <= j < s.len() implies !load_edge(
        all,
        e,
        #[trigger] s[j],
        #[trigger] s[i],
    ) by {
        assert(is_ready(all, e, s.take(i), s[i]));
        assert(!s.take(i).contains(s[j])) by {
            if s.take(i).contains(s[j]) {
                let k = choose|k: int| 0 <= k < i && s.take(i)[k] == s[j];
                assert(s[k] == s[j]);
            }
        }
    }
}

/// An order that already keeps every rule is left as it is.
pub proof fn lemma_sorting_keeps_a_valid_order(all: Seq<RimworldMod>, e: Seq<ModId>)
    requires
        forall|u: int, v: int|
            0 <= u < e.len() && 0 <= v < e.len() && #[trigger] load_edge(all, e, u, v) ==> u < v,
    ensures
        sorted_positions(all, e) == Seq::new(e.len(), |k: int| k),
        sorted_ids(all, e) == e,
{
    lemma_greedy_identity(all, e, e.len());
    assert(sorted_ids(all, e) =~= e);
}

proof fn lemma_greedy_identity(all: Seq<RimworldMod>, e: Seq<ModId>, k: nat)
    requires
        k <= e.len(),
        forall|u: int, v: int|
            0 <= u < e.len() && 0 <= v < e.len() && #[trigger] load_edge(all, e, u, v) ==> u < v,
    ensures
        greedy_run(all, e, k) == Seq::new(k, |i: int| i),
    decreases k,
{
    if k > 0 {
        let j = k - 1;
        lemma_greedy_identity(all, e, j as nat);
        let placed = greedy_run(all, e, j as nat);
        assert(is_ready(all, e, placed, j)) by {
            assert(!placed.contains(j));
            assert forall|u: int| 0 <= u < e.len() && !placed.contains(u) implies !#[trigger] load_edge(
                all,
                e,
                u,
                j,
            ) by {
                if u < j {
                    assert(placed[u] == u);
                }
            }
        }
        lemma_earliest_ready(all, e, placed, 0);
        let v = earliest_ready_from(all, e, placed, 0);
        if v < j {
            assert(placed[v] == v);
        }
        assert(placed.push(j) =~= Seq::new(k, |i: int| i));
    }
}

/// When some order of the active mods keeps every rule, sorting places
/// every active mod: it fails with a dependency cycle only when no such
/// order exists.
pub proof fn lemma_sorting_succeeds_when_an_order_exists(
    all: Seq<RimworldMod>,
    e: Seq<ModId>,
    order: Seq<int>,
)
    requires
        order.len() == e.len(),
        order.no_duplicates(),
        forall|i: int| 0 <= i < order.len() ==> 0 <= #[trigger] order[i] < e.len(),
        forall|i: int, j: int|
            0 <= i < order.len() && 0 <= j < order.len() && load_edge(
                all,
                e,
                #[trigger] order[i],
                #[trigger] order[j],
            ) ==> i < j,
    ensures
        sorted_positions(all, e).len() == e.len(),
{
    let n = e.len();
    lemma_greedy_run(all, e, n);
    let s = sorted_positions(all, e);
    if s.len() < n {
        // The run stopped early: nothing was ready any more.
        let k = lemma_stop_step(all, e, n);
        let placed = greedy_run(all, e, k);
        lemma_greedy_stops(all, e, k, n);
        lemma_covers_all(order, n as int);
        // The first unplaced position in `order` would have been ready.
        let missing = lemma_misses_one(placed, n as int);
        assert(order.contains(missing));
        let idx = choose|i: int| 0 <= i < order.len() && order[i] == missing;
        let first = lemma_first_unplaced(order, placed, idx);
        let x = order[first];
        assert(is_ready(all, e, placed, x)) by {
            assert forall|u: int| 0 <= u < n && !placed.contains(u) implies !#[trigger] load_edge(
                all,
                e,
                u,
                x,
            ) by {
                assert(order.contains(u));
                let iu = choose|i: int| 0 <= i < order.len() && order[i] == u;
                if load_edge(all, e, u, x) {
                    assert(iu < first);
                }
            }
        }
        lemma_earliest_ready(all, e, placed, 0);
        assert(false);
    }
}

/// The earliest position of `order` that `placed` lacks, given one.
proof fn lemma_first_unplaced(order: Seq<int>, placed: Seq<int>, idx: int) -> (first: int)
    requires
        0 <= idx < order.len(),
        !placed.contains(order[idx]),
    ensures
        0 <= first <= idx,
        !placed.contains(order[first]),
        forall|i: int| 0 <= i < first ==> placed.contains(#[trigger] order[i]),
    decreases idx,
{
    if exists|i: int| 0 <= i < idx && !placed.contains(#[trigger] order[i]) {
        let i = choose|i: int| 0 <= i < idx && !placed.contains(#[trigger] order[i]);
        lemma_first_unplaced(order, placed, i)
    } else {
        idx
    }
}

/// A step at which the greedy run had nothing ready, when it ended short.
proof fn lemma_stop_step(all: Seq<RimworldMod>, e: Seq<ModId>, n: nat) -> (k: nat)
    requires
        n == e.len(),
        greedy_run(all, e, n).len() < n,
    ensures
        k <= n,
        earliest_ready_from(all, e, greedy_run(all, e, k), 0) >= e.len(),
{
    lemma_stop_step_from(all, e, n)
}

proof fn lemma_stop_step_from(all: Seq<RimworldMod>, e: Seq<ModId>, k: nat) -> (r: nat)
    requires
        greedy_run(all, e, k).len() < k,
    ensures
        r < k,
        earliest_ready_from(all, e, greedy_run(all, e, r), 0) >= e.len(),
    decreases k,
{
    let prev = greedy_run(all, e, (k - 1) as nat);
    lemma_greedy_run(all, e, (k - 1) as nat);
    if earliest_ready_from(all, e, prev, 0) >= e.len() {
        (k - 1) as nat
    } else {
        lemma_stop_step_from(all, e, (k - 1) as nat)
    }
}

// ---------------------------------------------------------------------------
// Sorting
// ---------------------------------------------------------------------------

proof fn lemma_first_repeat_prefix(p: Seq<Seq<char>>, j: int)
    requires
        0 <= j <= p.len(),
        first_repeat(p.take(j)) is Some,
    ensures
        first_repeat(p) == first_repeat(p.take(j)),
    decreases p.len() - j,
{
    if j < p.len() {
        assert(p.drop_last().take(j) == p.take(j));
        lemma_first_repeat_prefix(p.drop_last(), j);
    } else {
        assert(p.take(j) == p);
    }
}

/// Whether `list` names the package `p`.
fn lists_package(list: &Vec<PackageId>, p: &PackageId) -> (r: bool)
    ensures
        r == package_views(list@).contains(p@),
{
    let ghost views = package_views(list@);
    let mut i: usize = 0;
    while i < list.len()
        invariant
            i <= list@.len(),
            views == package_views(list@),
            forall|j: int| 0 <= j < i ==> views[j] != p@,
        decreases list@.len() - i,
    {
        if list[i].same_as(p) {
            assert(views[i as int] == p@);
            return true;
        }
        i = i + 1;
    }
    false
}

/// The first active position whose package repeats an earlier one.
fn find_repeat(all: &Vec<RimworldMod>, e: &[ModId]) -> (r: Option<usize>)
    requires
        valid_active(all@, e@),
    ensures
        r matches Some(k) ==> k < e@.len() && first_repeat(active_packages(all@, e@)) == Some(
            k as int,
        ),
        r is None ==> first_repeat(active_packages(all@, e@)) is None,
{
    let ghost p = active_packages(all@, e@);
    for k in 0..e.len()
        invariant
            valid_active(all@, e@),
            p == active_packages(all@, e@),
            first_repeat(p.take(k as int)) is None,
    {
        let current = &all[e[k].0].package_id;
        assert(p[k as int] == current@);
        assert(p.take(k + 1).drop_last() == p.take(k as int));
        assert(p.take(k + 1).last() == p[k as int]);
        for j in 0..k
            invariant
                valid_active(all@, e@),
                p == active_packages(all@, e@),
                k < e@.len(),
                p[k as int] == current@,
                first_repeat(p.take(k as int)) is None,
                forall|i: int| 0 <= i < j ==> p[i] != current@,
        {
            if all[e[j].0].package_id.same_as(current) {
                proof {
                    assert(p.take(k as int)[j as int] == p[k as int]);
                    assert(p.take(k as int).contains(p[k as int]));
                    assert(p.take(k + 1).drop_last() == p.take(k as int));
                    assert(p.take(k + 1).last() == p[k as int]);
                    assert(first_repeat(p.take(k + 1)) == Some(k as int));
                    lemma_first_repeat_prefix(p, k + 1);
                }
                return Some(k);
            }
        }
        assert(!p.take(k as int).contains(p[k as int]));
    }
    assert(p.take(e@.len() as int) == p);
    None
}

/// `matrix[u][v]` tells whether the active mod at `u` must load before
/// the one at `v`.
fn rule_matrix(all: &Vec<RimworldMod>, e: &[ModId]) -> (matrix: Vec<Vec<bool>>)
    requires
        valid_active(all@, e@),
    ensures
        matrix@.len() == e@.len(),
        forall|u: int| 0 <= u < e@.len() ==> (#[trigger] matrix@[u])@.len() == e@.len(),
        forall|u: int, v: int|
            0 <= u < e@.len() && 0 <= v < e@.len() ==> #[trigger] matrix@[u]@[v] == load_edge(
                all@,
                e@,
                u,
                v,
            ),
{
    let n = e.len();
    let mut matrix: Vec<Vec<bool>> = Vec::new();
    for u in 0..n
        invariant
            n == e@.len(),
            valid_active(all@, e@),
            matrix@.len() == u,
            forall|a: int| 0 <= a < u ==> (#[trigger] matrix@[a])@.len() == n,
            forall|a: int, v: int|
                0 <= a < u && 0 <= v < n ==> #[trigger] matrix@[a]@[v] == load_edge(
                    all@,
                    e@,
                    a,
                    v,
                ),
    {
        let earlier = &all[e[u].0];
        let mut row: Vec<bool> = Vec::new();
        for v in 0..n
            invariant
                n == e@.len(),
                valid_active(all@, e@),
                u < n,
                *earlier == all@[e@[u as int].0 as int],
                row@.len() == v,
                forall|b: int| 0 <= b < v ==> row@[b] == load_edge(all@, e@, u as int, b),
        {
            let later = &all[e[v].0];
            let edge = lists_package(&later.loader_after, &earlier.package_id) || lists_package(
                &earlier.loader_before,
                &later.package_id,
            );
            row.push(edge);
        }
        matrix.push(row);
    }
    matrix
}

pub fn sort_mods(mods: &mut ModCollection) -> (r: Result<(), SortError>)
    requires
        valid_active(old(mods).all@, old(mods).enabled_ids@),
    ensures
        final(mods).all@ == old(mods).all@,
        final(mods).disabled_ids@ == old(mods).disabled_ids@,
        final(mods).missing_active_package_ids@ == old(mods).missing_active_package_ids@,
        ({
            let all = old(mods).all@;
            let e = old(mods).enabled_ids@;
            match first_repeat(active_packages(all, e)) {
                Some(k) => r matches Err(SortError::DuplicatePackageId(p)) && p@ == active_package(
                    all,
                    e,
                    k,
                ),
                None => if sorted_positions(all, e).len() == e.len() {
                    r is Ok && final(mods).enabled_ids@ == sorted_ids(all, e)
                } else {
                    r matches Err(SortError::DependencyCycle(ps)) && string_views(ps@)
                        == blocked_packages(all, e)
                },
            }
        }),
        r is Err ==> final(mods).enabled_ids@ == old(mods).enabled_ids@,
{
    let ghost all = mods.all@;
    let ghost e = mods.enabled_ids@;
    let n = mods.enabled_ids.len();
    if let Some(k) = find_repeat(&mods.all, mods.enabled_ids.as_slice()) {
        let repeated = mods.all[mods.enabled_ids[k].0].package_id.to_text();
        return Err(SortError::DuplicatePackageId(repeated));
    }
    let matrix = rule_matrix(&mods.all, mods.enabled_ids.as_slice());
    // done[v]: position v is placed; pending[v]: unplaced positions that
    // must come before v.
    let mut done: Vec<bool> = Vec::new();
    for v in 0..n
        invariant
            done@.len() == v,
            forall|i: int| 0 <= i < v ==> !done@[i],
    {
        done.push(false);
    }
    let mut pending: Vec<usize> = Vec::new();
    for v in 0..n
        invariant
            n == e.len(),
            all == mods.all@,
            e == mods.enabled_ids@,
            done@.len() == n,
            forall|i: int| 0 <= i < n ==> !done@[i],
            matrix@.len() == n,
            forall|u: int| 0 <= u < n ==> (#[trigger] matrix@[u])@.len() == n,
            forall|u: int, w: int|
                0 <= u < n && 0 <= w < n ==> #[trigger] matrix@[u]@[w] == load_edge(all, e, u, w),
            pending@.len() == v,
            forall|w: int|
                0 <= w < v ==> pending@[w] == pending_count(all, e, done@, w, n as int),
    {
        let mut count: usize = 0;
        for u in 0..n
            invariant
                n == e.len(),
                v < n,
                done@.len() == n,
                forall|i: int| 0 <= i < n ==> !done@[i],
                matrix@.len() == n,
                forall|a: int| 0 <= a < n ==> (#[trigger] matrix@[a])@.len() == n,
                forall|a: int, w: int|
                    0 <= a < n && 0 <= w < n ==> #[trigger] matrix@[a]@[w] == load_edge(
                        all,
                        e,
                        a,
                        w,
                    ),
                count == pending_count(all, e, done@, v as int, u as int),
        {
            proof {
                lemma_pending_zero(all, e, done@, v as int, u as int);
            }
            if matrix[u][v] {
                count = count + 1;
            }
        }
        pending.push(count);
    }
    let mut placed: Vec<usize> = Vec::new();
    let mut stuck = false;
    while !stuck && placed.len() < n
        invariant
            n == e.len(),
            all == mods.all@,
            e == mods.enabled_ids@,
            valid_active(all, e),
            done@.len() == n,
            matrix@.len() == n,
            forall|u: int| 0 <= u < n ==> (#[trigger] matrix@[u])@.len() == n,
            forall|u: int, w: int|
                0 <= u < n && 0 <= w < n ==> #[trigger] matrix@[u]@[w] == load_edge(all, e, u, w),
            pending@.len() == n,
            forall|w: int|
                0 <= w < n ==> #[trigger] pending@[w] == pending_count(all, e, done@, w, n as int),
            placed@.len() <= n,
            greedy_run(all, e, placed@.len() as nat) == placed@.map_values(|p: usize| p as int),
            forall|i: int| 0 <= i < n ==> (done@[i] <==> placed@.map_values(|p: usize| p as int).contains(i)),
            stuck ==> earliest_ready_from(
                all,
                e,
                placed@.map_values(|p: usize| p as int),
                0,
            ) >= n,
        decreases (n - placed@.len()) * 2 + (if stuck {
            0int
        } else {
            1int
        }),
    {
        let ghost pl = placed@.map_values(|p: usize| p as int);
        // The earliest unplaced position with nothing pending is the earliest
        // ready one.
        let mut v: usize = 0;
        while v < n && (done[v] || pending[v] != 0)
            invariant
                n == e.len(),
                done@.len() == n,
                pending@.len() == n,
                v <= n,
                forall|w: int|
                    0 <= w < n ==> #[trigger] pending@[w] == pending_count(
                        all,
                        e,
                        done@,
                        w,
                        n as int,
                    ),
                forall|i: int| 0 <= i < n ==> (done@[i] <==> pl.contains(i)),
                earliest_ready_from(all, e, pl, 0) == earliest_ready_from(all, e, pl, v as int),
            decreases n - v,
        {
            proof {
                lemma_pending_zero(all, e, done@, v as int, n as int);
                assert(!is_ready(all, e, pl, v as int)) by {
                    if !done@[v as int] {
                        let u = choose|u: int|
                            0 <= u < n && #[trigger] load_edge(all, e, u, v as int) && !done@[u];
                        assert(!pl.contains(u));
                    }
                }
            }
            v = v + 1;
        }
        proof {
            if v < n {
                lemma_pending_zero(all, e, done@, v as int, n as int);
                assert(is_ready(all, e, pl, v as int)) by {
                    assert forall|u: int| 0 <= u < n && !pl.contains(u) implies !#[trigger] load_edge(
                        all,
                        e,
                        u,
                        v as int,
                    ) by {
                        assert(!done@[u]);
                    }
                }
            }
        }
        if v == n {
            stuck = true;
        } else {
            let ghost old_done = done@;
            done.set(v, true);
            placed.push(v);
            proof {
                let npl = placed@.map_values(|p: usize| p as int);
                assert(npl == pl.push(v as int));
                assert(greedy_run(all, e, placed@.len() as nat) == pl.push(v as int));
                assert forall|i: int| 0 <= i < n implies (done@[i] <==> npl.contains(i)) by {
                    if i == v {
                        assert(npl[pl.len() as int] == v);
                    } else if pl.contains(i) {
                        let j = choose|j: int| 0 <= j < pl.len() && pl[j] == i;
                        assert(npl[j] == i);
                    } else if npl.contains(i) {
                        let j = choose|j: int| 0 <= j < npl.len() && npl[j] == i;
                        assert(pl[j] == i);
                    }
                }
            }
            for w in 0..n
                invariant
                    n == e.len(),
                    v < n,
                    done@.len() == n,
                    old_done.len() == n,
                    !old_done[v as int],
                    done@ == old_done.update(v as int, true),
                    matrix@.len() == n,
                    forall|u: int| 0 <= u < n ==> (#[trigger] matrix@[u])@.len() == n,
                    forall|u: int, x: int|
                        0 <= u < n && 0 <= x < n ==> #[trigger] matrix@[u]@[x] == load_edge(
                            all,
                            e,
                            u,
                            x,
                        ),
                    pending@.len() == n,
                    forall|x: int|
                        0 <= x < w ==> #[trigger] pending@[x] == pending_count(
                            all,
                            e,
                            done@,
                            x,
                            n as int,
                        ),
                    forall|x: int|
                        w <= x < n ==> #[trigger] pending@[x] == pending_count(
                            all,
                            e,
                            old_done,
                            x,
                            n as int,
                        ),
            {
                proof {
                    lemma_pending_place(all, e, old_done, v as int, w as int, n as int);
                }
                if matrix[v][w] {
                    let updated = pending[w] - 1;
                    pending.set(w, updated);
                }
            }
        }
    }
    let ghost pl = placed@.map_values(|p: usize| p as int);
    proof {
        if stuck {
            lemma_greedy_stops(all, e, placed@.len() as nat, n as nat);
        } else {
            assert(placed@.len() == n);
        }
        assert(sorted_positions(all, e) == pl);
    }
    if placed.len() < n {
        let mut blocked: Vec<String> = Vec::new();
        let ghost unplaced = |k: int| !pl.contains(k);
        let ghost range = Seq::new(n as nat, |k: int| k);
        for k in 0..n
            invariant
                n == e.len(),
                all == mods.all@,
                e == mods.enabled_ids@,
                valid_active(all, e),
                done@.len() == n,
                forall|i: int| 0 <= i < n ==> (done@[i] <==> pl.contains(i)),
                range == Seq::new(n as nat, |k: int| k),
                forall|x: int| #[trigger] unplaced(x) == !pl.contains(x),
                string_views(blocked@) == range.take(k as int).filter(unplaced).map_values(
                    |k: int| active_package(all, e, k),
                ),
        {
            proof {
                assert(range.take(k + 1) == range.take(k as int).push(k as int));
                range.take(k as int).lemma_filter_push(k as int, unplaced);
            }
            let ghost before = blocked@;
            let ghost earlier = range.take(k as int).filter(unplaced);
            if !done[k] {
                blocked.push(mods.all[mods.enabled_ids[k].0].package_id.to_text());
                assert(string_views(blocked@) == string_views(before).push(
                    active_package(all, e, k as int),
                ));
                assert(unplaced(k as int));
                assert(range.take(k + 1).filter(unplaced) == earlier.push(k as int));
                assert(earlier.push(k as int).map_values(|k: int| active_package(all, e, k))
                    == earlier.map_values(|k: int| active_package(all, e, k)).push(
                    active_package(all, e, k as int),
                ));
            } else {
                assert(!unplaced(k as int));
                assert(range.take(k + 1).filter(unplaced) == earlier);
            }
        }
        assert(range.take(n as int) == range);
        return Err(SortError::DependencyCycle(blocked));
    }
    proof {
        lemma_greedy_run(all, e, n as nat);
    }
    let mut sorted: Vec<ModId> = Vec::new();
    for i in 0..n
        invariant
            n == e.len(),
            e == mods.enabled_ids@,
            placed@.len() == n,
            pl == placed@.map_values(|p: usize| p as int),
            pl == sorted_positions(all, e),
            forall|j: int| 0 <= j < n ==> 0 <= #[trigger] pl[j] < n,
            sorted@ == pl.take(i as int).map_values(|p: int| e[p]),
    {
        assert(pl.take(i + 1) == pl.take(i as int).push(pl[i as int]));
        sorted.push(mods.enabled_ids[placed[i]]);
    }
    assert(pl.take(n as int) == pl);
    mods.replace_enabled_order(sorted);
    Ok(())
}

// ---------------------------------------------------------------------------
// Order warnings
// ---------------------------------------------------------------------------

/// The active mods named by one mod's load rules.
#[derive(Debug)]
pub struct OrderWarning {
    pub after_mod_ids: Vec<ModId>,
    pub before_mod_ids: Vec<ModId>,
}

/// The ids of the active mods that a list of package identifiers names, in
/// list order; packages that are not active are skipped.
pub open spec fn named_active_ids(all: Seq<RimworldMod>, e: Seq<ModId>, list: Seq<Seq<char>>) -> Seq<
    ModId,
>
    decreases list.len(),
{
    if list.len() == 0 {
        Seq::empty()
    } else {
        let earlier = named_active_ids(all, e, list.drop_last());
        let ap = active_packages(all, e);
        if ap.contains(list.last()) {
            earlier.push(e[first_index(ap, list.last())])
        } else {
            earlier
        }
    }
}

/// Some active package in `list` stands at a position that the rule forbids:
/// at or after `v` for a load-after rule (`after`), at or before `v` otherwise.
pub open spec fn names_misplaced(
    all: Seq<RimworldMod>,
    e: Seq<ModId>,
    list: Seq<Seq<char>>,
    v: int,
    after: bool,
) -> bool {
    let ap = active_packages(all, e);
    exists|i: int|
        0 <= i < list.len() && ap.contains(#[trigger] list[i]) && (if after {
            first_index(ap, list[i]) >= v
        } else {
            first_index(ap, list[i]) <= v
        })
}

/// The active mod at position `v` is placed against one of its rules.
pub open spec fn breaks_rules(all: Seq<RimworldMod>, e: Seq<ModId>, v: int) -> bool {
    let m = all[e[v].0 as int];
    names_misplaced(all, e, package_views(m.loader_after@), v, true) || names_misplaced(
        all,
        e,
        package_views(m.loader_before@),
        v,
        false,
    )
}

/// With distinct packages, the first position of an active mod's package
/// is that mod's position.
proof fn lemma_active_position(all: Seq<RimworldMod>, e: Seq<ModId>, u: int)
    requires
        first_repeat(active_packages(all, e)) is None,
        0 <= u < e.len(),
    ensures
        first_index(active_packages(all, e), active_package(all, e, u)) == u,
        active_packages(all, e).contains(active_package(all, e, u)),
{
    let ap = active_packages(all, e);
    assert(ap[u] == active_package(all, e, u));
    assert forall|j: int| 0 <= j < u implies ap[j] != active_package(all, e, u) by {
        lemma_no_repeat(ap, j, u);
    }
    crate::id_lists::lemma_first_index_at(ap, active_package(all, e, u), u);
}

/// An active mod is warned about exactly when its place breaks one of its
/// rules: when a package it loads after is active at its position or
/// later, or a package it loads before is active at its position or
/// earlier. So an order in which a rule puts `u` before `v` (`load_edge`)
/// while `v` stands at or before `u` always warns about one of the two.
pub proof fn lemma_warnings_match_broken_rules(all: Seq<RimworldMod>, e: Seq<ModId>, v: int)
    requires
        valid_active(all, e),
        first_repeat(active_packages(all, e)) is None,
        0 <= v < e.len(),
    ensures
        breaks_rules(all, e, v) <==> exists|u: int|
            0 <= u < e.len() && ((v <= u && package_views(all[e[v].0 as int].loader_after@).contains(
                #[trigger] active_package(all, e, u),
            )) || (u <= v && package_views(all[e[v].0 as int].loader_before@).contains(
                active_package(all, e, u),
            ))),
        forall|u: int|
            0 <= u < e.len() && v <= u && #[trigger] load_edge(all, e, u, v) ==> breaks_rules(all, e, v)
                || breaks_rules(all, e, u),
{
    let ap = active_packages(all, e);
    let after = package_views(all[e[v].0 as int].loader_after@);
    let before = package_views(all[e[v].0 as int].loader_before@);
    if breaks_rules(all, e, v) {
        if names_misplaced(all, e, after, v, true) {
            let i = choose|i: int|
                0 <= i < after.len() && ap.contains(#[trigger] after[i]) && first_index(ap, after[i]) >= v;
            crate::id_lists::lemma_first_index(ap, after[i]);
            let u = first_index(ap, after[i]);
            assert(ap[u] == active_package(all, e, u));
            assert(after.contains(active_package(all, e, u)));
        } else {
            let i = choose|i: int|
                0 <= i < before.len() && ap.contains(#[trigger] before[i]) && first_index(ap, before[i]) <= v;
            crate::id_lists::lemma_first_index(ap, before[i]);
            let u = first_index(ap, before[i]);
            assert(ap[u] == active_package(all, e, u));
            assert(before.contains(active_package(all, e, u)));
        }
    }
    assert forall|u: int|
        0 <= u < e.len() && ((v <= u && after.contains(#[trigger] active_package(all, e, u))) || (u <= v
            && before.contains(active_package(all, e, u)))) implies breaks_rules(all, e, v) by {
        lemma_active_position(all, e, u);
        if v <= u && after.contains(active_package(all, e, u)) {
            let i = choose|i: int| 0 <= i < after.len() && after[i] == active_package(all, e, u);
            assert(ap.contains(after[i]) && first_index(ap, after[i]) >= v);
            assert(names_misplaced(all, e, after, v, true));
        } else {
            let i = choose|i: int| 0 <= i < before.len() && before[i] == active_package(all, e, u);
            assert(ap.contains(before[i]) && first_index(ap, before[i]) <= v);
            assert(names_misplaced(all, e, before, v, false));
        }
    }
    assert forall|u: int| 0 <= u < e.len() && v <= u && #[trigger] load_edge(all, e, u, v) implies breaks_rules(
        all,
        e,
        v,
    ) || breaks_rules(all, e, u) by {
        if package_views(all[e[v].0 as int].loader_after@).contains(active_package(all, e, u)) {
            assert(breaks_rules(all, e, v));
        } else {
            // `u` loads before `v`'s package, which stands at or before it.
            let ub = package_views(all[e[u].0 as int].loader_before@);
            assert(ub.contains(active_package(all, e, v)));
            lemma_active_position(all, e, v);
            let i = choose|i: int| 0 <= i < ub.len() && ub[i] == active_package(all, e, v);
            assert(ap.contains(ub[i]) && first_index(ap, ub[i]) <= u);
            assert(names_misplaced(all, e, ub, u, false));
        }
    }
}

/// Distinct entries have no repeat.
proof fn lemma_distinct_no_repeat(p: Seq<Seq<char>>)
    requires
        p.no_duplicates(),
    ensures
        first_repeat(p) is None,
    decreases p.len(),
{
    if p.len() > 0 {
        let init = p.drop_last();
        assert(init.no_duplicates()) by {
            assert forall|a: int, b: int| 0 <= a < init.len() && 0 <= b < init.len() && a != b implies init[a] != init[b] by {
                assert(init[a] == p[a] && init[b] == p[b]);
            }
        }
        lemma_distinct_no_repeat(init);
        if init.contains(p.last()) {
            let k = choose|k: int| 0 <= k < init.len() && init[k] == p.last();
            assert(p[k] == p[p.len() - 1]);
        }
    }
}

/// An order produced by the automatic sort shows no order warning: its
/// packages are still distinct, every id still names a mod, and no mod
/// stands against one of its rules.
pub proof fn lemma_sorted_order_has_no_warnings(all: Seq<RimworldMod>, e: Seq<ModId>)
    requires
        valid_active(all, e),
        first_repeat(active_packages(all, e)) is None,
        sorted_positions(all, e).len() == e.len(),
    ensures
        valid_active(all, sorted_ids(all, e)),
        first_repeat(active_packages(all, sorted_ids(all, e))) is None,
        forall|v: int| 0 <= v < e.len() ==> !#[trigger] breaks_rules(all, sorted_ids(all, e), v),
{
    let s = sorted_positions(all, e);
    let f = sorted_ids(all, e);
    let ap = active_packages(all, e);
    let fp = active_packages(all, f);
    lemma_sorted_order_is_a_permutation(all, e);
    lemma_sorted_order_keeps_the_rules(all, e);
    assert(f.len() == e.len());
    assert forall|k: int| 0 <= k < f.len() implies (#[trigger] f[k]).0 < all.len() by {
        assert(f[k] == e[s[k]]);
        assert(0 <= s[k] < e.len());
    }
    assert forall|k: int| 0 <= k < fp.len() implies #[trigger] fp[k] == ap[s[k]] by {
        assert(f[k] == e[s[k]]);
        assert(0 <= s[k] < e.len());
    }
    assert(fp.no_duplicates()) by {
        assert forall|a: int, b: int| 0 <= a < fp.len() && 0 <= b < fp.len() && a != b implies fp[a] != fp[b] by {
            assert(fp[a] == ap[s[a]] && fp[b] == ap[s[b]]);
            assert(s[a] != s[b]);
            assert(0 <= s[a] < e.len() && 0 <= s[b] < e.len());
            if s[a] < s[b] {
                lemma_no_repeat(ap, s[a], s[b]);
            } else {
                lemma_no_repeat(ap, s[b], s[a]);
            }
        }
    }
    lemma_distinct_no_repeat(fp);
    assert forall|v: int| 0 <= v < e.len() implies !#[trigger] breaks_rules(all, f, v) by {
        let m = all[f[v].0 as int];
        assert(f[v] == e[s[v]]);
        assert(0 <= s[v] < e.len());
        let after = package_views(m.loader_after@);
        let before = package_views(m.loader_before@);
        if names_misplaced(all, f, after, v, true) {
            let i = choose|i: int|
                0 <= i < after.len() && fp.contains(#[trigger] after[i]) && first_index(fp, after[i]) >= v;
            lemma_first_index(fp, after[i]);
            let w = first_index(fp, after[i]);
            assert(fp[w] == ap[s[w]]);
            assert(0 <= s[w] < e.len());
            assert(ap[s[w]] == active_package(all, e, s[w]));
            assert(load_edge(all, e, s[w], s[v]));
            assert(!load_edge(all, e, s[w], s[v]));
        }
        if names_misplaced(all, f, before, v, false) {
            let i = choose|i: int|
                0 <= i < before.len() && fp.contains(#[trigger] before[i]) && first_index(fp, before[i]) <= v;
            lemma_first_index(fp, before[i]);
            let w = first_index(fp, before[i]);
            assert(fp[w] == ap[s[w]]);
            assert(0 <= s[w] < e.len());
            assert(ap[s[w]] == active_package(all, e, s[w]));
            assert(load_edge(all, e, s[v], s[w]));
            assert(!load_edge(all, e, s[v], s[w]));
        }
    }
}

/// The position of the active mod with package `p`, or the number of active
/// mods.
fn active_position(all: &Vec<RimworldMod>, e: &[ModId], p: &PackageId) -> (r: usize)
    requires
        valid_active(all@, e@),
    ensures
        r == first_index(active_packages(all@, e@), p@),
{
    let ghost ap = active_packages(all@, e@);
    let mut i: usize = 0;
    while i < e.len() && !all[e[i].0].package_id.same_as(p)
        invariant
            valid_active(all@, e@),
            ap == active_packages(all@, e@),
            i <= e@.len(),
            forall|j: int| 0 <= j < i ==> ap[j] != p@,
        decreases e@.len() - i,
    {
        i = i + 1;
    }
    proof {
        crate::id_lists::lemma_first_index_at(ap, p@, i as int);
    }
    i
}

/// The active ids that `list` names, and whether one of them stands where
/// the rule forbids.
fn check_rule_list(all: &Vec<RimworldMod>, e: &[ModId], list: &Vec<PackageId>, v: usize, after: bool) -> (r: (
    Vec<ModId>,
    bool,
))
    requires
        valid_active(all@, e@),
    ensures
        r.0@ == named_active_ids(all@, e@, package_views(list@)),
        r.1 == names_misplaced(all@, e@, package_views(list@), v as int, after),
{
    let ghost ap = active_packages(all@, e@);
    let ghost views = package_views(list@);
    let mut ids: Vec<ModId> = Vec::new();
    let mut misplaced = false;
    for i in 0..list.len()
        invariant
            valid_active(all@, e@),
            ap == active_packages(all@, e@),
            views == package_views(list@),
            ids@ == named_active_ids(all@, e@, views.take(i as int)),
            misplaced == names_misplaced(all@, e@, views.take(i as int), v as int, after),
    {
        let position = active_position(all, e, &list[i]);
        proof {
            lemma_first_index(ap, views[i as int]);
            assert(views.take(i + 1).drop_last() == views.take(i as int));
            assert(views.take(i + 1).last() == views[i as int]);
            let t = views.take(i + 1);
            let prev = views.take(i as int);
            assert forall|j: int| 0 <= j < i implies #[trigger] t[j] == prev[j] by {}
        }
        if position < e.len() {
            ids.push(e[position]);
            let breaks = if after {
                position >= v
            } else {
                position <= v
            };
            proof {
                let t = views.take(i + 1);
                if breaks {
                    assert(ap.contains(t[i as int]));
                }
            }
            misplaced = misplaced || breaks;
        }
        proof {
            let t = views.take(i + 1);
            let prev = views.take(i as int);
            if names_misplaced(all@, e@, t, v as int, after) {
                let j = choose|j: int|
                    0 <= j < t.len() && ap.contains(#[trigger] t[j]) && (if after {
                        first_index(ap, t[j]) >= v
                    } else {
                        first_index(ap, t[j]) <= v
                    });
                if j < i {
                    assert(prev[j] == t[j]);
                }
            }
            if names_misplaced(all@, e@, prev, v as int, after) {
                let j = choose|j: int|
                    0 <= j < prev.len() && ap.contains(#[trigger] prev[j]) && (if after {
                        first_index(ap, prev[j]) >= v
                    } else {
                        first_index(ap, prev[j]) <= v
                    });
                assert(t[j] == prev[j]);
            }
        }
    }
    assert(views.take(views.len() as int) == views);
    (ids, misplaced)
}

/// The active mods whose load rules the current order breaks, keyed by
/// their mod index, with the active mods their rules name.
pub fn find_order_warnings(mods: &ModCollection) -> (r: Result<HashMap<usize, OrderWarning>, SortError>)
    requires
        valid_active(mods.all@, mods.enabled_ids@),
    ensures
        ({
            let all = mods.all@;
            let e = mods.enabled_ids@;
            match first_repeat(active_packages(all, e)) {
                Some(k) => r matches Err(SortError::DuplicatePackageId(p)) && p@ == active_package(
                    all,
                    e,
                    k,
                ),
                None => r matches Ok(warnings) && (forall|key: usize|
                    #[trigger] warnings@.contains_key(key) <==> exists|v: int|
                        0 <= v < e.len() && e[v].0 == key && breaks_rules(all, e, v)) && (forall|
                    v: int,
                |
                    0 <= v < e.len() && #[trigger] breaks_rules(all, e, v) ==> warnings@[e[v].0].after_mod_ids@
                        == named_active_ids(all, e, package_views(all[e[v].0 as int].loader_after@))
                        && warnings@[e[v].0].before_mod_ids@ == named_active_ids(
                        all,
                        e,
                        package_views(all[e[v].0 as int].loader_before@),
                    )),
            }
        }),
{
    broadcast use vstd::std_specs::hash::group_hash_axioms;

    let ghost all = mods.all@;
    let ghost e = mods.enabled_ids@;
    if let Some(k) = find_repeat(&mods.all, mods.enabled_ids.as_slice()) {
        let repeated = mods.all[mods.enabled_ids[k].0].package_id.to_text();
        return Err(SortError::DuplicatePackageId(repeated));
    }
    let ghost ap = active_packages(all, e);
    proof {
        // Distinct packages make the mod ids distinct too.
        assert forall|a: int, b: int| 0 <= a < b < e.len() implies e[a] != e[b] by {
            lemma_no_repeat(ap, a, b);
        }
    }
    let mut warnings: HashMap<usize, OrderWarning> = HashMap::new();
    let n = mods.enabled_ids.len();
    for v in 0..n
        invariant
            n == e.len(),
            all == mods.all@,
            e == mods.enabled_ids@,
            valid_active(all, e),
            forall|a: int, b: int| 0 <= a < b < e.len() ==> e[a] != e[b],
            forall|key: usize|
                #[trigger] warnings@.contains_key(key) <==> exists|w: int|
                    0 <= w < v && e[w].0 == key && breaks_rules(all, e, w),
            forall|w: int|
                0 <= w < v && #[trigger] breaks_rules(all, e, w) ==> warnings@[e[w].0].after_mod_ids@
                    == named_active_ids(all, e, package_views(all[e[w].0 as int].loader_after@))
                    && warnings@[e[w].0].before_mod_ids@ == named_active_ids(
                    all,
                    e,
                    package_views(all[e[w].0 as int].loader_before@),
                ),
    {
        let mod_id = mods.enabled_ids[v];
        let rimworld_mod = &mods.all[mod_id.0];
        let (after_mod_ids, after_broken) = check_rule_list(
            &mods.all,
            mods.enabled_ids.as_slice(),
            &rimworld_mod.loader_after,
            v,
            true,
        );
        let (before_mod_ids, before_broken) = check_rule_list(
            &mods.all,
            mods.enabled_ids.as_slice(),
            &rimworld_mod.loader_before,
            v,
            false,
        );
        if after_broken || before_broken {
            let ghost old_warnings = warnings@;
            warnings.insert(mod_id.0, OrderWarning { after_mod_ids, before_mod_ids });
            proof {
                assert forall|key: usize| #[trigger] warnings@.contains_key(key) <==> exists|w: int|
                    0 <= w < v + 1 && e[w].0 == key && breaks_rules(all, e, w) by {
                    if key == mod_id.0 {
                        assert(e[v as int].0 == key && breaks_rules(all, e, v as int));
                    } else if old_warnings.contains_key(key) {
                    } else {
                        if exists|w: int| 0 <= w < v + 1 && e[w].0 == key && breaks_rules(all, e, w) {
                            let w = choose|w: int| 0 <= w < v + 1 && e[w].0 == key && breaks_rules(all, e, w);
                            assert(w != v);
                        }
                    }
                }
                assert forall|w: int| 0 <= w < v + 1 && #[trigger] breaks_rules(all, e, w) implies warnings@[e[w].0].after_mod_ids@
                    == named_active_ids(all, e, package_views(all[e[w].0 as int].loader_after@))
                    && warnings@[e[w].0].before_mod_ids@ == named_active_ids(
                    all,
                    e,
                    package_views(all[e[w].0 as int].loader_before@),
                ) by {
                    if w < v {
                        assert(e[w] != e[v as int]);
                    }
                }
            }
        } else {
            proof {
                assert(!breaks_rules(all, e, v as int));
                assert forall|key: usize| #[trigger] warnings@.contains_key(key) <==> exists|w: int|
                    0 <= w < v + 1 && e[w].0 == key && breaks_rules(all, e, w) by {
                    if exists|w: int| 0 <= w < v + 1 && e[w].0 == key && breaks_rules(all, e, w) {
                        let w = choose|w: int| 0 <= w < v + 1 && e[w].0 == key && breaks_rules(all, e, w);
                        assert(w != v);
                    }
                }
            }
        }
    }
    Ok(warnings)
}

/// Without repeated packages, positions hold different packages.
proof fn lemma_no_repeat(p: Seq<Seq<char>>, a: int, b: int)
    requires
        first_repeat(p) is None,
        0 <= a < b < p.len(),
    ensures
        p[a] != p[b],
    decreases p.len(),
{
    if b < p.len() - 1 {
        assert(p.drop_last()[a] == p[a] && p.drop_last()[b] == p[b]);
        lemma_no_repeat(p.drop_last(), a, b);
    } else {
        if p[a] == p[b] {
            assert(p.drop_last()[a] == p.last());
        }
    }
}

} // verus!
