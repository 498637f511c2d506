//! Filtering a mod list by a fuzzy search over the mods' names, best
//! matches first.
use nucleo_matcher::pattern::{AtomKind, CaseMatching, Normalization, Pattern};
use nucleo_matcher::{Matcher, Utf32Str};
use vstd::prelude::*;

use crate::models::{ModId, RimworldMod};
use crate::text::{chars_of, lower_char, trim, trimmed};

verus! {

#[verifier::external_type_specification]
#[verifier::external_body]
pub struct ExMatcher(nucleo_matcher::Matcher);

/// The fuzzy matcher, with nucleo's default configuration and its scratch
/// memory, which is reused from one search to the next.
pub struct FuzzySearch {
    matcher: Matcher,
}

/// What nucleo's `Pattern::score` gives for the name `name` when the
/// pattern is `Pattern::new(query, CaseMatching::Ignore,
/// Normalization::Smart, AtomKind::Fuzzy)` and the matcher has the default
/// configuration: a score when every word of the query matches, else none.
pub uninterp spec fn fuzzy_score(query: Seq<char>, name: Seq<char>) -> Option<u32>;

/// Every character of the query is an ASCII letter, an ASCII digit or a
/// space.
pub open spec fn simple_query(q: Seq<char>) -> bool {
    forall|i: int|
        0 <= i < q.len() ==> {
            let c = #[trigger] q[i];
            c == ' ' || ('a' <= c <= 'z') || ('A' <= c <= 'Z') || ('0' <= c <= '9')
        }
}

/// Every character of the text is ASCII.
pub open spec fn ascii_text(n: Seq<char>) -> bool {
    forall|i: int| 0 <= i < n.len() ==> (#[trigger] n[i]) <= '\u{7f}'
}

/// `w`'s characters occur in `n` in order, ignoring ASCII case (with gaps
/// allowed).
pub open spec fn in_order(w: Seq<char>, n: Seq<char>) -> bool
    decreases n.len(),
{
    if w.len() == 0 {
        true
    } else if n.len() == 0 {
        false
    } else if lower_char(w[0]) == lower_char(n[0]) {
        in_order(w.drop_first(), n.drop_first())
    } else {
        in_order(w, n.drop_first())
    }
}

/// `q[i..j]` is a word of `q`: a non-empty run without spaces that no
/// other character extends.
pub open spec fn is_word(q: Seq<char>, i: int, j: int) -> bool {
    &&& 0 <= i < j <= q.len()
    &&& (i == 0 || q[i - 1] == ' ')
    &&& (j == q.len() || q[j] == ' ')
    &&& forall|k: int| i <= k < j ==> #[trigger] q[k] != ' '
}

/// Every word of the query occurs in order in the name.
pub open spec fn words_in_order(q: Seq<char>, n: Seq<char>) -> bool {
    forall|i: int, j: int| #[trigger] is_word(q, i, j) ==> in_order(q.subrange(i, j), n)
}

/// `Matcher::default()`: a matcher with nucleo's default configuration.
/// Nothing is stated of it; its configuration matters only through the
/// scores it gives, which `FuzzySearch::score` names.
#[verifier::external_body]
fn default_matcher() -> Matcher {
    Matcher::default()
}

impl FuzzySearch {
    /// A search with a fresh matcher.
    pub fn new() -> Self {
        FuzzySearch { matcher: default_matcher() }
    }

    /// `Pattern::new` with case-insensitive, normalizing fuzzy atoms, then
    /// `Pattern::score` on `name` (as `Utf32Str::new` builds it). Claimed:
    /// the score is the named result of the query and the name, since each
    /// atom sets the case and normalization settings it scores with.
    /// nucleo asserts that the name, as `Utf32Str::new` holds it, has at
    /// most `u32::MAX` elements; that can be its UTF-8 bytes, of which a
    /// character has at most four, hence the bound on the name. The query
    /// splits into at most as many words as it has word starts
    /// (`pattern_atoms` splits at spaces), and each word scores at most
    /// `u16::MAX`, so the bound on word starts keeps the sum within `u32`.
    /// Also claimed, as the words are matched fuzzily (`AtomKind::Fuzzy`:
    /// all characters in order, gaps allowed, case ignored): for a query of
    /// ASCII letters, digits and spaces and an ASCII name, the name scores
    /// whenever every word of the query occurs in it in order. Such words
    /// become lower-cased ASCII needles (`Atom::new`), and for ASCII needles
    /// and haystacks `Matcher::fuzzy_match` rejects only in its prefilter,
    /// which finds every in-order occurrence.
    #[verifier::external_body]
    fn score(&mut self, query: &str, name: &str) -> (r: Option<u32>)
        requires
            name@.len() <= u32::MAX / 4,
            word_starts(query@) <= 65536,
        ensures
            r == fuzzy_score(query@, name@),
            simple_query(query@) && ascii_text(name@) && words_in_order(query@, name@) ==> r is Some,
    {
        let pattern = Pattern::new(query, CaseMatching::Ignore, Normalization::Smart, AtomKind::Fuzzy);
        let mut buffer = Vec::new();
        pattern.score(Utf32Str::new(name, &mut buffer), &mut self.matcher)
    }
}

/// The positions that have a score, ranked: `r` holds exactly the
/// positions with a score, once each, with non-increasing scores.
pub open spec fn ranked(scores: Seq<Option<u32>>, r: Seq<usize>) -> bool {
    &&& r.no_duplicates()
    &&& forall|k: int| 0 <= k < r.len() ==> #[trigger] r[k] < scores.len() && scores[r[k] as int] is Some
    &&& forall|p: int| 0 <= p < scores.len() && #[trigger] scores[p] is Some ==> r.contains(p as usize)
    &&& forall|a: int, b: int|
        0 <= a < b < r.len() ==> scores[#[trigger] r[a] as int]->0 >= scores[#[trigger] r[b] as int]->0
}

/// Inserting position `p`, with score `score`, at `at` (after every
/// position scored at least as high) keeps a ranking of the positions
/// below `p` ranked, now of the positions up to `p`.
#[verifier::rlimit(40)]
proof fn lemma_insert_ranked(scores: Seq<Option<u32>>, before: Seq<usize>, at: int, p: usize, score: u32)
    requires
        0 <= p < scores.len(),
        scores[p as int] == Some(score),
        0 <= at <= before.len(),
        before.no_duplicates(),
        forall|k: int| 0 <= k < before.len() ==> #[trigger] before[k] < p && scores[before[k] as int] is Some,
        forall|q: int| 0 <= q < p && #[trigger] scores[q] is Some ==> before.contains(q as usize),
        forall|a: int, b: int|
            0 <= a < b < before.len() ==> scores[#[trigger] before[a] as int]->0 >= scores[#[trigger] before[b] as int]->0,
        forall|k: int| 0 <= k < at ==> scores[#[trigger] before[k] as int]->0 >= score,
        forall|k: int| at <= k < before.len() ==> scores[#[trigger] before[k] as int]->0 < score,
    ensures
        ({
            let r = before.insert(at, p);
            &&& r.no_duplicates()
            &&& forall|k: int| 0 <= k < r.len() ==> #[trigger] r[k] < p + 1 && scores[r[k] as int] is Some
            &&& forall|q: int| 0 <= q < p + 1 && #[trigger] scores[q] is Some ==> r.contains(q as usize)
            &&& forall|a: int, b: int|
                0 <= a < b < r.len() ==> scores[#[trigger] r[a] as int]->0 >= scores[#[trigger] r[b] as int]->0
        }),
{
    let r = before.insert(at, p);
    assert forall|k: int| 0 <= k < r.len() implies #[trigger] r[k] < p + 1 && scores[r[k] as int] is Some by {
        if k < at {
            assert(r[k] == before[k]);
        } else if k > at {
            assert(r[k] == before[k - 1]);
        }
    }
    assert forall|a: int, b: int| 0 <= a < b < r.len() implies scores[#[trigger] r[a] as int]->0
        >= scores[#[trigger] r[b] as int]->0 by {
        if b < at {
            assert(r[a] == before[a] && r[b] == before[b]);
        } else if b == at {
            assert(r[a] == before[a]);
        } else if a < at {
            assert(r[a] == before[a] && r[b] == before[b - 1]);
        } else if a == at {
            assert(r[b] == before[b - 1]);
        } else {
            assert(r[a] == before[a - 1] && r[b] == before[b - 1]);
        }
    }
    assert forall|x: int, y: int| 0 <= x < r.len() && 0 <= y < r.len() && x != y implies r[x] != r[y] by {
        if x == at {
            let by = if y < at { y } else { y - 1 };
            assert(r[y] == before[by]);
        } else if y == at {
            let bx = if x < at { x } else { x - 1 };
            assert(r[x] == before[bx]);
        } else {
            let bx = if x < at { x } else { x - 1 };
            let by = if y < at { y } else { y - 1 };
            assert(r[x] == before[bx] && r[y] == before[by]);
        }
    }
    assert forall|q: int| 0 <= q < p + 1 && #[trigger] scores[q] is Some implies r.contains(q as usize) by {
        if q == p {
            assert(r[at] == p);
        } else {
            let k = choose|k: int| 0 <= k < before.len() && before[k] == q as usize;
            if k < at {
                assert(r[k] == before[k]);
            } else {
                assert(r[k + 1] == before[k]);
            }
        }
    }
}

/// Ranks the positions that have a score by decreasing score; among equal
/// scores the earlier position comes first.
pub fn rank_by_score(scores: &[Option<u32>]) -> (r: Vec<usize>)
    ensures
        ranked(scores@, r@),
{
    let mut r: Vec<usize> = Vec::new();
    let mut p: usize = 0;
    while p < scores.len()
        invariant
            p <= scores@.len(),
            r@.no_duplicates(),
            forall|k: int| 0 <= k < r@.len() ==> #[trigger] r@[k] < p && scores@[r@[k] as int] is Some,
            forall|q: int| 0 <= q < p && #[trigger] scores@[q] is Some ==> r@.contains(q as usize),
            forall|a: int, b: int|
                0 <= a < b < r@.len() ==> scores@[#[trigger] r@[a] as int]->0
                    >= scores@[#[trigger] r@[b] as int]->0,
        decreases scores@.len() - p,
    {
        match scores[p] {
            None => {},
            Some(score) => {
                // Insert after every position whose score is at least as high.
                let mut at: usize = 0;
                while at < r.len() && scores[r[at]].unwrap() >= score
                    invariant
                        at <= r@.len(),
                        p < scores@.len(),
                        forall|k: int| 0 <= k < r@.len() ==> #[trigger] r@[k] < p && scores@[r@[k] as int] is Some,
                        forall|k: int| 0 <= k < at ==> scores@[#[trigger] r@[k] as int]->0 >= score,
                    decreases r@.len() - at,
                {
                    at = at + 1;
                }
                let ghost before = r@;
                proof {
                    // Everything from `at` on scores below `score`.
                    assert forall|k: int| at <= k < before.len() implies scores@[#[trigger] before[k] as int]->0 < score by {
                        if k > at {
                            assert(scores@[before[at as int] as int]->0 >= scores@[before[k] as int]->0);
                        }
                    }
                }
                r.insert(at, p);
                proof {
                    lemma_insert_ranked(scores@, before, at as int, p, score);
                }
            },
        }
        p = p + 1;
    }
    r
}

/// Whether every id names a mod whose name nucleo can score.
pub open spec fn searchable(all_mods: Seq<RimworldMod>, mod_ids: Seq<ModId>) -> bool {
    forall|i: int|
        0 <= i < mod_ids.len() ==> (#[trigger] mod_ids[i]).0 < all_mods.len()
            && all_mods[mod_ids[i].0 as int].name@.len() <= u32::MAX / 4
}

/// The number of words of `s` when it is split at spaces: the positions
/// holding something other than a space, at the start or after a space.
pub open spec fn word_starts(s: Seq<char>) -> nat
    decreases s.len(),
{
    if s.len() == 0 {
        0
    } else {
        word_starts(s.drop_last()) + if s.last() != ' ' && (s.len() == 1 || s[s.len() - 2] == ' ') {
            1nat
        } else {
            0nat
        }
    }
}

/// The number of words of `query` when it is split at spaces.
pub fn query_word_count(query: &str) -> (r: usize)
    ensures
        r == word_starts(query@),
{
    let chars = chars_of(query);
    let mut count: usize = 0;
    let mut i: usize = 0;
    while i < chars.len()
        invariant
            i <= chars@.len(),
            chars@ == query@,
            count == word_starts(chars@.take(i as int)),
            count <= i,
        decreases chars@.len() - i,
    {
        assert(chars@.take(i + 1).drop_last() == chars@.take(i as int));
        if chars[i] != ' ' && (i == 0 || chars[i - 1] == ' ') {
            count = count + 1;
        }
        i = i + 1;
    }
    assert(chars@.take(chars@.len() as int) == chars@);
    count
}

/// The scores of the listed mods' names for `query`.
pub open spec fn name_scores(all_mods: Seq<RimworldMod>, mod_ids: Seq<ModId>, query: Seq<char>) -> Seq<Option<u32>> {
    mod_ids.map_values(|id: ModId| fuzzy_score(query, all_mods[id.0 as int].name@))
}

/// The positions in `mod_ids` of the mods whose names match `query`, best
/// match first; every position, in order, when the query is blank.
pub fn fuzzy_mod_indices(
    all_mods: &[RimworldMod],
    mod_ids: &[ModId],
    query: &str,
    search: &mut FuzzySearch,
) -> (r: Vec<usize>)
    requires
        searchable(all_mods@, mod_ids@),
        word_starts(query@) <= 65536,
    ensures
        trim(query@).len() == 0 ==> r@ == Seq::new(mod_ids@.len(), |i: int| i as usize),
        trim(query@).len() > 0 ==> ranked(name_scores(all_mods@, mod_ids@, query@), r@),
        trim(query@).len() > 0 && simple_query(query@) ==> forall|k: int|
            0 <= k < mod_ids@.len() && ascii_text(all_mods@[mod_ids@[k].0 as int].name@)
                && words_in_order(query@, #[trigger] all_mods@[mod_ids@[k].0 as int].name@) ==> r@.contains(
                k as usize,
            ),
{
    if trimmed(chars_of(query).as_slice()).len() == 0 {
        let mut all: Vec<usize> = Vec::new();
        for i in 0..mod_ids.len()
            invariant
                all@ == Seq::new(i as nat, |k: int| k as usize),
        {
            all.push(i);
        }
        return all;
    }
    let mut scores: Vec<Option<u32>> = Vec::new();
    for i in 0..mod_ids.len()
        invariant
            searchable(all_mods@, mod_ids@),
            word_starts(query@) <= 65536,
            scores@ == name_scores(all_mods@, mod_ids@.take(i as int), query@),
            simple_query(query@) ==> forall|k: int|
                0 <= k < i && ascii_text(all_mods@[mod_ids@[k].0 as int].name@) && words_in_order(
                    query@,
                    #[trigger] all_mods@[mod_ids@[k].0 as int].name@,
                ) ==> scores@[k] is Some,
    {
        let rimworld_mod = &all_mods[mod_ids[i].0];
        let score = search.score(query, rimworld_mod.name.as_str());
        scores.push(score);
        assert(mod_ids@.take(i + 1) == mod_ids@.take(i as int).push(mod_ids@[i as int]));
    }
    assert(mod_ids@.take(mod_ids@.len() as int) == mod_ids@);
    rank_by_score(scores.as_slice())
}

} // verus!
