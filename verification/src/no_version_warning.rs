//! The community compatibility list of the No Version Warning mod: which
//! Workshop items are reported to work with which RimWorld versions.
use std::collections::HashMap;
use vstd::prelude::*;

use crate::text::{
    chars_of, contains_text, digit_run, digit_run_of, digits_value, find_text, find_text_in,
    lines_of, matches_at, occurs_at, parse_u64, parse_u64_spec, slice_range, split_lines,
    string_from, string_views, trim, trimmed,
};

verus! {

/// Workshop item ids mapped to the RimWorld versions they are reported to
/// work with, in the order the list first names them.
pub type CoveredMods = HashMap<u64, Vec<String>>;

/// The text that opens a version heading.
pub open spec fn heading_marker() -> Seq<char> {
    seq!['#', '#', ' ']
}

/// The text between a link's label and its `https` address.
pub open spec fn link_marker() -> Seq<char> {
    seq![']', '(', 'h', 't', 't', 'p', 's', ':', '/', '/']
}

/// The text that introduces the item id in a Workshop address.
pub open spec fn id_marker() -> Seq<char> {
    seq!['i', 'd', '=']
}

/// The version that a (trimmed) heading line names, if it is one.
pub open spec fn heading_version(line: Seq<char>) -> Option<Seq<char>> {
    if occurs_at(line, heading_marker(), 0) {
        Some(trim(line.skip(3)))
    } else {
        None
    }
}

/// The Workshop item id that a (trimmed) list line links to: the digits
/// after the first `id=` of the first `https` link's address.
#[verifier::opaque]
pub open spec fn linked_item_id(line: Seq<char>) -> Option<u64> {
    match find_text(line, link_marker()) {
        None => None,
        Some(link_start) => {
            let rest = line.skip(link_start + 10);
            match find_text(rest, seq![')']) {
                None => None,
                Some(url_end) => {
                    let url = rest.take(url_end);
                    match find_text(url, id_marker()) {
                        None => None,
                        Some(id_start) => {
                            let digits = url.skip(id_start + 3);
                            parse_u64_spec(digits.take(digit_run(digits)))
                        },
                    }
                },
            }
        },
    }
}

/// Adds `version` to the versions of `id`, unless it is already there.
pub open spec fn add_version(
    covered: Map<u64, Seq<Seq<char>>>,
    id: u64,
    version: Seq<char>,
) -> Map<u64, Seq<Seq<char>>> {
    let versions = if covered.contains_key(id) {
        covered[id]
    } else {
        Seq::empty()
    };
    covered.insert(
        id,
        if versions.contains(version) {
            versions
        } else {
            versions.push(version)
        },
    )
}

/// The list read so far and the version heading that is in force.
pub struct CoveredScan {
    pub covered: Map<u64, Seq<Seq<char>>>,
    pub version: Option<Seq<char>>,
}

/// What one more line of the list does to the scan.
pub open spec fn scan_line(scan: CoveredScan, raw: Seq<char>) -> CoveredScan {
    let line = trim(raw);
    match heading_version(line) {
        Some(v) => CoveredScan { covered: scan.covered, version: Some(v) },
        None => match scan.version {
            None => scan,
            Some(v) => match linked_item_id(line) {
                None => scan,
                Some(id) => CoveredScan { covered: add_version(scan.covered, id, v), version: scan.version },
            },
        },
    }
}

/// The scan after reading `lines` in order.
pub open spec fn scan_lines(lines: Seq<Seq<char>>) -> CoveredScan
    decreases lines.len(),
{
    if lines.len() == 0 {
        CoveredScan { covered: Map::empty(), version: None }
    } else {
        scan_line(scan_lines(lines.drop_last()), lines.last())
    }
}

/// The items that the markdown list covers, each with its versions.
pub open spec fn covered_items(markdown: Seq<char>) -> Map<u64, Seq<Seq<char>>> {
    scan_lines(split_lines(markdown)).covered
}

/// The view of a covered-mods map: each id with its version texts.
pub open spec fn covered_view(m: Map<u64, Vec<String>>) -> Map<u64, Seq<Seq<char>>> {
    Map::new(|k: u64| m.contains_key(k), |k: u64| string_views(m[k]@))
}

/// The Workshop item id that a trimmed list line links to.
fn line_item_id(line: &[char]) -> (r: Option<u64>)
    ensures
        r == linked_item_id(line@),
{
    reveal(linked_item_id);
    let link = chars_of("](https://");
    assert(link@ == link_marker()) by {
        reveal_strlit("](https://");
    }
    let link_start = match find_text_in(line, link.as_slice()) {
        Some(i) => i,
        None => {
            return None;
        },
    };
    proof {
        assert(occurs_at(line@, link@, link_start as int));
        assert(link@.len() == 10);
        assert(link_start + 10 <= line@.len());
        assert(line@.len() == line.len());
    }
    let url_start = link_start + 10;
    let rest = slice_range(line, url_start, line.len());
    assert(rest@ == line@.skip(url_start as int));
    let close = chars_of(")");
    assert(close@ == seq![')']) by {
        reveal_strlit(")");
    }
    let url_end = match find_text_in(rest.as_slice(), close.as_slice()) {
        Some(i) => i,
        None => {
            return None;
        },
    };
    proof {
        assert(occurs_at(rest@, close@, url_end as int));
    }
    let url = slice_range(rest.as_slice(), 0, url_end);
    assert(url@ == rest@.take(url_end as int));
    let id = chars_of("id=");
    assert(id@ == id_marker()) by {
        reveal_strlit("id=");
    }
    let id_start = match find_text_in(url.as_slice(), id.as_slice()) {
        Some(i) => i,
        None => {
            return None;
        },
    };
    proof {
        assert(occurs_at(url@, id@, id_start as int));
        assert(id@.len() == 3);
    }
    let digits = slice_range(url.as_slice(), id_start + 3, url.len());
    assert(digits@ == url@.skip(id_start + 3));
    let run = digit_run_of(digits.as_slice());
    let number = slice_range(digits.as_slice(), 0, run);
    assert(number@ == digits@.take(run as int));
    parse_u64(number.as_slice())
}

/// Whether `versions` already holds `version`.
fn has_version(versions: &Vec<String>, version: &String) -> (r: bool)
    ensures
        r == string_views(versions@).contains(version@),
{
    let mut i: usize = 0;
    while i < versions.len()
        invariant
            i <= versions@.len(),
            forall|j: int| 0 <= j < i ==> versions@[j]@ != version@,
        decreases versions@.len() - i,
    {
        if versions[i] == *version {
            assert(string_views(versions@)[i as int] == version@);
            return true;
        }
        i = i + 1;
    }
    proof {
        if string_views(versions@).contains(version@) {
            let j = choose|j: int|
                0 <= j < string_views(versions@).len() && string_views(versions@)[j] == version@;
            assert(versions@[j]@ == version@);
        }
    }
    false
}

/// Parses the No Version Warning "covered mods" list: `## <version>`
/// headings, each followed by list lines that link to Workshop items
/// (`- [Name](https://steamcommunity.com/sharedfiles/filedetails/?id=<id>)`).
/// Lines before the first heading, and lines without such a link, are
/// skipped; a version is listed once per item.
pub fn parse_covered_mods(markdown: &str) -> (r: CoveredMods)
    ensures
        covered_view(r@) == covered_items(markdown@),
{
    broadcast use vstd::std_specs::hash::group_hash_axioms;

    let lines = lines_of(chars_of(markdown).as_slice());
    let ghost all = split_lines(markdown@);
    let mut covered: CoveredMods = HashMap::new();
    let mut current_version: Option<String> = None;
    let heading = chars_of("## ");
    assert(heading@ == heading_marker()) by {
        reveal_strlit("## ");
    }
    let mut i: usize = 0;
    while i < lines.len()
        invariant
            i <= lines@.len(),
            lines@.len() == all.len(),
            all == split_lines(markdown@),
            heading@ == heading_marker(),
            forall|k: int| 0 <= k < lines@.len() ==> (#[trigger] lines@[k])@ == all[k],
            covered_view(covered@) == scan_lines(all.take(i as int)).covered,
            match current_version {
                Some(v) => scan_lines(all.take(i as int)).version == Some(v@),
                None => scan_lines(all.take(i as int)).version is None,
            },
        decreases lines@.len() - i,
    {
        let ghost before = scan_lines(all.take(i as int));
        assert(all.take(i + 1).drop_last() == all.take(i as int));
        assert(all.take(i + 1).last() == all[i as int]);
        assert(lines@[i as int]@ == all[i as int]);
        let line = trimmed(lines[i].as_slice());
        if matches_at(line.as_slice(), heading.as_slice(), 0) {
            let rest = slice_range(line.as_slice(), 3, line.len());
            assert(rest@ == line@.skip(3));
            current_version = Some(string_from(trimmed(rest.as_slice()).as_slice()));
        } else {
            match &current_version {
                None => {},
                Some(version) => {
                    match line_item_id(line.as_slice()) {
                        None => {},
                        Some(id) => {
                            let ghost old_map = covered@;
                            let previous = covered.remove(&id);
                            let mut versions: Vec<String> = match previous {
                                Some(vs) => vs,
                                None => Vec::new(),
                            };
                            assert(string_views(versions@) == (if before.covered.contains_key(id) {
                                before.covered[id]
                            } else {
                                Seq::<Seq<char>>::empty()
                            }));
                            if !has_version(&versions, version) {
                                let ghost prior = versions@;
                                versions.push(version.clone());
                                assert(string_views(versions@) == string_views(prior).push(
                                    version@,
                                ));
                            }
                            covered.insert(id, versions);
                            assert(covered_view(covered@) == add_version(
                                before.covered,
                                id,
                                version@,
                            ));
                        },
                    }
                },
            }
        }
        i = i + 1;
    }
    assert(all.take(lines@.len() as int) == all);
    covered
}

/// No version is listed twice for an item, however often the list names
/// the item under the same heading or repeats a heading.
pub proof fn lemma_versions_listed_once(markdown: Seq<char>, id: u64)
    requires
        covered_items(markdown).contains_key(id),
    ensures
        covered_items(markdown)[id].no_duplicates(),
{
    lemma_scan_lists_once(split_lines(markdown));
}

proof fn lemma_scan_lists_once(lines: Seq<Seq<char>>)
    ensures
        forall|id: u64| #[trigger] scan_lines(lines).covered.contains_key(id) ==> scan_lines(lines).covered[id].no_duplicates(),
    decreases lines.len(),
{
    if lines.len() > 0 {
        lemma_scan_lists_once(lines.drop_last());
        let before = scan_lines(lines.drop_last());
        let line = trim(lines.last());
        if heading_version(line) is None && before.version is Some && linked_item_id(line) is Some {
            let id = linked_item_id(line)->0;
            let v = before.version->0;
            let versions = if before.covered.contains_key(id) {
                before.covered[id]
            } else {
                Seq::empty()
            };
            if !versions.contains(v) {
                assert forall|a: int, b: int| 0 <= a < b < versions.push(v).len() implies versions.push(v)[a] != versions.push(v)[b] by {
                    if b == versions.len() {
                        assert(versions.push(v)[a] == versions[a]);
                    }
                }
            }
        }
    }
}

/// Every item the list covers is listed with at least one version.
pub proof fn lemma_covered_items_have_versions(markdown: Seq<char>, id: u64)
    requires
        covered_items(markdown).contains_key(id),
    ensures
        covered_items(markdown)[id].len() > 0,
{
    lemma_scan_has_versions(split_lines(markdown));
}

proof fn lemma_scan_has_versions(lines: Seq<Seq<char>>)
    ensures
        forall|id: u64| #[trigger] scan_lines(lines).covered.contains_key(id) ==> scan_lines(lines).covered[id].len() > 0,
    decreases lines.len(),
{
    if lines.len() > 0 {
        lemma_scan_has_versions(lines.drop_last());
    }
}

} // verus!
