//! Steam Workshop items: catalog query parameters, item pages, version
//! tags, and reading SteamCMD's download output.
use vstd::prelude::*;

use crate::id_lists::first_index;
use crate::paths::{joined_path, ModPath, PathView};
use crate::models::{compatible, major_minor, major_minor_version, ModCollection, ModSource, RimworldMod};
use crate::text::{
    ascii_lower, chars_of, contains, contains_text, decimal, decimal_chars, is_digit, lowered,
    matches_at, occurs_at, parse_u64, parse_u64_spec, push_char, push_chars, push_decimal,
    push_str, slice_range, split_lines, lines_of, string_from, string_views, trim, trimmed,
};

verus! {

/// RimWorld's Steam application id.
pub const RIMWORLD_APP_ID: u32 = 294100;

/// How the Workshop catalog is ranked.
#[derive(Debug, Clone, Copy, PartialEq, Eq, Structural)]
pub enum WorkshopSort {
    Popular,
    MostSubscribed,
    Recent,
    Updated,
}

impl Default for WorkshopSort {
    fn default() -> (r: Self)
        ensures
            r == WorkshopSort::Popular,
    {
        WorkshopSort::Popular
    }
}

impl WorkshopSort {
    /// Every ranking, in menu order.
    pub fn all() -> (r: [Self; 4])
        ensures
            r@ == seq![
                WorkshopSort::Popular,
                WorkshopSort::MostSubscribed,
                WorkshopSort::Recent,
                WorkshopSort::Updated,
            ],
    {
        [WorkshopSort::Popular, WorkshopSort::MostSubscribed, WorkshopSort::Recent, WorkshopSort::Updated]
    }

    pub fn label(self) -> (r: &'static str)
        ensures
            r@ == (match self {
                WorkshopSort::Popular => "Popular"@,
                WorkshopSort::MostSubscribed => "Most subscribed"@,
                WorkshopSort::Recent => "Newest"@,
                WorkshopSort::Updated => "Recently updated"@,
            }),
    {
        match self {
            WorkshopSort::Popular => "Popular",
            WorkshopSort::MostSubscribed => "Most subscribed",
            WorkshopSort::Recent => "Newest",
            WorkshopSort::Updated => "Recently updated",
        }
    }

    /// Steam's query type: relevance ranking for text searches, the chosen
    /// ranking otherwise.
    pub fn query_type(self, has_search_text: bool) -> (r: u32)
        ensures
            r == (if has_search_text {
                12
            } else {
                match self {
                    WorkshopSort::Popular => 0u32,
                    WorkshopSort::MostSubscribed => 9,
                    WorkshopSort::Recent => 1,
                    WorkshopSort::Updated => 21,
                }
            }),
    {
        if has_search_text {
            return 12;
        }
        match self {
            WorkshopSort::Popular => 0,
            WorkshopSort::MostSubscribed => 9,
            WorkshopSort::Recent => 1,
            WorkshopSort::Updated => 21,
        }
    }
}

/// The Workshop content folder for RimWorld under a Steam library folder:
/// `steamapps/workshop/content/294100` joined onto `p`.
pub open spec fn with_workshop_content_parts(p: PathView) -> PathView {
    joined_path(
        joined_path(joined_path(joined_path(p, "steamapps"@), "workshop"@), "content"@),
        decimal(RIMWORLD_APP_ID as nat),
    )
}

/// Where SteamCMD keeps RimWorld's Workshop items: the content folder
/// beside its executable, in the folder `steamcmd_folder`.
pub fn steamcmd_content_folder(steamcmd_folder: &ModPath) -> (r: ModPath)
    ensures
        r@ == with_workshop_content_parts(steamcmd_folder@),
{
    let mut app_id = String::new();
    push_decimal(&mut app_id, RIMWORLD_APP_ID as u64);
    steamcmd_folder.join("steamapps").join("workshop").join("content").join(app_id.as_str())
}

/// The parameters of one catalog request.
#[derive(Debug, Clone)]
pub struct WorkshopQuery {
    pub api_key: String,
    pub search_text: String,
    pub query_type: u32,
    pub page: u32,
    /// How many items a page holds.
    pub per_page: u32,
    /// The game whose Workshop is searched.
    pub app_id: u32,
}

/// How many items one catalog page holds.
pub const WORKSHOP_PAGE_SIZE: u32 = 30;

pub open spec fn missing_api_key_message() -> Seq<char> {
    "Add a Steam Web API key in Settings before searching"@
}

/// Checks and normalizes a catalog request: the key and the search text are
/// trimmed, an empty key is refused, pages start at 1, and the request asks
/// for pages of `WORKSHOP_PAGE_SIZE` RimWorld items.
pub fn prepare_query(api_key: &str, search_text: &str, sort: WorkshopSort, page: u32) -> (r: Result<
    WorkshopQuery,
    String,
>)
    ensures
        trim(api_key@).len() == 0 ==> (r matches Err(m) && m@ == missing_api_key_message()),
        trim(api_key@).len() > 0 ==> (r matches Ok(q) && q.api_key@ == trim(api_key@)
            && q.search_text@ == trim(search_text@) && q.query_type == sort.query_type_spec(
            trim(search_text@).len() > 0,
        ) && q.page == (if page < 1 {
            1
        } else {
            page
        }) && q.per_page == WORKSHOP_PAGE_SIZE && q.app_id == RIMWORLD_APP_ID),
{
    let key = trimmed(chars_of(api_key).as_slice());
    if key.len() == 0 {
        let mut m = String::new();
        push_str(&mut m, "Add a Steam Web API key in Settings before searching");
        return Err(m);
    }
    let text = trimmed(chars_of(search_text).as_slice());
    let query_type = sort.query_type(text.len() > 0);
    Ok(WorkshopQuery {
        api_key: string_from(key.as_slice()),
        search_text: string_from(text.as_slice()),
        query_type,
        page: if page < 1 {
            1
        } else {
            page
        },
        per_page: WORKSHOP_PAGE_SIZE,
        app_id: RIMWORLD_APP_ID,
    })
}

impl WorkshopSort {
    pub open spec fn query_type_spec(self, has_search_text: bool) -> u32 {
        if has_search_text {
            12
        } else {
            match self {
                WorkshopSort::Popular => 0u32,
                WorkshopSort::MostSubscribed => 9,
                WorkshopSort::Recent => 1,
                WorkshopSort::Updated => 21,
            }
        }
    }
}

/// One Workshop catalog entry.
#[derive(Debug, Clone, PartialEq, Eq)]
pub struct WorkshopItem {
    pub published_file_id: u64,
    pub title: String,
    pub description: String,
    pub preview_url: Option<String>,
    pub subscriptions: Option<u64>,
    pub supported_versions: Vec<String>,
}

pub open spec fn page_url_text(published_file_id: u64) -> Seq<char> {
    "https://steamcommunity.com/sharedfiles/filedetails/?id="@ + decimal(published_file_id as nat)
}

impl WorkshopItem {
    /// The item's Steam Workshop page.
    pub fn page_url(&self) -> (r: String)
        ensures
            r@ == page_url_text(self.published_file_id),
    {
        let mut url = String::new();
        push_str(&mut url, "https://steamcommunity.com/sharedfiles/filedetails/?id=");
        push_decimal(&mut url, self.published_file_id);
        url
    }
}

/// One page of catalog results.
#[derive(Debug)]
pub struct WorkshopPage {
    pub items: Vec<WorkshopItem>,
    pub total: u64,
}

/// A tag attached to a Workshop item.
#[derive(Debug, Clone)]
pub struct SteamTag {
    pub tag: String,
}

/// An item as the catalog reports it.
#[derive(Debug)]
pub struct PublishedFileDetails {
    pub publishedfileid: String,
    pub title: String,
    pub short_description: String,
    pub preview_url: String,
    pub subscriptions: Option<u64>,
    pub tags: Vec<SteamTag>,
}

/// The version tags among `tags`, the first of each major.minor release.
pub open spec fn version_tags(tags: Seq<Seq<char>>) -> Seq<Seq<char>>
    decreases tags.len(),
{
    if tags.len() == 0 {
        Seq::empty()
    } else {
        let earlier = version_tags(tags.drop_last());
        let t = tags.last();
        if major_minor(t) is Some && !(exists|i: int|
            0 <= i < earlier.len() && #[trigger] major_minor(earlier[i]) == major_minor(t)) {
            earlier.push(t)
        } else {
            earlier
        }
    }
}

/// The versions strictly increase by major.minor number.
pub open spec fn ascending_versions(vs: Seq<Seq<char>>) -> bool {
    &&& forall|i: int| 0 <= i < vs.len() ==> major_minor(#[trigger] vs[i]) is Some
    &&& forall|i: int, j: int|
        0 <= i < j < vs.len() ==> crate::models::version_le(
            major_minor(#[trigger] vs[i]).unwrap(),
            major_minor(#[trigger] vs[j]).unwrap(),
        ) && major_minor(vs[i]) != major_minor(vs[j])
}

pub open spec fn tag_texts(tags: Seq<SteamTag>) -> Seq<Seq<char>> {
    tags.map_values(|t: SteamTag| t.tag@)
}

/// `a` comes strictly before `b` by major.minor number.
pub open spec fn key_lt(a: (u32, u32), b: (u32, u32)) -> bool {
    a.0 < b.0 || (a.0 == b.0 && a.1 < b.1)
}

/// Where `key` belongs in the ascending `keys`.
fn key_position(keys: &[(u32, u32)], key: (u32, u32)) -> (r: usize)
    ensures
        r <= keys@.len(),
        forall|k: int| 0 <= k < r ==> key_lt(#[trigger] keys@[k], key),
        r < keys@.len() ==> !key_lt(keys@[r as int], key),
{
    let mut at: usize = 0;
    while at < keys.len() && (keys[at].0 < key.0 || (keys[at].0 == key.0 && keys[at].1 < key.1))
        invariant
            at <= keys@.len(),
            forall|k: int| 0 <= k < at ==> key_lt(#[trigger] keys@[k], key),
        decreases keys@.len() - at,
    {
        at = at + 1;
    }
    at
}

/// The supported versions that the version tags of an item announce,
/// oldest first, one per major.minor release.
pub fn extract_supported_versions(tags: Vec<SteamTag>) -> (r: Vec<String>)
    ensures
        ascending_versions(string_views(r@)),
        forall|t: Seq<char>|
            string_views(r@).contains(t) <==> version_tags(tag_texts(tags@)).contains(t),
{
    let ghost texts = tag_texts(tags@);
    let mut versions: Vec<String> = Vec::new();
    let mut keys: Vec<(u32, u32)> = Vec::new();
    for i in 0..tags.len()
        invariant
            texts == tag_texts(tags@),
            versions@.len() == keys@.len(),
            forall|k: int|
                0 <= k < keys@.len() ==> major_minor(#[trigger] string_views(versions@)[k]) == Some(
                    keys@[k],
                ),
            forall|a: int, b: int|
                0 <= a < b < keys@.len() ==> key_lt(#[trigger] keys@[a], #[trigger] keys@[b]),
            forall|t: Seq<char>|
                string_views(versions@).contains(t) <==> version_tags(texts.take(i as int)).contains(
                    t,
                ),
    {
        let ghost prefix = version_tags(texts.take(i as int));
        let ghost t = tags@[i as int].tag@;
        proof {
            assert(texts.take(i + 1).drop_last() == texts.take(i as int));
            assert(texts.take(i + 1).last() == t);
        }
        if let Some(key) = major_minor_version(tags[i].tag.as_str()) {
            let at = key_position(keys.as_slice(), key);
            let present = at < keys.len() && keys[at].0 == key.0 && keys[at].1 == key.1;
            let ghost views = string_views(versions@);
            proof {
                assert((exists|j: int|
                    0 <= j < prefix.len() && #[trigger] major_minor(prefix[j]) == major_minor(t))
                    <==> present) by {
                    if present {
                        assert(major_minor(string_views(versions@)[at as int]) == Some(
                            keys@[at as int],
                        ));
                        assert(views.contains(views[at as int]));
                        assert(prefix.contains(views[at as int]));
                        let j = choose|j: int| 0 <= j < prefix.len() && prefix[j] == views[at as int];
                        assert(major_minor(prefix[j]) == major_minor(t));
                    }
                    if exists|j: int|
                        0 <= j < prefix.len() && #[trigger] major_minor(prefix[j]) == major_minor(t) {
                        let j = choose|j: int|
                            0 <= j < prefix.len() && #[trigger] major_minor(prefix[j]) == major_minor(
                                t,
                            );
                        assert(prefix.contains(prefix[j]));
                        assert(views.contains(prefix[j]));
                        let k = choose|k: int| 0 <= k < views.len() && views[k] == prefix[j];
                        assert(major_minor(string_views(versions@)[k]) == Some(keys@[k]));
                        assert(keys@[k] == key);
                        if k < at {
                            assert(key_lt(keys@[k], key));
                        } else if k > at {
                            assert(key_lt(keys@[at as int], keys@[k]));
                        }
                    }
                }
            }
            if !present {
                versions.insert(at, tags[i].tag.clone());
                keys.insert(at, key);
                proof {
                    let nv = string_views(versions@);
                    assert(nv == views.insert(at as int, t));
                    assert(version_tags(texts.take(i + 1)) == prefix.push(t));
                    assert forall|x: Seq<char>| nv.contains(x) <==> prefix.push(t).contains(x) by {
                        if nv.contains(x) {
                            let k = choose|k: int| 0 <= k < nv.len() && nv[k] == x;
                            if k < at {
                                assert(views[k] == x);
                            } else if k > at {
                                assert(views[k - 1] == x);
                            }
                            if x != t {
                                assert(views.contains(x));
                                assert(prefix.contains(x));
                                let j = choose|j: int| 0 <= j < prefix.len() && prefix[j] == x;
                                assert(prefix.push(t)[j] == x);
                            } else {
                                assert(prefix.push(t)[prefix.len() as int] == x);
                            }
                        }
                        if prefix.push(t).contains(x) {
                            let j = choose|j: int| 0 <= j < prefix.len() + 1 && prefix.push(t)[j] == x;
                            if j == prefix.len() {
                                assert(nv[at as int] == x);
                            } else {
                                assert(prefix.contains(x));
                                assert(views.contains(x));
                                let k = choose|k: int| 0 <= k < views.len() && views[k] == x;
                                if k < at {
                                    assert(nv[k] == x);
                                } else {
                                    assert(nv[k + 1] == x);
                                }
                            }
                        }
                    }
                }
            } else {
                assert(version_tags(texts.take(i + 1)) == prefix);
            }
        } else {
            assert(version_tags(texts.take(i + 1)) == prefix);
        }
    }
    assert(texts.take(texts.len() as int) == texts);
    proof {
        let views = string_views(versions@);
        assert forall|a: int, b: int| 0 <= a < b < views.len() implies crate::models::version_le(
            major_minor(#[trigger] views[a]).unwrap(),
            major_minor(#[trigger] views[b]).unwrap(),
        ) && major_minor(views[a]) != major_minor(views[b]) by {
            assert(key_lt(keys@[a], keys@[b]));
        }
        assert forall|k: int| 0 <= k < views.len() implies major_minor(#[trigger] views[k]) is Some by {
            assert(major_minor(views[k]) == Some(keys@[k]));
        }
    }
    versions
}

/// The catalog entries whose file id is a number.
pub open spec fn kept_details(ds: Seq<PublishedFileDetails>) -> Seq<PublishedFileDetails> {
    ds.filter(|d: PublishedFileDetails| parse_u64_spec(d.publishedfileid@) is Some)
}

/// `item` is the catalog entry `d` as the application shows it.
pub open spec fn item_from_details(item: WorkshopItem, d: PublishedFileDetails) -> bool {
    &&& parse_u64_spec(d.publishedfileid@) == Some(item.published_file_id)
    &&& item.title@ == d.title@
    &&& item.description@ == d.short_description@
    &&& (if d.preview_url@.len() == 0 {
        item.preview_url is None
    } else {
        item.preview_url matches Some(u) && u@ == d.preview_url@
    })
    &&& item.subscriptions == d.subscriptions
    &&& ascending_versions(string_views(item.supported_versions@))
    &&& forall|t: Seq<char>|
        string_views(item.supported_versions@).contains(t) <==> version_tags(tag_texts(d.tags@)).contains(t)
}

/// A page of catalog results; entries whose file id is not a number are
/// dropped.
pub fn workshop_page_from(details: Vec<PublishedFileDetails>, total: u64) -> (r: WorkshopPage)
    ensures
        r.total == total,
        r.items@.len() == kept_details(details@).len(),
        forall|k: int|
            0 <= k < r.items@.len() ==> item_from_details(
                #[trigger] r.items@[k],
                kept_details(details@)[k],
            ),
{
    let ghost all = details@;
    let mut items: Vec<WorkshopItem> = Vec::new();
    let mut rest = details;
    let ghost mut consumed: Seq<PublishedFileDetails> = Seq::empty();
    while rest.len() > 0
        invariant
            all == consumed + rest@,
            items@.len() == kept_details(consumed).len(),
            forall|k: int|
                0 <= k < items@.len() ==> item_from_details(
                    #[trigger] items@[k],
                    kept_details(consumed)[k],
                ),
        decreases rest@.len(),
    {
        let d = rest.remove(0);
        proof {
            consumed.lemma_filter_push(
                d,
                |d: PublishedFileDetails| parse_u64_spec(d.publishedfileid@) is Some,
            );
        }
        let ghost before = consumed;
        proof {
            consumed = consumed.push(d);
        }
        assert(all == consumed + rest@);
        let id_chars = chars_of(d.publishedfileid.as_str());
        if let Some(published_file_id) = parse_u64(id_chars.as_slice()) {
            let preview_url = if d.preview_url.as_str().is_empty() {
                None
            } else {
                Some(d.preview_url)
            };
            let supported_versions = extract_supported_versions(d.tags);
            let item = WorkshopItem {
                published_file_id,
                title: d.title,
                description: d.short_description,
                preview_url,
                subscriptions: d.subscriptions,
                supported_versions,
            };
            items.push(item);
            assert(kept_details(consumed) == kept_details(before).push(d));
        } else {
            assert(kept_details(consumed) == kept_details(before));
        }
    }
    assert(consumed == all);
    WorkshopPage { items, total }
}

/// At most 300 characters of a description, with an ellipsis when it was
/// longer.
pub open spec fn shortened(description: Seq<char>) -> Seq<char> {
    if description.len() > 300 {
        description.take(300).push('…')
    } else {
        description
    }
}

pub fn short_description(description: &str) -> (r: String)
    ensures
        r@ == shortened(description@),
{
    let chars = chars_of(description);
    if chars.len() > 300 {
        let mut r = string_from(slice_range(chars.as_slice(), 0, 300).as_slice());
        push_char(&mut r, '…');
        r
    } else {
        string_from(chars.as_slice())
    }
}

/// The mod is the Workshop item with the given id.
pub open spec fn is_workshop_item(m: RimworldMod, published_file_id: u64) -> bool {
    m.source matches ModSource::SteamWorkshop { workshop_id } && workshop_id == published_file_id
}

/// The first installed mod that is the Workshop item `published_file_id`.
pub fn installed_workshop_mod(mods: &ModCollection, published_file_id: u64) -> (r: Option<
    &RimworldMod,
>)
    ensures
        r matches Some(m) ==> exists|i: int|
            0 <= i < mods.all@.len() && mods.all@[i] == *m && is_workshop_item(*m, published_file_id)
                && forall|j: int| 0 <= j < i ==> !is_workshop_item(#[trigger] mods.all@[j], published_file_id),
        r is None ==> forall|i: int|
            0 <= i < mods.all@.len() ==> !is_workshop_item(#[trigger] mods.all@[i], published_file_id),
{
    let mut i: usize = 0;
    while i < mods.all.len()
        invariant
            i <= mods.all@.len(),
            forall|j: int| 0 <= j < i ==> !is_workshop_item(#[trigger] mods.all@[j], published_file_id),
        decreases mods.all@.len() - i,
    {
        let found = match &mods.all[i].source {
            ModSource::SteamWorkshop { workshop_id } => *workshop_id == published_file_id,
            _ => false,
        };
        if found {
            return Some(&mods.all[i]);
        }
        i = i + 1;
    }
    None
}

/// SteamCMD's combined output mentions a failed download.
pub open spec fn reports_failure(stdout: Seq<char>, stderr: Seq<char>) -> bool {
    let output = ascii_lower(stdout + seq!['\n'] + stderr);
    contains_text(output, "error! download item"@) || (contains_text(output, "download item"@)
        && contains_text(output, "failed ("@))
}

pub fn steamcmd_output_reports_failure(stdout: &str, stderr: &str) -> (r: bool)
    ensures
        r == reports_failure(stdout@, stderr@),
{
    let mut combined = chars_of(stdout);
    combined.push('\n');
    let mut err = chars_of(stderr);
    combined.append(&mut err);
    assert(combined@ == stdout@ + seq!['\n'] + stderr@);
    let output = lowered(combined.as_slice());
    let error_marker = chars_of("error! download item");
    let item_marker = chars_of("download item");
    let failed_marker = chars_of("failed (");
    contains(output.as_slice(), error_marker.as_slice()) || (contains(
        output.as_slice(),
        item_marker.as_slice(),
    ) && contains(output.as_slice(), failed_marker.as_slice()))
}

/// `marker` followed by the decimal id occurs in `output`, with no further
/// digit after the id.
pub open spec fn has_item_marker(output: Seq<char>, marker: Seq<char>, item_id: u64) -> bool {
    exists|i: int| #[trigger] marker_at(output, marker + decimal(item_id as nat), i)
}

/// `needle` occurs at `i` and is not followed by a digit.
pub open spec fn marker_at(output: Seq<char>, needle: Seq<char>, i: int) -> bool {
    occurs_at(output, needle, i) && !(i + needle.len() < output.len() && is_digit(
        output[i + needle.len()],
    ))
}

/// Whether SteamCMD's output holds `marker` for exactly this item (and not
/// for an item whose id merely starts with the same digits).
pub fn contains_item_marker(output: &str, marker: &str, item_id: u64) -> (r: bool)
    ensures
        r == has_item_marker(output@, marker@, item_id),
{
    let hay = chars_of(output);
    let mut needle = chars_of(marker);
    let mut digits = decimal_chars(item_id);
    needle.append(&mut digits);
    let ghost n = needle@;
    assert(n == marker@ + decimal(item_id as nat));
    let mut i: usize = 0;
    while i <= hay.len()
        invariant
            n == needle@,
            n == marker@ + decimal(item_id as nat),
            hay@ == output@,
            forall|j: int| 0 <= j < i ==> !#[trigger] marker_at(hay@, n, j),
        decreases hay@.len() + 1 - i,
    {
        if matches_at(hay.as_slice(), needle.as_slice(), i) {
            let after = i + needle.len();
            let followed_by_digit = after < hay.len() && ('0' as u32) <= (hay[after] as u32) && (
            hay[after] as u32) <= ('9' as u32);
            if !followed_by_digit {
                assert(marker_at(output@, marker@ + decimal(item_id as nat), i as int));
                return true;
            }
        }
        if i == hay.len() {
            assert forall|j: int| !#[trigger] marker_at(hay@, n, j) by {
                if j > i {
                    assert(j + n.len() > hay@.len());
                }
            }
            return false;
        }
        i = i + 1;
    }
    false
}

/// The line of SteamCMD's output that explains a failure: the first line
/// (error output first) that mentions "error" or "failed" in any case,
/// else the very last line, trimmed; empty when there is no output.
pub open spec fn failure_details(stderr: Seq<char>, stdout: Seq<char>) -> Seq<char> {
    let lines = split_lines(stderr) + split_lines(stdout);
    let mentions = |l: Seq<char>|
        contains_text(ascii_lower(l), "error"@) || contains_text(ascii_lower(l), "failed"@);
    let k = first_mention(lines);
    if k < lines.len() {
        trim(lines[k])
    } else if lines.len() > 0 {
        trim(lines.last())
    } else {
        Seq::empty()
    }
}

/// The line mentions an error or a failure, in any letter case.
pub open spec fn mentions_failure(l: Seq<char>) -> bool {
    contains_text(ascii_lower(l), "error"@) || contains_text(ascii_lower(l), "failed"@)
}

/// The position of the first line that mentions a failure, or the number
/// of lines.
pub open spec fn first_mention(lines: Seq<Seq<char>>) -> int
    decreases lines.len(),
{
    if lines.len() == 0 {
        0
    } else if mentions_failure(lines[0]) {
        0
    } else {
        1 + first_mention(lines.drop_first())
    }
}

proof fn lemma_first_mention_at(lines: Seq<Seq<char>>, i: int)
    requires
        0 <= i <= lines.len(),
        forall|j: int| 0 <= j < i ==> !mentions_failure(#[trigger] lines[j]),
        i < lines.len() ==> mentions_failure(lines[i]),
    ensures
        first_mention(lines) == i,
    decreases i,
{
    if i > 0 {
        let t = lines.drop_first();
        assert forall|j: int| 0 <= j < i - 1 implies !mentions_failure(#[trigger] t[j]) by {
            assert(t[j] == lines[j + 1]);
        }
        lemma_first_mention_at(t, i - 1);
    }
}

/// Whether a line mentions an error or a failure.
fn line_mentions_failure(line: &[char]) -> (r: bool)
    ensures
        r == mentions_failure(line@),
{
    let lower = lowered(line);
    let error_word = chars_of("error");
    let failed_word = chars_of("failed");
    contains(lower.as_slice(), error_word.as_slice()) || contains(lower.as_slice(), failed_word.as_slice())
}

pub fn steamcmd_failure_details(stderr: &str, stdout: &str) -> (r: String)
    ensures
        r@ == failure_details(stderr@, stdout@),
{
    let mut lines = lines_of(chars_of(stderr).as_slice());
    let mut out_lines = lines_of(chars_of(stdout).as_slice());
    let ghost a = lines@;
    let ghost b = out_lines@;
    lines.append(&mut out_lines);
    let ghost all = split_lines(stderr@) + split_lines(stdout@);
    assert forall|k: int| 0 <= k < lines@.len() implies (#[trigger] lines@[k])@ == all[k] by {
        if k < a.len() {
            assert(lines@[k] == a[k]);
        } else {
            assert(lines@[k] == b[k - a.len()]);
        }
    }
    let mut i: usize = 0;
    while i < lines.len() && !line_mentions_failure(lines[i].as_slice())
        invariant
            i <= lines@.len(),
            lines@.len() == all.len(),
            forall|k: int| 0 <= k < lines@.len() ==> (#[trigger] lines@[k])@ == all[k],
            forall|j: int| 0 <= j < i ==> !mentions_failure(#[trigger] all[j]),
        decreases lines@.len() - i,
    {
        assert(lines@[i as int]@ == all[i as int]);
        i = i + 1;
    }
    proof {
        if i < lines@.len() {
            assert(lines@[i as int]@ == all[i as int]);
        }
        lemma_first_mention_at(all, i as int);
    }
    if i < lines.len() {
        string_from(trimmed(lines[i].as_slice()).as_slice())
    } else if lines.len() > 0 {
        let last = lines.len() - 1;
        assert(lines@[last as int]@ == all.last());
        string_from(trimmed(lines[last].as_slice()).as_slice())
    } else {
        String::new()
    }
}

/// What a SteamCMD download run comes to: success when the process
/// succeeded and its output reports no failure; else an error that quotes
/// the line explaining the failure, with the exit status (as `status_text`
/// shows it) unless the process itself succeeded.
pub open spec fn install_outcome(
    succeeded: bool,
    status_text: Seq<char>,
    stdout: Seq<char>,
    stderr: Seq<char>,
) -> Option<Seq<char>> {
    if succeeded && !reports_failure(stdout, stderr) {
        None
    } else {
        let details = failure_details(stderr, stdout);
        Some(
            if details.len() == 0 {
                "SteamCMD exited with "@ + status_text
            } else if succeeded {
                "SteamCMD reported a failure: "@ + details
            } else {
                "SteamCMD exited with "@ + status_text + ": "@ + details
            },
        )
    }
}

/// The result of a SteamCMD download run, from its exit status and output.
pub fn steamcmd_install_result(succeeded: bool, status_text: &str, stdout: &str, stderr: &str) -> (r:
    Result<(), String>)
    ensures
        match install_outcome(succeeded, status_text@, stdout@, stderr@) {
            None => r is Ok,
            Some(m) => r matches Err(e) && e@ == m,
        },
{
    if succeeded && !steamcmd_output_reports_failure(stdout, stderr) {
        return Ok(());
    }
    let details = steamcmd_failure_details(stderr, stdout);
    let mut m = String::new();
    if chars_of(details.as_str()).len() == 0 {
        push_str(&mut m, "SteamCMD exited with ");
        push_str(&mut m, status_text);
    } else if succeeded {
        push_str(&mut m, "SteamCMD reported a failure: ");
        push_str(&mut m, details.as_str());
    } else {
        push_str(&mut m, "SteamCMD exited with ");
        push_str(&mut m, status_text);
        push_str(&mut m, ": ");
        push_str(&mut m, details.as_str());
    }
    Err(m)
}

/// Where the catalog search stands.
#[derive(Debug, Clone, PartialEq, Eq)]
pub enum WorkshopLoadStatus {
    Idle,
    Loading,
    Ready,
    Error(String),
}

impl Default for WorkshopLoadStatus {
    fn default() -> (r: Self)
        ensures
            r is Idle,
    {
        WorkshopLoadStatus::Idle
    }
}

/// The Workshop tab: the search, the page of results shown, and the
/// search and installation in progress.
#[derive(Debug)]
pub struct WorkshopState {
    pub query: String,
    pub sort: WorkshopSort,
    pub page: u32,
    pub total: u64,
    pub items: Vec<WorkshopItem>,
    pub load_status: WorkshopLoadStatus,
    pub pending_page: Option<u32>,
    pub installing_item: Option<u64>,
}

impl Default for WorkshopState {
    fn default() -> (r: Self)
        ensures
            r.query@ == Seq::<char>::empty(),
            r.sort == WorkshopSort::Popular,
            r.page == 1,
            r.total == 0,
            r.items@.len() == 0,
            r.load_status is Idle,
            r.pending_page is None,
            r.installing_item is None,
    {
        WorkshopState {
            query: String::new(),
            sort: WorkshopSort::default(),
            page: 1,
            total: 0,
            items: Vec::new(),
            load_status: WorkshopLoadStatus::default(),
            pending_page: None,
            installing_item: None,
        }
    }
}

/// A catalog search to run in the background.
#[derive(Debug, Clone)]
pub struct WorkshopSearch {
    pub api_key: String,
    pub query: String,
    pub sort: WorkshopSort,
    pub page: u32,
}

impl WorkshopState {
    /// Starts a search for `page` (at least the first): refused with an
    /// error without an API key, and ignored while a search is running.
    /// Returns the search to run.
    pub fn begin_query(&mut self, api_key: Option<String>, page: u32) -> (r: Option<WorkshopSearch>)
        ensures
            final(self).query == old(self).query,
            final(self).sort == old(self).sort,
            final(self).page == old(self).page,
            final(self).total == old(self).total,
            final(self).items == old(self).items,
            final(self).installing_item == old(self).installing_item,
            api_key is None ==> r is None && final(self).pending_page == old(self).pending_page
                && (final(self).load_status matches WorkshopLoadStatus::Error(m) && m@
                == missing_api_key_message()),
            api_key is Some && old(self).load_status is Loading ==> r is None
                && final(self).load_status is Loading
                && final(self).pending_page == old(self).pending_page,
            api_key matches Some(key) ==> (!(old(self).load_status is Loading) ==> (final(self).load_status is Loading && final(self).pending_page == Some(
                if page < 1 {
                    1u32
                } else {
                    page
                },
            ) && (r matches Some(job) && job.api_key == key && job.query@ == old(self).query@
                && job.sort == old(self).sort && job.page == (if page < 1 {
                1u32
            } else {
                page
            })))),
    {
        let key = match api_key {
            Some(key) => key,
            None => {
                let mut m = String::new();
                push_str(&mut m, "Add a Steam Web API key in Settings before searching");
                self.load_status = WorkshopLoadStatus::Error(m);
                return None;
            },
        };
        if let WorkshopLoadStatus::Loading = self.load_status {
            return None;
        }
        let page = if page < 1 {
            1
        } else {
            page
        };
        self.load_status = WorkshopLoadStatus::Loading;
        self.pending_page = Some(page);
        Some(WorkshopSearch { api_key: key, query: self.query.clone(), sort: self.sort, page })
    }

    /// Takes the outcome of the search that was running.
    pub fn finish_query(&mut self, result: Result<WorkshopPage, String>)
        ensures
            final(self).query == old(self).query,
            final(self).sort == old(self).sort,
            final(self).installing_item == old(self).installing_item,
            final(self).pending_page is None,
            match result {
                Ok(page) => {
                    &&& final(self).page == (match old(self).pending_page {
                        Some(p) => p,
                        None => 1,
                    })
                    &&& final(self).total == page.total
                    &&& final(self).items == page.items
                    &&& final(self).load_status is Ready
                },
                Err(e) => {
                    &&& final(self).page == old(self).page
                    &&& final(self).total == old(self).total
                    &&& final(self).items == old(self).items
                    &&& final(self).load_status matches WorkshopLoadStatus::Error(m) && m == e
                },
            },
    {
        match result {
            Ok(page) => {
                self.page = match self.pending_page {
                    Some(p) => p,
                    None => 1,
                };
                self.pending_page = None;
                self.total = page.total;
                self.items = page.items;
                self.load_status = WorkshopLoadStatus::Ready;
            },
            Err(error) => {
                self.pending_page = None;
                self.load_status = WorkshopLoadStatus::Error(error);
            },
        }
    }

    /// The search ended without an outcome.
    pub fn query_worker_stopped(&mut self)
        ensures
            final(self).query == old(self).query,
            final(self).sort == old(self).sort,
            final(self).page == old(self).page,
            final(self).total == old(self).total,
            final(self).items == old(self).items,
            final(self).installing_item == old(self).installing_item,
            final(self).pending_page is None,
            final(self).load_status matches WorkshopLoadStatus::Error(m) && m@
                == "The Workshop search worker stopped unexpectedly"@,
    {
        self.pending_page = None;
        let mut m = String::new();
        push_str(&mut m, "The Workshop search worker stopped unexpectedly");
        self.load_status = WorkshopLoadStatus::Error(m);
    }

    /// Starts installing an item, unless one is being installed already;
    /// returns whether it started.
    pub fn begin_install(&mut self, published_file_id: u64) -> (r: bool)
        ensures
            r == (old(self).installing_item is None),
            r ==> final(self).installing_item == Some(published_file_id),
            !r ==> final(self).installing_item == old(self).installing_item,
            final(self).query == old(self).query,
            final(self).sort == old(self).sort,
            final(self).page == old(self).page,
            final(self).total == old(self).total,
            final(self).items == old(self).items,
            final(self).pending_page == old(self).pending_page,
            final(self).load_status == old(self).load_status,
    {
        if self.installing_item.is_some() {
            return false;
        }
        self.installing_item = Some(published_file_id);
        true
    }

    /// The installation that was running has ended.
    pub fn finish_install(&mut self)
        ensures
            final(self).installing_item is None,
            final(self).query == old(self).query,
            final(self).sort == old(self).sort,
            final(self).page == old(self).page,
            final(self).total == old(self).total,
            final(self).items == old(self).items,
            final(self).pending_page == old(self).pending_page,
            final(self).load_status == old(self).load_status,
    {
        self.installing_item = None;
    }
}

/// The notice when an installation starts.
pub fn install_start_notice(published_file_id: u64) -> (r: String)
    ensures
        r@ == "Installing Workshop item "@ + decimal(published_file_id as nat) + "..."@,
{
    let mut r = String::new();
    push_str(&mut r, "Installing Workshop item ");
    push_decimal(&mut r, published_file_id);
    push_str(&mut r, "...");
    r
}

/// The notice when SteamCMD finished: whether the item now shows up in a
/// Workshop folder decides between success and a warning.
pub fn install_finished_notice(published_file_id: u64, found: bool) -> (r: String)
    ensures
        found ==> r@ == "Workshop item "@ + decimal(published_file_id as nat)
            + " installed and added to the Mods list"@,
        !found ==> r@ == "SteamCMD finished, but item "@ + decimal(published_file_id as nat)
            + " was not found in the configured Workshop folder"@,
{
    let mut r = String::new();
    if found {
        push_str(&mut r, "Workshop item ");
        push_decimal(&mut r, published_file_id);
        push_str(&mut r, " installed and added to the Mods list");
    } else {
        push_str(&mut r, "SteamCMD finished, but item ");
        push_decimal(&mut r, published_file_id);
        push_str(&mut r, " was not found in the configured Workshop folder");
    }
    r
}

/// The error when an installation failed.
pub fn install_failure_message(published_file_id: u64, error: &str) -> (r: String)
    ensures
        r@ == "Could not install Workshop item "@ + decimal(published_file_id as nat) + ": "@ + error@,
{
    let mut r = String::new();
    push_str(&mut r, "Could not install Workshop item ");
    push_decimal(&mut r, published_file_id);
    push_str(&mut r, ": ");
    push_str(&mut r, error);
    r
}

} // verus!
