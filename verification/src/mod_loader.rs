//! Turning what the mod folders hold into the mod library: each mod's
//! metadata, the Workshop folders' items, the community compatibility
//! reports, and the active order from ModsConfig.xml.
use vstd::prelude::*;

use crate::models::{
    ids_not_in, lists_compatible, matched_mod_ids, mod_packages, normalized_package,
    package_views, unmatched_packages, ModCollection, ModSource, ModType, PackageId, RimworldMod,
    any_compatible,
};
use crate::paths::{path_text_fits, ModPath};
use crate::text::{
    chars_of, decimal, joined, parse_u64, parse_u64_spec, push_decimal, push_joined, push_str,
    string_from, string_views, trim, trimmed,
};

verus! {

/// The package identifier of the No Version Warning mod.
pub open spec fn no_version_warning_package() -> Seq<char> {
    "mlie.noversionwarning"@
}

#[derive(Debug, Clone, Copy, PartialEq, Eq, Structural)]
pub enum ModLoadWarningKind {
    SkippedMod,
    UnavailableDirectory,
    CompatibilityData,
}

/// Something that went wrong while loading mods without stopping it.
#[derive(Debug)]
pub struct ModLoadWarning {
    pub kind: ModLoadWarningKind,
    pub path: Option<ModPath>,
    pub reason: String,
}

impl ModLoadWarning {
    /// A mod folder that could not be read.
    pub fn skipped_mod(path: ModPath, reason: String) -> (r: Self)
        ensures
            r.kind == ModLoadWarningKind::SkippedMod,
            r.path == Some(path),
            r.reason == reason,
    {
        ModLoadWarning { kind: ModLoadWarningKind::SkippedMod, path: Some(path), reason }
    }

    /// A mod directory that could not be scanned, or is not configured.
    pub fn unavailable_directory(path: Option<ModPath>, reason: String) -> (r: Self)
        ensures
            r.kind == ModLoadWarningKind::UnavailableDirectory,
            r.path == path,
            r.reason == reason,
    {
        ModLoadWarning { kind: ModLoadWarningKind::UnavailableDirectory, path, reason }
    }

    /// Community compatibility data that could not be applied.
    pub fn compatibility_data(path: ModPath, reason: String) -> (r: Self)
        ensures
            r.kind == ModLoadWarningKind::CompatibilityData,
            r.path == Some(path),
            r.reason == reason,
    {
        ModLoadWarning { kind: ModLoadWarningKind::CompatibilityData, path: Some(path), reason }
    }

    pub fn is_skipped_mod(&self) -> (r: bool)
        ensures
            r <==> self.kind == ModLoadWarningKind::SkippedMod,
    {
        self.kind == ModLoadWarningKind::SkippedMod
    }

    pub fn is_compatibility_data(&self) -> (r: bool)
        ensures
            r <==> self.kind == ModLoadWarningKind::CompatibilityData,
    {
        self.kind == ModLoadWarningKind::CompatibilityData
    }

    /// The warning as shown to the user: the path, a colon and the reason,
    /// or the reason alone when there is no path.
    pub fn text(&self) -> (r: String)
        ensures
            self.path is None ==> r@ == self.reason@,
            self.path is Some ==> r@.len() >= self.reason@.len() + 2 && r@.skip(
                r@.len() - self.reason@.len() - 2,
            ) == ": "@ + self.reason@,
            self.path matches Some(p) ==> path_text_fits(p@, r@.take(r@.len() - self.reason@.len() - 2)),
    {
        match &self.path {
            Some(path) => {
                let mut r = path.text();
                let ghost shown = r@;
                push_str(&mut r, ": ");
                push_str(&mut r, self.reason.as_str());
                proof {
                    reveal_strlit(": ");
                    assert(r@ == shown + ": "@ + self.reason@);
                    assert(r@.skip(r@.len() - self.reason@.len() - 2) == ": "@ + self.reason@);
                    assert(r@.take(r@.len() - self.reason@.len() - 2) == shown);
                }
                r
            },
            None => self.reason.clone(),
        }
    }
}

/// The reason given for a dependency list with a blank entry.
pub open spec fn blank_dependency_message() -> Seq<char> {
    "mod contains an empty dependency package ID"@
}

/// The normalized identifiers, when none of them is blank.
pub open spec fn all_normalizable(raw: Seq<Seq<char>>) -> bool {
    forall|i: int| 0 <= i < raw.len() ==> normalized_package(#[trigger] raw[i]).len() > 0
}

/// Normalizes every dependency identifier of a mod; a blank one makes the
/// whole list invalid.
pub fn parse_package_ids(raw_ids: Vec<String>) -> (r: Result<Vec<PackageId>, String>)
    ensures
        all_normalizable(string_views(raw_ids@)) ==> (r matches Ok(ids) && package_views(ids@)
            == string_views(raw_ids@).map_values(|s: Seq<char>| normalized_package(s))),
        !all_normalizable(string_views(raw_ids@)) ==> (r matches Err(m) && m@
            == blank_dependency_message()),
{
    let ghost raw = string_views(raw_ids@);
    let mut ids: Vec<PackageId> = Vec::new();
    let mut i: usize = 0;
    while i < raw_ids.len()
        invariant
            i <= raw_ids@.len(),
            raw == string_views(raw_ids@),
            package_views(ids@) == raw.take(i as int).map_values(
                |s: Seq<char>| normalized_package(s),
            ),
            forall|j: int| 0 <= j < i ==> normalized_package(#[trigger] raw[j]).len() > 0,
        decreases raw_ids@.len() - i,
    {
        match PackageId::new(raw_ids[i].as_str()) {
            Some(id) => {
                let ghost prev = ids@;
                ids.push(id);
                assert(package_views(ids@) == package_views(prev).push(id@));
                assert(raw.take(i + 1) == raw.take(i as int).push(raw[i as int]));
            },
            None => {
                assert(raw[i as int] == raw_ids@[i as int]@);
                assert(normalized_package(raw[i as int]).len() == 0);
                assert(!all_normalizable(raw));
                let mut m = String::new();
                push_str(&mut m, "mod contains an empty dependency package ID");
                return Err(m);
            },
        }
        i = i + 1;
    }
    assert(raw.take(raw_ids@.len() as int) == raw);
    Ok(ids)
}

/// The metadata that a mod's About/About.xml declares.
#[derive(Debug, Default)]
pub struct AboutMetadata {
    pub name: Option<String>,
    pub description: Option<String>,
    pub supported_versions: Vec<String>,
    pub load_after: Vec<String>,
    pub load_before: Vec<String>,
    pub force_load_after: Vec<String>,
    pub force_load_before: Vec<String>,
    pub package_id: String,
}

/// The versions a mod lists, each trimmed, without blank entries.
pub open spec fn listed_versions(raw: Seq<Seq<char>>) -> Seq<Seq<char>>
    decreases raw.len(),
{
    if raw.len() == 0 {
        Seq::empty()
    } else {
        let earlier = listed_versions(raw.drop_last());
        let v = trim(raw.last());
        if v.len() > 0 {
            earlier.push(v)
        } else {
            earlier
        }
    }
}

/// The trimmed, non-blank versions of a `supportedVersions` list.
fn clean_versions(raw: &Vec<String>) -> (r: Vec<String>)
    ensures
        string_views(r@) == listed_versions(string_views(raw@)),
{
    let ghost views = string_views(raw@);
    let mut r: Vec<String> = Vec::new();
    let mut i: usize = 0;
    while i < raw.len()
        invariant
            i <= raw@.len(),
            views == string_views(raw@),
            string_views(r@) == listed_versions(views.take(i as int)),
        decreases raw@.len() - i,
    {
        assert(views.take(i + 1).drop_last() == views.take(i as int));
        assert(views.take(i + 1).last() == raw@[i as int]@);
        let v = trimmed(chars_of(raw[i].as_str()).as_slice());
        if v.len() > 0 {
            let ghost prev = r@;
            r.push(string_from(v.as_slice()));
            assert(string_views(r@) == string_views(prev).push(v@));
        }
        i = i + 1;
    }
    assert(views.take(raw@.len() as int) == views);
    r
}

/// Two lists joined, the first one first.
fn joined_lists(mut first: Vec<String>, mut second: Vec<String>) -> (r: Vec<String>)
    ensures
        r@ == first@ + second@,
{
    first.append(&mut second);
    first
}

/// The reason given for a mod without a package identifier.
pub open spec fn blank_package_message() -> Seq<char> {
    "mod contains an empty package ID"@
}

/// The mod that a folder's metadata describes. A blank package identifier,
/// or a blank entry in the load-after or load-before lists (including the
/// forced ones, which follow the plain ones), makes the mod invalid.
/// Without a name, the folder's name stands in for it.
pub fn mod_from_metadata(
    metadata: AboutMetadata,
    fallback_name: String,
    folder: ModPath,
    source: ModSource,
    mod_type: ModType,
) -> (r: Result<RimworldMod, String>)
    ensures
        normalized_package(metadata.package_id@).len() == 0 ==> (r matches Err(m) && m@
            == blank_package_message()),
        normalized_package(metadata.package_id@).len() > 0 && !(all_normalizable(
            string_views(metadata.load_after@ + metadata.force_load_after@),
        ) && all_normalizable(string_views(metadata.load_before@ + metadata.force_load_before@)))
            ==> (r matches Err(m) && m@ == blank_dependency_message()),
        normalized_package(metadata.package_id@).len() > 0 && all_normalizable(
            string_views(metadata.load_after@ + metadata.force_load_after@),
        ) && all_normalizable(string_views(metadata.load_before@ + metadata.force_load_before@))
            ==> (r matches Ok(m) && m.name@ == (match metadata.name {
            Some(n) => n@,
            None => fallback_name@,
        }) && m.description@ == (match metadata.description {
            Some(d) => d@,
            None => Seq::<char>::empty(),
        }) && string_views(m.supported_versions@) == listed_versions(
            string_views(metadata.supported_versions@),
        ) && m.community_supported_versions@.len() == 0 && m.package_id@ == normalized_package(
            metadata.package_id@,
        ) && package_views(m.loader_after@) == string_views(
            metadata.load_after@ + metadata.force_load_after@,
        ).map_values(|s: Seq<char>| normalized_package(s)) && package_views(m.loader_before@)
            == string_views(metadata.load_before@ + metadata.force_load_before@).map_values(
            |s: Seq<char>| normalized_package(s),
        ) && m.folder == folder && m.source == source && m.mod_type == mod_type),
{
    let package_id = match PackageId::new(metadata.package_id.as_str()) {
        Some(id) => id,
        None => {
            let mut m = String::new();
            push_str(&mut m, "mod contains an empty package ID");
            return Err(m);
        },
    };
    let load_after = joined_lists(metadata.load_after, metadata.force_load_after);
    let loader_after = match parse_package_ids(load_after) {
        Ok(ids) => ids,
        Err(m) => {
            return Err(m);
        },
    };
    let load_before = joined_lists(metadata.load_before, metadata.force_load_before);
    let loader_before = match parse_package_ids(load_before) {
        Ok(ids) => ids,
        Err(m) => {
            return Err(m);
        },
    };
    let supported_versions = clean_versions(&metadata.supported_versions);
    let name = match metadata.name {
        Some(n) => n,
        None => fallback_name,
    };
    let description = match metadata.description {
        Some(d) => d,
        None => String::new(),
    };
    Ok(
        RimworldMod {
            name,
            package_id,
            description,
            supported_versions,
            community_supported_versions: Vec::new(),
            loader_after,
            loader_before,
            folder,
            source,
            mod_type,
        },
    )
}

/// The reason given for a Workshop folder whose name is not an item id.
pub open spec fn invalid_workshop_folder_message() -> Seq<char> {
    "invalid Workshop folder ID"@
}

/// The source of a mod in a Workshop folder: the item id is the folder's
/// name, which must be a decimal number that fits in 64 bits.
pub fn workshop_source(folder_name: Option<String>) -> (r: Result<ModSource, String>)
    ensures
        match folder_name {
            Some(n) => match parse_u64_spec(n@) {
                Some(id) => r matches Ok(ModSource::SteamWorkshop { workshop_id }) && workshop_id
                    == id,
                None => r matches Err(m) && m@ == invalid_workshop_folder_message(),
            },
            None => r matches Err(m) && m@ == invalid_workshop_folder_message(),
        },
{
    let parsed = match &folder_name {
        Some(n) => parse_u64(chars_of(n.as_str()).as_slice()),
        None => None,
    };
    match parsed {
        Some(workshop_id) => Ok(ModSource::SteamWorkshop { workshop_id }),
        None => {
            let mut m = String::new();
            push_str(&mut m, "invalid Workshop folder ID");
            Err(m)
        },
    }
}

/// The Workshop item id of a mod, if it comes from the Workshop.
pub open spec fn workshop_item(m: RimworldMod) -> Option<u64> {
    match m.source {
        ModSource::SteamWorkshop { workshop_id } => Some(workshop_id),
        _ => None,
    }
}

/// The mods kept from `mods` when the item ids in `seen` are already
/// loaded: every mod that is not from the Workshop, and each Workshop item
/// the first time it appears; with the item ids loaded afterwards.
pub open spec fn first_copies(mods: Seq<RimworldMod>, seen: Seq<u64>) -> (Seq<RimworldMod>, Seq<u64>)
    decreases mods.len(),
{
    if mods.len() == 0 {
        (Seq::empty(), seen)
    } else {
        let (kept, now_seen) = first_copies(mods.drop_last(), seen);
        let m = mods.last();
        match workshop_item(m) {
            Some(id) => if now_seen.contains(id) {
                (kept, now_seen)
            } else {
                (kept.push(m), now_seen.push(id))
            },
            None => (kept.push(m), now_seen),
        }
    }
}

/// Whether `ids` holds `id`.
fn holds_item(ids: &Vec<u64>, id: u64) -> (r: bool)
    ensures
        r == ids@.contains(id),
{
    let mut i: usize = 0;
    while i < ids.len()
        invariant
            i <= ids@.len(),
            forall|j: int| 0 <= j < i ==> ids@[j] != id,
        decreases ids@.len() - i,
    {
        if ids[i] == id {
            assert(ids@[i as int] == id);
            return true;
        }
        i = i + 1;
    }
    false
}

/// Keeps the mods of one Workshop folder whose item was not loaded from an
/// earlier folder, and records their item ids as loaded.
pub fn keep_first_copies(mods: Vec<RimworldMod>, loaded_ids: &mut Vec<u64>) -> (r: Vec<RimworldMod>)
    ensures
        (r@, final(loaded_ids)@) == first_copies(mods@, old(loaded_ids)@),
{
    let ghost start = loaded_ids@;
    let ghost all = mods@;
    let mut kept: Vec<RimworldMod> = Vec::new();
    let mut rest = mods;
    let ghost mut consumed: Seq<RimworldMod> = Seq::empty();
    while rest.len() > 0
        invariant
            all == consumed + rest@,
            (kept@, loaded_ids@) == first_copies(consumed, start),
        decreases rest@.len(),
    {
        let m = rest.remove(0);
        let ghost before = consumed;
        proof {
            consumed = consumed.push(m);
        }
        assert(all == consumed + rest@);
        assert(consumed.drop_last() == before);
        let keep = match &m.source {
            ModSource::SteamWorkshop { workshop_id } => {
                if holds_item(loaded_ids, *workshop_id) {
                    false
                } else {
                    loaded_ids.push(*workshop_id);
                    true
                }
            },
            _ => true,
        };
        if keep {
            kept.push(m);
        }
    }
    assert(consumed == all);
    kept
}

/// The library with the mods found and the active order read from
/// ModsConfig.xml: each active identifier becomes the first mod with that
/// package, or a missing entry when no mod has it; every other mod is
/// disabled, in folder order.
pub fn loaded_collection(mods: Vec<RimworldMod>, active_package_ids: Vec<PackageId>) -> (r:
    ModCollection)
    ensures
        r.all@ == mods@,
        r.enabled_ids@ == matched_mod_ids(mod_packages(mods@), package_views(active_package_ids@)),
        package_views(r.missing_active_package_ids@) == unmatched_packages(
            mod_packages(mods@),
            package_views(active_package_ids@),
        ),
        r.disabled_ids@ == ids_not_in(mods@.len(), r.enabled_ids@),
{
    let mut collection = ModCollection::new(mods, Vec::new(), Vec::new(), Vec::new());
    collection.replace_active_package_ids(active_package_ids);
    collection
}

/// Whether the reported identifiers, normalized, include `package`.
pub open spec fn reported(raw_ids: Seq<Seq<char>>, package: Seq<char>) -> bool {
    exists|i: int|
        0 <= i < raw_ids.len() && normalized_package(#[trigger] raw_ids[i]).len() > 0
            && normalized_package(raw_ids[i]) == package
}

/// A mod with the community support that the reports give it for
/// `version`: the version is added when the mod is reported and does not
/// list a compatible version itself.
pub open spec fn with_community_support(m: RimworldMod, raw_ids: Seq<Seq<char>>, version: Seq<char>) -> bool {
    reported(raw_ids, m.package_id@) && !lists_compatible(string_views(m.supported_versions@), version)
}

/// Whether any of the reported identifiers names `package`.
fn is_reported(raw_ids: &Vec<String>, package: &PackageId) -> (r: bool)
    ensures
        r == reported(string_views(raw_ids@), package@),
{
    let ghost raw = string_views(raw_ids@);
    let mut i: usize = 0;
    while i < raw_ids.len()
        invariant
            i <= raw_ids@.len(),
            raw == string_views(raw_ids@),
            forall|j: int|
                0 <= j < i ==> !(normalized_package(#[trigger] raw[j]).len() > 0
                    && normalized_package(raw[j]) == package@),
        decreases raw_ids@.len() - i,
    {
        match PackageId::new(raw_ids[i].as_str()) {
            Some(id) => {
                if id.same_as(package) {
                    assert(normalized_package(raw[i as int]) == package@);
                    return true;
                }
            },
            None => {},
        }
        i = i + 1;
    }
    false
}

/// Records, for the running game `version` ("major.minor"), the community
/// reports of the No Version Warning mod: each reported mod that lists no
/// compatible version gains `version` as community support.
pub fn apply_community_reports(mods: &mut Vec<RimworldMod>, version: &String, reported_ids: &Vec<String>)
    ensures
        final(mods)@.len() == old(mods)@.len(),
        forall|i: int|
            0 <= i < old(mods)@.len() ==> {
                let before = #[trigger] old(mods)@[i];
                let after = final(mods)@[i];
                &&& after.name == before.name
                &&& after.package_id == before.package_id
                &&& after.description == before.description
                &&& after.supported_versions == before.supported_versions
                &&& after.loader_after == before.loader_after
                &&& after.loader_before == before.loader_before
                &&& after.folder == before.folder
                &&& after.source == before.source
                &&& after.mod_type == before.mod_type
                &&& string_views(after.community_supported_versions@) == if with_community_support(
                    before,
                    string_views(reported_ids@),
                    version@,
                ) {
                    string_views(before.community_supported_versions@).push(version@)
                } else {
                    string_views(before.community_supported_versions@)
                }
            },
{
    let ghost start = mods@;
    let mut updated: Vec<RimworldMod> = Vec::new();
    let mut rest: Vec<RimworldMod> = Vec::new();
    std::mem::swap(mods, &mut rest);
    let ghost mut consumed: Seq<RimworldMod> = Seq::empty();
    while rest.len() > 0
        invariant
            start == consumed + rest@,
            updated@.len() == consumed.len(),
            forall|j: int|
                0 <= j < consumed.len() ==> {
                    let before = #[trigger] start[j];
                    let after = updated@[j];
                    &&& after.name == before.name
                    &&& after.package_id == before.package_id
                    &&& after.description == before.description
                    &&& after.supported_versions == before.supported_versions
                    &&& after.loader_after == before.loader_after
                    &&& after.loader_before == before.loader_before
                    &&& after.folder == before.folder
                    &&& after.source == before.source
                    &&& after.mod_type == before.mod_type
                    &&& string_views(after.community_supported_versions@)
                        == if with_community_support(before, string_views(reported_ids@), version@) {
                        string_views(before.community_supported_versions@).push(version@)
                    } else {
                        string_views(before.community_supported_versions@)
                    }
                },
        decreases rest@.len(),
    {
        let mut m = rest.remove(0);
        proof {
            consumed = consumed.push(m);
        }
        assert(start == consumed + rest@);
        assert(m == start[consumed.len() - 1]);
        let is_reported_compatible = is_reported(reported_ids, &m.package_id);
        let is_officially_compatible = any_compatible(m.supported_versions.as_slice(), version.as_str());
        if is_reported_compatible && !is_officially_compatible {
            let ghost prior = m.community_supported_versions@;
            m.community_supported_versions.push(version.clone());
            assert(string_views(m.community_supported_versions@) == string_views(prior).push(
                version@,
            ));
        }
        updated.push(m);
    }
    assert(consumed == start);
    *mods = updated;
}

/// The position of the No Version Warning mod among `mods`, if it is there.
pub fn no_version_warning_position(mods: &[RimworldMod]) -> (r: Option<usize>)
    ensures
        match r {
            Some(i) => i < mods@.len() && mods@[i as int].package_id@ == no_version_warning_package()
                && forall|j: int| 0 <= j < i ==> mods@[j].package_id@ != no_version_warning_package(),
            None => forall|j: int|
                0 <= j < mods@.len() ==> mods@[j].package_id@ != no_version_warning_package(),
        },
{
    let wanted = chars_of("mlie.noversionwarning");
    let mut i: usize = 0;
    while i < mods.len()
        invariant
            i <= mods@.len(),
            wanted@ == no_version_warning_package(),
            forall|j: int| 0 <= j < i ==> mods@[j].package_id@ != no_version_warning_package(),
        decreases mods@.len() - i,
    {
        let package = chars_of(mods[i].package_id.as_str());
        if crate::text::same_chars(package.as_slice(), wanted.as_slice()) {
            return Some(i);
        }
        i = i + 1;
    }
    None
}

/// The warning for a missing Workshop configuration.
pub fn no_workshop_directory_warning() -> (r: ModLoadWarning)
    ensures
        r.kind == ModLoadWarningKind::UnavailableDirectory,
        r.path is None,
        r.reason@ == "Steam Workshop directory is not configured; Workshop mods were not loaded"@,
{
    let mut reason = String::new();
    push_str(&mut reason, "Steam Workshop directory is not configured; Workshop mods were not loaded");
    ModLoadWarning::unavailable_directory(None, reason)
}

/// No Workshop item is loaded twice: among the kept mods, Workshop items
/// have distinct ids, none of which was loaded before; and the loaded ids
/// stay free of repeats.
pub proof fn lemma_first_copies_distinct(mods: Seq<RimworldMod>, seen: Seq<u64>)
    requires
        seen.no_duplicates(),
    ensures
        ({
            let (kept, now) = first_copies(mods, seen);
            &&& now.no_duplicates()
            &&& forall|i: int, j: int|
                0 <= i < j < kept.len() && #[trigger] workshop_item(kept[i]) is Some && #[trigger] workshop_item(kept[j]) is Some
                    ==> workshop_item(kept[i]) != workshop_item(kept[j])
            &&& forall|i: int|
                0 <= i < kept.len() && #[trigger] workshop_item(kept[i]) is Some ==> !seen.contains(
                    workshop_item(kept[i])->0,
                ) && now.contains(workshop_item(kept[i])->0)
        }),
    decreases mods.len(),
{
    if mods.len() > 0 {
        lemma_first_copies_distinct(mods.drop_last(), seen);
        let (kept, now) = first_copies(mods.drop_last(), seen);
        let m = mods.last();
        assert(now.len() >= seen.len() && now.take(seen.len() as int) == seen) by {
            lemma_first_copies_extends(mods.drop_last(), seen);
        }
        match workshop_item(m) {
            Some(id) => {
                if !now.contains(id) {
                    let k2 = kept.push(m);
                    let n2 = now.push(id);
                    assert forall|a: int, b: int| 0 <= a < b < n2.len() implies n2[a] != n2[b] by {
                        if b == now.len() {
                            assert(n2[a] == now[a]);
                        }
                    }
                    assert forall|i: int| 0 <= i < k2.len() && #[trigger] workshop_item(k2[i]) is Some implies !seen.contains(
                        workshop_item(k2[i])->0,
                    ) && n2.contains(workshop_item(k2[i])->0) by {
                        if i == kept.len() {
                            assert(n2[now.len() as int] == id);
                            if seen.contains(id) {
                                let j = choose|j: int| 0 <= j < seen.len() && seen[j] == id;
                                assert(now[j] == seen[j]);
                            }
                        } else {
                            assert(k2[i] == kept[i]);
                            let x = workshop_item(kept[i])->0;
                            let j = choose|j: int| 0 <= j < now.len() && now[j] == x;
                            assert(n2[j] == x);
                        }
                    }
                    assert forall|i: int, j: int|
                        0 <= i < j < k2.len() && #[trigger] workshop_item(k2[i]) is Some && #[trigger] workshop_item(k2[j]) is Some
                            implies workshop_item(k2[i]) != workshop_item(k2[j]) by {
                        if j == kept.len() {
                            assert(k2[i] == kept[i]);
                        } else {
                            assert(k2[i] == kept[i] && k2[j] == kept[j]);
                        }
                    }
                }
            },
            None => {
                let k2 = kept.push(m);
                assert forall|i: int| 0 <= i < k2.len() && #[trigger] workshop_item(k2[i]) is Some implies !seen.contains(
                    workshop_item(k2[i])->0,
                ) && now.contains(workshop_item(k2[i])->0) by {
                    assert(k2[i] == kept[i]);
                }
                assert forall|i: int, j: int|
                    0 <= i < j < k2.len() && #[trigger] workshop_item(k2[i]) is Some && #[trigger] workshop_item(k2[j]) is Some
                        implies workshop_item(k2[i]) != workshop_item(k2[j]) by {
                    assert(k2[i] == kept[i] && k2[j] == kept[j]);
                }
            },
        }
    }
}

/// The loaded ids only grow: the earlier ones stay in front.
proof fn lemma_first_copies_extends(mods: Seq<RimworldMod>, seen: Seq<u64>)
    ensures
        first_copies(mods, seen).1.len() >= seen.len(),
        first_copies(mods, seen).1.take(seen.len() as int) == seen,
    decreases mods.len(),
{
    if mods.len() > 0 {
        lemma_first_copies_extends(mods.drop_last(), seen);
        let now = first_copies(mods.drop_last(), seen).1;
        match workshop_item(mods.last()) {
            Some(id) => {
                assert(now.push(id).take(seen.len() as int) == now.take(seen.len() as int));
            },
            None => {},
        }
    }
}

/// The number of warnings of the given kind.
pub open spec fn count_kind(warnings: Seq<ModLoadWarning>, kind: ModLoadWarningKind) -> nat
    decreases warnings.len(),
{
    if warnings.len() == 0 {
        0
    } else {
        count_kind(warnings.drop_last(), kind) + if warnings.last().kind == kind {
            1nat
        } else {
            0nat
        }
    }
}

/// The parts of the warning summary: skipped mods, directory issues and
/// compatibility data issues, each only when there is one.
pub open spec fn summary_parts(warnings: Seq<ModLoadWarning>) -> Seq<Seq<char>> {
    let skipped = count_kind(warnings, ModLoadWarningKind::SkippedMod);
    let directories = count_kind(warnings, ModLoadWarningKind::UnavailableDirectory);
    let data = count_kind(warnings, ModLoadWarningKind::CompatibilityData);
    (if skipped > 0 {
        seq![decimal(skipped) + " invalid mod(s) skipped"@]
    } else {
        Seq::empty()
    }) + (if directories > 0 {
        seq![decimal(directories) + " optional mod directory issue(s)"@]
    } else {
        Seq::empty()
    }) + (if data > 0 {
        seq![decimal(data) + " compatibility data issue(s)"@]
    } else {
        Seq::empty()
    })
}

/// The one-line summary of the loading warnings, such as
/// "2 invalid mod(s) skipped; 1 compatibility data issue(s).".
pub fn warning_summary(warnings: &[ModLoadWarning]) -> (r: String)
    ensures
        r@ == joined(summary_parts(warnings@), "; "@) + "."@,
{
    let mut skipped: usize = 0;
    let mut directories: usize = 0;
    let mut data: usize = 0;
    let mut i: usize = 0;
    while i < warnings.len()
        invariant
            i <= warnings@.len(),
            skipped == count_kind(warnings@.take(i as int), ModLoadWarningKind::SkippedMod),
            directories == count_kind(warnings@.take(i as int), ModLoadWarningKind::UnavailableDirectory),
            data == count_kind(warnings@.take(i as int), ModLoadWarningKind::CompatibilityData),
            skipped + directories + data == i,
        decreases warnings@.len() - i,
    {
        assert(warnings@.take(i + 1).drop_last() == warnings@.take(i as int));
        assert(warnings@.take(i + 1).last() == warnings@[i as int]);
        match warnings[i].kind {
            ModLoadWarningKind::SkippedMod => skipped = skipped + 1,
            ModLoadWarningKind::UnavailableDirectory => directories = directories + 1,
            ModLoadWarningKind::CompatibilityData => data = data + 1,
        }
        i = i + 1;
    }
    assert(warnings@.take(warnings@.len() as int) == warnings@);
    let mut parts: Vec<String> = Vec::new();
    if skipped > 0 {
        let mut part = String::new();
        push_decimal(&mut part, skipped as u64);
        push_str(&mut part, " invalid mod(s) skipped");
        parts.push(part);
    }
    let ghost first = string_views(parts@);
    if directories > 0 {
        let mut part = String::new();
        push_decimal(&mut part, directories as u64);
        push_str(&mut part, " optional mod directory issue(s)");
        parts.push(part);
        assert(string_views(parts@) == first.push(part@));
    }
    let ghost second = string_views(parts@);
    if data > 0 {
        let mut part = String::new();
        push_decimal(&mut part, data as u64);
        push_str(&mut part, " compatibility data issue(s)");
        parts.push(part);
        assert(string_views(parts@) == second.push(part@));
    }
    assert(string_views(parts@) == summary_parts(warnings@));
    let mut r = String::new();
    push_joined(&mut r, parts.as_slice(), "; ");
    push_str(&mut r, ".");
    r
}

} // verus!
