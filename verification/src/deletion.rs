//! Deleting mods from disk: which selected mods may go, what the active
//! order keeps afterwards, and what the user is told.
use vstd::prelude::*;

use crate::paths::ModPath;
use crate::models::{package_views, ModCollection, ModId, ModSource, PackageId, RimworldMod};
use crate::text::{decimal, joined, push_decimal, push_joined, push_str, string_views};

verus! {

/// A mod that the user asked to delete.
#[derive(Debug)]
pub struct ModDeletionTarget {
    pub name: String,
    pub package_id: PackageId,
    pub folder: ModPath,
    pub was_enabled: bool,
}

/// Mods waiting for the user to confirm their deletion.
#[derive(Debug)]
pub struct PendingModDeletion {
    pub targets: Vec<ModDeletionTarget>,
    pub includes_workshop_mod: bool,
}

/// The reason given when official content is among the mods.
pub open spec fn official_content_message() -> Seq<char> {
    "Official RimWorld content cannot be deleted"@
}

/// The reason given when some id names no mod, or none is given.
pub open spec fn unprepared_message() -> Seq<char> {
    "Could not prepare the selected mods for deletion"@
}

/// Some id names official content.
pub open spec fn names_official(all: Seq<RimworldMod>, ids: Seq<ModId>) -> bool {
    exists|i: int| 0 <= i < ids.len() && (#[trigger] ids[i]).0 < all.len() && all[ids[i].0 as int].source is Official
}

/// Some id names a Workshop mod.
pub open spec fn names_workshop(all: Seq<RimworldMod>, ids: Seq<ModId>) -> bool {
    exists|i: int| 0 <= i < ids.len() && (#[trigger] ids[i]).0 < all.len() && all[ids[i].0 as int].source is SteamWorkshop
}

/// Every id names a mod.
pub open spec fn all_known(all: Seq<RimworldMod>, ids: Seq<ModId>) -> bool {
    forall|i: int| 0 <= i < ids.len() ==> (#[trigger] ids[i]).0 < all.len()
}

/// Prepares the deletion of the mods with the given ids, to be confirmed
/// by the user. Official content is never deleted; every id must name a
/// mod, and at least one must be given. Each target holds its mod's name,
/// package, folder, and whether it was active.
pub fn plan_mod_deletion(mods: &ModCollection, mod_ids: &[ModId]) -> (r: Result<
    PendingModDeletion,
    String,
>)
    ensures
        names_official(mods.all@, mod_ids@) ==> (r matches Err(m) && m@ == official_content_message()),
        !names_official(mods.all@, mod_ids@) && (!all_known(mods.all@, mod_ids@) || mod_ids@.len()
            == 0) ==> (r matches Err(m) && m@ == unprepared_message()),
        !names_official(mods.all@, mod_ids@) && all_known(mods.all@, mod_ids@) && mod_ids@.len() > 0
            ==> (r matches Ok(p) && p.targets@.len() == mod_ids@.len() && p.includes_workshop_mod
            == names_workshop(mods.all@, mod_ids@) && forall|k: int|
            0 <= k < mod_ids@.len() ==> {
                let t = #[trigger] p.targets@[k];
                let m = mods.all@[mod_ids@[k].0 as int];
                &&& t.name == m.name
                &&& t.package_id@ == m.package_id@
                &&& t.folder@ == m.folder@
                &&& t.was_enabled == mods.enabled_ids@.contains(mod_ids@[k])
            }),
{
    let mut i: usize = 0;
    while i < mod_ids.len()
        invariant
            i <= mod_ids@.len(),
            forall|j: int|
                0 <= j < i ==> !((#[trigger] mod_ids@[j]).0 < mods.all@.len()
                    && mods.all@[mod_ids@[j].0 as int].source is Official),
        decreases mod_ids@.len() - i,
    {
        if let Some(rimworld_mod) = mods.get(mod_ids[i]) {
            if let ModSource::Official = rimworld_mod.source {
                let mut m = String::new();
                push_str(&mut m, "Official RimWorld content cannot be deleted");
                return Err(m);
            }
        }
        i = i + 1;
    }
    let mut targets: Vec<ModDeletionTarget> = Vec::new();
    let mut includes_workshop_mod = false;
    let mut k: usize = 0;
    while k < mod_ids.len()
        invariant
            k <= mod_ids@.len(),
            !names_official(mods.all@, mod_ids@),
            targets@.len() == k,
            all_known(mods.all@, mod_ids@.take(k as int)),
            includes_workshop_mod == names_workshop(mods.all@, mod_ids@.take(k as int)),
            forall|j: int|
                0 <= j < k ==> {
                    let t = #[trigger] targets@[j];
                    let m = mods.all@[mod_ids@[j].0 as int];
                    &&& t.name == m.name
                    &&& t.package_id@ == m.package_id@
                    &&& t.folder@ == m.folder@
                    &&& t.was_enabled == mods.enabled_ids@.contains(mod_ids@[j])
                },
        decreases mod_ids@.len() - k,
    {
        let ghost before = mod_ids@.take(k as int);
        let ghost after = mod_ids@.take(k + 1);
        assert(after == before.push(mod_ids@[k as int]));
        let mod_id = mod_ids[k];
        let rimworld_mod = match mods.get(mod_id) {
            Some(m) => m,
            None => {
                assert(!all_known(mods.all@, mod_ids@)) by {
                    assert(!(mod_ids@[k as int].0 < mods.all@.len()));
                }
                let mut m = String::new();
                push_str(&mut m, "Could not prepare the selected mods for deletion");
                return Err(m);
            },
        };
        let is_workshop = match rimworld_mod.source {
            ModSource::SteamWorkshop { .. } => true,
            _ => false,
        };
        proof {
            assert(names_workshop(mods.all@, after) == (names_workshop(mods.all@, before)
                || is_workshop)) by {
                if names_workshop(mods.all@, after) && !is_workshop {
                    let j = choose|j: int|
                        0 <= j < after.len() && (#[trigger] after[j]).0 < mods.all@.len()
                            && mods.all@[after[j].0 as int].source is SteamWorkshop;
                    assert(j < before.len());
                    assert(before[j] == after[j]);
                }
                if names_workshop(mods.all@, before) {
                    let j = choose|j: int|
                        0 <= j < before.len() && (#[trigger] before[j]).0 < mods.all@.len()
                            && mods.all@[before[j].0 as int].source is SteamWorkshop;
                    assert(after[j] == before[j]);
                }
                if is_workshop {
                    assert(after[k as int] == mod_id);
                }
            }
        }
        includes_workshop_mod = includes_workshop_mod || is_workshop;
        let was_enabled = crate::id_lists::contains_id(mods.enabled_ids.as_slice(), mod_id);
        targets.push(
            ModDeletionTarget {
                name: rimworld_mod.name.clone(),
                package_id: rimworld_mod.package_id.clone(),
                folder: rimworld_mod.folder.copy(),
                was_enabled,
            },
        );
        k = k + 1;
    }
    assert(mod_ids@.take(mod_ids@.len() as int) == mod_ids@);
    if targets.len() == 0 {
        let mut m = String::new();
        push_str(&mut m, "Could not prepare the selected mods for deletion");
        return Err(m);
    }
    Ok(PendingModDeletion { targets, includes_workshop_mod })
}

/// The package was active and its mod was deleted.
pub open spec fn deleted_active(deleted: Seq<ModDeletionTarget>, p: Seq<char>) -> bool {
    exists|i: int| 0 <= i < deleted.len() && (#[trigger] deleted[i]).was_enabled && deleted[i].package_id@ == p
}

/// The active order without the deleted active mods, in order.
pub open spec fn remaining_active(active: Seq<Seq<char>>, deleted: Seq<ModDeletionTarget>) -> Seq<Seq<char>> {
    active.filter(|p: Seq<char>| !deleted_active(deleted, p))
}

/// Whether `p` belongs to a deleted mod that was active.
fn was_deleted_active(deleted: &[ModDeletionTarget], p: &PackageId) -> (r: bool)
    ensures
        r == deleted_active(deleted@, p@),
{
    let mut i: usize = 0;
    while i < deleted.len()
        invariant
            i <= deleted@.len(),
            forall|j: int| 0 <= j < i ==> !((#[trigger] deleted@[j]).was_enabled && deleted@[j].package_id@ == p@),
        decreases deleted@.len() - i,
    {
        if deleted[i].was_enabled && deleted[i].package_id.same_as(p) {
            return true;
        }
        i = i + 1;
    }
    false
}

/// The active order to restore after the deletion: the deleted mods that
/// were active leave it, everything else keeps its place.
pub fn remaining_active_package_ids(active: Vec<PackageId>, deleted: &[ModDeletionTarget]) -> (r: Vec<PackageId>)
    ensures
        package_views(r@) == remaining_active(package_views(active@), deleted@),
{
    let ghost views = package_views(active@);
    let mut r: Vec<PackageId> = Vec::new();
    let mut rest = active;
    let ghost mut consumed: Seq<PackageId> = Seq::empty();
    while rest.len() > 0
        invariant
            views == package_views(consumed + rest@),
            package_views(r@) == remaining_active(package_views(consumed), deleted@),
        decreases rest@.len(),
    {
        let p = rest.remove(0);
        let ghost before = consumed;
        proof {
            consumed = consumed.push(p);
            assert(package_views(consumed) == package_views(before).push(p@));
            package_views(before).lemma_filter_push(p@, |q: Seq<char>| !deleted_active(deleted@, q));
        }
        assert(consumed + rest@ == before + (seq![p] + rest@));
        if !was_deleted_active(deleted, &p) {
            let ghost prev = r@;
            r.push(p);
            assert(package_views(r@) == package_views(prev).push(p@));
        }
    }
    assert(consumed == consumed + rest@);
    r
}

/// The notice after `count` mods were deleted: it asks for a save when an
/// active mod was among them.
pub open spec fn deletion_notice_text(count: nat, deleted_an_active_mod: bool) -> Seq<char> {
    let noun = if count == 1 {
        "mod"@
    } else {
        "mods"@
    };
    let base = "Deleted "@ + decimal(count) + " "@ + noun;
    if deleted_an_active_mod {
        base + "; save to update the RimWorld load order"@
    } else {
        base
    }
}

/// Some deleted mod was active.
pub open spec fn any_was_enabled(deleted: Seq<ModDeletionTarget>) -> bool {
    exists|i: int| 0 <= i < deleted.len() && (#[trigger] deleted[i]).was_enabled
}

/// The notice shown after mods were deleted.
pub fn deletion_notice(deleted: &[ModDeletionTarget]) -> (r: String)
    ensures
        r@ == deletion_notice_text(deleted@.len(), any_was_enabled(deleted@)),
{
    let mut any_enabled = false;
    let mut i: usize = 0;
    while i < deleted.len()
        invariant
            i <= deleted@.len(),
            any_enabled == exists|j: int| 0 <= j < i && (#[trigger] deleted@[j]).was_enabled,
        decreases deleted@.len() - i,
    {
        if deleted[i].was_enabled {
            any_enabled = true;
        }
        i = i + 1;
    }
    let count = deleted.len();
    let mut r = String::new();
    push_str(&mut r, "Deleted ");
    push_decimal(&mut r, count as u64);
    push_str(&mut r, " ");
    if count == 1 {
        push_str(&mut r, "mod");
    } else {
        push_str(&mut r, "mods");
    }
    if any_enabled {
        push_str(&mut r, "; save to update the RimWorld load order");
    }
    r
}

/// The error shown when some deletions failed, each failure described.
pub fn deletion_failure_message(failures: &[String]) -> (r: Option<String>)
    ensures
        failures@.len() == 0 ==> r is None,
        failures@.len() > 0 ==> (r matches Some(m) && m@ == "Could not delete: "@ + joined(
            string_views(failures@),
            "; "@,
        )),
{
    if failures.len() == 0 {
        return None;
    }
    let mut m = String::new();
    push_str(&mut m, "Could not delete: ");
    push_joined(&mut m, failures, "; ");
    Some(m)
}

} // verus!
