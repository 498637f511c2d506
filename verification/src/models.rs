//! The mod library: mods, their identifiers, and the disabled and active
//! load-order lists.
use vstd::prelude::*;


use crate::id_lists::{
    contains_id, first_index, lemma_first_index, lemma_first_index_at, find_missing, first_missing, insertion_index, insertion_point, left_over,
    lemma_split_multiset, lemma_spliced_multiset, moved_before, picked, select, splice, spliced,
};
use crate::paths::ModPath;
use crate::text::{
    ascii_lower, chars_of, decimal, first_word, first_word_of, lowered, parse_u32, parse_u32_spec,
    position_of_char, push_decimal, push_str, slice_range, string_from, string_views, trim, trimmed,
};

verus! {

/// The position of a mod in `ModCollection::all`.
#[derive(Debug, Clone, Copy, PartialEq, Eq, Hash, Structural)]
pub struct ModId(pub usize);

impl ModId {
    pub fn from_index(index: usize) -> (r: Self)
        ensures
            r.0 == index,
    {
        ModId(index)
    }

    pub fn index(self) -> (r: usize)
        ensures
            r == self.0,
    {
        self.0
    }
}

/// A normalized package identifier: trimmed and in ASCII lower case.
#[derive(Debug, PartialEq, Eq, Hash)]
pub struct PackageId(String);

impl View for PackageId {
    type V = Seq<char>;

    closed spec fn view(&self) -> Seq<char> {
        self.0@
    }
}

/// The normalized form of a raw package identifier.
pub open spec fn normalized_package(raw: Seq<char>) -> Seq<char> {
    ascii_lower(trim(raw))
}

/// Normalizing a package identifier: the result is empty exactly when the
/// raw text is blank; otherwise it has no surrounding whitespace and no
/// ASCII upper-case letter, and normalizing it again changes nothing.
pub proof fn lemma_package_normalization(raw: Seq<char>)
    ensures
        normalized_package(raw).len() == 0 <==> trim(raw).len() == 0,
        normalized_package(raw).len() > 0 ==> !crate::text::is_ws(normalized_package(raw)[0])
            && !crate::text::is_ws(normalized_package(raw).last()),
        forall|i: int|
            0 <= i < normalized_package(raw).len() ==> !crate::text::is_ascii_upper(
                #[trigger] normalized_package(raw)[i],
            ),
        normalized_package(normalized_package(raw)) == normalized_package(raw),
{
    let t = trim(raw);
    let l = normalized_package(raw);
    crate::text::lemma_trim_edges(raw);
    assert forall|i: int| 0 <= i < l.len() implies !crate::text::is_ascii_upper(#[trigger] l[i]) by {
        crate::text::lemma_lower_char(t[i]);
    }
    if l.len() > 0 {
        crate::text::lemma_lower_char(t[0]);
        crate::text::lemma_lower_char(t.last());
        assert(l[0] == crate::text::lower_char(t[0]));
        assert(l.last() == crate::text::lower_char(t.last()));
    }
    crate::text::lemma_trim_of_trimmed(l);
    assert forall|i: int| 0 <= i < l.len() implies #[trigger] ascii_lower(l)[i] == l[i] by {
        crate::text::lemma_lower_char(t[i]);
    }
    assert(ascii_lower(l) == l);
}

impl PackageId {
    /// Normalizes `raw`; an identifier that is empty after trimming is
    /// rejected.
    pub fn new(raw: &str) -> (r: Option<Self>)
        ensures
            r is Some <==> normalized_package(raw@).len() > 0,
            r matches Some(p) ==> p@ == normalized_package(raw@),
    {
        let chars = chars_of(raw);
        let trimmed_chars = trimmed(chars.as_slice());
        let normalized = lowered(trimmed_chars.as_slice());
        if normalized.len() == 0 {
            return None;
        }
        Some(PackageId(string_from(normalized.as_slice())))
    }

    pub fn as_str(&self) -> (r: &str)
        ensures
            r@ == self@,
    {
        self.0.as_str()
    }

    /// Whether two identifiers are the same.
    pub fn same_as(&self, other: &PackageId) -> (r: bool)
        ensures
            r == (self@ == other@),
    {
        self.0 == other.0
    }

    /// The identifier as an owned string.
    pub fn to_text(&self) -> (r: String)
        ensures
            r@ == self@,
    {
        self.0.clone()
    }
}

impl Clone for PackageId {
    fn clone(&self) -> (r: Self)
        ensures
            r@ == self@,
    {
        PackageId(self.0.clone())
    }
}

#[derive(Debug, Clone, Copy, PartialEq, Eq, Structural)]
pub enum ModType {
    /// Contains CSharp code
    CSharp,
    /// XML only mod, no CSharp code
    Xml,
    /// Fallback
    Unknown,
}

impl Default for ModType {
    fn default() -> (r: Self)
        ensures
            r is Unknown,
    {
        ModType::Unknown
    }
}

/// Mod sources, ordered by priority
#[derive(Debug, Clone, PartialEq, Eq)]
pub enum ModSource {
    /// Official game content
    Official,
    /// From steam workshop
    SteamWorkshop { workshop_id: u64 },
    /// Has public Git repository
    Git { remote_url: String },
    /// Local folder, used for everything else
    Local,
    /// For conflicting or unreadable data, used as fallback
    Unknown,
}

impl Default for ModSource {
    fn default() -> (r: Self)
        ensures
            r is Unknown,
    {
        ModSource::Unknown
    }
}

#[derive(Debug, Clone)]
pub struct RimworldMod {
    pub name: String,
    pub package_id: PackageId,
    pub description: String,
    pub supported_versions: Vec<String>,
    pub community_supported_versions: Vec<String>,
    pub loader_after: Vec<PackageId>,
    pub loader_before: Vec<PackageId>,
    pub folder: ModPath,
    pub source: ModSource,
    pub mod_type: ModType,
}

#[derive(Debug, Clone, Copy, PartialEq, Eq, Structural)]
pub enum ModCollectionError {
    NotDisabled(ModId),
    NotActive(ModId),
}

impl ModCollectionError {
    pub open spec fn message_text(&self) -> Seq<char> {
        match self {
            ModCollectionError::NotDisabled(m) => "mod "@ + decimal(m.0 as nat)
                + " is not in the disabled list"@,
            ModCollectionError::NotActive(m) => "mod "@ + decimal(m.0 as nat)
                + " is not in the active list"@,
        }
    }

    /// The message shown for this error.
    pub fn message(&self) -> (r: String)
        ensures
            r@ == self.message_text(),
    {
        let mut r = String::new();
        push_str(&mut r, "mod ");
        match self {
            ModCollectionError::NotDisabled(m) => {
                push_decimal(&mut r, m.0 as u64);
                push_str(&mut r, " is not in the disabled list");
            },
            ModCollectionError::NotActive(m) => {
                push_decimal(&mut r, m.0 as u64);
                push_str(&mut r, " is not in the active list");
            },
        }
        r
    }
}

#[derive(Debug, Clone)]
pub struct ModCollection {
    pub all: Vec<RimworldMod>,
    pub disabled_ids: Vec<ModId>,
    pub enabled_ids: Vec<ModId>,
    pub missing_active_package_ids: Vec<PackageId>,
}

impl Default for ModCollection {
    /// No mods at all.
    fn default() -> (r: Self)
        ensures
            r.all@.len() == 0,
            r.disabled_ids@.len() == 0,
            r.enabled_ids@.len() == 0,
            r.missing_active_package_ids@.len() == 0,
    {
        ModCollection {
            all: Vec::new(),
            disabled_ids: Vec::new(),
            enabled_ids: Vec::new(),
            missing_active_package_ids: Vec::new(),
        }
    }
}

impl ModCollection {
    pub fn new(
        all: Vec<RimworldMod>,
        disabled_ids: Vec<ModId>,
        enabled_ids: Vec<ModId>,
        missing_active_package_ids: Vec<PackageId>,
    ) -> (r: Self)
        ensures
            r.all@ == all@,
            r.disabled_ids@ == disabled_ids@,
            r.enabled_ids@ == enabled_ids@,
            r.missing_active_package_ids@ == missing_active_package_ids@,
    {
        ModCollection { all, disabled_ids, enabled_ids, missing_active_package_ids }
    }

    pub fn get(&self, mod_id: ModId) -> (r: Option<&RimworldMod>)
        ensures
            r == (if mod_id.0 < self.all@.len() {
                Some(&self.all@[mod_id.0 as int])
            } else {
                None
            }),
    {
        if mod_id.0 < self.all.len() {
            Some(&self.all[mod_id.0])
        } else {
            None
        }
    }

    pub fn enabled_ids(&self) -> (r: &[ModId])
        ensures
            r@ == self.enabled_ids@,
    {
        self.enabled_ids.as_slice()
    }

    pub fn disabled_ids(&self) -> (r: &[ModId])
        ensures
            r@ == self.disabled_ids@,
    {
        self.disabled_ids.as_slice()
    }

    pub fn missing_active_package_ids(&self) -> (r: &[PackageId])
        ensures
            r@ == self.missing_active_package_ids@,
    {
        self.missing_active_package_ids.as_slice()
    }

    /// Moves the members of `moved_mod_ids`, in their list order, in front of
    /// `before_mod_id` (or to the end). Nothing moves when `before_mod_id` is
    /// itself one of the moved mods.
    fn move_many_before(mod_ids: &mut Vec<ModId>, moved_mod_ids: &[ModId], before_mod_id: Option<ModId>)
        ensures
            final(mod_ids)@ == (if before_mod_id matches Some(b) && moved_mod_ids@.contains(b) {
                old(mod_ids)@
            } else {
                moved_before(old(mod_ids)@, moved_mod_ids@, before_mod_id)
            }),
    {
        if let Some(b) = before_mod_id {
            if contains_id(moved_mod_ids, b) {
                return ;
            }
        }
        let moved_in_list_order = select(mod_ids.as_slice(), moved_mod_ids, true);
        let rest = select(mod_ids.as_slice(), moved_mod_ids, false);
        let target_position = insertion_index(rest.as_slice(), before_mod_id);
        *mod_ids = splice(rest.as_slice(), target_position, moved_in_list_order.as_slice());
    }

    /// Moves the members of `moved_mod_ids` from `source_ids` to
    /// `target_ids`, in front of `before_mod_id` (or to the end). When one of
    /// them is not in `source_ids`, nothing changes and the first such id is
    /// returned.
    fn transfer_many(
        source_ids: &mut Vec<ModId>,
        target_ids: &mut Vec<ModId>,
        moved_mod_ids: &[ModId],
        before_mod_id: Option<ModId>,
    ) -> (r: Option<ModId>)
        ensures
            r == first_missing(moved_mod_ids@, old(source_ids)@),
            r is Some ==> final(source_ids)@ == old(source_ids)@ && final(target_ids)@ == old(
                target_ids,
            )@,
            r is None ==> final(source_ids)@ == left_over(old(source_ids)@, moved_mod_ids@)
                && final(target_ids)@ == spliced(
                old(target_ids)@,
                insertion_point(old(target_ids)@, before_mod_id),
                picked(old(source_ids)@, moved_mod_ids@),
            ),
    {
        let invalid_id = find_missing(moved_mod_ids, source_ids.as_slice());
        if invalid_id.is_some() {
            return invalid_id;
        }
        let moved_in_list_order = select(source_ids.as_slice(), moved_mod_ids, true);
        let rest = select(source_ids.as_slice(), moved_mod_ids, false);
        *source_ids = rest;
        let target_position = insertion_index(target_ids.as_slice(), before_mod_id);
        *target_ids = splice(target_ids.as_slice(), target_position, moved_in_list_order.as_slice());
        None
    }

    pub fn enable_many(&mut self, mod_ids: &[ModId], before_mod_id: Option<ModId>) -> (r: Result<
        (),
        ModCollectionError,
    >)
        ensures
            final(self).all@ == old(self).all@,
            final(self).missing_active_package_ids@ == old(self).missing_active_package_ids@,
            r is Ok <==> first_missing(mod_ids@, old(self).disabled_ids@) is None,
            r matches Err(ModCollectionError::NotDisabled(m)) ==> first_missing(
                mod_ids@,
                old(self).disabled_ids@,
            ) == Some(m),
            r is Err ==> r matches Err(ModCollectionError::NotDisabled(_)),
            r is Err ==> final(self).disabled_ids@ == old(self).disabled_ids@
                && final(self).enabled_ids@ == old(self).enabled_ids@,
            r is Ok ==> final(self).disabled_ids@ == left_over(old(self).disabled_ids@, mod_ids@)
                && final(self).enabled_ids@ == spliced(
                old(self).enabled_ids@,
                insertion_point(old(self).enabled_ids@, before_mod_id),
                picked(old(self).disabled_ids@, mod_ids@),
            ),
    {
        match Self::transfer_many(
            &mut self.disabled_ids,
            &mut self.enabled_ids,
            mod_ids,
            before_mod_id,
        ) {
            Some(invalid_id) => Err(ModCollectionError::NotDisabled(invalid_id)),
            None => Ok(()),
        }
    }

    pub fn disable_many(&mut self, mod_ids: &[ModId], before_mod_id: Option<ModId>) -> (r: Result<
        (),
        ModCollectionError,
    >)
        ensures
            final(self).all@ == old(self).all@,
            final(self).missing_active_package_ids@ == old(self).missing_active_package_ids@,
            r is Ok <==> first_missing(mod_ids@, old(self).enabled_ids@) is None,
            r matches Err(ModCollectionError::NotActive(m)) ==> first_missing(
                mod_ids@,
                old(self).enabled_ids@,
            ) == Some(m),
            r is Err ==> r matches Err(ModCollectionError::NotActive(_)),
            r is Err ==> final(self).disabled_ids@ == old(self).disabled_ids@
                && final(self).enabled_ids@ == old(self).enabled_ids@,
            r is Ok ==> final(self).enabled_ids@ == left_over(old(self).enabled_ids@, mod_ids@)
                && final(self).disabled_ids@ == spliced(
                old(self).disabled_ids@,
                insertion_point(old(self).disabled_ids@, before_mod_id),
                picked(old(self).enabled_ids@, mod_ids@),
            ),
    {
        match Self::transfer_many(
            &mut self.enabled_ids,
            &mut self.disabled_ids,
            mod_ids,
            before_mod_id,
        ) {
            Some(invalid_id) => Err(ModCollectionError::NotActive(invalid_id)),
            None => Ok(()),
        }
    }

    pub fn reorder_enabled_many(&mut self, mod_ids: &[ModId], before_mod_id: Option<ModId>) -> (r:
        Result<(), ModCollectionError>)
        ensures
            final(self).all@ == old(self).all@,
            final(self).missing_active_package_ids@ == old(self).missing_active_package_ids@,
            final(self).disabled_ids@ == old(self).disabled_ids@,
            r is Ok <==> first_missing(mod_ids@, old(self).enabled_ids@) is None,
            r matches Err(ModCollectionError::NotActive(m)) ==> first_missing(
                mod_ids@,
                old(self).enabled_ids@,
            ) == Some(m),
            r is Err ==> r matches Err(ModCollectionError::NotActive(_)),
            r is Err ==> final(self).enabled_ids@ == old(self).enabled_ids@,
            r is Ok ==> final(self).enabled_ids@ == (if before_mod_id matches Some(b)
                && mod_ids@.contains(b) {
                old(self).enabled_ids@
            } else {
                moved_before(old(self).enabled_ids@, mod_ids@, before_mod_id)
            }),
    {
        if let Some(invalid_id) = find_missing(mod_ids, self.enabled_ids.as_slice()) {
            return Err(ModCollectionError::NotActive(invalid_id));
        }
        Self::move_many_before(&mut self.enabled_ids, mod_ids, before_mod_id);
        Ok(())
    }

    pub fn reorder_disabled_many(&mut self, mod_ids: &[ModId], before_mod_id: Option<ModId>) -> (r:
        Result<(), ModCollectionError>)
        ensures
            final(self).all@ == old(self).all@,
            final(self).missing_active_package_ids@ == old(self).missing_active_package_ids@,
            final(self).enabled_ids@ == old(self).enabled_ids@,
            r is Ok <==> first_missing(mod_ids@, old(self).disabled_ids@) is None,
            r matches Err(ModCollectionError::NotDisabled(m)) ==> first_missing(
                mod_ids@,
                old(self).disabled_ids@,
            ) == Some(m),
            r is Err ==> r matches Err(ModCollectionError::NotDisabled(_)),
            r is Err ==> final(self).disabled_ids@ == old(self).disabled_ids@,
            r is Ok ==> final(self).disabled_ids@ == (if before_mod_id matches Some(b)
                && mod_ids@.contains(b) {
                old(self).disabled_ids@
            } else {
                moved_before(old(self).disabled_ids@, mod_ids@, before_mod_id)
            }),
    {
        if let Some(invalid_id) = find_missing(mod_ids, self.disabled_ids.as_slice()) {
            return Err(ModCollectionError::NotDisabled(invalid_id));
        }
        Self::move_many_before(&mut self.disabled_ids, mod_ids, before_mod_id);
        Ok(())
    }

    pub fn replace_enabled_order(&mut self, enabled_ids: Vec<ModId>)
        ensures
            final(self).all@ == old(self).all@,
            final(self).missing_active_package_ids@ == old(self).missing_active_package_ids@,
            final(self).disabled_ids@ == old(self).disabled_ids@,
            final(self).enabled_ids@ == enabled_ids@,
    {
        self.enabled_ids = enabled_ids;
    }

    pub fn restore_list_orders(&mut self, disabled_ids: Vec<ModId>, enabled_ids: Vec<ModId>)
        ensures
            final(self).all@ == old(self).all@,
            final(self).missing_active_package_ids@ == old(self).missing_active_package_ids@,
            final(self).disabled_ids@ == disabled_ids@,
            final(self).enabled_ids@ == enabled_ids@,
    {
        self.disabled_ids = disabled_ids;
        self.enabled_ids = enabled_ids;
    }

    /// The current in-memory active order as package identifiers: the known
    /// active mods followed by the active entries whose folders are missing.
    pub fn active_package_ids(&self) -> (r: Vec<PackageId>)
        ensures
            package_views(r@) == listed_packages(self.all@, self.enabled_ids@) + package_views(
                self.missing_active_package_ids@,
            ),
    {
        let mut package_ids: Vec<PackageId> = Vec::new();
        for i in 0..self.enabled_ids.len()
            invariant
                package_views(package_ids@) == listed_packages(
                    self.all@,
                    self.enabled_ids@.take(i as int),
                ),
        {
            let mod_id = self.enabled_ids[i];
            assert(self.enabled_ids@.take(i + 1).drop_last() == self.enabled_ids@.take(i as int));
            if let Some(rimworld_mod) = self.get(mod_id) {
                package_ids.push(rimworld_mod.package_id.clone());
            }
            assert(package_views(package_ids@) == listed_packages(
                self.all@,
                self.enabled_ids@.take(i + 1),
            ));
        }
        assert(self.enabled_ids@.take(self.enabled_ids@.len() as int) == self.enabled_ids@);
        let ghost known = package_ids@;
        for i in 0..self.missing_active_package_ids.len()
            invariant
                package_views(package_ids@) == package_views(known) + package_views(
                    self.missing_active_package_ids@.take(i as int),
                ),
        {
            let ghost prev = package_ids@;
            package_ids.push(self.missing_active_package_ids[i].clone());
            assert(package_views(package_ids@) == package_views(prev).push(
                self.missing_active_package_ids@[i as int]@,
            ));
            assert(self.missing_active_package_ids@.take(i + 1) == self.missing_active_package_ids@.take(
                i as int,
            ).push(self.missing_active_package_ids@[i as int]));
            assert(package_views(package_ids@) == package_views(known) + package_views(
                self.missing_active_package_ids@.take(i + 1),
            ));
        }
        assert(self.missing_active_package_ids@.take(self.missing_active_package_ids@.len() as int)
            == self.missing_active_package_ids@);
        package_ids
    }

    /// Rebuilds the active and disabled lists for the given active order,
    /// after the backing mod folders change.
    pub fn replace_active_package_ids(&mut self, package_ids: Vec<PackageId>)
        ensures
            final(self).all@ == old(self).all@,
            final(self).enabled_ids@ == matched_mod_ids(
                mod_packages(old(self).all@),
                package_views(package_ids@),
            ),
            package_views(final(self).missing_active_package_ids@) == unmatched_packages(
                mod_packages(old(self).all@),
                package_views(package_ids@),
            ),
            final(self).disabled_ids@ == ids_not_in(
                old(self).all@.len(),
                final(self).enabled_ids@,
            ),
    {
        let ghost pkgs = mod_packages(self.all@);
        let ghost wanted = package_views(package_ids@);
        let mut enabled_ids: Vec<ModId> = Vec::new();
        let mut missing_active_package_ids: Vec<PackageId> = Vec::new();
        for i in 0..package_ids.len()
            invariant
                pkgs == mod_packages(self.all@),
                wanted == package_views(package_ids@),
                enabled_ids@ == matched_mod_ids(pkgs, wanted.take(i as int)),
                package_views(missing_active_package_ids@) == unmatched_packages(
                    pkgs,
                    wanted.take(i as int),
                ),
        {
            assert(wanted.take(i + 1).drop_last() == wanted.take(i as int));
            assert(wanted.take(i + 1).last() == package_ids@[i as int]@);
            let position = position_of_package(self.all.as_slice(), &package_ids[i]);
            proof {
                lemma_first_index(pkgs, package_ids@[i as int]@);
            }
            if position < self.all.len() {
                enabled_ids.push(ModId(position));
            } else {
                missing_active_package_ids.push(package_ids[i].clone());
                assert(package_views(missing_active_package_ids@) == package_views(
                    missing_active_package_ids@.drop_last(),
                ).push(package_ids@[i as int]@));
            }
        }
        assert(wanted.take(wanted.len() as int) == wanted);
        let mut disabled_ids: Vec<ModId> = Vec::new();
        for i in 0..self.all.len()
            invariant
                disabled_ids@ == ids_not_in(i as nat, enabled_ids@),
        {
            proof {
                all_ids(i as nat).lemma_filter_push(ModId(i), |m: ModId| !enabled_ids@.contains(m));
                assert(all_ids(i as nat).push(ModId(i)) == all_ids((i + 1) as nat));
            }
            if !contains_id(enabled_ids.as_slice(), ModId(i)) {
                disabled_ids.push(ModId(i));
            }
        }
        self.enabled_ids = enabled_ids;
        self.disabled_ids = disabled_ids;
        self.missing_active_package_ids = missing_active_package_ids;
    }

    /// The first mod whose package identifier is `package_id`.
    pub fn find_id_by_package_id(&self, package_id: &PackageId) -> (r: Option<ModId>)
        ensures
            r == (if mod_packages(self.all@).contains(package_id@) {
                Some(ModId(first_index(mod_packages(self.all@), package_id@) as usize))
            } else {
                None
            }),
    {
        let position = position_of_package(self.all.as_slice(), package_id);
        proof {
            lemma_first_index(mod_packages(self.all@), package_id@);
        }
        if position < self.all.len() {
            Some(ModId(position))
        } else {
            None
        }
    }
}

/// Moving mods never adds, loses or duplicates one: after enabling or
/// disabling a group, the two lists together hold exactly the ids they held
/// before, and reordering a list keeps its ids.
pub proof fn lemma_moves_keep_every_mod(
    disabled: Seq<ModId>,
    enabled: Seq<ModId>,
    group: Seq<ModId>,
    before: Option<ModId>,
)
    ensures
        (left_over(disabled, group) + spliced(
            enabled,
            insertion_point(enabled, before),
            picked(disabled, group),
        )).to_multiset() == (disabled + enabled).to_multiset(),
        (spliced(disabled, insertion_point(disabled, before), picked(enabled, group)) + left_over(
            enabled,
            group,
        )).to_multiset() == (disabled + enabled).to_multiset(),
        moved_before(enabled, group, before).to_multiset() == enabled.to_multiset(),
        moved_before(disabled, group, before).to_multiset() == disabled.to_multiset(),
{
    broadcast use vstd::seq_lib::group_to_multiset_ensures;

    lemma_split_multiset(disabled, group);
    lemma_split_multiset(enabled, group);
    lemma_insertion_point_in_range(enabled, before);
    lemma_insertion_point_in_range(disabled, before);
    lemma_spliced_multiset(enabled, insertion_point(enabled, before), picked(disabled, group));
    lemma_spliced_multiset(disabled, insertion_point(disabled, before), picked(enabled, group));
    let rest_e = left_over(enabled, group);
    let rest_d = left_over(disabled, group);
    lemma_insertion_point_in_range(rest_e, before);
    lemma_insertion_point_in_range(rest_d, before);
    lemma_spliced_multiset(rest_e, insertion_point(rest_e, before), picked(enabled, group));
    lemma_spliced_multiset(rest_d, insertion_point(rest_d, before), picked(disabled, group));
    vstd::seq_lib::lemma_multiset_commutative(disabled, enabled);
    vstd::seq_lib::lemma_multiset_commutative(
        left_over(disabled, group),
        spliced(enabled, insertion_point(enabled, before), picked(disabled, group)),
    );
    vstd::seq_lib::lemma_multiset_commutative(
        spliced(disabled, insertion_point(disabled, before), picked(enabled, group)),
        left_over(enabled, group),
    );
}

/// An insertion point lies within the list.
proof fn lemma_insertion_point_in_range(ids: Seq<ModId>, before: Option<ModId>)
    ensures
        0 <= insertion_point(ids, before) <= ids.len(),
{
    if let Some(b) = before {
        lemma_first_index(ids, b);
    }
}

/// The lists rebuilt from an active order account for every mod: each mod
/// is active or disabled and never both, every entry names a mod, no mod
/// is disabled twice, and no mod is active twice when the order names no
/// package twice.
pub proof fn lemma_rebuilt_lists_partition_mods(pkgs: Seq<Seq<char>>, wanted: Seq<Seq<char>>)
    requires
        pkgs.len() <= usize::MAX,
    ensures
        ({
            let enabled = matched_mod_ids(pkgs, wanted);
            let disabled = ids_not_in(pkgs.len(), enabled);
            &&& forall|i: int| 0 <= i < enabled.len() ==> (#[trigger] enabled[i]).0 < pkgs.len()
            &&& forall|i: int| 0 <= i < disabled.len() ==> (#[trigger] disabled[i]).0 < pkgs.len()
            &&& forall|k: usize|
                k < pkgs.len() ==> #[trigger] enabled.contains(ModId(k)) || disabled.contains(ModId(k))
            &&& forall|m: ModId| !(#[trigger] enabled.contains(m) && disabled.contains(m))
            &&& disabled.no_duplicates()
            &&& wanted.no_duplicates() ==> enabled.no_duplicates()
        }),
{
    let enabled = matched_mod_ids(pkgs, wanted);
    let n = pkgs.len();
    let all = all_ids(n);
    let keep = |m: ModId| !enabled.contains(m);
    let disabled = ids_not_in(n, enabled);
    lemma_matched_ids(pkgs, wanted);
    assert forall|i: int| 0 <= i < disabled.len() implies (#[trigger] disabled[i]).0 < n && keep(disabled[i]) by {
        all.lemma_filter_pred(keep, i);
        assert(disabled.contains(disabled[i]));
        all.lemma_filter_contains_rev(keep, disabled[i]);
        let j = choose|j: int| 0 <= j < all.len() && all[j] == disabled[i];
        assert(all[j].0 == j);
    }
    assert forall|k: usize| k < n implies #[trigger] enabled.contains(ModId(k)) || disabled.contains(ModId(k)) by {
        assert(all[k as int] == ModId(k));
        if !enabled.contains(ModId(k)) {
            all.lemma_filter_contains(keep, k as int);
        }
    }
    assert forall|m: ModId| !(#[trigger] enabled.contains(m) && disabled.contains(m)) by {
        if disabled.contains(m) {
            let i = choose|i: int| 0 <= i < disabled.len() && disabled[i] == m;
            assert(keep(disabled[i]));
        }
    }
    assert forall|a: int, b: int| 0 <= a < b < all.len() implies all[a] != all[b] by {
        assert(all[a].0 == a && all[b].0 == b);
    }
    lemma_filter_no_duplicates(all, keep);
}

/// Filtering keeps a list free of repeats.
proof fn lemma_filter_no_duplicates(s: Seq<ModId>, keep: spec_fn(ModId) -> bool)
    requires
        forall|a: int, b: int| 0 <= a < b < s.len() ==> s[a] != s[b],
    ensures
        s.filter(keep).no_duplicates(),
    decreases s.len(),
{
    reveal(Seq::filter);
    if s.len() > 0 {
        let init = s.drop_last();
        let x = s.last();
        lemma_filter_no_duplicates(init, keep);
        assert(init.push(x) == s);
        init.lemma_filter_push(x, keep);
        let f = init.filter(keep);
        if keep(x) {
            assert forall|a: int, b: int| 0 <= a < b < f.push(x).len() implies f.push(x)[a] != f.push(x)[b] by {
                if b == f.len() {
                    if f[a] == x {
                        assert(f.contains(x));
                        init.lemma_filter_contains_rev(keep, x);
                        let j = choose|j: int| 0 <= j < init.len() && init[j] == x;
                        assert(s[j] == s[s.len() - 1]);
                    }
                }
            }
        }
    }
}

/// Each id matched for an active order names a mod whose package the order
/// holds; distinct packages give distinct ids.
proof fn lemma_matched_ids(pkgs: Seq<Seq<char>>, wanted: Seq<Seq<char>>)
    requires
        pkgs.len() <= usize::MAX,
    ensures
        ({
            let e = matched_mod_ids(pkgs, wanted);
            &&& forall|i: int| 0 <= i < e.len() ==> (#[trigger] e[i]).0 < pkgs.len()
            &&& forall|i: int| 0 <= i < e.len() ==> wanted.contains(pkgs[(#[trigger] e[i]).0 as int])
            &&& wanted.no_duplicates() ==> e.no_duplicates()
        }),
    decreases wanted.len(),
{
    if wanted.len() > 0 {
        let init = wanted.drop_last();
        let w = wanted.last();
        lemma_matched_ids(pkgs, init);
        let before = matched_mod_ids(pkgs, init);
        assert forall|i: int| 0 <= i < before.len() implies wanted.contains(pkgs[(#[trigger] before[i]).0 as int]) by {
            let j = choose|j: int| 0 <= j < init.len() && init[j] == pkgs[before[i].0 as int];
            assert(wanted[j] == init[j]);
        }
        if pkgs.contains(w) {
            lemma_first_index(pkgs, w);
            let id = ModId(first_index(pkgs, w) as usize);
            let e = before.push(id);
            assert(wanted[wanted.len() - 1] == w);
            assert forall|i: int| 0 <= i < e.len() implies wanted.contains(pkgs[(#[trigger] e[i]).0 as int]) by {
                if i < before.len() {
                    assert(e[i] == before[i]);
                }
            }
            if wanted.no_duplicates() {
                assert(init.no_duplicates()) by {
                    assert forall|a: int, b: int| 0 <= a < init.len() && 0 <= b < init.len() && a != b implies init[a] != init[b] by {
                        assert(init[a] == wanted[a] && init[b] == wanted[b]);
                    }
                }
                assert forall|a: int, b: int| 0 <= a < e.len() && 0 <= b < e.len() && a != b implies e[a] != e[b] by {
                    if b == before.len() && a < before.len() {
                        let j = choose|j: int| 0 <= j < init.len() && init[j] == pkgs[before[a].0 as int];
                        if e[a] == e[b] {
                            assert(pkgs[before[a].0 as int] == w);
                            assert(wanted[j] == wanted[wanted.len() - 1]);
                        }
                    } else if a == before.len() && b < before.len() {
                        let j = choose|j: int| 0 <= j < init.len() && init[j] == pkgs[before[b].0 as int];
                        if e[a] == e[b] {
                            assert(pkgs[before[b].0 as int] == w);
                            assert(wanted[j] == wanted[wanted.len() - 1]);
                        }
                    } else if a < before.len() && b < before.len() {
                        assert(e[a] == before[a] && e[b] == before[b]);
                    }
                }
            }
        } else if wanted.no_duplicates() {
            assert(init.no_duplicates()) by {
                assert forall|a: int, b: int| 0 <= a < init.len() && 0 <= b < init.len() && a != b implies init[a] != init[b] by {
                    assert(init[a] == wanted[a] && init[b] == wanted[b]);
                }
            }
        }
    }
}

/// The package identifiers of a sequence of mods.
pub open spec fn mod_packages(mods: Seq<RimworldMod>) -> Seq<Seq<char>> {
    mods.map_values(|m: RimworldMod| m.package_id@)
}

/// The views of a sequence of package identifiers.
pub open spec fn package_views(ps: Seq<PackageId>) -> Seq<Seq<char>> {
    ps.map_values(|p: PackageId| p@)
}

/// The packages of the listed mods, skipping ids outside `mods`.
pub open spec fn listed_packages(mods: Seq<RimworldMod>, ids: Seq<ModId>) -> Seq<Seq<char>>
    decreases ids.len(),
{
    if ids.len() == 0 {
        Seq::empty()
    } else {
        let earlier = listed_packages(mods, ids.drop_last());
        let id = ids.last().0;
        if id < mods.len() {
            earlier.push(mods[id as int].package_id@)
        } else {
            earlier
        }
    }
}

/// For each wanted package that some mod has, the first such mod.
pub open spec fn matched_mod_ids(pkgs: Seq<Seq<char>>, wanted: Seq<Seq<char>>) -> Seq<ModId>
    decreases wanted.len(),
{
    if wanted.len() == 0 {
        Seq::empty()
    } else {
        let earlier = matched_mod_ids(pkgs, wanted.drop_last());
        if pkgs.contains(wanted.last()) {
            earlier.push(ModId(first_index(pkgs, wanted.last()) as usize))
        } else {
            earlier
        }
    }
}

/// The wanted packages that no mod has, in order.
pub open spec fn unmatched_packages(pkgs: Seq<Seq<char>>, wanted: Seq<Seq<char>>) -> Seq<Seq<char>>
    decreases wanted.len(),
{
    if wanted.len() == 0 {
        Seq::empty()
    } else {
        let earlier = unmatched_packages(pkgs, wanted.drop_last());
        if pkgs.contains(wanted.last()) {
            earlier
        } else {
            earlier.push(wanted.last())
        }
    }
}

/// The ids `0..n`.
pub open spec fn all_ids(n: nat) -> Seq<ModId> {
    Seq::new(n, |i: int| ModId(i as usize))
}

/// The ids `0..n` that `listed` does not hold, in order.
pub open spec fn ids_not_in(n: nat, listed: Seq<ModId>) -> Seq<ModId> {
    all_ids(n).filter(|m: ModId| !listed.contains(m))
}

/// The position of the first mod with the given package identifier, or
/// the number of mods.
pub fn position_of_package(mods: &[RimworldMod], package_id: &PackageId) -> (r: usize)
    ensures
        r == first_index(mod_packages(mods@), package_id@),
{
    let ghost pkgs = mod_packages(mods@);
    let mut i: usize = 0;
    while i < mods.len() && !mods[i].package_id.same_as(package_id)
        invariant
            i <= mods@.len(),
            pkgs == mod_packages(mods@),
            forall|j: int| 0 <= j < i ==> pkgs[j] != package_id@,
        decreases mods@.len() - i,
    {
        i = i + 1;
    }
    proof {
        lemma_first_index_at(pkgs, package_id@, i as int);
    }
    i
}

// ---------------------------------------------------------------------------
// Game versions
// ---------------------------------------------------------------------------

/// The major and minor numbers of a version text such as "1.6" or
/// "1.6.4211 rev1": the number before the first dot, and the first word
/// after it up to the next dot.
pub open spec fn major_minor(version: Seq<char>) -> Option<(u32, u32)> {
    let t = trim(version);
    let dot = first_index(t, '.');
    if dot < t.len() {
        let rest = t.subrange(dot + 1, t.len() as int);
        let minor_part = rest.subrange(0, first_index(rest, '.'));
        match (parse_u32_spec(t.subrange(0, dot)), parse_u32_spec(first_word(minor_part))) {
            (Some(major), Some(minor)) => Some((major, minor)),
            _ => None,
        }
    } else {
        None
    }
}

/// Two version texts name the same major.minor release.
pub open spec fn compatible(supported: Seq<char>, game: Seq<char>) -> bool {
    major_minor(supported) is Some && major_minor(supported) == major_minor(game)
}

pub fn major_minor_version(version: &str) -> (r: Option<(u32, u32)>)
    ensures
        r == major_minor(version@),
{
    let chars = chars_of(version);
    let t = trimmed(chars.as_slice());
    let dot = position_of_char(t.as_slice(), '.');
    proof {
        lemma_first_index(t@, '.');
    }
    if dot >= t.len() {
        return None;
    }
    let major_part = slice_range(t.as_slice(), 0, dot);
    let rest = slice_range(t.as_slice(), dot + 1, t.len());
    let next_dot = position_of_char(rest.as_slice(), '.');
    proof {
        lemma_first_index(rest@, '.');
    }
    let minor_part = slice_range(rest.as_slice(), 0, next_dot);
    let minor_word = first_word_of(minor_part.as_slice());
    match (parse_u32(major_part.as_slice()), parse_u32(minor_word.as_slice())) {
        (Some(major), Some(minor)) => Some((major, minor)),
        _ => None,
    }
}

pub fn versions_are_compatible(supported_version: &str, game_version: &str) -> (r: bool)
    ensures
        r == compatible(supported_version@, game_version@),
{
    match (major_minor_version(supported_version), major_minor_version(game_version)) {
        (Some(supported), Some(game)) => supported.0 == game.0 && supported.1 == game.1,
        _ => false,
    }
}

/// The text "major.minor" of a version.
pub open spec fn major_minor_text(version: Seq<char>) -> Option<Seq<char>> {
    match major_minor(version) {
        Some((major, minor)) => Some(decimal(major as nat) + seq!['.'] + decimal(minor as nat)),
        None => None,
    }
}

pub fn major_minor_version_text(version: &str) -> (r: Option<String>)
    ensures
        r matches Some(t) ==> major_minor_text(version@) == Some(t@),
        r is None <==> major_minor_text(version@) is None,
{
    let (major, minor) = match major_minor_version(version) {
        Some(v) => v,
        None => return None,
    };
    let mut text = String::new();
    push_decimal(&mut text, major as u64);
    crate::text::push_char(&mut text, '.');
    push_decimal(&mut text, minor as u64);
    Some(text)
}

/// How a mod's version data relates to the running game version.
#[derive(Debug, Clone, Copy, PartialEq, Eq, Structural)]
pub enum VersionSupport {
    /// Listed in the mod's `supportedVersions`
    Official,
    /// Not listed, but reported working by the No Version Warning mod
    Community,
    /// Neither listed nor reported for this game version
    Unsupported,
}

/// Some listed version is compatible with the game version.
pub open spec fn lists_compatible(versions: Seq<Seq<char>>, game: Seq<char>) -> bool {
    exists|i: int| 0 <= i < versions.len() && compatible(#[trigger] versions[i], game)
}

pub open spec fn support_of(
    supported: Seq<Seq<char>>,
    community: Seq<Seq<char>>,
    game: Seq<char>,
) -> VersionSupport {
    if lists_compatible(supported, game) {
        VersionSupport::Official
    } else if lists_compatible(community, game) {
        VersionSupport::Community
    } else {
        VersionSupport::Unsupported
    }
}

/// Whether some listed version is compatible with `game_version`.
pub fn any_compatible(versions: &[String], game_version: &str) -> (r: bool)
    ensures
        r == lists_compatible(string_views(versions@), game_version@),
{
    let ghost views = string_views(versions@);
    let mut i: usize = 0;
    while i < versions.len()
        invariant
            i <= versions@.len(),
            views == string_views(versions@),
            forall|j: int| 0 <= j < i ==> !compatible(#[trigger] views[j], game_version@),
        decreases versions@.len() - i,
    {
        if versions_are_compatible(versions[i].as_str(), game_version) {
            assert(compatible(views[i as int], game_version@));
            return true;
        }
        i = i + 1;
    }
    false
}

pub fn version_support(
    supported_versions: &[String],
    community_supported_versions: &[String],
    game_version: &str,
) -> (r: VersionSupport)
    ensures
        r == support_of(
            string_views(supported_versions@),
            string_views(community_supported_versions@),
            game_version@,
        ),
{
    if any_compatible(supported_versions, game_version) {
        return VersionSupport::Official;
    }
    if any_compatible(community_supported_versions, game_version) {
        return VersionSupport::Community;
    }
    VersionSupport::Unsupported
}

/// `a` is no newer than `b`, comparing major then minor numbers.
pub open spec fn version_le(a: (u32, u32), b: (u32, u32)) -> bool {
    a.0 < b.0 || (a.0 == b.0 && a.1 <= b.1)
}

/// The position of the newest version in `versions` (the last one among
/// equally new ones), skipping texts that are not versions.
pub open spec fn newest_index(versions: Seq<Seq<char>>) -> Option<int>
    decreases versions.len(),
{
    if versions.len() == 0 {
        None
    } else {
        let earlier = newest_index(versions.drop_last());
        let last = versions.len() - 1;
        match major_minor(versions.last()) {
            None => earlier,
            Some(v) => match earlier {
                Some(j) if !version_le(major_minor(versions[j]).unwrap(), v) => earlier,
                _ => Some(last),
            },
        }
    }
}

pub proof fn lemma_newest_index(versions: Seq<Seq<char>>)
    ensures
        newest_index(versions) matches Some(j) ==> 0 <= j < versions.len() && major_minor(
            versions[j],
        ) is Some,
    decreases versions.len(),
{
    if versions.len() > 0 {
        lemma_newest_index(versions.drop_last());
    }
}

/// Returns the newest listed version, compared by major.minor numbers.
pub fn highest_supported_version(supported_versions: &[String]) -> (r: Option<&str>)
    ensures
        r is None <==> newest_index(string_views(supported_versions@)) is None,
        r matches Some(t) ==> newest_index(string_views(supported_versions@)) matches Some(j)
            && t@ == supported_versions@[j]@,
{
    let ghost views = string_views(supported_versions@);
    let mut best: Option<usize> = None;
    let mut best_version: (u32, u32) = (0, 0);
    let mut i: usize = 0;
    while i < supported_versions.len()
        invariant
            i <= supported_versions@.len(),
            views == string_views(supported_versions@),
            best == (match newest_index(views.take(i as int)) {
                Some(j) => Some(j as usize),
                None => None::<usize>,
            }),
            best matches Some(j) ==> j < i && major_minor(views[j as int]) == Some(best_version),
        decreases supported_versions@.len() - i,
    {
        proof {
            assert(views.take(i + 1).drop_last() == views.take(i as int));
            assert(views.take(i + 1).last() == views[i as int]);
            lemma_newest_index(views.take(i as int));
            if let Some(j) = best {
                assert(views.take(i as int)[j as int] == views[j as int]);
            }
        }
        match major_minor_version(supported_versions[i].as_str()) {
            Some(v) => {
                let replace = match best {
                    None => true,
                    Some(_) => best_version.0 < v.0 || (best_version.0 == v.0 && best_version.1
                        <= v.1),
                };
                if replace {
                    best = Some(i);
                    best_version = v;
                }
            },
            None => {},
        }
        i = i + 1;
    }
    assert(views.take(views.len() as int) == views);
    proof {
        lemma_newest_index(views);
    }
    match best {
        Some(j) => Some(supported_versions[j].as_str()),
        None => None,
    }
}

} // verus!
