//! Editing the load order: selection in the two mod lists, moving mods
//! between and within them, and undo/redo of load-order changes.
use vstd::prelude::*;

use std::collections::VecDeque;

use crate::id_lists::{contains_id, copy_ids, first_index, lemma_first_index, position_of, same_ids};
use crate::models::{
    listed_packages, matched_mod_ids, mod_packages, package_views, ModCollection,
    ModCollectionError, ModId, PackageId,
};
use crate::mod_sorter::{
    active_package, active_packages, blocked_packages, first_repeat, sort_mods, sorted_ids,
    sorted_positions, valid_active, SortError,
};
use crate::text::{joined, push_str, string_views};

verus! {

/// The two mod lists shown side by side.
#[derive(Debug, Clone, Copy, PartialEq, Eq, Structural)]
pub enum ModListKind {
    Enabled,
    Disabled,
}

impl ModListKind {
    pub fn id(self) -> (r: &'static str)
        ensures
            r@ == (match self {
                ModListKind::Enabled => "active_mods"@,
                ModListKind::Disabled => "disabled_mods"@,
            }),
    {
        match self {
            ModListKind::Enabled => "active_mods",
            ModListKind::Disabled => "disabled_mods",
        }
    }

    pub fn heading(self) -> (r: &'static str)
        ensures
            r@ == (match self {
                ModListKind::Enabled => "Active mods"@,
                ModListKind::Disabled => "Disabled mods"@,
            }),
    {
        match self {
            ModListKind::Enabled => "Active mods",
            ModListKind::Disabled => "Disabled mods",
        }
    }

    pub fn other(self) -> (r: Self)
        ensures
            r != self,
    {
        match self {
            ModListKind::Enabled => ModListKind::Disabled,
            ModListKind::Disabled => ModListKind::Enabled,
        }
    }
}

/// How a click changes the selection.
#[derive(Debug, Clone, PartialEq, Eq)]
pub enum SelectionMode {
    Replace,
    Toggle,
    Range(Vec<ModId>),
}

/// A request from one of the mod lists.
#[derive(Debug, Clone)]
pub enum ModListAction {
    Select { mod_id: ModId, kind: ModListKind, mode: SelectionMode },
    Transfer {
        mod_ids: Vec<ModId>,
        from: ModListKind,
        to: ModListKind,
        before_mod_id: Option<ModId>,
    },
    Reorder { mod_ids: Vec<ModId>, kind: ModListKind, before_mod_id: Option<ModId> },
    Delete { mod_ids: Vec<ModId> },
}

/// The mods dragged out of one list.
#[derive(Debug, Clone)]
pub struct DraggedMods {
    pub mod_ids: Vec<ModId>,
    pub from: ModListKind,
}

/// The action for dragged mods dropped on list `to`, in front of
/// `before_mod_id` (or at the end): a reorder within the same list, a
/// transfer otherwise.
pub fn action_for_drop(dragged_mods: &DraggedMods, to: ModListKind, before_mod_id: Option<ModId>) -> (r:
    ModListAction)
    ensures
        dragged_mods.from == to ==> (r matches ModListAction::Reorder {
            mod_ids,
            kind,
            before_mod_id: b,
        } && mod_ids@ == dragged_mods.mod_ids@ && kind == to && b == before_mod_id),
        dragged_mods.from != to ==> (r matches ModListAction::Transfer {
            mod_ids,
            from,
            to: t,
            before_mod_id: b,
        } && mod_ids@ == dragged_mods.mod_ids@ && from == dragged_mods.from && t == to && b
            == before_mod_id),
{
    if dragged_mods.from == to {
        ModListAction::Reorder { mod_ids: dragged_mods.mod_ids.clone(), kind: to, before_mod_id }
    } else {
        ModListAction::Transfer {
            mod_ids: dragged_mods.mod_ids.clone(),
            from: dragged_mods.from,
            to,
            before_mod_id,
        }
    }
}

/// The visible mods from the anchor to the clicked mod, both included, in
/// list order; none when either is not visible.
pub fn selection_range(visible_mod_ids: &[ModId], anchor_mod_id: Option<ModId>, clicked_mod_id: ModId) -> (r:
    Option<Vec<ModId>>)
    ensures
        ({
            let v = visible_mod_ids@;
            match anchor_mod_id {
                Some(a) if v.contains(a) && v.contains(clicked_mod_id) => {
                    let i = first_index(v, a);
                    let j = first_index(v, clicked_mod_id);
                    let lo = if i <= j {
                        i
                    } else {
                        j
                    };
                    let hi = if i <= j {
                        j
                    } else {
                        i
                    };
                    r matches Some(ids) && ids@ == v.subrange(lo, hi + 1)
                },
                _ => r is None,
            }
        }),
{
    let anchor = match anchor_mod_id {
        Some(a) => a,
        None => return None,
    };
    let anchor_position = crate::id_lists::position_of(visible_mod_ids, anchor);
    let clicked_position = crate::id_lists::position_of(visible_mod_ids, clicked_mod_id);
    proof {
        lemma_first_index(visible_mod_ids@, anchor);
        lemma_first_index(visible_mod_ids@, clicked_mod_id);
    }
    if anchor_position >= visible_mod_ids.len() || clicked_position >= visible_mod_ids.len() {
        return None;
    }
    let first = if anchor_position <= clicked_position {
        anchor_position
    } else {
        clicked_position
    };
    let last = if anchor_position <= clicked_position {
        clicked_position
    } else {
        anchor_position
    };
    let mut ids: Vec<ModId> = Vec::new();
    let mut i = first;
    while i <= last
        invariant
            first <= i <= last + 1,
            last < visible_mod_ids@.len(),
            ids@ == visible_mod_ids@.subrange(first as int, i as int),
        decreases last + 1 - i,
    {
        ids.push(visible_mod_ids[i]);
        i = i + 1;
    }
    Some(ids)
}

// ---------------------------------------------------------------------------
// Selection
// ---------------------------------------------------------------------------

/// The selection in the mod lists.
#[derive(Debug)]
pub struct Selection {
    pub selected_mod_id: Option<ModId>,
    pub selected_mod_ids: Vec<ModId>,
    pub selection_anchor_id: Option<ModId>,
    pub selection_kind: Option<ModListKind>,
}

/// A selection as values: the focused mod, the selected group in order,
/// the range anchor, and the list the group belongs to.
pub type SelectionModel = (Option<ModId>, Seq<ModId>, Option<ModId>, Option<ModListKind>);

impl Selection {
    pub open spec fn model(&self) -> SelectionModel {
        (self.selected_mod_id, self.selected_mod_ids@, self.selection_anchor_id, self.selection_kind)
    }

    /// Nothing selected.
    pub fn new() -> (r: Self)
        ensures
            r.model() == empty_selection(),
    {
        Selection {
            selected_mod_id: None,
            selected_mod_ids: Vec::new(),
            selection_anchor_id: None,
            selection_kind: None,
        }
    }

    pub fn copy(&self) -> (r: Self)
        ensures
            r.model() == self.model(),
    {
        Selection {
            selected_mod_id: self.selected_mod_id,
            selected_mod_ids: copy_ids(self.selected_mod_ids.as_slice()),
            selection_anchor_id: self.selection_anchor_id,
            selection_kind: self.selection_kind,
        }
    }
}

/// No mod selected.
pub open spec fn empty_selection() -> SelectionModel {
    (None::<ModId>, Seq::<ModId>::empty(), None::<ModId>, None::<ModListKind>)
}

/// The group a click starts from: the current group when it is in the
/// clicked list, nothing otherwise.
pub open spec fn group_in(sel: SelectionModel, kind: ModListKind) -> Seq<ModId> {
    if sel.3 == Some(kind) {
        sel.1
    } else {
        Seq::empty()
    }
}

/// `ids` with `m` removed (its first occurrence) when present, added at the
/// end otherwise.
pub open spec fn toggled(ids: Seq<ModId>, m: ModId) -> Seq<ModId> {
    if ids.contains(m) {
        ids.remove(first_index(ids, m))
    } else {
        ids.push(m)
    }
}

/// The group after a click on `mod_id` in list `kind`.
pub open spec fn clicked_group(sel: SelectionModel, mod_id: ModId, kind: ModListKind, mode: SelectionMode) -> Seq<
    ModId,
> {
    match mode {
        SelectionMode::Replace => seq![mod_id],
        SelectionMode::Toggle => toggled(group_in(sel, kind), mod_id),
        SelectionMode::Range(ids) => ids@,
    }
}

/// The selection after a click on `mod_id` in list `kind`.
pub open spec fn clicked(sel: SelectionModel, mod_id: ModId, kind: ModListKind, mode: SelectionMode) -> SelectionModel {
    let ids = clicked_group(sel, mod_id, kind, mode);
    let anchor = match mode {
        SelectionMode::Range(_) => sel.2,
        _ => Some(mod_id),
    };
    let focused = if ids.contains(mod_id) {
        Some(mod_id)
    } else if ids.len() > 0 {
        Some(ids.last())
    } else {
        None
    };
    (focused, ids, anchor, if ids.len() == 0 {
        None
    } else {
        Some(kind)
    })
}

/// A Ctrl+click on `m` in list `kind` toggles `m` in the group of that
/// list: afterwards the group holds `m` exactly when it did not hold it
/// before, holds every other mod exactly when it held it before (a group
/// of the other list counts as empty), and still holds no mod twice. The
/// anchor moves to `m`, the focused mod is in the group, and an emptied
/// group leaves no focus and no list.
pub proof fn lemma_toggle_click(sel: SelectionModel, m: ModId, kind: ModListKind)
    requires
        sel.3 == Some(kind) ==> sel.1.no_duplicates(),
    ensures
        ({
            let before = if sel.3 == Some(kind) {
                sel.1
            } else {
                Seq::<ModId>::empty()
            };
            let after = clicked(sel, m, kind, SelectionMode::Toggle);
            &&& after.1.contains(m) <==> !before.contains(m)
            &&& forall|x: ModId| x != m ==> (after.1.contains(x) <==> before.contains(x))
            &&& after.1.no_duplicates()
            &&& after.2 == Some(m)
            &&& after.1.len() == 0 ==> after.0 is None && after.3 is None
            &&& after.1.len() > 0 ==> after.3 == Some(kind) && (after.0 matches Some(f) && after.1.contains(
                f,
            ))
        }),
{
    let before = if sel.3 == Some(kind) {
        sel.1
    } else {
        Seq::<ModId>::empty()
    };
    let g = group_in(sel, kind);
    assert(g == before);
    let after = clicked(sel, m, kind, SelectionMode::Toggle);
    if before.contains(m) {
        lemma_first_index(before, m);
        let i = first_index(before, m);
        let r = before.remove(i);
        assert(after.1 == r);
        assert(before[i] == m);
        assert forall|k: int| 0 <= k < r.len() implies r[k] != m by {
            if k < i {
                assert(r[k] == before[k]);
            } else {
                assert(r[k] == before[k + 1]);
                assert(k + 1 != i);
            }
        }
        assert forall|x: ModId| x != m implies (r.contains(x) <==> before.contains(x)) by {
            if before.contains(x) {
                let k = choose|k: int| 0 <= k < before.len() && before[k] == x;
                assert(k != i);
                if k < i {
                    assert(r[k] == x);
                } else {
                    assert(r[k - 1] == x);
                }
            }
            if r.contains(x) {
                let k = choose|k: int| 0 <= k < r.len() && r[k] == x;
                if k < i {
                    assert(before[k] == x);
                } else {
                    assert(before[k + 1] == x);
                }
            }
        }
        assert(r.no_duplicates()) by {
            assert forall|a: int, b: int| 0 <= a < r.len() && 0 <= b < r.len() && a != b implies r[a] != r[b] by {
                let a0 = if a < i { a } else { a + 1 };
                let b0 = if b < i { b } else { b + 1 };
                assert(r[a] == before[a0] && r[b] == before[b0]);
            }
        }
        if r.len() > 0 {
            assert(r.contains(r.last()));
        }
    } else {
        let r = before.push(m);
        assert(after.1 == r);
        assert(r[before.len() as int] == m);
        assert forall|x: ModId| x != m implies (r.contains(x) <==> before.contains(x)) by {
            if before.contains(x) {
                let k = choose|k: int| 0 <= k < before.len() && before[k] == x;
                assert(r[k] == x);
            }
            if r.contains(x) {
                let k = choose|k: int| 0 <= k < r.len() && r[k] == x;
                assert(k < before.len());
                assert(before[k] == x);
            }
        }
        assert(r.no_duplicates()) by {
            assert forall|a: int, b: int| 0 <= a < r.len() && 0 <= b < r.len() && a != b implies r[a] != r[b] by {
                if a < before.len() && b < before.len() {
                    assert(r[a] == before[a] && r[b] == before[b]);
                } else if a < before.len() {
                    assert(r[a] == before[a]);
                    assert(before.contains(before[a]));
                } else if b < before.len() {
                    assert(r[b] == before[b]);
                    assert(before.contains(before[b]));
                }
            }
        }
    }
}

/// The selection after a group of mods was moved into list `kind`: the
/// group is selected, keeping the focus and anchor when they are in it.
pub open spec fn grouped(sel: SelectionModel, ids: Seq<ModId>, kind: ModListKind) -> SelectionModel {
    let focused = if sel.0 matches Some(m) && ids.contains(m) {
        sel.0
    } else if ids.len() > 0 {
        Some(ids.last())
    } else {
        None
    };
    let anchor = if sel.2 matches Some(m) && ids.contains(m) {
        sel.2
    } else if ids.len() > 0 {
        Some(ids[0])
    } else {
        None
    };
    (focused, ids, anchor, Some(kind))
}

// ---------------------------------------------------------------------------
// Load-order history
// ---------------------------------------------------------------------------

/// How many load-order changes can be undone.
pub const LOAD_ORDER_HISTORY_LIMIT: usize = 100;

/// The lists and the selection at one moment.
#[derive(Debug)]
pub struct LoadOrderSnapshot {
    pub disabled_mod_ids: Vec<ModId>,
    pub enabled_mod_ids: Vec<ModId>,
    pub selection: Selection,
}

/// A snapshot as values: disabled list, active list and selection.
pub type SnapshotModel = (Seq<ModId>, Seq<ModId>, SelectionModel);

impl LoadOrderSnapshot {
    pub open spec fn model(&self) -> SnapshotModel {
        (self.disabled_mod_ids@, self.enabled_mod_ids@, self.selection.model())
    }
}

/// The undoable state: the current snapshot, the undo stack and the redo
/// stack (most recent last).
pub type HistoryModel = (SnapshotModel, Seq<SnapshotModel>, Seq<SnapshotModel>);

/// `h` with `s` added as the most recent entry, dropping the oldest entry
/// when the history is full.
pub open spec fn bounded_push(h: Seq<SnapshotModel>, s: SnapshotModel) -> Seq<SnapshotModel> {
    if h.len() >= LOAD_ORDER_HISTORY_LIMIT {
        h.drop_first().push(s)
    } else {
        h.push(s)
    }
}

/// Undo: the most recent undo entry becomes current, and the current state
/// goes onto the redo stack. Nothing happens without an undo entry.
pub open spec fn undo_step(m: HistoryModel) -> HistoryModel {
    if m.1.len() == 0 {
        m
    } else {
        (m.1.last(), m.1.drop_last(), bounded_push(m.2, m.0))
    }
}

/// Redo: the most recent redo entry becomes current, and the current state
/// goes onto the undo stack. Nothing happens without a redo entry.
pub open spec fn redo_step(m: HistoryModel) -> HistoryModel {
    if m.2.len() == 0 {
        m
    } else {
        (m.2.last(), bounded_push(m.1, m.0), m.2.drop_last())
    }
}

/// Recording a change from `previous`: when the lists differ from it, it
/// becomes undoable and the redo stack is cleared.
pub open spec fn record_step(m: HistoryModel, previous: SnapshotModel) -> HistoryModel {
    if previous.0 == m.0.0 && previous.1 == m.0.1 {
        m
    } else {
        (m.0, bounded_push(m.1, previous), Seq::empty())
    }
}

/// The history bound.
pub open spec fn within_limit(m: HistoryModel) -> bool {
    m.1.len() <= LOAD_ORDER_HISTORY_LIMIT && m.2.len() <= LOAD_ORDER_HISTORY_LIMIT
}

/// Undoing and then redoing returns to the state before the undo, with
/// the undo stack as it was (as every editor keeps it within the limit);
/// the redo stack comes back too while it is below the limit.
pub proof fn lemma_undo_then_redo(m: HistoryModel)
    requires
        m.1.len() > 0,
    ensures
        redo_step(undo_step(m)).0 == m.0,
        m.1.len() <= LOAD_ORDER_HISTORY_LIMIT ==> redo_step(undo_step(m)).1 == m.1,
        m.1.len() <= LOAD_ORDER_HISTORY_LIMIT && m.2.len() < LOAD_ORDER_HISTORY_LIMIT ==> redo_step(
            undo_step(m),
        ) == m,
{
    let u = undo_step(m);
    assert(u.2.len() > 0);
    if m.1.len() <= LOAD_ORDER_HISTORY_LIMIT {
        assert(m.1.drop_last().push(m.1.last()) == m.1);
    }
    if m.1.len() <= LOAD_ORDER_HISTORY_LIMIT && m.2.len() < LOAD_ORDER_HISTORY_LIMIT {
        assert(u.2.drop_last() == m.2);
        assert(m.1.drop_last().push(m.1.last()) == m.1);
    }
}

/// Redoing and then undoing returns to the state before the redo; the
/// stacks come back too while they are below the limit.
pub proof fn lemma_redo_then_undo(m: HistoryModel)
    requires
        m.2.len() > 0,
    ensures
        undo_step(redo_step(m)).0 == m.0,
        m.2.len() <= LOAD_ORDER_HISTORY_LIMIT && m.1.len() < LOAD_ORDER_HISTORY_LIMIT ==> undo_step(
            redo_step(m),
        ) == m,
{
    let r = redo_step(m);
    assert(r.1.len() > 0);
    if m.2.len() <= LOAD_ORDER_HISTORY_LIMIT && m.1.len() < LOAD_ORDER_HISTORY_LIMIT {
        assert(r.1.drop_last() == m.1);
        assert(m.2.drop_last().push(m.2.last()) == m.2);
    }
}

/// Undo without an undo entry, and redo without a redo entry, change
/// nothing.
pub proof fn lemma_steps_without_entries_change_nothing(m: HistoryModel)
    ensures
        m.1.len() == 0 ==> undo_step(m) == m,
        m.2.len() == 0 ==> redo_step(m) == m,
{
}

/// Undo, redo and recording keep both stacks within the limit.
pub proof fn lemma_history_stays_bounded(m: HistoryModel, previous: SnapshotModel)
    requires
        within_limit(m),
    ensures
        within_limit(undo_step(m)),
        within_limit(redo_step(m)),
        within_limit(record_step(m, previous)),
{
}

/// A change recorded after an undo makes the undone change unreachable:
/// the redo stack is empty.
pub proof fn lemma_new_change_clears_redo(m: HistoryModel, previous: SnapshotModel)
    requires
        previous.0 != m.0.0 || previous.1 != m.0.1,
    ensures
        record_step(m, previous).2 == Seq::<SnapshotModel>::empty(),
        record_step(m, previous).1.last() == previous,
{
}

/// Undoing right after a recorded change brings back the state it was
/// recorded from, and the state it replaced becomes redoable.
pub proof fn lemma_undo_reverts_recorded_change(m: HistoryModel, previous: SnapshotModel)
    requires
        previous.0 != m.0.0 || previous.1 != m.0.1,
    ensures
        undo_step(record_step(m, previous)).0 == previous,
        undo_step(record_step(m, previous)).2 == seq![m.0],
{
    let r = record_step(m, previous);
    assert(r.2 == Seq::<SnapshotModel>::empty());
    assert(Seq::<SnapshotModel>::empty().push(m.0) == seq![m.0]);
}

// ---------------------------------------------------------------------------
// The editor
// ---------------------------------------------------------------------------

/// The mod collection together with the selection, the undo and redo
/// stacks, and the last failed action's message.
#[derive(Debug)]
pub struct LoadOrderEditor {
    pub mods: ModCollection,
    pub selection: Selection,
    pub undo_history: VecDeque<LoadOrderSnapshot>,
    pub redo_history: VecDeque<LoadOrderSnapshot>,
    pub action_error: Option<String>,
}

pub open spec fn snapshot_models(h: Seq<LoadOrderSnapshot>) -> Seq<SnapshotModel> {
    h.map_values(|s: LoadOrderSnapshot| s.model())
}

impl LoadOrderEditor {
    /// The current lists and selection.
    pub open spec fn current(&self) -> SnapshotModel {
        (self.mods.disabled_ids@, self.mods.enabled_ids@, self.selection.model())
    }

    /// The current state with both stacks.
    pub open spec fn history(&self) -> HistoryModel {
        (
            self.current(),
            snapshot_models(self.undo_history@),
            snapshot_models(self.redo_history@),
        )
    }

    /// The editor's invariant: both stacks hold at most
    /// `LOAD_ORDER_HISTORY_LIMIT` entries.
    pub open spec fn wf(&self) -> bool {
        within_limit(self.history())
    }

    /// Everything besides the lists, the selection and the stacks is
    /// unchanged.
    pub open spec fn same_mods(&self, other: &Self) -> bool {
        &&& self.mods.all@ == other.mods.all@
        &&& self.mods.missing_active_package_ids@ == other.mods.missing_active_package_ids@
    }

    /// An editor for `mods`, with nothing selected and no history.
    pub fn new(mods: ModCollection) -> (r: Self)
        ensures
            r.mods == mods,
            r.selection.model() == empty_selection(),
            r.undo_history@.len() == 0,
            r.redo_history@.len() == 0,
            r.action_error is None,
            r.wf(),
    {
        LoadOrderEditor {
            mods,
            selection: Selection::new(),
            undo_history: VecDeque::new(),
            redo_history: VecDeque::new(),
            action_error: None,
        }
    }

    pub fn load_order_snapshot(&self) -> (r: LoadOrderSnapshot)
        ensures
            r.model() == self.current(),
    {
        LoadOrderSnapshot {
            disabled_mod_ids: copy_ids(self.mods.disabled_ids.as_slice()),
            enabled_mod_ids: copy_ids(self.mods.enabled_ids.as_slice()),
            selection: self.selection.copy(),
        }
    }

    fn restore_load_order_snapshot(&mut self, snapshot: LoadOrderSnapshot)
        ensures
            final(self).current() == snapshot.model(),
            final(self).same_mods(old(self)),
            final(self).undo_history@ == old(self).undo_history@,
            final(self).redo_history@ == old(self).redo_history@,
            final(self).action_error == old(self).action_error,
    {
        self.mods.restore_list_orders(snapshot.disabled_mod_ids, snapshot.enabled_mod_ids);
        self.selection = snapshot.selection;
    }

    fn push_history_entry(history: &mut VecDeque<LoadOrderSnapshot>, snapshot: LoadOrderSnapshot)
        ensures
            snapshot_models(final(history)@) == bounded_push(
                snapshot_models(old(history)@),
                snapshot.model(),
            ),
    {
        let ghost start = history@;
        if history.len() >= LOAD_ORDER_HISTORY_LIMIT {
            history.pop_front();
            assert(snapshot_models(history@) == snapshot_models(start).drop_first());
        }
        history.push_back(snapshot);
    }

    /// Makes the change from `previous` undoable when the lists changed.
    pub fn record_load_order_change(&mut self, previous: LoadOrderSnapshot)
        requires
            old(self).wf(),
        ensures
            final(self).wf(),
            final(self).history() == record_step(old(self).history(), previous.model()),
            final(self).same_mods(old(self)),
            final(self).action_error == old(self).action_error,
    {
        let order_changed = !same_ids(previous.disabled_mod_ids.as_slice(), self.mods.disabled_ids.as_slice())
            || !same_ids(previous.enabled_mod_ids.as_slice(), self.mods.enabled_ids.as_slice());
        if !order_changed {
            return ;
        }
        Self::push_history_entry(&mut self.undo_history, previous);
        self.redo_history.clear();
        assert(snapshot_models(self.redo_history@) == Seq::<SnapshotModel>::empty());
    }

    pub fn clear_load_order_history(&mut self)
        requires
            old(self).wf(),
        ensures
            final(self).wf(),
            final(self).current() == old(self).current(),
            final(self).same_mods(old(self)),
            final(self).undo_history@.len() == 0,
            final(self).redo_history@.len() == 0,
            final(self).action_error == old(self).action_error,
    {
        self.undo_history.clear();
        self.redo_history.clear();
    }

    /// Undoes the most recent load-order change; returns whether there was
    /// one. A successful undo clears the action error.
    pub fn undo_load_order_change(&mut self) -> (r: bool)
        requires
            old(self).wf(),
        ensures
            final(self).wf(),
            r == (old(self).undo_history@.len() > 0),
            final(self).history() == undo_step(old(self).history()),
            final(self).same_mods(old(self)),
            r ==> final(self).action_error is None,
            !r ==> final(self).action_error == old(self).action_error,
    {
        let previous = match self.undo_history.pop_back() {
            Some(previous) => previous,
            None => return false,
        };
        let current = self.load_order_snapshot();
        Self::push_history_entry(&mut self.redo_history, current);
        self.restore_load_order_snapshot(previous);
        self.action_error = None;
        proof {
            let h = old(self).undo_history@;
            assert(h.subrange(0, h.len() - 1) == h.drop_last());
        }
        true
    }

    /// Redoes the most recently undone change; returns whether there was
    /// one. A successful redo clears the action error.
    pub fn redo_load_order_change(&mut self) -> (r: bool)
        requires
            old(self).wf(),
        ensures
            final(self).wf(),
            r == (old(self).redo_history@.len() > 0),
            final(self).history() == redo_step(old(self).history()),
            final(self).same_mods(old(self)),
            r ==> final(self).action_error is None,
            !r ==> final(self).action_error == old(self).action_error,
    {
        let next = match self.redo_history.pop_back() {
            Some(next) => next,
            None => return false,
        };
        let current = self.load_order_snapshot();
        Self::push_history_entry(&mut self.undo_history, current);
        self.restore_load_order_snapshot(next);
        self.action_error = None;
        proof {
            let h = old(self).redo_history@;
            assert(h.subrange(0, h.len() - 1) == h.drop_last());
        }
        true
    }

    pub fn clear_mod_selection(&mut self)
        requires
            old(self).wf(),
        ensures
            final(self).wf(),
            final(self).selection.model() == empty_selection(),
            final(self).mods == old(self).mods,
            final(self).undo_history@ == old(self).undo_history@,
            final(self).redo_history@ == old(self).redo_history@,
            final(self).action_error == old(self).action_error,
    {
        self.selection = Selection::new();
    }

    fn select_mod_group(&mut self, mod_ids: Vec<ModId>, kind: ModListKind)
        ensures
            final(self).selection.model() == grouped(old(self).selection.model(), mod_ids@, kind),
            final(self).mods == old(self).mods,
            final(self).undo_history@ == old(self).undo_history@,
            final(self).redo_history@ == old(self).redo_history@,
            final(self).action_error == old(self).action_error,
    {
        let focused = match self.selection.selected_mod_id {
            Some(m) if contains_id(mod_ids.as_slice(), m) => Some(m),
            _ => if mod_ids.len() > 0 {
                Some(mod_ids[mod_ids.len() - 1])
            } else {
                None
            },
        };
        let anchor = match self.selection.selection_anchor_id {
            Some(m) if contains_id(mod_ids.as_slice(), m) => Some(m),
            _ => if mod_ids.len() > 0 {
                Some(mod_ids[0])
            } else {
                None
            },
        };
        self.selection = Selection {
            selected_mod_id: focused,
            selected_mod_ids: mod_ids,
            selection_anchor_id: anchor,
            selection_kind: Some(kind),
        };
    }

    /// The selection after a click.
    fn select(&mut self, mod_id: ModId, kind: ModListKind, mode: SelectionMode)
        ensures
            final(self).selection.model() == clicked(old(self).selection.model(), mod_id, kind, mode),
            final(self).mods == old(self).mods,
            final(self).undo_history@ == old(self).undo_history@,
            final(self).redo_history@ == old(self).redo_history@,
            final(self).action_error == old(self).action_error,
    {
        let ghost sel = self.selection.model();
        if self.selection.selection_kind != Some(kind) {
            self.selection.selected_mod_ids = Vec::new();
        }
        assert(self.selection.selected_mod_ids@ == group_in(sel, kind));
        match mode {
            SelectionMode::Replace => {
                let mut ids: Vec<ModId> = Vec::new();
                ids.push(mod_id);
                self.selection.selected_mod_ids = ids;
                self.selection.selection_anchor_id = Some(mod_id);
            },
            SelectionMode::Toggle => {
                let position = position_of(self.selection.selected_mod_ids.as_slice(), mod_id);
                proof {
                    lemma_first_index(self.selection.selected_mod_ids@, mod_id);
                }
                if position < self.selection.selected_mod_ids.len() {
                    self.selection.selected_mod_ids.remove(position);
                } else {
                    self.selection.selected_mod_ids.push(mod_id);
                }
                self.selection.selection_anchor_id = Some(mod_id);
            },
            SelectionMode::Range(mod_ids) => {
                self.selection.selected_mod_ids = mod_ids;
            },
        }
        let ids_len = self.selection.selected_mod_ids.len();
        self.selection.selection_kind = if ids_len == 0 {
            None
        } else {
            Some(kind)
        };
        self.selection.selected_mod_id = if contains_id(
            self.selection.selected_mod_ids.as_slice(),
            mod_id,
        ) {
            Some(mod_id)
        } else if ids_len > 0 {
            Some(self.selection.selected_mod_ids[ids_len - 1])
        } else {
            None
        };
    }

    fn report_action_error(&mut self, prefix: &str, error: &ModCollectionError)
        ensures
            final(self).action_error matches Some(m) && m@ == prefix@ + error.message_text(),
            final(self).mods == old(self).mods,
            final(self).selection == old(self).selection,
            final(self).undo_history@ == old(self).undo_history@,
            final(self).redo_history@ == old(self).redo_history@,
    {
        let mut message = String::new();
        push_str(&mut message, prefix);
        let details = error.message();
        push_str(&mut message, details.as_str());
        self.action_error = Some(message);
    }

    /// Applies a request from a mod list. A delete request is handed back
    /// for confirmation; everything else is done here.
    pub fn apply_mod_list_action(&mut self, action: ModListAction) -> (r: Option<Vec<ModId>>)
        requires
            old(self).wf(),
        ensures
            final(self).wf(),
            final(self).same_mods(old(self)),
            match action {
                ModListAction::Select { mod_id, kind, mode } => {
                    &&& r is None
                    &&& final(self).selection.model() == clicked(
                        old(self).selection.model(),
                        mod_id,
                        kind,
                        mode,
                    )
                    &&& final(self).mods.disabled_ids@ == old(self).mods.disabled_ids@
                    &&& final(self).mods.enabled_ids@ == old(self).mods.enabled_ids@
                    &&& final(self).undo_history@ == old(self).undo_history@
                    &&& final(self).redo_history@ == old(self).redo_history@
                    &&& final(self).action_error == old(self).action_error
                },
                ModListAction::Transfer { mod_ids, from, to, before_mod_id } => {
                    let valid = (from == ModListKind::Disabled && to == ModListKind::Enabled) || (
                    from == ModListKind::Enabled && to == ModListKind::Disabled);
                    let source = if from == ModListKind::Disabled {
                        old(self).mods.disabled_ids@
                    } else {
                        old(self).mods.enabled_ids@
                    };
                    &&& r is None
                    &&& !valid ==> final(self).history() == old(self).history()
                        && final(self).action_error == old(self).action_error
                    &&& valid && crate::id_lists::first_missing(mod_ids@, source) is None ==> {
                        &&& (final(self).mods.disabled_ids@, final(self).mods.enabled_ids@)
                            == transferred(
                            old(self).mods.disabled_ids@,
                            old(self).mods.enabled_ids@,
                            mod_ids@,
                            from,
                            before_mod_id,
                        )
                        &&& final(self).action_error is None
                        &&& final(self).selection.model() == grouped(
                            old(self).selection.model(),
                            mod_ids@,
                            to,
                        )
                        &&& (snapshot_models(final(self).undo_history@), snapshot_models(
                            final(self).redo_history@,
                        )) == ({
                            let recorded = record_step(
                                (
                                    final(self).current(),
                                    snapshot_models(old(self).undo_history@),
                                    snapshot_models(old(self).redo_history@),
                                ),
                                old(self).current(),
                            );
                            (recorded.1, recorded.2)
                        })
                    }
                    &&& valid ==> (crate::id_lists::first_missing(mod_ids@, source) matches Some(m)
                        ==> {
                        &&& final(self).history() == old(self).history()
                        &&& final(self).action_error matches Some(message) && message@ == (if from
                            == ModListKind::Disabled {
                            "Could not update mod list: "@ + ModCollectionError::NotDisabled(
                                m,
                            ).message_text()
                        } else {
                            "Could not update mod list: "@ + ModCollectionError::NotActive(
                                m,
                            ).message_text()
                        })
                    })
                },
                ModListAction::Reorder { mod_ids, kind, before_mod_id } => {
                    let list = if kind == ModListKind::Disabled {
                        old(self).mods.disabled_ids@
                    } else {
                        old(self).mods.enabled_ids@
                    };
                    &&& r is None
                    &&& crate::id_lists::first_missing(mod_ids@, list) is None ==> {
                        &&& (if kind == ModListKind::Disabled {
                            final(self).mods.disabled_ids@ == reordered(list, mod_ids@, before_mod_id)
                                && final(self).mods.enabled_ids@ == old(self).mods.enabled_ids@
                        } else {
                            final(self).mods.enabled_ids@ == reordered(list, mod_ids@, before_mod_id)
                                && final(self).mods.disabled_ids@ == old(self).mods.disabled_ids@
                        })
                        &&& final(self).action_error is None
                        &&& final(self).selection.model() == grouped(
                            old(self).selection.model(),
                            mod_ids@,
                            kind,
                        )
                        &&& (snapshot_models(final(self).undo_history@), snapshot_models(
                            final(self).redo_history@,
                        )) == ({
                            let recorded = record_step(
                                (
                                    final(self).current(),
                                    snapshot_models(old(self).undo_history@),
                                    snapshot_models(old(self).redo_history@),
                                ),
                                old(self).current(),
                            );
                            (recorded.1, recorded.2)
                        })
                    }
                    &&& crate::id_lists::first_missing(mod_ids@, list) matches Some(m) ==> {
                        &&& final(self).history() == old(self).history()
                        &&& final(self).action_error matches Some(message) && message@ == (if kind
                            == ModListKind::Disabled {
                            "Could not reorder mod: "@ + ModCollectionError::NotDisabled(
                                m,
                            ).message_text()
                        } else {
                            "Could not reorder mod: "@ + ModCollectionError::NotActive(
                                m,
                            ).message_text()
                        })
                    }
                },
                ModListAction::Delete { mod_ids } => {
                    &&& r matches Some(ids) && ids@ == mod_ids@
                    &&& final(self).history() == old(self).history()
                    &&& final(self).action_error == old(self).action_error
                },
            },
    {
        match action {
            ModListAction::Select { mod_id, kind, mode } => {
                self.select(mod_id, kind, mode);
                None
            },
            ModListAction::Transfer { mod_ids, from, to, before_mod_id } => {
                let previous = self.load_order_snapshot();
                let result = match (from, to) {
                    (ModListKind::Disabled, ModListKind::Enabled) => {
                        self.mods.enable_many(mod_ids.as_slice(), before_mod_id)
                    },
                    (ModListKind::Enabled, ModListKind::Disabled) => {
                        self.mods.disable_many(mod_ids.as_slice(), before_mod_id)
                    },
                    _ => return None,
                };
                match result {
                    Ok(()) => {
                        self.action_error = None;
                        self.select_mod_group(mod_ids, to);
                        self.record_load_order_change(previous);
                    },
                    Err(error) => {
                        self.report_action_error("Could not update mod list: ", &error);
                    },
                }
                None
            },
            ModListAction::Reorder { mod_ids, kind, before_mod_id } => {
                let previous = self.load_order_snapshot();
                let result = match kind {
                    ModListKind::Enabled => self.mods.reorder_enabled_many(
                        mod_ids.as_slice(),
                        before_mod_id,
                    ),
                    ModListKind::Disabled => self.mods.reorder_disabled_many(
                        mod_ids.as_slice(),
                        before_mod_id,
                    ),
                };
                match result {
                    Ok(()) => {
                        self.action_error = None;
                        self.select_mod_group(mod_ids, kind);
                        self.record_load_order_change(previous);
                    },
                    Err(error) => {
                        self.report_action_error("Could not reorder mod: ", &error);
                    },
                }
                None
            },
            ModListAction::Delete { mod_ids } => Some(mod_ids),
        }
    }
}

/// The disabled and active lists after the mods of `moved` go from the
/// `from` list to the other one, in front of `before` there (or to its
/// end), keeping their order in the `from` list.
pub open spec fn transferred(
    disabled: Seq<ModId>,
    enabled: Seq<ModId>,
    moved: Seq<ModId>,
    from: ModListKind,
    before: Option<ModId>,
) -> (Seq<ModId>, Seq<ModId>) {
    if from == ModListKind::Disabled {
        (
            crate::id_lists::left_over(disabled, moved),
            crate::id_lists::spliced(
                enabled,
                crate::id_lists::insertion_point(enabled, before),
                crate::id_lists::picked(disabled, moved),
            ),
        )
    } else {
        (
            crate::id_lists::spliced(
                disabled,
                crate::id_lists::insertion_point(disabled, before),
                crate::id_lists::picked(enabled, moved),
            ),
            crate::id_lists::left_over(enabled, moved),
        )
    }
}

/// `list` with the mods of `moved` put in front of `before` (or at the
/// end), in their list order; unchanged when `before` is one of them.
pub open spec fn reordered(list: Seq<ModId>, moved: Seq<ModId>, before: Option<ModId>) -> Seq<ModId> {
    if before matches Some(b) && moved.contains(b) {
        list
    } else {
        crate::id_lists::moved_before(list, moved, before)
    }
}

/// Why sorting the active mods fails, as reported to the user.
pub open spec fn sort_failure(all: Seq<crate::models::RimworldMod>, e: Seq<ModId>) -> Seq<char> {
    "Could not sort active mods: "@ + match first_repeat(active_packages(all, e)) {
        Some(k) => "duplicate active package ID: "@ + active_package(all, e, k),
        None => "dependency cycle involving: "@ + joined(blocked_packages(all, e), ", "@),
    }
}

/// Whether the active mods can be sorted: no package is active twice and
/// the load rules among them have no cycle.
pub open spec fn sortable(all: Seq<crate::models::RimworldMod>, e: Seq<ModId>) -> bool {
    first_repeat(active_packages(all, e)) is None && sorted_positions(all, e).len() == e.len()
}

/// The package of the mod with id `id`, if there is one.
pub open spec fn package_of(all: Seq<crate::models::RimworldMod>, id: Option<ModId>) -> Option<Seq<char>> {
    match id {
        Some(m) => if m.0 < all.len() {
            Some(all[m.0 as int].package_id@)
        } else {
            None
        },
        None => None,
    }
}

/// The first mod of `pkgs` with package `p`, if some mod has it.
pub open spec fn find_package(pkgs: Seq<Seq<char>>, p: Option<Seq<char>>) -> Option<ModId> {
    match p {
        Some(q) => if pkgs.contains(q) {
            Some(ModId(first_index(pkgs, q) as usize))
        } else {
            None
        },
        None => None,
    }
}

/// The selection after the mods were reloaded from `old_all` to `new_all`:
/// the selected mods, the focused mod and the anchor are found again by
/// their packages. The focus falls back to the last selected mod; the
/// anchor is kept only when it is still selected; nothing is selected when
/// no selected mod is left.
pub open spec fn reloaded_selection(
    old_all: Seq<crate::models::RimworldMod>,
    new_all: Seq<crate::models::RimworldMod>,
    sel: SelectionModel,
) -> SelectionModel {
    let pkgs = mod_packages(new_all);
    let ids = matched_mod_ids(pkgs, listed_packages(old_all, sel.1));
    if ids.len() == 0 {
        empty_selection()
    } else {
        let focused = match find_package(pkgs, package_of(old_all, sel.0)) {
            Some(m) => Some(m),
            None => Some(ids.last()),
        };
        let anchor = match find_package(pkgs, package_of(old_all, sel.2)) {
            Some(m) => if ids.contains(m) {
                Some(m)
            } else {
                None
            },
            None => None,
        };
        (focused, ids, anchor, sel.3)
    }
}

impl LoadOrderEditor {
    /// Sorts the active mods by their load rules, as an undoable change;
    /// returns whether the sort succeeded.
    pub fn sort_active_mods(&mut self) -> (r: bool)
        requires
            old(self).wf(),
            valid_active(old(self).mods.all@, old(self).mods.enabled_ids@),
        ensures
            final(self).wf(),
            final(self).same_mods(old(self)),
            final(self).selection.model() == old(self).selection.model(),
            final(self).mods.disabled_ids@ == old(self).mods.disabled_ids@,
            r == sortable(old(self).mods.all@, old(self).mods.enabled_ids@),
            r ==> final(self).mods.enabled_ids@ == sorted_ids(
                old(self).mods.all@,
                old(self).mods.enabled_ids@,
            ) && final(self).action_error is None && final(self).history() == record_step(
                (
                    final(self).current(),
                    snapshot_models(old(self).undo_history@),
                    snapshot_models(old(self).redo_history@),
                ),
                old(self).current(),
            ),
            !r ==> final(self).history() == old(self).history() && (final(self).action_error matches Some(
                m,
            ) && m@ == sort_failure(old(self).mods.all@, old(self).mods.enabled_ids@)),
    {
        let previous = self.load_order_snapshot();
        match sort_mods(&mut self.mods) {
            Ok(()) => {
                self.action_error = None;
                self.record_load_order_change(previous);
                true
            },
            Err(error) => {
                let mut message = String::new();
                push_str(&mut message, "Could not sort active mods: ");
                let details = error.message();
                push_str(&mut message, details.as_str());
                self.action_error = Some(message);
                false
            },
        }
    }

    /// The package of the mod with id `id`, if there is one.
    fn package_at(&self, id: Option<ModId>) -> (r: Option<PackageId>)
        ensures
            match r {
                Some(p) => package_of(self.mods.all@, id) == Some(p@),
                None => package_of(self.mods.all@, id) is None,
            },
    {
        match id {
            Some(m) => match self.mods.get(m) {
                Some(rimworld_mod) => Some(rimworld_mod.package_id.clone()),
                None => None,
            },
            None => None,
        }
    }

    /// Takes freshly loaded mods after the mod folders changed: the active
    /// order and the selection carry over by package, and the history
    /// starts anew, since its ids belong to the old mods.
    pub fn replace_mods_keeping_order(&mut self, new_mods: ModCollection)
        requires
            old(self).wf(),
        ensures
            final(self).wf(),
            final(self).mods.all@ == new_mods.all@,
            final(self).mods.enabled_ids@ == matched_mod_ids(
                mod_packages(new_mods.all@),
                listed_packages(old(self).mods.all@, old(self).mods.enabled_ids@) + package_views(
                    old(self).mods.missing_active_package_ids@,
                ),
            ),
            package_views(final(self).mods.missing_active_package_ids@) == crate::models::unmatched_packages(
                mod_packages(new_mods.all@),
                listed_packages(old(self).mods.all@, old(self).mods.enabled_ids@) + package_views(
                    old(self).mods.missing_active_package_ids@,
                ),
            ),
            final(self).mods.disabled_ids@ == crate::models::ids_not_in(
                new_mods.all@.len(),
                final(self).mods.enabled_ids@,
            ),
            final(self).selection.model() == reloaded_selection(
                old(self).mods.all@,
                new_mods.all@,
                old(self).selection.model(),
            ),
            final(self).undo_history@.len() == 0,
            final(self).redo_history@.len() == 0,
            final(self).action_error == old(self).action_error,
    {
        let active = self.mods.active_package_ids();
        let ghost old_all = self.mods.all@;
        let ghost sel = self.selection.model();
        let mut selected_packages: Vec<PackageId> = Vec::new();
        for i in 0..self.selection.selected_mod_ids.len()
            invariant
                old_all == self.mods.all@,
                sel == self.selection.model(),
                package_views(selected_packages@) == listed_packages(
                    old_all,
                    sel.1.take(i as int),
                ),
        {
            assert(sel.1.take(i + 1).drop_last() == sel.1.take(i as int));
            if let Some(rimworld_mod) = self.mods.get(self.selection.selected_mod_ids[i]) {
                let ghost prev = selected_packages@;
                selected_packages.push(rimworld_mod.package_id.clone());
                assert(package_views(selected_packages@) == package_views(prev).push(
                    rimworld_mod.package_id@,
                ));
            }
        }
        assert(sel.1.take(sel.1.len() as int) == sel.1);
        let focused_package = self.package_at(self.selection.selected_mod_id);
        let anchor_package = self.package_at(self.selection.selection_anchor_id);
        let kind = self.selection.selection_kind;
        let mut mods = new_mods;
        mods.replace_active_package_ids(active);
        self.mods = mods;
        self.clear_load_order_history();
        let ghost pkgs = mod_packages(self.mods.all@);
        let mut selected: Vec<ModId> = Vec::new();
        for i in 0..selected_packages.len()
            invariant
                pkgs == mod_packages(self.mods.all@),
                selected@ == matched_mod_ids(pkgs, package_views(selected_packages@).take(i as int)),
        {
            let ghost views = package_views(selected_packages@);
            assert(views.take(i + 1).drop_last() == views.take(i as int));
            assert(views.take(i + 1).last() == selected_packages@[i as int]@);
            if let Some(m) = self.mods.find_id_by_package_id(&selected_packages[i]) {
                selected.push(m);
            }
        }
        assert(package_views(selected_packages@).take(selected_packages@.len() as int)
            == package_views(selected_packages@));
        if selected.len() == 0 {
            self.selection = Selection::new();
            return;
        }
        let focused = match &focused_package {
            Some(p) => self.mods.find_id_by_package_id(p),
            None => None,
        };
        let focused = match focused {
            Some(m) => Some(m),
            None => Some(selected[selected.len() - 1]),
        };
        let anchor = match &anchor_package {
            Some(p) => self.mods.find_id_by_package_id(p),
            None => None,
        };
        let anchor = match anchor {
            Some(m) => if contains_id(selected.as_slice(), m) {
                Some(m)
            } else {
                None
            },
            None => None,
        };
        self.selection = Selection {
            selected_mod_id: focused,
            selected_mod_ids: selected,
            selection_anchor_id: anchor,
            selection_kind: kind,
        };
    }
}

} // verus!
