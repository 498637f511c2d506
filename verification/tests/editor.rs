use rimmod::paths::ModPath;

use rimmod::editor::{
    action_for_drop, selection_range, DraggedMods, LoadOrderEditor, ModListAction, ModListKind,
    SelectionMode, LOAD_ORDER_HISTORY_LIMIT,
};
use rimmod::models::{ModCollection, ModId, ModSource, ModType, PackageId, RimworldMod};

fn test_mod(package: &str, load_after: &[&str]) -> RimworldMod {
    RimworldMod {
        name: package.to_owned(),
        package_id: PackageId::new(package).expect("valid package ID"),
        description: String::new(),
        supported_versions: Vec::new(),
        community_supported_versions: Vec::new(),
        loader_after: load_after
            .iter()
            .map(|raw| PackageId::new(raw).expect("valid package ID"))
            .collect(),
        loader_before: Vec::new(),
        folder: ModPath::new(String::new()),
        source: ModSource::Local,
        mod_type: ModType::Xml,
    }
}

#[test]
fn selection_range_uses_visible_list_order_in_both_directions() {
    let first = ModId::from_index(1);
    let second = ModId::from_index(4);
    let third = ModId::from_index(7);
    let visible_mod_ids = [first, second, third];

    assert_eq!(
        selection_range(&visible_mod_ids, Some(first), third),
        Some(vec![first, second, third])
    );
    assert_eq!(
        selection_range(&visible_mod_ids, Some(third), first),
        Some(vec![first, second, third])
    );
}

#[test]
fn missing_selection_anchor_does_not_create_a_range() {
    let visible_mod_ids = [ModId::from_index(1), ModId::from_index(2)];

    assert_eq!(
        selection_range(
            &visible_mod_ids,
            Some(ModId::from_index(9)),
            visible_mod_ids[1]
        ),
        None
    );
}

#[test]
fn failed_reorder_is_reported_as_a_persistent_error() {
    let mut editor = LoadOrderEditor::new(ModCollection::default());

    editor.apply_mod_list_action(ModListAction::Reorder {
        mod_ids: vec![ModId::from_index(0)],
        kind: ModListKind::Enabled,
        before_mod_id: None,
    });

    assert!(
        editor
            .action_error
            .as_deref()
            .is_some_and(|error| error.contains("Could not reorder mod"))
    );
}

#[test]
fn modifier_selection_builds_and_replaces_a_group() {
    let mut editor = LoadOrderEditor::new(ModCollection::default());
    let first = ModId::from_index(1);
    let second = ModId::from_index(2);
    let third = ModId::from_index(3);

    editor.apply_mod_list_action(ModListAction::Select {
        mod_id: first,
        kind: ModListKind::Disabled,
        mode: SelectionMode::Replace,
    });
    editor.apply_mod_list_action(ModListAction::Select {
        mod_id: third,
        kind: ModListKind::Disabled,
        mode: SelectionMode::Toggle,
    });

    assert_eq!(editor.selection.selected_mod_ids, [first, third]);
    assert_eq!(editor.selection.selected_mod_id, Some(third));

    editor.apply_mod_list_action(ModListAction::Select {
        mod_id: second,
        kind: ModListKind::Disabled,
        mode: SelectionMode::Range(vec![first, second]),
    });

    assert_eq!(editor.selection.selected_mod_ids, [first, second]);
    assert_eq!(editor.selection.selected_mod_id, Some(second));
}

#[test]
fn selecting_a_mod_in_the_other_list_starts_a_new_group() {
    let mut editor = LoadOrderEditor::new(ModCollection::default());
    let disabled_mod = ModId::from_index(1);
    let enabled_mod = ModId::from_index(2);

    editor.apply_mod_list_action(ModListAction::Select {
        mod_id: disabled_mod,
        kind: ModListKind::Disabled,
        mode: SelectionMode::Replace,
    });
    editor.apply_mod_list_action(ModListAction::Select {
        mod_id: enabled_mod,
        kind: ModListKind::Enabled,
        mode: SelectionMode::Toggle,
    });

    assert_eq!(editor.selection.selected_mod_ids, [enabled_mod]);
    assert_eq!(editor.selection.selection_kind, Some(ModListKind::Enabled));
}

#[test]
fn load_order_changes_can_be_undone_and_redone() {
    let first = ModId::from_index(0);
    let second = ModId::from_index(1);
    let active = ModId::from_index(2);
    let mut editor = LoadOrderEditor::new(ModCollection::new(
        Vec::new(),
        vec![first, second],
        vec![active],
        Vec::new(),
    ));

    editor.apply_mod_list_action(ModListAction::Select {
        mod_id: first,
        kind: ModListKind::Disabled,
        mode: SelectionMode::Range(vec![first, second]),
    });
    editor.apply_mod_list_action(ModListAction::Transfer {
        mod_ids: vec![first, second],
        from: ModListKind::Disabled,
        to: ModListKind::Enabled,
        before_mod_id: None,
    });

    assert_eq!(editor.mods.disabled_ids(), []);
    assert_eq!(editor.mods.enabled_ids(), [active, first, second]);
    assert_eq!(editor.undo_history.len(), 1);
    assert!(editor.redo_history.is_empty());

    editor.undo_load_order_change();

    assert_eq!(editor.mods.disabled_ids(), [first, second]);
    assert_eq!(editor.mods.enabled_ids(), [active]);
    assert_eq!(editor.selection.selection_kind, Some(ModListKind::Disabled));
    assert_eq!(editor.selection.selected_mod_ids, [first, second]);
    assert!(editor.undo_history.is_empty());
    assert_eq!(editor.redo_history.len(), 1);

    editor.redo_load_order_change();

    assert_eq!(editor.mods.disabled_ids(), []);
    assert_eq!(editor.mods.enabled_ids(), [active, first, second]);
    assert_eq!(editor.selection.selection_kind, Some(ModListKind::Enabled));
    assert_eq!(editor.selection.selected_mod_ids, [first, second]);
    assert_eq!(editor.undo_history.len(), 1);
    assert!(editor.redo_history.is_empty());
}

#[test]
fn a_new_change_after_undo_clears_redo_history() {
    let first = ModId::from_index(0);
    let second = ModId::from_index(1);
    let mut editor = LoadOrderEditor::new(ModCollection::new(
        Vec::new(),
        vec![first, second],
        Vec::new(),
        Vec::new(),
    ));

    editor.apply_mod_list_action(ModListAction::Reorder {
        mod_ids: vec![second],
        kind: ModListKind::Disabled,
        before_mod_id: Some(first),
    });
    editor.undo_load_order_change();

    assert_eq!(editor.redo_history.len(), 1);

    editor.apply_mod_list_action(ModListAction::Reorder {
        mod_ids: vec![first],
        kind: ModListKind::Disabled,
        before_mod_id: None,
    });

    assert_eq!(editor.mods.disabled_ids(), [second, first]);
    assert!(editor.redo_history.is_empty());
}

#[test]
fn undo_without_history_changes_nothing() {
    let mut editor = LoadOrderEditor::new(ModCollection::new(
        Vec::new(),
        vec![ModId::from_index(0)],
        Vec::new(),
        Vec::new(),
    ));

    assert!(!editor.undo_load_order_change());
    assert!(!editor.redo_load_order_change());
    assert_eq!(editor.mods.disabled_ids(), [ModId::from_index(0)]);
}

#[test]
fn history_keeps_at_most_the_limit() {
    let a = ModId::from_index(0);
    let b = ModId::from_index(1);
    let mut editor =
        LoadOrderEditor::new(ModCollection::new(Vec::new(), vec![a, b], Vec::new(), Vec::new()));

    for _ in 0..(LOAD_ORDER_HISTORY_LIMIT + 5) {
        let first = editor.mods.disabled_ids()[0];
        editor.apply_mod_list_action(ModListAction::Reorder {
            mod_ids: vec![first],
            kind: ModListKind::Disabled,
            before_mod_id: None,
        });
    }

    assert_eq!(editor.undo_history.len(), LOAD_ORDER_HISTORY_LIMIT);
}

#[test]
fn reorder_to_the_same_place_records_no_history() {
    let a = ModId::from_index(0);
    let b = ModId::from_index(1);
    let mut editor =
        LoadOrderEditor::new(ModCollection::new(Vec::new(), vec![a, b], Vec::new(), Vec::new()));

    editor.apply_mod_list_action(ModListAction::Reorder {
        mod_ids: vec![b],
        kind: ModListKind::Disabled,
        before_mod_id: None,
    });

    assert_eq!(editor.mods.disabled_ids(), [a, b]);
    assert!(editor.undo_history.is_empty());
    assert_eq!(editor.selection.selected_mod_ids, [b]);
}

#[test]
fn delete_requests_are_handed_back() {
    let mut editor = LoadOrderEditor::new(ModCollection::default());

    let requested = editor.apply_mod_list_action(ModListAction::Delete {
        mod_ids: vec![ModId::from_index(3)],
    });

    assert_eq!(requested, Some(vec![ModId::from_index(3)]));
}

#[test]
fn transfer_of_a_missing_mod_is_reported() {
    let mut editor = LoadOrderEditor::new(ModCollection::default());

    editor.apply_mod_list_action(ModListAction::Transfer {
        mod_ids: vec![ModId::from_index(4)],
        from: ModListKind::Disabled,
        to: ModListKind::Enabled,
        before_mod_id: None,
    });

    assert_eq!(
        editor.action_error.as_deref(),
        Some("Could not update mod list: mod 4 is not in the disabled list")
    );
}

#[test]
fn dropping_on_the_same_list_reorders_and_on_the_other_transfers() {
    let dragged = DraggedMods {
        mod_ids: vec![ModId::from_index(2)],
        from: ModListKind::Disabled,
    };

    assert!(matches!(
        action_for_drop(&dragged, ModListKind::Disabled, None),
        ModListAction::Reorder { kind: ModListKind::Disabled, .. }
    ));
    assert!(matches!(
        action_for_drop(&dragged, ModListKind::Enabled, Some(ModId::from_index(0))),
        ModListAction::Transfer {
            from: ModListKind::Disabled,
            to: ModListKind::Enabled,
            before_mod_id: Some(_),
            ..
        }
    ));
}

#[test]
fn list_kinds_have_ids_headings_and_opposites() {
    assert_eq!(ModListKind::Disabled.other(), ModListKind::Enabled);
    assert_eq!(ModListKind::Enabled.other(), ModListKind::Disabled);
    assert_ne!(ModListKind::Disabled.id(), ModListKind::Enabled.id());
    assert_ne!(ModListKind::Disabled.heading(), ModListKind::Enabled.heading());
}

#[test]
fn sorting_active_mods_is_undoable() {
    let mut editor = LoadOrderEditor::new(ModCollection::new(
        vec![test_mod("example.b", &["example.a"]), test_mod("example.a", &[])],
        Vec::new(),
        vec![ModId::from_index(0), ModId::from_index(1)],
        Vec::new(),
    ));

    assert!(editor.sort_active_mods());
    assert_eq!(
        editor.mods.enabled_ids(),
        [ModId::from_index(1), ModId::from_index(0)]
    );
    assert_eq!(editor.undo_history.len(), 1);

    assert!(editor.undo_load_order_change());
    assert_eq!(
        editor.mods.enabled_ids(),
        [ModId::from_index(0), ModId::from_index(1)]
    );
}

#[test]
fn failed_sort_reports_the_cycle() {
    let mut editor = LoadOrderEditor::new(ModCollection::new(
        vec![test_mod("example.a", &["example.b"]), test_mod("example.b", &["example.a"])],
        Vec::new(),
        vec![ModId::from_index(0), ModId::from_index(1)],
        Vec::new(),
    ));

    assert!(!editor.sort_active_mods());
    assert_eq!(
        editor.action_error.as_deref(),
        Some("Could not sort active mods: dependency cycle involving: example.a, example.b")
    );
    assert!(editor.undo_history.is_empty());
}

#[test]
fn reloading_keeps_the_order_and_selection_by_package() {
    let mut editor = LoadOrderEditor::new(ModCollection::new(
        vec![test_mod("example.a", &[]), test_mod("example.b", &[])],
        vec![ModId::from_index(0)],
        vec![ModId::from_index(1)],
        Vec::new(),
    ));
    editor.apply_mod_list_action(ModListAction::Select {
        mod_id: ModId::from_index(1),
        kind: ModListKind::Enabled,
        mode: SelectionMode::Replace,
    });

    // The new folders list the mods in another order, with one more mod.
    editor.replace_mods_keeping_order(ModCollection::new(
        vec![
            test_mod("example.new", &[]),
            test_mod("example.b", &[]),
            test_mod("example.a", &[]),
        ],
        Vec::new(),
        Vec::new(),
        Vec::new(),
    ));

    assert_eq!(editor.mods.enabled_ids(), [ModId::from_index(1)]);
    assert_eq!(
        editor.mods.disabled_ids(),
        [ModId::from_index(0), ModId::from_index(2)]
    );
    assert_eq!(editor.selection.selected_mod_ids, [ModId::from_index(1)]);
    assert_eq!(editor.selection.selected_mod_id, Some(ModId::from_index(1)));
    assert_eq!(editor.selection.selection_kind, Some(ModListKind::Enabled));
    assert!(editor.undo_history.is_empty());
}

#[test]
fn reloading_without_the_selected_mods_clears_the_selection() {
    let mut editor = LoadOrderEditor::new(ModCollection::new(
        vec![test_mod("example.gone", &[])],
        Vec::new(),
        vec![ModId::from_index(0)],
        Vec::new(),
    ));
    editor.apply_mod_list_action(ModListAction::Select {
        mod_id: ModId::from_index(0),
        kind: ModListKind::Enabled,
        mode: SelectionMode::Replace,
    });

    editor.replace_mods_keeping_order(ModCollection::new(
        vec![test_mod("example.other", &[])],
        Vec::new(),
        Vec::new(),
        Vec::new(),
    ));

    assert!(editor.selection.selected_mod_ids.is_empty());
    assert_eq!(editor.selection.selected_mod_id, None);
    assert_eq!(editor.selection.selection_kind, None);
    assert_eq!(
        editor.mods.missing_active_package_ids(),
        [PackageId::new("example.gone").expect("valid package ID")]
    );
}
