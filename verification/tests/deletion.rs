use rimmod::paths::ModPath;

use rimmod::deletion::{
    deletion_failure_message, deletion_notice, plan_mod_deletion, remaining_active_package_ids,
    ModDeletionTarget,
};
use rimmod::models::{ModCollection, ModId, ModSource, ModType, PackageId, RimworldMod};

fn test_mod(package: &str, source: ModSource) -> RimworldMod {
    RimworldMod {
        name: format!("Name of {package}"),
        package_id: PackageId::new(package).expect("valid package ID"),
        description: String::new(),
        supported_versions: Vec::new(),
        community_supported_versions: Vec::new(),
        loader_after: Vec::new(),
        loader_before: Vec::new(),
        folder: ModPath::new(package.to_owned()),
        source,
        mod_type: ModType::Xml,
    }
}

fn collection() -> ModCollection {
    ModCollection::new(
        vec![
            test_mod("ludeon.rimworld", ModSource::Official),
            test_mod("example.local", ModSource::Local),
            test_mod("example.workshop", ModSource::SteamWorkshop { workshop_id: 9 }),
        ],
        vec![ModId::from_index(1)],
        vec![ModId::from_index(0), ModId::from_index(2)],
        Vec::new(),
    )
}

#[test]
fn official_content_is_never_deleted() {
    let result = plan_mod_deletion(&collection(), &[ModId::from_index(1), ModId::from_index(0)]);

    assert_eq!(
        result.map(|p| p.targets.len()),
        Err("Official RimWorld content cannot be deleted".to_owned())
    );
}

#[test]
fn deletion_needs_known_mods() {
    let mods = collection();
    assert_eq!(
        plan_mod_deletion(&mods, &[]).map(|p| p.targets.len()),
        Err("Could not prepare the selected mods for deletion".to_owned())
    );
    assert_eq!(
        plan_mod_deletion(&mods, &[ModId::from_index(1), ModId::from_index(7)])
            .map(|p| p.targets.len()),
        Err("Could not prepare the selected mods for deletion".to_owned())
    );
}

#[test]
fn deletion_targets_remember_the_active_state() {
    let pending = plan_mod_deletion(&collection(), &[ModId::from_index(2), ModId::from_index(1)])
        .expect("plan");

    assert!(pending.includes_workshop_mod);
    assert_eq!(pending.targets.len(), 2);
    assert_eq!(pending.targets[0].name, "Name of example.workshop");
    assert!(pending.targets[0].was_enabled);
    assert_eq!(pending.targets[1].package_id.as_str(), "example.local");
    assert!(!pending.targets[1].was_enabled);
    assert_eq!(pending.targets[1].folder, ModPath::new("example.local".to_owned()));

    let local_only = plan_mod_deletion(&collection(), &[ModId::from_index(1)]).expect("plan");
    assert!(!local_only.includes_workshop_mod);
}

fn target(package: &str, was_enabled: bool) -> ModDeletionTarget {
    ModDeletionTarget {
        name: package.to_owned(),
        package_id: PackageId::new(package).expect("valid package ID"),
        folder: ModPath::new(String::new()),
        was_enabled,
    }
}

#[test]
fn deleted_active_mods_leave_the_active_order() {
    let active = vec![
        PackageId::new("example.a").expect("valid"),
        PackageId::new("example.b").expect("valid"),
        PackageId::new("example.c").expect("valid"),
    ];

    let remaining = remaining_active_package_ids(
        active,
        &[target("example.b", true), target("example.c", false)],
    );

    let texts = remaining.iter().map(PackageId::as_str).collect::<Vec<_>>();
    assert_eq!(texts, ["example.a", "example.c"]);
}

#[test]
fn deletion_notices_count_the_mods() {
    assert_eq!(deletion_notice(&[target("example.a", false)]), "Deleted 1 mod");
    assert_eq!(
        deletion_notice(&[target("example.a", false), target("example.b", true)]),
        "Deleted 2 mods; save to update the RimWorld load order"
    );
    assert_eq!(deletion_failure_message(&[]), None);
    assert_eq!(
        deletion_failure_message(&["A: denied".to_owned(), "B: busy".to_owned()]),
        Some("Could not delete: A: denied; B: busy".to_owned())
    );
}
