use rimmod::paths::ModPath;

use rimmod::mod_loader::{
    apply_community_reports, keep_first_copies, loaded_collection, mod_from_metadata,
    no_version_warning_position, no_workshop_directory_warning, parse_package_ids,
    workshop_source, AboutMetadata, ModLoadWarning,
};
use rimmod::models::{ModId, ModSource, ModType, PackageId, RimworldMod};

fn strings(raw: &[&str]) -> Vec<String> {
    raw.iter().map(|s| (*s).to_owned()).collect()
}

fn test_mod(package: &str, source: ModSource, supported: &[&str]) -> RimworldMod {
    RimworldMod {
        name: package.to_owned(),
        package_id: PackageId::new(package).expect("valid package ID"),
        description: String::new(),
        supported_versions: strings(supported),
        community_supported_versions: Vec::new(),
        loader_after: Vec::new(),
        loader_before: Vec::new(),
        folder: ModPath::new(String::new()),
        source,
        mod_type: ModType::Xml,
    }
}

#[test]
fn dependency_lists_are_normalized() {
    let ids = parse_package_ids(strings(&[" Ludeon.RimWorld ", "Example.Mod"])).expect("ids");
    let texts = ids.iter().map(PackageId::as_str).collect::<Vec<_>>();
    assert_eq!(texts, ["ludeon.rimworld", "example.mod"]);

    assert_eq!(
        parse_package_ids(strings(&["ok.mod", "  "])).map(|ids| ids.len()),
        Err("mod contains an empty dependency package ID".to_owned())
    );
}

fn metadata(package_id: &str) -> AboutMetadata {
    AboutMetadata {
        name: None,
        description: None,
        supported_versions: strings(&["1.5", " 1.6 ", "  "]),
        load_after: strings(&["Example.A"]),
        load_before: Vec::new(),
        force_load_after: strings(&["example.b"]),
        force_load_before: strings(&["example.c"]),
        package_id: package_id.to_owned(),
    }
}

#[test]
fn metadata_becomes_a_mod() {
    let rimworld_mod = mod_from_metadata(
        metadata(" Example.Versioned "),
        "VersionedMod".to_owned(),
        ModPath::new("Mods/VersionedMod".to_owned()),
        ModSource::Local,
        ModType::Xml,
    )
    .expect("valid metadata");

    assert_eq!(rimworld_mod.name, "VersionedMod");
    assert_eq!(rimworld_mod.description, "");
    assert_eq!(rimworld_mod.package_id.as_str(), "example.versioned");
    assert_eq!(rimworld_mod.supported_versions, ["1.5", "1.6"]);
    assert!(rimworld_mod.community_supported_versions.is_empty());
    let after = rimworld_mod
        .loader_after
        .iter()
        .map(PackageId::as_str)
        .collect::<Vec<_>>();
    assert_eq!(after, ["example.a", "example.b"]);
    let before = rimworld_mod
        .loader_before
        .iter()
        .map(PackageId::as_str)
        .collect::<Vec<_>>();
    assert_eq!(before, ["example.c"]);
    assert_eq!(rimworld_mod.folder, ModPath::new("Mods/VersionedMod".to_owned()));
}

#[test]
fn metadata_without_a_package_id_is_refused() {
    let result = mod_from_metadata(
        metadata("   "),
        "Broken".to_owned(),
        ModPath::new(String::new()),
        ModSource::Local,
        ModType::Xml,
    );

    assert_eq!(
        result.map(|m| m.name),
        Err("mod contains an empty package ID".to_owned())
    );

    let mut blank_rule = metadata("example.ok");
    blank_rule.force_load_before.push(String::new());
    let result = mod_from_metadata(
        blank_rule,
        "Broken".to_owned(),
        ModPath::new(String::new()),
        ModSource::Local,
        ModType::Xml,
    );
    assert_eq!(
        result.map(|m| m.name),
        Err("mod contains an empty dependency package ID".to_owned())
    );
}

#[test]
fn workshop_folders_are_named_by_item_id() {
    assert_eq!(
        workshop_source(Some("2525222816".to_owned())),
        Ok(ModSource::SteamWorkshop {
            workshop_id: 2525222816
        })
    );
    assert_eq!(
        workshop_source(Some("not-an-id".to_owned())),
        Err("invalid Workshop folder ID".to_owned())
    );
    assert_eq!(
        workshop_source(None),
        Err("invalid Workshop folder ID".to_owned())
    );
}

#[test]
fn configured_and_steamcmd_workshop_items_are_loaded_once() {
    let mut loaded_ids = Vec::new();
    let primary = keep_first_copies(
        vec![
            test_mod("example.primary", ModSource::SteamWorkshop { workshop_id: 123 }, &[]),
            test_mod("example.local", ModSource::Local, &[]),
        ],
        &mut loaded_ids,
    );
    let steamcmd = keep_first_copies(
        vec![
            test_mod("example.copy", ModSource::SteamWorkshop { workshop_id: 123 }, &[]),
            test_mod("example.steamcmd", ModSource::SteamWorkshop { workshop_id: 456 }, &[]),
        ],
        &mut loaded_ids,
    );

    let names = primary
        .iter()
        .chain(steamcmd.iter())
        .map(|m| m.package_id.as_str())
        .collect::<Vec<_>>();
    assert_eq!(names, ["example.primary", "example.local", "example.steamcmd"]);
    assert_eq!(loaded_ids, [123, 456]);
}

#[test]
fn active_order_is_matched_to_loaded_mods() {
    let collection = loaded_collection(
        vec![
            test_mod("example.a", ModSource::Local, &[]),
            test_mod("example.b", ModSource::Local, &[]),
            test_mod("example.c", ModSource::Local, &[]),
        ],
        vec![
            PackageId::new("example.c").expect("valid"),
            PackageId::new("example.missing").expect("valid"),
            PackageId::new("example.a").expect("valid"),
        ],
    );

    assert_eq!(
        collection.enabled_ids(),
        [ModId::from_index(2), ModId::from_index(0)]
    );
    assert_eq!(collection.disabled_ids(), [ModId::from_index(1)]);
    assert_eq!(
        collection.missing_active_package_ids(),
        [PackageId::new("example.missing").expect("valid")]
    );
}

#[test]
fn no_version_warning_adds_reported_support_for_the_current_version() {
    let mut mods = vec![
        test_mod("example.reported", ModSource::Local, &["1.5"]),
        test_mod("example.unreported", ModSource::Local, &["1.5"]),
        test_mod("example.listed", ModSource::Local, &["1.6"]),
    ];

    apply_community_reports(
        &mut mods,
        &"1.6".to_owned(),
        &strings(&["\u{feff}", " Example.Reported ", "example.listed"]),
    );

    assert_eq!(mods[0].community_supported_versions, ["1.6"]);
    assert_eq!(mods[0].supported_versions, ["1.5"]);
    assert!(mods[1].community_supported_versions.is_empty());
    assert!(mods[2].community_supported_versions.is_empty());
}

#[test]
fn the_no_version_warning_mod_is_found_by_package() {
    let mods = vec![
        test_mod("example.a", ModSource::Local, &[]),
        test_mod("Mlie.NoVersionWarning", ModSource::Local, &[]),
    ];

    assert_eq!(no_version_warning_position(&mods), Some(1));
    assert_eq!(no_version_warning_position(&mods[..1]), None);
}

#[test]
fn warnings_describe_their_kind_and_reason() {
    let skipped = ModLoadWarning::skipped_mod(ModPath::new("Mods/Bad".to_owned()), "bad xml".to_owned());
    assert!(skipped.is_skipped_mod());
    assert!(!skipped.is_compatibility_data());
    assert_eq!(skipped.text(), "Mods/Bad: bad xml");

    let data = ModLoadWarning::compatibility_data(ModPath::new("NVW".to_owned()), "oops".to_owned());
    assert!(data.is_compatibility_data());

    let missing = no_workshop_directory_warning();
    assert!(!missing.is_skipped_mod());
    assert_eq!(
        missing.text(),
        "Steam Workshop directory is not configured; Workshop mods were not loaded"
    );
}

#[test]
fn warning_summaries_count_each_kind() {
    let warnings = vec![
        ModLoadWarning::skipped_mod(ModPath::new("a".to_owned()), "bad".to_owned()),
        ModLoadWarning::compatibility_data(ModPath::new("b".to_owned()), "bad".to_owned()),
        ModLoadWarning::skipped_mod(ModPath::new("c".to_owned()), "bad".to_owned()),
    ];

    assert_eq!(
        rimmod::mod_loader::warning_summary(&warnings),
        "2 invalid mod(s) skipped; 1 compatibility data issue(s)."
    );
    assert_eq!(
        rimmod::mod_loader::warning_summary(&[no_workshop_directory_warning()]),
        "1 optional mod directory issue(s)."
    );
}

#[test]
fn no_version_warning_does_not_duplicate_official_support() {
    let mut mods = vec![
        test_mod("example.reported", ModSource::Local, &["1.6"]),
        test_mod("mlie.noversionwarning", ModSource::Local, &[]),
    ];
    let position = no_version_warning_position(&mods).expect("No Version Warning is loaded");
    assert_eq!(position, 1);

    apply_community_reports(&mut mods, &"1.6".to_owned(), &strings(&["example.reported"]));

    let reported_mod = mods
        .iter()
        .find(|rimworld_mod| rimworld_mod.package_id.as_str() == "example.reported")
        .expect("reported mod was loaded");
    assert!(reported_mod.community_supported_versions.is_empty());
}
