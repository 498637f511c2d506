use rimmod::paths::ModPath;

use rimmod::load_order::{
    config_package_ids, order_was_written, rewrite_step, save_order_ids, ConfigEvent,
    RewriteStep,
};
use rimmod::load_order::{order_to_save, replace_active_mods, rewrite_config_events, XmlPiece};
use rimmod::models::{ModCollection, ModId, ModSource, ModType, PackageId, RimworldMod};
use rimmod::settings::LoadOrderStatus;

fn test_mod(package: &str) -> RimworldMod {
    RimworldMod {
        name: package.to_owned(),
        package_id: PackageId::new(package).expect("valid package ID"),
        description: String::new(),
        supported_versions: Vec::new(),
        community_supported_versions: Vec::new(),
        loader_after: Vec::new(),
        loader_before: Vec::new(),
        folder: ModPath::new(String::new()),
        source: ModSource::Local,
        mod_type: ModType::Xml,
    }
}

#[test]
fn mods_config_ids_are_normalized() {
    let ids = config_package_ids(
        vec![" Ludeon.RimWorld ".to_owned(), "Example.Mod".to_owned()],
        "Config/ModsConfig.xml",
    )
    .expect("ids");
    let texts = ids.iter().map(PackageId::as_str).collect::<Vec<_>>();
    assert_eq!(texts, ["ludeon.rimworld", "example.mod"]);

    assert_eq!(
        config_package_ids(vec![" ".to_owned()], "Config/ModsConfig.xml").map(|ids| ids.len()),
        Err("Config/ModsConfig.xml contains an empty package ID".to_owned())
    );
}

#[test]
fn missing_active_mods_prevent_saving() {
    let mods = ModCollection::new(
        Vec::new(),
        Vec::new(),
        Vec::new(),
        vec![
            PackageId::new("example.missing").expect("valid"),
            PackageId::new("example.gone").expect("valid"),
        ],
    );

    assert_eq!(
        save_order_ids(&mods),
        Err("Cannot save because these active mods were not found: example.missing, example.gone"
            .to_owned())
    );
}

#[test]
fn the_active_order_is_saved_by_package() {
    let mods = ModCollection::new(
        vec![test_mod("example.a"), test_mod("example.b")],
        Vec::new(),
        vec![ModId::from_index(1), ModId::from_index(0)],
        Vec::new(),
    );

    assert_eq!(
        save_order_ids(&mods),
        Ok(vec!["example.b".to_owned(), "example.a".to_owned()])
    );
    assert_eq!(save_order_ids(&ModCollection::default()), Ok(Vec::new()));

    let broken = ModCollection::new(Vec::new(), Vec::new(), vec![ModId::from_index(3)], Vec::new());
    assert_eq!(
        save_order_ids(&broken),
        Err("active mod index is invalid".to_owned())
    );
}

#[test]
fn written_orders_are_compared_exactly() {
    let written = vec![
        PackageId::new("example.a").expect("valid"),
        PackageId::new("example.b").expect("valid"),
    ];

    assert!(order_was_written(
        &written,
        &["example.a".to_owned(), "example.b".to_owned()]
    ));
    assert!(!order_was_written(
        &written,
        &["example.b".to_owned(), "example.a".to_owned()]
    ));
    assert!(!order_was_written(&written, &["example.a".to_owned()]));
}

#[test]
fn mods_config_needs_exactly_one_active_mods_element() {
    assert_eq!(rewrite_step(false, ConfigEvent::Other), Ok(RewriteStep::Copy));
    assert_eq!(
        rewrite_step(false, ConfigEvent::ActiveModsStart),
        Ok(RewriteStep::ReplaceList)
    );
    assert_eq!(
        rewrite_step(true, ConfigEvent::ActiveModsStart),
        Err("ModsConfig.xml contains multiple activeMods elements".to_owned())
    );
    assert_eq!(rewrite_step(true, ConfigEvent::End), Ok(RewriteStep::Finish));
    assert_eq!(
        rewrite_step(false, ConfigEvent::End),
        Err("ModsConfig.xml does not contain activeMods".to_owned())
    );
}

#[test]
fn saving_is_refused_while_the_load_order_is_unavailable() {
    let mods = ModCollection::new(
        vec![test_mod("example.a")],
        Vec::new(),
        vec![ModId::from_index(0)],
        Vec::new(),
    );

    assert_eq!(
        order_to_save(&LoadOrderStatus::default(), &mods),
        Err("Cannot save: the load order is unavailable".to_owned())
    );
    assert_eq!(
        order_to_save(&LoadOrderStatus::Ready, &mods),
        Ok(vec!["example.a".to_owned()])
    );
}

#[test]
fn path_errors_name_the_action_and_path() {
    assert_eq!(
        rimmod::load_order::path_error("could not read configuration", "Config/ModsConfig.xml", "denied"),
        "could not read configuration Config/ModsConfig.xml: denied"
    );
}

fn ids(list: &[&str]) -> Vec<String> {
    list.iter().map(|id| id.to_string()).collect()
}

#[test]
fn rewriting_replaces_only_the_active_mods_items() {
    let original = "<?xml version=\"1.0\" encoding=\"utf-8\"?>\n<ModsConfigData>\n  <version>1.6</version>\n  <activeMods>\n    <li>ludeon.rimworld</li>\n    <li>old.mod</li>\n  </activeMods>\n  <knownExpansions />\n  <!-- kept -->\n</ModsConfigData>\n";
    let rewritten = replace_active_mods(original, &ids(&["ludeon.rimworld", "a&b"])).expect("rewritten");
    assert_eq!(
        String::from_utf8(rewritten).expect("utf-8"),
        "<?xml version=\"1.0\" encoding=\"utf-8\"?>\n<ModsConfigData>\n  <version>1.6</version>\n  <activeMods>\n    <li>ludeon.rimworld</li>\n    <li>a&amp;b</li>\n  </activeMods>\n  <knownExpansions />\n  <!-- kept -->\n</ModsConfigData>\n"
    );
}

#[test]
fn rewriting_an_empty_order_leaves_an_empty_element() {
    let rewritten = replace_active_mods("<C><activeMods><li>x</li></activeMods></C>", &ids(&[]))
        .expect("rewritten");
    assert_eq!(
        String::from_utf8(rewritten).expect("utf-8"),
        "<C><activeMods>\n  </activeMods></C>"
    );
}

#[test]
fn rewriting_refuses_documents_without_exactly_one_active_mods() {
    assert_eq!(
        replace_active_mods("<C><version>1.6</version></C>", &ids(&["a"])),
        Err("ModsConfig.xml does not contain activeMods".to_owned())
    );
    assert_eq!(
        replace_active_mods("<C><activeMods></activeMods><activeMods></activeMods></C>", &ids(&["a"])),
        Err("ModsConfig.xml contains multiple activeMods elements".to_owned())
    );
}

#[test]
fn rewriting_reports_an_unclosed_active_mods() {
    assert_eq!(
        replace_active_mods("<C><activeMods><li>x</li>", &ids(&["a"])),
        Err("ill-formed document: start tag not closed: `</activeMods>` not found before end of input".to_owned())
    );
}

#[test]
fn rewriting_reports_ill_formed_xml() {
    let result = replace_active_mods("<C><activeMods></C>", &ids(&["a"]));
    assert!(matches!(result, Err(message) if message.starts_with("ill-formed document")));
}

fn piece(start: Option<&str>, end: Option<&str>, written: &str) -> XmlPiece {
    XmlPiece {
        start_name: start.map(str::to_owned),
        end_name: end.map(str::to_owned),
        written: written.as_bytes().to_vec(),
    }
}

#[test]
fn nested_active_mods_content_is_dropped_up_to_the_matching_end() {
    let pieces = vec![
        piece(Some("C"), None, "<C>"),
        piece(Some("activeMods"), None, "<activeMods>"),
        piece(Some("activeMods"), None, "<activeMods>"),
        piece(None, Some("activeMods"), "</activeMods>"),
        piece(None, Some("activeMods"), "</activeMods>"),
        piece(None, Some("C"), "</C>"),
    ];
    let rewritten = rewrite_config_events(&pieces, &None, &ids(&["x"])).expect("rewritten");
    assert_eq!(
        String::from_utf8(rewritten).expect("utf-8"),
        "<C><activeMods>\n    <li>x</li>\n  </activeMods></C>"
    );
    let failed = rewrite_config_events(&pieces, &Some("broken".to_owned()), &ids(&["x"]));
    assert_eq!(failed, Err("broken".to_owned()));
}
