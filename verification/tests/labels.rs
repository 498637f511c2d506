use rimmod::paths::ModPath;

use rimmod::labels::{
    git_remote_web_url, order_warning_text, version_badge, BadgeColor, OpenTarget,
};
use rimmod::mod_sorter::OrderWarning;
use rimmod::models::{ModId, ModSource, ModType, PackageId, RimworldMod};

fn badge_mod(supported: &[&str], community: &[&str]) -> RimworldMod {
    RimworldMod {
        name: "Test mod".to_owned(),
        package_id: PackageId::new("test.mod").expect("valid package ID"),
        description: String::new(),
        supported_versions: supported
            .iter()
            .map(|version| (*version).to_owned())
            .collect(),
        community_supported_versions: community
            .iter()
            .map(|version| (*version).to_owned())
            .collect(),
        loader_after: Vec::new(),
        loader_before: Vec::new(),
        folder: ModPath::new(String::new()),
        source: ModSource::Local,
        mod_type: ModType::Xml,
    }
}

#[test]
fn official_support_shows_the_game_version() {
    let rimworld_mod = badge_mod(&["1.4", "1.5", "1.6"], &[]);

    let badge = version_badge(&rimworld_mod, Some("1.6.4211")).expect("badge");

    assert_eq!(badge.text, "1.6");
    assert!(!badge.community_report);
    assert!(badge.hover.contains("Supports"));
}

#[test]
fn community_support_shows_the_no_version_warning_report() {
    let rimworld_mod = badge_mod(&["1.4"], &["1.6"]);

    let badge = version_badge(&rimworld_mod, Some("1.6")).expect("badge");

    assert_eq!(badge.text, "1.6");
    assert!(badge.community_report);
    assert!(badge.hover.contains("No Version Warning"));
}

#[test]
fn unsupported_mods_show_their_newest_supported_version() {
    let rimworld_mod = badge_mod(&["1.0", "1.5", "1.4"], &[]);

    let badge = version_badge(&rimworld_mod, Some("1.6")).expect("badge");

    assert_eq!(badge.text, "1.5");
    assert!(!badge.community_report);
    assert!(badge.hover.contains("Does not support"));
}

#[test]
fn mod_without_listed_versions_gets_no_badge() {
    let rimworld_mod = badge_mod(&[], &[]);

    assert_eq!(version_badge(&rimworld_mod, Some("1.6")), None);
}

#[test]
fn unknown_game_version_gets_no_badge() {
    let rimworld_mod = badge_mod(&["1.6"], &[]);

    assert_eq!(version_badge(&rimworld_mod, None), None);
}

#[test]
fn badge_texts_are_exact() {
    let official = version_badge(&badge_mod(&["1.6"], &[]), Some("1.6.4211 rev1")).expect("badge");
    assert_eq!(official.color, BadgeColor::LightGreen);
    assert_eq!(official.hover, "Supports the installed RimWorld version (1.6)");

    let community = version_badge(&badge_mod(&[], &["1.6"]), Some("1.6")).expect("badge");
    assert_eq!(community.color, BadgeColor::LightYellow);
    assert_eq!(
        community.hover,
        "Not listed for RimWorld 1.6, but a No Version Warning community report says it works"
    );

    let old = version_badge(&badge_mod(&["1.4"], &[]), Some("1.6")).expect("badge");
    assert_eq!(old.color, BadgeColor::Gray);
    assert_eq!(
        old.hover,
        "Does not support RimWorld 1.6; the newest supported version is 1.4"
    );
    assert_eq!(version_badge(&badge_mod(&["1.6"], &[]), Some("unknown")), None);
}

fn named_mod(name: &str) -> RimworldMod {
    RimworldMod {
        name: name.to_owned(),
        ..badge_mod(&[], &[])
    }
}

#[test]
fn order_warnings_list_the_mods_to_move_around() {
    let all_mods = vec![named_mod("Alpha"), named_mod("Beta"), named_mod("Gamma")];
    let warning = OrderWarning {
        after_mod_ids: vec![ModId::from_index(0), ModId::from_index(2)],
        before_mod_ids: vec![ModId::from_index(1)],
    };

    assert_eq!(
        order_warning_text(&warning, &all_mods),
        "Move below: Alpha, Gamma\nMove above: Beta"
    );

    let only_above = OrderWarning {
        after_mod_ids: Vec::new(),
        before_mod_ids: vec![ModId::from_index(2)],
    };
    assert_eq!(order_warning_text(&only_above, &all_mods), "Move above: Gamma");
}

#[test]
fn git_remotes_become_web_pages() {
    assert_eq!(
        git_remote_web_url("https://github.com/user/repository.git"),
        Some("https://github.com/user/repository".to_owned())
    );
    assert_eq!(
        git_remote_web_url(" git@github.com:user/repository.git\n"),
        Some("https://github.com/user/repository".to_owned())
    );
    assert_eq!(
        git_remote_web_url("http://example.com/repo.git.git"),
        Some("http://example.com/repo".to_owned())
    );
    assert_eq!(git_remote_web_url("git@github.com"), None);
    assert_eq!(git_remote_web_url("ssh://example.com/repo"), None);
}

#[test]
fn open_targets_describe_themselves() {
    assert_eq!(
        OpenTarget::Url("https://example.com".to_owned()).description(),
        "URL https://example.com"
    );
    let folder = OpenTarget::Folder(ModPath::new("mods".to_owned())).description();
    assert_eq!(folder, "folder mods");
}
