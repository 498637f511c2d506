use std::path::{Path, PathBuf};

use rimmod::paths::ModPath;

use rimmod::settings::{
    mod_roots, workshop_roots, checked_game_version, linux_config_path, path_from_input, path_to_input,
    windows_config_path, ConfigFolder, FolderReport, LoadOrderStatus, RimworldFolder, Settings,
    SettingsErrors,
};

fn path(text: &str) -> ModPath {
    ModPath::new(text.to_owned())
}

/// The path a `ModPath` stands for: its base with its parts joined on.
fn path_buf(path: &ModPath) -> PathBuf {
    let mut buf = PathBuf::from(&path.base);
    for part in &path.parts {
        buf.push(part);
    }
    buf
}

#[test]
fn empty_settings_report_required_paths() {
    let errors = Settings::default().validate_paths(&FolderReport::default());

    assert!(errors.rimworld.is_some());
    assert!(errors.workshop.is_none());
    assert!(errors.config.is_some());
    assert!(errors.has_errors());
}

#[test]
fn windows_config_path_uses_the_user_profile() {
    let user_profile = Path::new(r"C:\Users\RimModTest");

    let config_path = windows_config_path(&path(r"C:\Users\RimModTest"));

    assert_eq!(
        path_buf(&config_path),
        user_profile
            .join("AppData")
            .join("LocalLow")
            .join("Ludeon Studios")
            .join("RimWorld by Ludeon Studios")
            .join("Config")
    );
}

#[test]
fn linux_config_path_prefers_xdg_config_home() {
    let config_path = linux_config_path(Some(path("/custom/config")), Some(path("/home/rimmod")));

    assert_eq!(
        config_path.as_ref().map(path_buf),
        Some(
            PathBuf::from("/custom/config")
                .join("unity3d")
                .join("Ludeon Studios")
                .join("RimWorld by Ludeon Studios")
                .join("Config")
        )
    );
}

#[test]
fn linux_config_path_falls_back_to_home() {
    let config_path = linux_config_path(None, Some(path("/home/rimmod")));

    assert_eq!(
        config_path.as_ref().map(path_buf),
        Some(
            PathBuf::from("/home/rimmod")
                .join(".config")
                .join("unity3d")
                .join("Ludeon Studios")
                .join("RimWorld by Ludeon Studios")
                .join("Config")
        )
    );
}

#[test]
fn linux_config_path_ignores_an_empty_xdg_config_home() {
    let config_path = linux_config_path(Some(path("")), Some(path("/home/rimmod")));

    assert_eq!(
        config_path.as_ref().map(path_buf),
        Some(PathBuf::from("/home/rimmod/.config/unity3d/Ludeon Studios/RimWorld by Ludeon Studios/Config"))
    );
    assert_eq!(linux_config_path(None, None), None);
    assert_eq!(linux_config_path(Some(path("")), None), None);
}

fn configured() -> Settings {
    Settings {
        rimworld_path: Some(path("/games/RimWorld")),
        config_path: Some(path("/config")),
        ..Settings::default()
    }
}

#[test]
fn folder_problems_are_explained() {
    let report = FolderReport {
        rimworld: RimworldFolder::Unreadable,
        rimworld_text: "/games/RimWorld".to_owned(),
        config: ConfigFolder::WithoutModsConfig,
        config_text: "/config".to_owned(),
    };

    let errors = configured().validate_paths(&report);

    assert_eq!(
        errors.rimworld.as_deref(),
        Some("The RimWorld folder does not exist or is not accessible: /games/RimWorld")
    );
    assert_eq!(
        errors.config.as_deref(),
        Some("The selected folder does not contain ModsConfig.xml")
    );

    let missing_version = FolderReport {
        rimworld: RimworldFolder::WithoutVersionFile,
        config: ConfigFolder::Complete,
        ..report
    };
    let errors = configured().validate_paths(&missing_version);
    assert_eq!(
        errors.rimworld.as_deref(),
        Some("The selected folder does not contain RimWorld's Version.txt")
    );
    assert_eq!(errors.config, None);
}

#[test]
fn complete_folders_have_no_errors() {
    let report = FolderReport {
        rimworld: RimworldFolder::Complete,
        rimworld_text: String::new(),
        config: ConfigFolder::Complete,
        config_text: String::new(),
    };

    assert_eq!(configured().validate_paths(&report), SettingsErrors::default());
    assert!(!configured().validate_paths(&report).has_errors());
}

#[test]
fn discovered_paths_fill_only_the_gaps() {
    let mut settings = Settings {
        rimworld_path: Some(path("/mine")),
        ..Settings::default()
    };
    let discovered = Settings {
        rimworld_path: Some(path("/found")),
        workshop_path: Some(path("/workshop")),
        ..Settings::default()
    };

    settings.fill_missing_from(discovered);

    assert_eq!(settings.rimworld_path, Some(path("/mine")));
    assert_eq!(settings.workshop_path, Some(path("/workshop")));
    assert_eq!(settings.config_path, None);
}

#[test]
fn settings_fields_read_paths_and_keys() {
    assert_eq!(path_from_input("   "), None);
    assert_eq!(path_from_input(" /mods "), Some(path("/mods")));
    assert_eq!(path_from_input(""), None);
    assert_eq!(path_from_input(" \t "), None);
    assert_eq!(path_from_input("  /games/RimWorld \n").as_ref().map(path_buf), Some(PathBuf::from("/games/RimWorld")));
    assert_eq!(path_to_input(path_from_input("  /games/RimWorld \n").as_ref()), "/games/RimWorld");
    assert_eq!(path_to_input(None), "");
    assert_eq!(path_to_input(Some(&path("/mods"))), "/mods");
    assert_eq!(
        path_to_input(Some(&path("/mods").join("Extra"))),
        PathBuf::from("/mods").join("Extra").to_string_lossy()
    );

    let settings = Settings {
        steam_web_api_key: "  KEY ".to_owned(),
        ..configured()
    };
    assert_eq!(settings.steam_web_api_key(), Some("KEY".to_owned()));
    assert_eq!(Settings::default().steam_web_api_key(), None);
    assert_eq!(
        settings.official_path().as_ref().map(path_buf),
        Some(PathBuf::from("/games/RimWorld/Data"))
    );
    assert_eq!(settings.local_path().as_ref().map(path_buf), Some(PathBuf::from("/games/RimWorld/Mods")));
    assert_eq!(Settings::default().official_path(), None);
}

#[test]
fn load_order_is_savable_only_when_ready() {
    assert!(LoadOrderStatus::Ready.can_save());
    assert!(!LoadOrderStatus::default().can_save());
    assert_eq!(
        LoadOrderStatus::default(),
        LoadOrderStatus::Unavailable {
            reason: "Unknown".to_owned()
        }
    );
}

#[test]
fn game_versions_must_be_readable_and_not_empty() {
    assert_eq!(
        checked_game_version(Ok("1.6.1234 rev1".to_owned())),
        Ok("1.6.1234 rev1".to_owned())
    );
    assert_eq!(
        checked_game_version(Ok(String::new())),
        Err("RimWorld's Version.txt is empty".to_owned())
    );
    assert_eq!(
        checked_game_version(Err("denied".to_owned())),
        Err("Could not read RimWorld version: denied".to_owned())
    );
}

#[test]
fn joined_path_text_ends_with_the_last_component() {
    let joined = path("/games/RimWorld").join("Mods").join("Example Mod");
    let text = joined.text();
    assert!(text.starts_with("/games/RimWorld"));
    assert!(text.ends_with("Example Mod"));
    assert_eq!(text, path_buf(&joined).to_string_lossy());
}

#[test]
fn mod_roots_need_the_game_and_config_folders() {
    let roots = mod_roots(&configured()).expect("configured");
    assert_eq!(path_buf(&roots.official), PathBuf::from("/games/RimWorld").join("Data"));
    assert_eq!(path_buf(&roots.local), PathBuf::from("/games/RimWorld").join("Mods"));
    assert_eq!(roots.config, path("/config"));

    assert_eq!(
        mod_roots(&Settings::default()).map(|roots| roots.config),
        Err("RimWorld installation path is not configured".to_owned())
    );
    let without_config = Settings {
        rimworld_path: Some(path("/games/RimWorld")),
        ..Settings::default()
    };
    assert_eq!(
        mod_roots(&without_config).map(|roots| roots.config),
        Err("RimWorld configuration path is not configured".to_owned())
    );
}

#[test]
fn the_configured_workshop_folder_comes_before_steamcmds() {
    assert_eq!(
        workshop_roots(Some(path("/steam")), Some(path("/steamcmd"))),
        [path("/steam"), path("/steamcmd")]
    );
    assert_eq!(workshop_roots(None, Some(path("/steamcmd"))), [path("/steamcmd")]);
    assert!(workshop_roots(None, None).is_empty());
}
