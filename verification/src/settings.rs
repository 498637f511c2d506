//! The application's settings: where RimWorld, its Workshop content, its
//! configuration and SteamCMD live, and which of them still need attention.
use vstd::prelude::*;

use crate::paths::{blank_path, joined_path, path_text_fits, ModPath, PathView};
use crate::text::{chars_of, push_str, string_from, trim, trimmed};

verus! {

/// A path as values, when there is one.
pub open spec fn path_option(p: Option<ModPath>) -> Option<PathView> {
    match p {
        Some(path) => Some(path@),
        None => None,
    }
}

/// `p` with the components of RimWorld's configuration folder under a
/// Windows user profile joined onto it.
pub open spec fn with_windows_config_parts(p: PathView) -> PathView {
    joined_path(
        joined_path(
            joined_path(joined_path(joined_path(p, "AppData"@), "LocalLow"@), "Ludeon Studios"@),
            "RimWorld by Ludeon Studios"@,
        ),
        "Config"@,
    )
}

/// `p` with the components of RimWorld's configuration folder under a
/// Linux configuration folder joined onto it.
pub open spec fn with_linux_config_parts(p: PathView) -> PathView {
    joined_path(
        joined_path(joined_path(joined_path(p, "unity3d"@), "Ludeon Studios"@), "RimWorld by Ludeon Studios"@),
        "Config"@,
    )
}

/// RimWorld's configuration folder on Linux: under the configuration home
/// when it is given and not empty, else under `.config` in the home
/// folder; none without either.
pub open spec fn linux_config_for(config_home: Option<PathView>, home: Option<PathView>) -> Option<PathView> {
    if config_home is Some && !blank_path(config_home->0) {
        Some(with_linux_config_parts(config_home->0))
    } else if home is Some {
        Some(with_linux_config_parts(joined_path(home->0, ".config"@)))
    } else {
        None
    }
}

#[derive(Debug, Clone, PartialEq, Eq)]
pub struct Settings {
    pub rimworld_path: Option<ModPath>,
    pub workshop_path: Option<ModPath>,
    pub config_path: Option<ModPath>,
    pub steamcmd_path: Option<ModPath>,
    pub steam_web_api_key: String,
}

impl Default for Settings {
    fn default() -> (r: Self)
        ensures
            r.rimworld_path is None,
            r.workshop_path is None,
            r.config_path is None,
            r.steamcmd_path is None,
            r.steam_web_api_key@ == Seq::<char>::empty(),
    {
        Settings {
            rimworld_path: None,
            workshop_path: None,
            config_path: None,
            steamcmd_path: None,
            steam_web_api_key: String::new(),
        }
    }
}

/// What is wrong with each part of the settings, if anything.
#[derive(Debug, PartialEq, Eq)]
pub struct SettingsErrors {
    pub rimworld: Option<String>,
    pub workshop: Option<String>,
    pub config: Option<String>,
    pub general: Option<String>,
}

impl Default for SettingsErrors {
    fn default() -> (r: Self)
        ensures
            r.rimworld is None,
            r.workshop is None,
            r.config is None,
            r.general is None,
    {
        SettingsErrors { rimworld: None, workshop: None, config: None, general: None }
    }
}

impl SettingsErrors {
    pub open spec fn any(&self) -> bool {
        self.rimworld is Some || self.workshop is Some || self.config is Some || self.general is Some
    }

    pub fn has_errors(&self) -> (r: bool)
        ensures
            r == self.any(),
    {
        self.rimworld.is_some() || self.workshop.is_some() || self.config.is_some()
            || self.general.is_some()
    }
}

/// What the file system shows of the configured RimWorld folder.
#[derive(Debug, Clone, Copy, PartialEq, Eq, Structural)]
pub enum RimworldFolder {
    /// Not a directory, or not accessible.
    Unreadable,
    WithoutData,
    WithoutMods,
    WithoutVersionFile,
    Complete,
}

/// What the file system shows of the configured configuration folder.
#[derive(Debug, Clone, Copy, PartialEq, Eq, Structural)]
pub enum ConfigFolder {
    /// Not a directory, or not accessible.
    Unreadable,
    WithoutModsConfig,
    Complete,
}

/// The state of the configured folders, with each path as it is shown to
/// the user.
#[derive(Debug)]
pub struct FolderReport {
    pub rimworld: RimworldFolder,
    pub rimworld_text: String,
    pub config: ConfigFolder,
    pub config_text: String,
}

impl Default for FolderReport {
    fn default() -> (r: Self)
        ensures
            r.rimworld is Unreadable,
            r.config is Unreadable,
            r.rimworld_text@ == Seq::<char>::empty(),
            r.config_text@ == Seq::<char>::empty(),
    {
        FolderReport {
            rimworld: RimworldFolder::Unreadable,
            rimworld_text: String::new(),
            config: ConfigFolder::Unreadable,
            config_text: String::new(),
        }
    }
}

/// The complaint about the RimWorld folder, if there is one.
pub open spec fn rimworld_problem(
    configured: bool,
    folder: RimworldFolder,
    shown: Seq<char>,
) -> Option<Seq<char>> {
    if !configured {
        Some("Choose the RimWorld installation folder"@)
    } else {
        match folder {
            RimworldFolder::Unreadable => Some(
                "The RimWorld folder does not exist or is not accessible: "@ + shown,
            ),
            RimworldFolder::WithoutData => Some(
                "The selected folder does not contain RimWorld's Data folder"@,
            ),
            RimworldFolder::WithoutMods => Some(
                "The selected folder does not contain RimWorld's Mods folder"@,
            ),
            RimworldFolder::WithoutVersionFile => Some(
                "The selected folder does not contain RimWorld's Version.txt"@,
            ),
            RimworldFolder::Complete => None,
        }
    }
}

/// The complaint about the configuration folder, if there is one.
pub open spec fn config_problem(configured: bool, folder: ConfigFolder, shown: Seq<char>) -> Option<
    Seq<char>,
> {
    if !configured {
        Some("Choose the RimWorld configuration folder"@)
    } else {
        match folder {
            ConfigFolder::Unreadable => Some(
                "The configuration folder does not exist or is not accessible: "@ + shown,
            ),
            ConfigFolder::WithoutModsConfig => Some(
                "The selected folder does not contain ModsConfig.xml"@,
            ),
            ConfigFolder::Complete => None,
        }
    }
}

/// A text as an optional string view.
pub open spec fn text_view(t: Option<String>) -> Option<Seq<char>> {
    match t {
        Some(s) => Some(s@),
        None => None,
    }
}

/// A string holding `text`.
fn owned(text: &str) -> (r: String)
    ensures
        r@ == text@,
{
    let mut r = String::new();
    push_str(&mut r, text);
    r
}

/// `prefix` followed by `shown`.
fn owned_with(prefix: &str, shown: &String) -> (r: String)
    ensures
        r@ == prefix@ + shown@,
{
    let mut r = String::new();
    push_str(&mut r, prefix);
    push_str(&mut r, shown.as_str());
    r
}

impl Settings {
    /// Keeps every configured path and takes the discovered one where none
    /// is configured.
    pub fn fill_missing_from(&mut self, discovered: Self)
        ensures
            final(self).rimworld_path == (if old(self).rimworld_path is None {
                discovered.rimworld_path
            } else {
                old(self).rimworld_path
            }),
            final(self).workshop_path == (if old(self).workshop_path is None {
                discovered.workshop_path
            } else {
                old(self).workshop_path
            }),
            final(self).config_path == (if old(self).config_path is None {
                discovered.config_path
            } else {
                old(self).config_path
            }),
            final(self).steamcmd_path == old(self).steamcmd_path,
            final(self).steam_web_api_key == old(self).steam_web_api_key,
    {
        if self.rimworld_path.is_none() {
            self.rimworld_path = discovered.rimworld_path;
        }
        if self.workshop_path.is_none() {
            self.workshop_path = discovered.workshop_path;
        }
        if self.config_path.is_none() {
            self.config_path = discovered.config_path;
        }
    }

    /// The complaints about the configured folders, given what the file
    /// system shows of them. Workshop content is optional, and loading
    /// reports its absence as a warning, so it is never a complaint here.
    pub fn validate_paths(&self, report: &FolderReport) -> (r: SettingsErrors)
        ensures
            text_view(r.rimworld) == rimworld_problem(
                self.rimworld_path is Some,
                report.rimworld,
                report.rimworld_text@,
            ),
            text_view(r.config) == config_problem(
                self.config_path is Some,
                report.config,
                report.config_text@,
            ),
            r.workshop is None,
            r.general is None,
    {
        let rimworld = if self.rimworld_path.is_none() {
            Some(owned("Choose the RimWorld installation folder"))
        } else {
            match report.rimworld {
                RimworldFolder::Unreadable => Some(
                    owned_with(
                        "The RimWorld folder does not exist or is not accessible: ",
                        &report.rimworld_text,
                    ),
                ),
                RimworldFolder::WithoutData => Some(
                    owned("The selected folder does not contain RimWorld's Data folder"),
                ),
                RimworldFolder::WithoutMods => Some(
                    owned("The selected folder does not contain RimWorld's Mods folder"),
                ),
                RimworldFolder::WithoutVersionFile => Some(
                    owned("The selected folder does not contain RimWorld's Version.txt"),
                ),
                RimworldFolder::Complete => None,
            }
        };
        let config = if self.config_path.is_none() {
            Some(owned("Choose the RimWorld configuration folder"))
        } else {
            match report.config {
                ConfigFolder::Unreadable => Some(
                    owned_with(
                        "The configuration folder does not exist or is not accessible: ",
                        &report.config_text,
                    ),
                ),
                ConfigFolder::WithoutModsConfig => Some(
                    owned("The selected folder does not contain ModsConfig.xml"),
                ),
                ConfigFolder::Complete => None,
            }
        };
        SettingsErrors { rimworld, workshop: None, config, general: None }
    }

    /// The folder of the official content (`Data` in the RimWorld folder).
    pub fn official_path(&self) -> (r: Option<ModPath>)
        ensures
            path_option(r) == match self.rimworld_path {
                Some(p) => Some(joined_path(p@, "Data"@)),
                None => None,
            },
    {
        match &self.rimworld_path {
            Some(path) => Some(path.join("Data")),
            None => None,
        }
    }

    /// The folder of locally installed mods (`Mods` in the RimWorld folder).
    pub fn local_path(&self) -> (r: Option<ModPath>)
        ensures
            path_option(r) == match self.rimworld_path {
                Some(p) => Some(joined_path(p@, "Mods"@)),
                None => None,
            },
    {
        match &self.rimworld_path {
            Some(path) => Some(path.join("Mods")),
            None => None,
        }
    }

    pub fn rimworld_path(&self) -> (r: Option<&ModPath>)
        ensures
            r == match &self.rimworld_path {
                Some(p) => Some(p),
                None => None::<&ModPath>,
            },
    {
        self.rimworld_path.as_ref()
    }

    pub fn workshop_path(&self) -> (r: Option<&ModPath>)
        ensures
            r == match &self.workshop_path {
                Some(p) => Some(p),
                None => None::<&ModPath>,
            },
    {
        self.workshop_path.as_ref()
    }

    pub fn config_path(&self) -> (r: Option<&ModPath>)
        ensures
            r == match &self.config_path {
                Some(p) => Some(p),
                None => None::<&ModPath>,
            },
    {
        self.config_path.as_ref()
    }

    pub fn steamcmd_path(&self) -> (r: Option<&ModPath>)
        ensures
            r == match &self.steamcmd_path {
                Some(p) => Some(p),
                None => None::<&ModPath>,
            },
    {
        self.steamcmd_path.as_ref()
    }

    /// The Steam Web API key, trimmed, unless none is set.
    pub fn steam_web_api_key(&self) -> (r: Option<String>)
        ensures
            trim(self.steam_web_api_key@).len() == 0 ==> r is None,
            trim(self.steam_web_api_key@).len() > 0 ==> (r matches Some(k) && k@ == trim(
                self.steam_web_api_key@,
            )),
    {
        let key = trimmed(chars_of(self.steam_web_api_key.as_str()).as_slice());
        if key.len() == 0 {
            None
        } else {
            Some(string_from(key.as_slice()))
        }
    }
}

/// The folders the mods are read from, in load order, and the
/// configuration folder.
#[derive(Debug)]
pub struct ModRoots {
    /// The official content (`Data`), read first as it loads first.
    pub official: ModPath,
    /// The locally installed mods (`Mods`).
    pub local: ModPath,
    /// The folder holding ModsConfig.xml.
    pub config: ModPath,
}

pub open spec fn unconfigured_rimworld_message() -> Seq<char> {
    "RimWorld installation path is not configured"@
}

pub open spec fn unconfigured_config_message() -> Seq<char> {
    "RimWorld configuration path is not configured"@
}

/// The folders to load the mods from: refused while the RimWorld folder or
/// the configuration folder is not configured.
pub fn mod_roots(settings: &Settings) -> (r: Result<ModRoots, String>)
    ensures
        settings.rimworld_path is None ==> (r matches Err(m) && m@ == unconfigured_rimworld_message()),
        settings.rimworld_path is Some && settings.config_path is None ==> (r matches Err(m) && m@
            == unconfigured_config_message()),
        settings.rimworld_path is Some && settings.config_path is Some ==> (r matches Ok(roots)
            && roots.official@ == joined_path(settings.rimworld_path->0@, "Data"@) && roots.local@
            == joined_path(settings.rimworld_path->0@, "Mods"@) && roots.config@
            == settings.config_path->0@),
{
    let rimworld = match &settings.rimworld_path {
        Some(path) => path,
        None => {
            return Err(owned("RimWorld installation path is not configured"));
        },
    };
    let config = match &settings.config_path {
        Some(path) => path.copy(),
        None => {
            return Err(owned("RimWorld configuration path is not configured"));
        },
    };
    Ok(ModRoots { official: rimworld.join("Data"), local: rimworld.join("Mods"), config })
}

/// The path, when there is one, as a sequence of at most one path.
pub open spec fn present(p: Option<PathView>) -> Seq<PathView> {
    match p {
        Some(v) => seq![v],
        None => Seq::empty(),
    }
}

/// The Workshop folders to load, in order: the configured Steam folder
/// first, so that its copy of an item wins, then SteamCMD's.
pub fn workshop_roots(configured: Option<ModPath>, steamcmd: Option<ModPath>) -> (r: Vec<ModPath>)
    ensures
        r@.map_values(|p: ModPath| p@) == present(path_option(configured)) + present(
            path_option(steamcmd),
        ),
{
    let mut roots: Vec<ModPath> = Vec::new();
    if let Some(path) = configured {
        roots.push(path);
    }
    if let Some(path) = steamcmd {
        roots.push(path);
    }
    roots
}

/// The configuration folder under a Windows user profile:
/// `AppData\LocalLow\Ludeon Studios\RimWorld by Ludeon Studios\Config`.
pub fn windows_config_path(user_profile: &ModPath) -> (r: ModPath)
    ensures
        r@ == with_windows_config_parts(user_profile@),
{
    user_profile.join("AppData").join("LocalLow").join("Ludeon Studios").join(
        "RimWorld by Ludeon Studios",
    ).join("Config")
}

/// RimWorld's configuration folder under a Linux configuration folder.
fn linux_config_under(root: &ModPath) -> (r: ModPath)
    ensures
        r@ == with_linux_config_parts(root@),
{
    root.join("unity3d").join("Ludeon Studios").join("RimWorld by Ludeon Studios").join("Config")
}

/// The configuration folder on Linux: under `$XDG_CONFIG_HOME` when it is
/// set and not empty, else under `$HOME/.config`; none without either.
pub fn linux_config_path(config_home: Option<ModPath>, home: Option<ModPath>) -> (r: Option<ModPath>)
    ensures
        path_option(r) == linux_config_for(path_option(config_home), path_option(home)),
{
    if let Some(root) = &config_home {
        if !root.is_empty() {
            return Some(linux_config_under(root));
        }
    }
    match &home {
        Some(home) => Some(linux_config_under(&home.join(".config"))),
        None => None,
    }
}

/// The path typed into a settings field: none when the field is blank,
/// else the trimmed text.
pub fn path_from_input(input: &str) -> (r: Option<ModPath>)
    ensures
        r is None <==> trim(input@).len() == 0,
        r matches Some(p) ==> p@ == (trim(input@), Seq::<Seq<char>>::empty()),
{
    let text = trimmed(chars_of(input).as_slice());
    if text.len() == 0 {
        None
    } else {
        Some(ModPath::new(string_from(text.as_slice())))
    }
}

/// The text shown in a settings field for a path: empty for none, else the
/// path's text (see `ModPath::text`).
pub fn path_to_input(path: Option<&ModPath>) -> (r: String)
    ensures
        path is None ==> r@ == Seq::<char>::empty(),
        path matches Some(p) ==> path_text_fits(p@, r@),
{
    match path {
        Some(path) => path.text(),
        None => String::new(),
    }
}

/// Whether the mod lists reflect ModsConfig.xml and may be saved.
#[derive(Debug, Clone, PartialEq, Eq)]
pub enum LoadOrderStatus {
    Unavailable { reason: String },
    Ready,
}

impl LoadOrderStatus {
    pub fn can_save(&self) -> (r: bool)
        ensures
            r <==> self is Ready,
    {
        match self {
            LoadOrderStatus::Ready => true,
            LoadOrderStatus::Unavailable { .. } => false,
        }
    }
}

impl Default for LoadOrderStatus {
    fn default() -> (r: Self)
        ensures
            r matches LoadOrderStatus::Unavailable { reason } && reason@ == "Unknown"@,
    {
        LoadOrderStatus::Unavailable { reason: owned("Unknown") }
    }
}

/// The game version read from Version.txt (already trimmed), or the reason
/// it cannot be used.
pub fn checked_game_version(read: Result<String, String>) -> (r: Result<String, String>)
    ensures
        match read {
            Ok(v) => if v@.len() > 0 {
                r == Ok::<String, String>(v)
            } else {
                r matches Err(m) && m@ == "RimWorld's Version.txt is empty"@
            },
            Err(e) => r matches Err(m) && m@ == "Could not read RimWorld version: "@ + e@,
        },
{
    match read {
        Ok(version) => {
            if chars_of(version.as_str()).len() > 0 {
                Ok(version)
            } else {
                Err(owned("RimWorld's Version.txt is empty"))
            }
        },
        Err(error) => Err(owned_with("Could not read RimWorld version: ", &error)),
    }
}

} // verus!
