//! The texts that the interface shows for the library's data: load-order
//! warnings, version badges, source links and open targets.
use vstd::prelude::*;

use crate::mod_sorter::OrderWarning;
use crate::models::{
    highest_supported_version, lemma_newest_index, major_minor_text, major_minor_version_text, newest_index,
    support_of, version_support, RimworldMod, VersionSupport,
};
use crate::no_version_warning::CoveredMods;
use crate::paths::{path_text_fits, ModPath};
use crate::text::{
    chars_of, joined, matches_at, occurs_at, position_of_char, push_chars, push_joined, push_str,
    slice_range, string_from, string_views, trim, trimmed,
};

verus! {

/// The names of the mods with the given ids.
pub open spec fn mod_names(all: Seq<RimworldMod>, ids: Seq<crate::models::ModId>) -> Seq<Seq<char>> {
    ids.map_values(|id: crate::models::ModId| all[id.0 as int].name@)
}

/// The lines of a load-order warning: the mods to move below, then the
/// mods to move above, each line only when it names a mod.
pub open spec fn warning_lines(all: Seq<RimworldMod>, w: OrderWarning) -> Seq<Seq<char>> {
    let below = if w.after_mod_ids@.len() > 0 {
        seq!["Move below: "@ + joined(mod_names(all, w.after_mod_ids@), ", "@)]
    } else {
        Seq::empty()
    };
    let above = if w.before_mod_ids@.len() > 0 {
        seq!["Move above: "@ + joined(mod_names(all, w.before_mod_ids@), ", "@)]
    } else {
        Seq::empty()
    };
    below + above
}

/// Every id of the warning names a mod.
pub open spec fn names_known_mods(all: Seq<RimworldMod>, w: OrderWarning) -> bool {
    &&& forall|i: int| 0 <= i < w.after_mod_ids@.len() ==> (#[trigger] w.after_mod_ids@[i]).0 < all.len()
    &&& forall|i: int| 0 <= i < w.before_mod_ids@.len() ==> (#[trigger] w.before_mod_ids@[i]).0 < all.len()
}

/// The names of the mods with the given ids.
fn names_of(all_mods: &[RimworldMod], ids: &[crate::models::ModId]) -> (r: Vec<String>)
    requires
        forall|i: int| 0 <= i < ids@.len() ==> (#[trigger] ids@[i]).0 < all_mods@.len(),
    ensures
        string_views(r@) == mod_names(all_mods@, ids@),
{
    let mut r: Vec<String> = Vec::new();
    for i in 0..ids.len()
        invariant
            forall|k: int| 0 <= k < ids@.len() ==> (#[trigger] ids@[k]).0 < all_mods@.len(),
            string_views(r@) == mod_names(all_mods@, ids@.take(i as int)),
    {
        let ghost prev = r@;
        r.push(all_mods[ids[i].0].name.clone());
        assert(ids@.take(i + 1) == ids@.take(i as int).push(ids@[i as int]));
        assert(string_views(r@) == string_views(prev).push(all_mods@[ids@[i as int].0 as int].name@));
    }
    assert(ids@.take(ids@.len() as int) == ids@);
    r
}

/// The tooltip of a mod whose place breaks its load rules.
pub fn order_warning_text(warning: &OrderWarning, all_mods: &[RimworldMod]) -> (r: String)
    requires
        names_known_mods(all_mods@, *warning),
    ensures
        r@ == joined(warning_lines(all_mods@, *warning), "\n"@),
{
    let mut lines: Vec<String> = Vec::new();
    if warning.after_mod_ids.len() > 0 {
        let names = names_of(all_mods, warning.after_mod_ids.as_slice());
        let mut line = String::new();
        push_str(&mut line, "Move below: ");
        push_joined(&mut line, names.as_slice(), ", ");
        lines.push(line);
    }
    let ghost first = string_views(lines@);
    if warning.before_mod_ids.len() > 0 {
        let names = names_of(all_mods, warning.before_mod_ids.as_slice());
        let mut line = String::new();
        push_str(&mut line, "Move above: ");
        push_joined(&mut line, names.as_slice(), ", ");
        lines.push(line);
        assert(string_views(lines@) == first.push(line@));
    }
    assert(string_views(lines@) == warning_lines(all_mods@, *warning));
    let mut r = String::new();
    push_joined(&mut r, lines.as_slice(), "\n");
    r
}

/// The colors a version badge can have.
#[derive(Debug, Clone, Copy, PartialEq, Eq, Structural)]
pub enum BadgeColor {
    LightGreen,
    LightYellow,
    Gray,
}

/// The badge that shows how a mod's version data relates to the game.
#[derive(Debug, PartialEq)]
pub struct VersionBadge {
    pub text: String,
    pub color: BadgeColor,
    pub community_report: bool,
    pub hover: String,
}

/// The badge a mod gets for the running game version, as text, color,
/// whether a community report gives it, and hover text.
pub open spec fn badge_of(
    supported: Seq<Seq<char>>,
    community: Seq<Seq<char>>,
    game_version: Option<Seq<char>>,
) -> Option<(Seq<char>, BadgeColor, bool, Seq<char>)> {
    match game_version {
        None => None,
        Some(gv) => match major_minor_text(gv) {
            None => None,
            Some(mm) => match support_of(supported, community, gv) {
                VersionSupport::Official => Some(
                    (
                        mm,
                        BadgeColor::LightGreen,
                        false,
                        "Supports the installed RimWorld version ("@ + mm + ")"@,
                    ),
                ),
                VersionSupport::Community => Some(
                    (
                        mm,
                        BadgeColor::LightYellow,
                        true,
                        "Not listed for RimWorld "@ + mm
                            + ", but a No Version Warning community report says it works"@,
                    ),
                ),
                VersionSupport::Unsupported => match newest_index(supported) {
                    None => None,
                    Some(k) => Some(
                        (
                            supported[k],
                            BadgeColor::Gray,
                            false,
                            "Does not support RimWorld "@ + mm
                                + "; the newest supported version is "@ + supported[k],
                        ),
                    ),
                },
            },
        },
    }
}

/// The view of an optional string slice.
pub open spec fn opt_text(t: Option<&str>) -> Option<Seq<char>> {
    match t {
        Some(s) => Some(s@),
        None => None,
    }
}

/// The version badge of a mod for the running game version: the game's
/// "major.minor" in green when the mod lists it, in yellow when only a
/// community report does, else its newest listed version in gray; no
/// badge without a readable game version or any listed version.
pub fn version_badge(rimworld_mod: &RimworldMod, game_version: Option<&str>) -> (r: Option<
    VersionBadge,
>)
    ensures
        match badge_of(
            string_views(rimworld_mod.supported_versions@),
            string_views(rimworld_mod.community_supported_versions@),
            opt_text(game_version),
        ) {
            None => r is None,
            Some((text, color, community, hover)) => r matches Some(b) && b.text@ == text
                && b.color == color && b.community_report == community && b.hover@ == hover,
        },
{
    let game_version = match game_version {
        Some(v) => v,
        None => {
            return None;
        },
    };
    let game_version_text = match major_minor_version_text(game_version) {
        Some(t) => t,
        None => {
            return None;
        },
    };
    match version_support(
        rimworld_mod.supported_versions.as_slice(),
        rimworld_mod.community_supported_versions.as_slice(),
        game_version,
    ) {
        VersionSupport::Official => {
            let mut hover = String::new();
            push_str(&mut hover, "Supports the installed RimWorld version (");
            push_str(&mut hover, game_version_text.as_str());
            push_str(&mut hover, ")");
            Some(
                VersionBadge {
                    text: game_version_text,
                    color: BadgeColor::LightGreen,
                    community_report: false,
                    hover,
                },
            )
        },
        VersionSupport::Community => {
            let mut hover = String::new();
            push_str(&mut hover, "Not listed for RimWorld ");
            push_str(&mut hover, game_version_text.as_str());
            push_str(&mut hover, ", but a No Version Warning community report says it works");
            Some(
                VersionBadge {
                    text: game_version_text,
                    color: BadgeColor::LightYellow,
                    community_report: true,
                    hover,
                },
            )
        },
        VersionSupport::Unsupported => {
            proof {
                lemma_newest_index(string_views(rimworld_mod.supported_versions@));
            }
            let newest = match highest_supported_version(rimworld_mod.supported_versions.as_slice()) {
                Some(v) => v,
                None => {
                    return None;
                },
            };
            let mut text = String::new();
            push_str(&mut text, newest);
            let mut hover = String::new();
            push_str(&mut hover, "Does not support RimWorld ");
            push_str(&mut hover, game_version_text.as_str());
            push_str(&mut hover, "; the newest supported version is ");
            push_str(&mut hover, newest);
            Some(VersionBadge { text, color: BadgeColor::Gray, community_report: false, hover })
        },
    }
}

/// `s` without every trailing ".git" (`str::trim_end_matches`).
pub open spec fn without_git_suffix(s: Seq<char>) -> Seq<char>
    decreases s.len(),
{
    if s.len() >= 4 && s.skip(s.len() - 4) == ".git"@ {
        without_git_suffix(s.take(s.len() - 4))
    } else {
        s
    }
}

/// The web page of a Git remote: an `http(s)` address as it is, an SSH
/// address `git@host:path` as `https://host/path`, each without the
/// trailing ".git"; none for other forms.
pub open spec fn remote_web_url(remote_url: Seq<char>) -> Option<Seq<char>> {
    let url = without_git_suffix(trim(remote_url));
    if occurs_at(url, "https://"@, 0) || occurs_at(url, "http://"@, 0) {
        Some(url)
    } else if occurs_at(url, "git@"@, 0) {
        let ssh = url.skip(4);
        let colon = crate::id_lists::first_index(ssh, ':');
        if colon < ssh.len() {
            Some("https://"@ + ssh.take(colon) + "/"@ + ssh.skip(colon + 1))
        } else {
            None
        }
    } else {
        None
    }
}

/// Converts a Git remote to the page a browser opens, e.g.
/// `https://github.com/user/repository.git` or
/// `git@github.com:user/repository.git` to
/// `https://github.com/user/repository`.
pub fn git_remote_web_url(remote_url: &str) -> (r: Option<String>)
    ensures
        r matches Some(u) ==> remote_web_url(remote_url@) == Some(u@),
        r is None ==> remote_web_url(remote_url@) is None,
{
    let mut url = trimmed(chars_of(remote_url).as_slice());
    let suffix = chars_of(".git");
    proof {
        reveal_strlit(".git");
    }
    while url.len() >= 4 && matches_at(url.as_slice(), suffix.as_slice(), url.len() - 4)
        invariant
            suffix@ == ".git"@,
            without_git_suffix(url@) == without_git_suffix(trim(remote_url@)),
        decreases url@.len(),
    {
        let ghost before = url@;
        proof {
            reveal_strlit(".git");
        }
        assert(before.subrange(before.len() - 4, before.len() as int) == before.skip(before.len() - 4));
        let end = url.len() - 4;
        url = slice_range(url.as_slice(), 0, end);
        assert(url@ == before.take(before.len() - 4));
    }
    proof {
        if url@.len() >= 4 {
            assert(url@.subrange(url@.len() - 4, url@.len() as int) == url@.skip(url@.len() - 4));
        }
    }
    assert(without_git_suffix(url@) == url@);
    let https = chars_of("https://");
    let http = chars_of("http://");
    if matches_at(url.as_slice(), https.as_slice(), 0) || matches_at(url.as_slice(), http.as_slice(), 0) {
        return Some(string_from(url.as_slice()));
    }
    let git = chars_of("git@");
    if !matches_at(url.as_slice(), git.as_slice(), 0) {
        return None;
    }
    proof {
        reveal_strlit("git@");
    }
    let ssh = slice_range(url.as_slice(), 4, url.len());
    assert(ssh@ == url@.skip(4));
    let colon = position_of_char(ssh.as_slice(), ':');
    if colon >= ssh.len() {
        return None;
    }
    let host = slice_range(ssh.as_slice(), 0, colon);
    let path = slice_range(ssh.as_slice(), colon + 1, ssh.len());
    assert(host@ == ssh@.take(colon as int));
    assert(path@ == ssh@.skip(colon + 1));
    let mut r = String::new();
    push_str(&mut r, "https://");
    push_chars(&mut r, host.as_slice());
    push_str(&mut r, "/");
    push_chars(&mut r, path.as_slice());
    Some(r)
}

/// Something the interface asks the system to open.
#[derive(Debug, Clone)]
pub enum OpenTarget {
    Folder(ModPath),
    Url(String),
}

impl OpenTarget {
    /// The target as named in messages: "folder <path>" or "URL <address>".
    pub fn description(&self) -> (r: String)
        ensures
            self matches OpenTarget::Url(u) ==> r@ == "URL "@ + u@,
            self matches OpenTarget::Folder(_) ==> r@.len() >= 7 && r@.take(7) == "folder "@,
            self matches OpenTarget::Folder(p) ==> path_text_fits(p@, r@.skip(7)),
    {
        let mut r = String::new();
        match self {
            OpenTarget::Folder(path) => {
                push_str(&mut r, "folder ");
                let shown = path.text();
                let ghost start = r@;
                push_str(&mut r, shown.as_str());
                proof {
                    reveal_strlit("folder ");
                    assert(r@.take(7) == start);
                    assert(r@.skip(7) == shown@);
                }
            },
            OpenTarget::Url(url) => {
                push_str(&mut r, "URL ");
                push_str(&mut r, url.as_str());
            },
        }
        r
    }
}

/// Where the community compatibility list stands.
pub enum CoveredModsState<'a> {
    Loading,
    Ready(&'a CoveredMods),
    Failed(String),
}

impl<'a> CoveredModsState<'a> {
    /// The list, once it has loaded.
    pub fn ready_mods(&self) -> (r: Option<&'a CoveredMods>)
        ensures
            match self {
                CoveredModsState::Ready(m) => r == Some(*m),
                _ => r is None,
            },
    {
        match self {
            CoveredModsState::Ready(covered_mods) => Some(*covered_mods),
            _ => None,
        }
    }
}

} // verus!
