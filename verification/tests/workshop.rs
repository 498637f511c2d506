use rimmod::paths::ModPath;

use rimmod::models::{ModCollection, ModId, ModSource, ModType, PackageId, RimworldMod};
use rimmod::workshop::{
    contains_item_marker, extract_supported_versions, install_failure_message,
    install_finished_notice, install_start_notice, steamcmd_content_folder, installed_workshop_mod, prepare_query,
    short_description, steamcmd_failure_details, steamcmd_install_result,
    steamcmd_output_reports_failure, workshop_page_from, PublishedFileDetails, SteamTag,
    WorkshopItem, WorkshopLoadStatus, WorkshopPage, WorkshopSort, WorkshopState,
};

#[test]
fn text_search_uses_relevance_ranking() {
    assert_eq!(WorkshopSort::Popular.query_type(true), 12);
    assert_eq!(WorkshopSort::Updated.query_type(true), 12);
}

#[test]
fn empty_search_uses_selected_ranking() {
    assert_eq!(WorkshopSort::Popular.query_type(false), 0);
    assert_eq!(WorkshopSort::MostSubscribed.query_type(false), 9);
    assert_eq!(WorkshopSort::Recent.query_type(false), 1);
    assert_eq!(WorkshopSort::Updated.query_type(false), 21);
}

#[test]
fn workshop_page_url_contains_item_id() {
    let item = WorkshopItem {
        published_file_id: 123,
        title: String::new(),
        description: String::new(),
        preview_url: None,
        subscriptions: None,
        supported_versions: Vec::new(),
    };

    assert_eq!(
        item.page_url(),
        "https://steamcommunity.com/sharedfiles/filedetails/?id=123"
    );
}

#[test]
fn version_tags_become_sorted_supported_versions() {
    let tags = ["Mod", "1.6", "1.5", "1.4", "not a version", "1.4"]
        .map(|tag| SteamTag {
            tag: tag.to_owned(),
        })
        .into();

    assert_eq!(extract_supported_versions(tags), ["1.4", "1.5", "1.6"]);
}

#[test]
fn steamcmd_failure_text_is_detected_even_with_a_zero_exit_code() {
    assert!(steamcmd_output_reports_failure(
        "ERROR! Download item 123 failed (Failure).",
        ""
    ));
    assert!(!steamcmd_output_reports_failure(
        "Success. Downloaded item 123",
        ""
    ));
}

#[test]
fn success_markers_match_only_the_requested_item() {
    let output = "Success. Downloaded item 123 to \"workshop/content/294100/123\" (10 bytes)\n\
                  Success. Downloaded item 1234 to \"workshop/content/294100/1234\" (10 bytes)";

    assert!(contains_item_marker(
        &output.to_ascii_lowercase(),
        "success. downloaded item ",
        123
    ));
    assert!(contains_item_marker(
        &output.to_ascii_lowercase(),
        "success. downloaded item ",
        1234
    ));
    assert!(!contains_item_marker(
        &output.to_ascii_lowercase(),
        "success. downloaded item ",
        12
    ));
    assert!(!contains_item_marker(
        &output.to_ascii_lowercase(),
        "success. downloaded item ",
        999
    ));
}

#[test]
fn failure_markers_match_only_the_requested_item() {
    let output = "ERROR! Download item 123 failed (Timeout).";

    assert!(contains_item_marker(
        &output.to_ascii_lowercase(),
        "error! download item ",
        123
    ));
    assert!(!contains_item_marker(
        &output.to_ascii_lowercase(),
        "error! download item ",
        1234
    ));
    assert!(!contains_item_marker(
        &output.to_ascii_lowercase(),
        "error! download item ",
        1
    ));
}

#[test]
fn item_outcomes_ignore_success_lines_of_other_items() {
    let output = "Success. Downloaded item 100\nERROR! Download item 200 failed (Failure).";
    let lowercase = output.to_ascii_lowercase();

    assert!(contains_item_marker(
        &lowercase,
        "success. downloaded item ",
        100
    ));
    assert!(!contains_item_marker(
        &lowercase,
        "success. downloaded item ",
        200
    ));
    assert!(contains_item_marker(
        &lowercase,
        "error! download item ",
        200
    ));
    assert!(!contains_item_marker(
        &lowercase,
        "error! download item ",
        100
    ));
}

#[test]
fn description_shortening_respects_utf8_characters() {
    let description = "🙂".repeat(301);
    let shortened = short_description(&description);

    assert_eq!(shortened.chars().count(), 301);
    assert!(shortened.ends_with('…'));
}

fn workshop_mod(package: &str, workshop_id: u64) -> RimworldMod {
    RimworldMod {
        name: package.to_owned(),
        package_id: PackageId::new(package).expect("valid package ID"),
        description: String::new(),
        supported_versions: vec!["1.5".to_owned()],
        community_supported_versions: Vec::new(),
        loader_after: Vec::new(),
        loader_before: Vec::new(),
        folder: ModPath::new(String::new()),
        source: ModSource::SteamWorkshop { workshop_id },
        mod_type: ModType::Xml,
    }
}

#[test]
fn installed_mod_lookup_matches_the_workshop_id() {
    let local = RimworldMod {
        source: ModSource::Local,
        ..workshop_mod("example.local", 0)
    };
    let workshop = workshop_mod("example.workshop", 1234);
    let mods = ModCollection::new(
        vec![local, workshop],
        vec![ModId::from_index(0), ModId::from_index(1)],
        Vec::new(),
        Vec::new(),
    );

    let found = installed_workshop_mod(&mods, 1234).expect("workshop mod");
    assert_eq!(found.package_id.as_str(), "example.workshop");

    assert!(installed_workshop_mod(&mods, 9999).is_none());
}

#[test]
fn short_descriptions_are_kept_whole() {
    assert_eq!(short_description("A short text"), "A short text");
    let exactly = "x".repeat(300);
    assert_eq!(short_description(&exactly), exactly);
}

#[test]
fn queries_need_an_api_key() {
    let refused = prepare_query("  ", "rimworld", WorkshopSort::Popular, 1);
    assert_eq!(
        refused.map(|q| q.page),
        Err("Add a Steam Web API key in Settings before searching".to_owned())
    );

    let query = prepare_query(" KEY ", "  farming ", WorkshopSort::Recent, 0).expect("query");
    assert_eq!(query.api_key, "KEY");
    assert_eq!(query.search_text, "farming");
    assert_eq!(query.query_type, 12);
    assert_eq!(query.page, 1);
    assert_eq!(query.per_page, 30);
    assert_eq!(query.app_id, 294100);

    let browse = prepare_query("KEY", "", WorkshopSort::Recent, 3).expect("query");
    assert_eq!(browse.query_type, 1);
    assert_eq!(browse.page, 3);
}

fn details(id: &str, preview: &str, tags: &[&str]) -> PublishedFileDetails {
    PublishedFileDetails {
        publishedfileid: id.to_owned(),
        title: format!("Item {id}"),
        short_description: "About it".to_owned(),
        preview_url: preview.to_owned(),
        subscriptions: Some(7),
        tags: tags
            .iter()
            .map(|tag| SteamTag {
                tag: (*tag).to_owned(),
            })
            .collect(),
    }
}

#[test]
fn catalog_pages_skip_items_without_a_numeric_id() {
    let page = workshop_page_from(
        vec![
            details("12", "https://example.com/p.png", &["1.5", "Mod"]),
            details("not a number", "", &[]),
            details("34", "", &[]),
        ],
        99,
    );

    assert_eq!(page.total, 99);
    assert_eq!(page.items.len(), 2);
    assert_eq!(page.items[0].published_file_id, 12);
    assert_eq!(page.items[0].title, "Item 12");
    assert_eq!(
        page.items[0].preview_url.as_deref(),
        Some("https://example.com/p.png")
    );
    assert_eq!(page.items[0].supported_versions, ["1.5"]);
    assert_eq!(page.items[1].published_file_id, 34);
    assert_eq!(page.items[1].preview_url, None);
}

#[test]
fn failure_details_prefer_error_lines() {
    assert_eq!(
        steamcmd_failure_details("warning\n  Fatal ERROR here  \n", "ok"),
        "Fatal ERROR here"
    );
    assert_eq!(steamcmd_failure_details("", "first\n last line "), "last line");
    assert_eq!(steamcmd_failure_details("", ""), "");
}

#[test]
fn install_results_quote_the_failure() {
    assert_eq!(
        steamcmd_install_result(true, "exit status: 0", "Success. Downloaded item 5", ""),
        Ok(())
    );
    assert_eq!(
        steamcmd_install_result(
            true,
            "exit status: 0",
            "ERROR! Download item 5 failed (Failure).",
            ""
        ),
        Err("SteamCMD reported a failure: ERROR! Download item 5 failed (Failure).".to_owned())
    );
    assert_eq!(
        steamcmd_install_result(false, "exit status: 1", "", "boom failed"),
        Err("SteamCMD exited with exit status: 1: boom failed".to_owned())
    );
    assert_eq!(
        steamcmd_install_result(false, "exit status: 1", "", ""),
        Err("SteamCMD exited with exit status: 1".to_owned())
    );
}

#[test]
fn install_notices_name_the_item() {
    assert_eq!(install_start_notice(42), "Installing Workshop item 42...");
    assert_eq!(
        install_finished_notice(42, true),
        "Workshop item 42 installed and added to the Mods list"
    );
    assert_eq!(
        install_finished_notice(42, false),
        "SteamCMD finished, but item 42 was not found in the configured Workshop folder"
    );
    assert_eq!(
        install_failure_message(42, "no space"),
        "Could not install Workshop item 42: no space"
    );
}

#[test]
fn workshop_searches_run_one_at_a_time() {
    let mut state = WorkshopState::default();
    state.query = "farm".to_owned();

    assert!(state.begin_query(None, 1).is_none());
    assert_eq!(
        state.load_status,
        WorkshopLoadStatus::Error("Add a Steam Web API key in Settings before searching".to_owned())
    );

    let job = state.begin_query(Some("KEY".to_owned()), 0).expect("search");
    assert_eq!(job.page, 1);
    assert_eq!(job.query, "farm");
    assert_eq!(state.load_status, WorkshopLoadStatus::Loading);
    assert!(state.begin_query(Some("KEY".to_owned()), 2).is_none());

    state.finish_query(Ok(WorkshopPage {
        items: Vec::new(),
        total: 5,
    }));
    assert_eq!(state.load_status, WorkshopLoadStatus::Ready);
    assert_eq!(state.page, 1);
    assert_eq!(state.total, 5);
    assert_eq!(state.pending_page, None);

    state.begin_query(Some("KEY".to_owned()), 2).expect("search");
    state.query_worker_stopped();
    assert_eq!(
        state.load_status,
        WorkshopLoadStatus::Error("The Workshop search worker stopped unexpectedly".to_owned())
    );
    assert_eq!(state.page, 1);
}

#[test]
fn workshop_installs_run_one_at_a_time() {
    let mut state = WorkshopState::default();

    assert!(state.begin_install(7));
    assert!(!state.begin_install(8));
    assert_eq!(state.installing_item, Some(7));
    state.finish_install();
    assert_eq!(state.installing_item, None);
}

#[test]
fn steamcmd_keeps_items_in_its_content_folder() {
    let folder = steamcmd_content_folder(&ModPath::new("/opt/steamcmd".to_owned()));
    assert_eq!(folder.base, "/opt/steamcmd");
    assert_eq!(folder.parts, ["steamapps", "workshop", "content", "294100"]);
}
