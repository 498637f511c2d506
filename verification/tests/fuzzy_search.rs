use rimmod::paths::ModPath;

use rimmod::fuzzy_search::{fuzzy_mod_indices, query_word_count, rank_by_score, FuzzySearch};
use rimmod::models::{ModId, ModSource, ModType, PackageId, RimworldMod};

fn named_mod(name: &str) -> RimworldMod {
    RimworldMod {
        name: name.to_owned(),
        package_id: PackageId::new("example.mod").expect("valid package ID"),
        description: String::new(),
        supported_versions: Vec::new(),
        community_supported_versions: Vec::new(),
        loader_after: Vec::new(),
        loader_before: Vec::new(),
        folder: ModPath::new(String::new()),
        source: ModSource::Local,
        mod_type: ModType::Xml,
    }
}

#[test]
fn ranking_puts_higher_scores_first_and_drops_misses() {
    assert_eq!(
        rank_by_score(&[Some(3), None, Some(9), Some(3), Some(5)]),
        [2, 4, 0, 3]
    );
    assert!(rank_by_score(&[None, None]).is_empty());
}

#[test]
fn blank_queries_keep_every_listed_mod() {
    let all_mods = vec![named_mod("Alpha"), named_mod("Beta")];
    let mut search = FuzzySearch::new();

    assert_eq!(
        fuzzy_mod_indices(
            &all_mods,
            &[ModId::from_index(1), ModId::from_index(0)],
            "   ",
            &mut search
        ),
        [0, 1]
    );
}

#[test]
fn fuzzy_queries_keep_only_matching_names() {
    let all_mods = vec![
        named_mod("Harmony"),
        named_mod("Combat Extended"),
        named_mod("Vanilla Expanded Framework"),
    ];
    let ids = [ModId::from_index(0), ModId::from_index(1), ModId::from_index(2)];
    let mut search = FuzzySearch::new();

    let found = fuzzy_mod_indices(&all_mods, &ids, "expanded", &mut search);
    assert_eq!(found, [2]);

    let found = fuzzy_mod_indices(&all_mods, &ids, "COMBAT", &mut search);
    assert_eq!(found, [1]);

    let found = fuzzy_mod_indices(&all_mods, &ids, "zzzz", &mut search);
    assert!(found.is_empty());
}

#[test]
fn query_words_are_counted_at_spaces() {
    assert_eq!(query_word_count(""), 0);
    assert_eq!(query_word_count("   "), 0);
    assert_eq!(query_word_count("combat"), 1);
    assert_eq!(query_word_count(" combat  extended "), 2);
    assert_eq!(query_word_count("a b\tc"), 2);
}
