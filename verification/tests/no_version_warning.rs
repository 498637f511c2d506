use rimmod::no_version_warning::parse_covered_mods;

#[test]
fn parses_versions_and_workshop_ids() {
    let markdown = "\
# Currently covered mods
## 1.6
Some intro text that is not a link
- [Fuse Plus - Retexture](https://steamcommunity.com/sharedfiles/filedetails/?id=2525222816)
## 1.4
- [An old mod](https://steamcommunity.com/sharedfiles/filedetails/?id=111)
";

    let covered = parse_covered_mods(markdown);

    assert_eq!(covered.get(&2525222816), Some(&vec!["1.6".to_owned()]));
    assert_eq!(covered.get(&111), Some(&vec!["1.4".to_owned()]));
    assert!(!covered.contains_key(&2222));
}

#[test]
fn mods_covered_for_multiple_versions_accumulate() {
    let markdown = "\
## 1.5
- [A mod](https://steamcommunity.com/sharedfiles/filedetails/?id=42)
## 1.6
- [A mod](https://steamcommunity.com/sharedfiles/filedetails/?id=42)
";

    let covered = parse_covered_mods(markdown);

    assert_eq!(
        covered.get(&42),
        Some(&vec!["1.5".to_owned(), "1.6".to_owned()])
    );
}

#[test]
fn duplicate_listings_are_ignored() {
    let markdown = "\
## 1.6
- [A mod](https://steamcommunity.com/sharedfiles/filedetails/?id=42)
- [A mod](https://steamcommunity.com/sharedfiles/filedetails/?id=42)
";

    let covered = parse_covered_mods(markdown);

    assert_eq!(covered.get(&42), Some(&vec!["1.6".to_owned()]));
}

#[test]
fn entries_before_any_version_heading_are_ignored() {
    let markdown = "\
- [Early mod](https://steamcommunity.com/sharedfiles/filedetails/?id=7)
## 1.6
- [A mod](https://steamcommunity.com/sharedfiles/filedetails/?id=42)
";

    let covered = parse_covered_mods(markdown);

    assert!(!covered.contains_key(&7));
    assert!(covered.contains_key(&42));
}

#[test]
fn links_without_an_id_or_digits_are_skipped() {
    let markdown = "\
  ##   1.6  \r
- [No id](https://steamcommunity.com/sharedfiles/filedetails/?x=1)
- [No digits](https://steamcommunity.com/sharedfiles/filedetails/?id=abc)
- [Too big](https://steamcommunity.com/sharedfiles/filedetails/?id=99999999999999999999)
- [Digits then text](https://steamcommunity.com/sharedfiles/filedetails/?id=55&x=1)
- [Plain http](http://steamcommunity.com/sharedfiles/filedetails/?id=66)
";

    let covered = parse_covered_mods(markdown);

    assert_eq!(covered.len(), 1);
    assert_eq!(covered.get(&55), Some(&vec!["1.6".to_owned()]));
}

#[test]
fn an_empty_list_covers_nothing() {
    assert!(parse_covered_mods("").is_empty());
    assert!(parse_covered_mods("## 1.6\n").is_empty());
}
