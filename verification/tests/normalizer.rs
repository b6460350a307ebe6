use gamerank::normalize::{normalize, normalize_title};
use gamerank::text_utils::{format_display_title, TitleNormalizer};
use gamerank::utils::{are_titles_same_game, clean_name, get_normalization_map, normalize_source};

#[test]
fn test_title_normalization() {
    assert_eq!(normalize_title("Baldur's Gate III"), "baldurs gate 3");
    assert_eq!(normalize_title("baldur s gate 3"), "baldurs gate 3");
    assert_eq!(normalize_title("Baldur's Gate"), "baldurs gate");
    assert_eq!(normalize_title("baldur s gate"), "baldurs gate");
    assert_eq!(normalize_title("Grand Theft Auto V"), "grand theft auto 5");
    assert_eq!(normalize_title("Grand Theft Auto 5"), "grand theft auto 5");
    assert_eq!(normalize_title("Half-Life 2"), "halflife 2");
    assert_eq!(normalize_title("Half Life 2"), "halflife 2");
    assert_eq!(normalize_title("HalfLife 2"), "halflife 2");
    assert_eq!(normalize_title("Counter-Strike 2"), "counterstrike 2");
    assert_eq!(normalize_title("Counter Strike 2"), "counterstrike 2");
    assert_eq!(normalize_title("God of War (2018)"), "god of war");
    assert_eq!(normalize_title("God of War"), "god of war");
}

#[test]
fn test_title_formatting() {
    assert_eq!(format_display_title("dave the diver"), "Dave the Diver");
    assert_eq!(format_display_title("god of war"), "God of War");
    assert_eq!(format_display_title("control"), "Control");
}

#[test]
fn normalize_is_idempotent_on_ordinary_titles() {
    let samples = [
        "Baldur's Gate III",
        "God of War (2018)",
        "Half-Life 2",
        "THE ELDER SCROLLS V: SKYRIM",
        "Portal 2 (full release)",
        "  Sekiro:   Shadows Die Twice  ",
        "",
        "!!!",
    ];
    for s in samples {
        let once = normalize(s);
        let twice = normalize(&once);
        assert_eq!(once, twice);
    }
}

#[test]
fn normalize_strips_status_and_stop_words() {
    assert_eq!(normalize("Hades (early access)"), "hades");
    assert_eq!(normalize("Hades early access"), "hades");
    assert_eq!(normalize("Skyrim (full release)"), "skyrim");
    assert_eq!(normalize("The Witcher 3: Wild Hunt - Complete Edition"), "witcher 3 wild hunt");
    assert_eq!(normalize("Control Ultimate Edition"), "control");
}

#[test]
fn normalize_converts_romans_and_number_words() {
    assert_eq!(normalize("Final Fantasy XV"), "fantasy 15");
    // "final" is on the stop list, so the qualifier drops out of the key
    assert_eq!(normalize("Final Fantasy VII"), "fantasy 7");
    assert_eq!(normalize("Final Fantasy 7"), "fantasy 7");
    assert_eq!(normalize("Star Wars: Episode one racer"), "star wars episode 1 racer");
    assert_eq!(normalize("Left 4 Dead"), "left 4 dead");
}

#[test]
fn normalize_decomposes_unicode() {
    // NFKD splits the accented letter into a base letter and a combining
    // mark; an identity stand-in for the decomposition would keep the
    // precomposed character.
    assert_eq!(normalize("Pok\u{e9}mon"), "pok\u{65}\u{301}mon");
}

#[test]
fn display_formatting_uppercases_unicode_first_letters() {
    assert_eq!(format_display_title("\u{e9}mile the explorer"), "\u{c9}mile the Explorer");
    assert_eq!(TitleNormalizer::format_for_display("war of the worlds"), "War of the Worlds");
}

#[test]
fn source_labels_are_fixed_for_known_sites() {
    assert_eq!(normalize_source("https://www.rockpapershotgun.com/best"), "RPS");
    assert_eq!(normalize_source("https://www.pcgamer.com/top-100"), "PCGamer");
    assert_eq!(normalize_source("https://www.eurogamer.net/list"), "Eurogamer");
    assert_eq!(normalize_source("https://www.ign.com/games"), "IGN");
    assert_eq!(normalize_source("https://example.com/other"), "https://example.com/other");
}

#[test]
fn clean_name_replaces_dashes() {
    assert_eq!(clean_name("dave-the-diver"), "dave the diver");
    assert_eq!(clean_name("-portal-"), "portal");
}

#[test]
fn light_normalizer_applies_curated_table() {
    assert_eq!(gamerank::utils::normalize_title("God of War (2018)"), "God of War");
    assert_eq!(gamerank::utils::normalize_title("Titanfall\u{ae} 2"), "Titanfall 2");
    assert_eq!(gamerank::utils::normalize_title("Hunt: Showdown"), "Hunt: Showdown 1896");
}

#[test]
fn same_game_check_separates_sequels() {
    let steam_map: Vec<(String, String)> = Vec::new();
    assert!(are_titles_same_game("Portal", "Portal", &steam_map));
    assert!(!are_titles_same_game("Mass Effect 2", "Mass Effect 3", &steam_map));
    assert!(are_titles_same_game("God of War (2018)", "god of war 2018", &steam_map));
}

#[test]
fn normalization_map_has_curated_entries() {
    let map = get_normalization_map();
    assert_eq!(map.len(), 16);
    assert_eq!(map[0].0, "grand theft auto 5");
    assert_eq!(map[0].1, "Grand Theft Auto V");
}

#[test]
fn normalize_idempotence_boundary() {
    // When a dropped stop word stood between the halves of a compound name,
    // the first pass manufactures the compound and a second pass joins it:
    // such inputs sit outside the canonical set the idempotence law covers.
    let once = normalize("half the life");
    assert_eq!(once, "half life");
    assert_eq!(normalize(&once), "halflife");
}
