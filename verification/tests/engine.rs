use gamerank::cache::{next_stage, run_enrich_stage, run_index_stage, run_match_stage,
    run_merge_stage, PipelineCache, Stage};
use gamerank::config::ScraperConfig;
use gamerank::enrichment::enrich_game;
use gamerank::game::Game;
use gamerank::manifest::Manifest;
use gamerank::mapping::MappingConfig;
use gamerank::matching::{build_index, ExcludeMarker, MatchingConfig, MatchingService};
use gamerank::merge::{MergedGame, MergingService, ScrapedGame, WebsiteGames};
use gamerank::scoring::{calculate_harmony_score, calculate_score};
use gamerank::rawg::{PlatformInfo, RawgGameBasic, RawgGameDetailed, RawgPlatform, RawgStore};
use gamerank::steam::{make_store_info, ExtendedPlatforms, Metacritic, Platforms, PriceOverview,
    ReviewsSummary, SteamApp, SteamReviewsResponse, SteamStoreDetails, StoreInfo};
use gamerank::storage::FileSystemStore;
use gamerank::text_utils::format_display_title;
use gamerank::utils::{get_steam_id_map, SteamIdConfig, SteamIdMapping};

fn site(source: &str, games: Vec<(&str, u64)>) -> WebsiteGames {
    WebsiteGames {
        source: source.to_string(),
        games: games
            .into_iter()
            .map(|(name, rank)| ScrapedGame { name: name.to_string(), rank })
            .collect(),
    }
}

fn empty_config() -> ScraperConfig {
    ScraperConfig { websites: Vec::new() }
}

fn rankings_of(game: &MergedGame) -> Vec<(String, u64)> {
    game.rankings.clone()
}

#[test]
fn merging_joins_roman_and_arabic_sequels() {
    let merging = MergingService::new(empty_config());
    let sites = vec![
        site("SiteA", vec![("Mass Effect 2", 1)]),
        site("SiteB", vec![("Mass Effect II", 3)]),
    ];
    let merged = merging.merge_games(&sites);
    assert_eq!(merged.len(), 1);
    assert_eq!(merged[0].normalized_name, "mass effect 2");
    assert_eq!(merged[0].original_names.len(), 2);
    let rk = rankings_of(&merged[0]);
    assert!(rk.contains(&("SiteA".to_string(), 1)));
    assert!(rk.contains(&("SiteB".to_string(), 3)));
}

#[test]
fn merging_separates_different_sequels() {
    let merging = MergingService::new(empty_config());
    let sites = vec![
        site("SiteA", vec![("Mass Effect 2", 1)]),
        site("SiteB", vec![("Mass Effect II", 3)]),
        site("SiteC", vec![("Mass Effect 3", 2)]),
    ];
    let merged = merging.merge_games(&sites);
    assert_eq!(merged.len(), 2);
}

#[test]
fn merging_overwrites_rank_for_same_source() {
    let merging = MergingService::new(empty_config());
    let sites = vec![site("SiteA", vec![("Portal 2", 9), ("Portal II", 4)])];
    let merged = merging.merge_games(&sites);
    assert_eq!(merged.len(), 1);
    let rk = rankings_of(&merged[0]);
    assert_eq!(rk, vec![("SiteA".to_string(), 4)]);
    assert_eq!(merged[0].original_names.len(), 2);
}

fn catalog(entries: Vec<(u64, &str)>) -> Vec<SteamApp> {
    entries
        .into_iter()
        .map(|(appid, name)| SteamApp { appid, name: name.to_string() })
        .collect()
}

fn service(apps: Vec<SteamApp>, num: u64, den: u64) -> MatchingService {
    let config = MatchingConfig {
        similarity_num: num,
        similarity_den: den,
        ..Default::default()
    };
    let indexed = build_index(&apps, 0, &config);
    MatchingService::from_indexed_games(indexed, config)
}

#[test]
fn exact_match_always_wins() {
    let svc = service(catalog(vec![(10, "Portal"), (20, "Portal 2")]), 9, 10);
    assert_eq!(svc.find_steam_id("Portal"), Some("10".to_string()));
    assert_eq!(svc.find_steam_id("portal (2007)"), Some("10".to_string()));
    assert_eq!(svc.find_steam_id("Portal 2"), Some("20".to_string()));
}

#[test]
fn threshold_is_strict() {
    // The candidate differs in one of ten characters: similarity 0.9
    // exactly.  At a 9/10 threshold it is rejected; at 89/100 accepted.
    let apps = catalog(vec![(7, "abcdefghix")]);
    let strict = service(apps.clone(), 9, 10);
    assert_eq!(strict.find_steam_id("abcdefghij"), None);
    let lenient = service(apps, 89, 100);
    assert_eq!(lenient.find_steam_id("abcdefghij"), Some("7".to_string()));
}

#[test]
fn ties_resolve_to_first_in_bucket_order() {
    // Both candidates are one edit away; bucket order is by normalized
    // title, so the lexicographically first candidate wins.
    let svc = service(catalog(vec![(5, "warfare b"), (3, "warfare a")]), 5, 10);
    assert_eq!(svc.find_steam_id("warfare c"), Some("3".to_string()));
}

#[test]
fn dlc_entries_are_excluded_from_the_index() {
    let svc = service(
        catalog(vec![(1, "Portal Soundtrack"), (2, "Portal")]),
        9,
        10,
    );
    assert_eq!(svc.find_steam_id("Portal"), Some("2".to_string()));
    assert_eq!(svc.find_steam_id("Portal Soundtrack"), None);
}

#[test]
fn missing_bucket_means_no_match() {
    let svc = service(catalog(vec![(1, "Portal")]), 9, 10);
    assert_eq!(svc.find_steam_id(""), None);
    assert_eq!(svc.find_steam_id("!!!"), None);
    assert_eq!(svc.find_steam_id("zzz different"), None);
}

#[test]
fn match_games_carries_rankings_over() {
    let merging = MergingService::new(empty_config());
    let sites = vec![site("SiteA", vec![("Portal", 1)])];
    let merged = merging.merge_games(&sites);
    let svc = service(catalog(vec![(10, "Portal")]), 9, 10);
    let matched = svc.match_games(&merged);
    assert_eq!(matched.len(), 1);
    assert_eq!(matched[0].name, "Portal");
    assert_eq!(matched[0].steam_id, Some("10".to_string()));
    assert_eq!(matched[0].rankings, vec![("SiteA".to_string(), 1)]);
}

#[test]
fn harmony_score_values() {
    let rk = |ranks: Vec<u64>| -> Vec<(String, u64)> {
        ranks
            .into_iter()
            .enumerate()
            .map(|(i, r)| (format!("S{}", i), r))
            .collect()
    };
    assert_eq!(calculate_harmony_score(&rk(vec![])), 0);
    assert_eq!(calculate_harmony_score(&rk(vec![1])), 100);
    assert_eq!(calculate_harmony_score(&rk(vec![2])), 99);
    assert_eq!(calculate_harmony_score(&rk(vec![1, 1])), 250);
    assert_eq!(calculate_harmony_score(&rk(vec![101])), 0);
    assert_eq!(calculate_harmony_score(&rk(vec![100])), 1);
    // both scoring entry points compute the canonical formula
    assert_eq!(calculate_score(&rk(vec![1, 1])), 250);
    assert_eq!(calculate_score(&rk(vec![1, 5])), 245);
}

#[test]
fn harmony_score_monotonic_in_sources() {
    let rk = |n: usize| -> Vec<(String, u64)> {
        (0..n).map(|i| (format!("S{}", i), 5u64)).collect()
    };
    let mut prev = 0;
    for n in 1..6 {
        let score = calculate_harmony_score(&rk(n));
        assert!(score >= prev);
        prev = score;
    }
}

#[test]
fn end_to_end_single_game() {
    let merging = MergingService::new(empty_config());
    let sites = vec![
        site("A", vec![("God of War (2018)", 1)]),
        site("B", vec![("God of War (2018)", 5)]),
        site("C", vec![("God of War (2018)", 12)]),
    ];
    let merged = merging.merge_games(&sites);
    assert_eq!(merged.len(), 1);
    assert_eq!(merged[0].normalized_name, "god of war");
    let rk = rankings_of(&merged[0]);
    assert_eq!(rk.len(), 3);
    assert!(rk.contains(&("A".to_string(), 1)));
    assert!(rk.contains(&("B".to_string(), 5)));
    assert!(rk.contains(&("C".to_string(), 12)));
    let score = calculate_harmony_score(&merged[0].rankings);
    // ((101-1) + (101-5) + (101-12)) * 150 / 100, in integer arithmetic
    assert_eq!(score, 427);
    let title = format_display_title(&merged[0].normalized_name);
    assert_eq!(title, "God of War");
    let game = Game::new(title, merged[0].rankings.clone(), score);
    assert_eq!(game.title, "God of War");
    assert_eq!(game.harmony_score, 427);
    let manifest = Manifest::new(vec![game], "now".to_string(), "1.0".to_string());
    assert_eq!(manifest.total_games, 1);
    assert_eq!(manifest.metadata.sources.len(), 3);
    assert!(!manifest.metadata.enrichment_used.steam);
}

#[test]
fn cache_round_trips_snapshots() {
    let mut cache = PipelineCache::new();
    assert!(cache.load_merged_games().is_none());
    let snapshot = vec![MergedGame {
        normalized_name: "portal".to_string(),
        original_names: vec!["Portal".to_string()],
        rankings: vec![("A".to_string(), 1)],
    }];
    cache.save_merged_games(snapshot.clone());
    assert_eq!(cache.load_merged_games().as_ref(), Some(&snapshot));
    assert!(cache.load_matched_games().is_none());
}

#[test]
fn merge_stage_reuses_and_persists_snapshots() {
    let merging = MergingService::new(empty_config());
    let sites = vec![site("SiteA", vec![("Portal", 1)])];
    let mut cache = PipelineCache::new();
    let first = run_merge_stage(&mut cache, &merging, false, &sites);
    assert_eq!(first.len(), 1);
    assert!(cache.load_merged_games().is_some());
    // a second run with an unrelated input reuses the snapshot
    let other = vec![site("SiteB", vec![("Hades", 1)])];
    let second = run_merge_stage(&mut cache, &merging, false, &other);
    assert_eq!(second, first);
    // skipping the cache recomputes and overwrites
    let third = run_merge_stage(&mut cache, &merging, true, &other);
    assert_eq!(third[0].normalized_name, "hades");
}

#[test]
fn stages_run_in_order() {
    assert_eq!(next_stage(Stage::Scrape), Some(Stage::Merge));
    assert_eq!(next_stage(Stage::Merge), Some(Stage::Match));
    assert_eq!(next_stage(Stage::Match), Some(Stage::Enrich));
    assert_eq!(next_stage(Stage::Enrich), Some(Stage::Publish));
    assert_eq!(next_stage(Stage::Publish), None);
}

#[test]
fn storage_paths_follow_layout() {
    let store = FileSystemStore::new("data".to_string(), "cache".to_string());
    assert_eq!(
        store.get_path_for_key("merged_games", Some("enhancements"), false),
        "cache/enhancements/merged_games.json"
    );
    assert_eq!(store.get_path_for_key("index_apps", None, true), "data/index_apps.json");
}

#[test]
fn mapping_config_upserts_and_looks_up() {
    let mut cfg = MappingConfig::new();
    cfg.add_mapping("Portal".to_string(), "portal".to_string(), Some("10".to_string()));
    cfg.add_mapping("Portal".to_string(), "portal".to_string(), Some("11".to_string()));
    assert_eq!(cfg.mappings.len(), 1);
    assert_eq!(cfg.get_steam_id("Portal"), Some("11".to_string()));
    assert_eq!(cfg.get_steam_id("Hades"), None);
}

#[test]
fn steam_id_config_flattens_to_pairs() {
    let cfg = SteamIdConfig {
        mappings: vec![SteamIdMapping { name: "portal".to_string(), steam_id: "10".to_string() }],
    };
    let pairs = get_steam_id_map(&cfg);
    assert_eq!(pairs, vec![("portal".to_string(), "10".to_string())]);
}

#[test]
fn steam_id_table_keeps_the_later_duplicate() {
    let cfg = SteamIdConfig {
        mappings: vec![
            SteamIdMapping { name: "portal".to_string(), steam_id: "1".to_string() },
            SteamIdMapping { name: "hades".to_string(), steam_id: "7".to_string() },
            SteamIdMapping { name: "portal".to_string(), steam_id: "2".to_string() },
        ],
    };
    let pairs = cfg.to_hashmap();
    assert_eq!(
        pairs,
        vec![("portal".to_string(), "2".to_string()), ("hades".to_string(), "7".to_string())]
    );
}

#[test]
fn exclude_markers_respect_word_boundaries() {
    let mut config = MatchingConfig::default();
    assert!(config.filter_dlc);
    config.exclude_markers.push(ExcludeMarker { text: "Extra".to_string(), whole_word: false });
    // "Beta" only excludes as a whole word: "Betamax" stays in the index
    let apps = catalog(vec![(1, "Quake Beta"), (2, "Betamax")]);
    let indexed = build_index(&apps, 0, &config);
    let svc = MatchingService::from_indexed_games(indexed, config);
    assert_eq!(svc.find_steam_id("Betamax"), Some("2".to_string()));
    assert_eq!(svc.find_steam_id("Quake Beta"), None);
}

fn store_details() -> SteamStoreDetails {
    SteamStoreDetails {
        price_overview: Some(PriceOverview { final_formatted: "$9.99".to_string() }),
        platforms: Platforms { windows: true, mac: false, linux: true },
        header_image: Some("header.jpg".to_string()),
        metacritic: Some(Metacritic { score: 88, url: "mc".to_string() }),
    }
}

fn reviews() -> SteamReviewsResponse {
    SteamReviewsResponse {
        query_summary: ReviewsSummary {
            total_positive: 900,
            total_reviews: 1000,
            review_score: 9,
            review_score_desc: "Overwhelmingly Positive".to_string(),
        },
    }
}

#[test]
fn store_info_assembles_both_records() {
    let info = make_store_info(store_details(), reviews());
    assert_eq!(info.price, Some("$9.99".to_string()));
    assert!(info.platforms.windows);
    assert!(!info.platforms.macos);
    assert!(info.platforms.linux);
    assert_eq!(info.user_score, 9);
    assert_eq!(info.total_reviews, 1000);
    assert_eq!(info.metacritic_score, Some(88));
    assert_eq!(info.metacritic_url, Some("mc".to_string()));
}

fn rawg_records() -> (RawgGameBasic, RawgGameDetailed) {
    let basic = RawgGameBasic {
        id: 1,
        name: "Portal".to_string(),
        background_image: Some("bg.jpg".to_string()),
        platforms: vec![RawgPlatform {
            platform: PlatformInfo { name: "Nintendo Switch".to_string() },
        }],
        stores: Some(vec![
            RawgStore { store: gamerank::rawg::StoreInfo { name: "GOG".to_string() } },
            RawgStore { store: gamerank::rawg::StoreInfo { name: "Epic".to_string() } },
            RawgStore { store: gamerank::rawg::StoreInfo { name: "GOG".to_string() } },
        ]),
        metacritic: Some(90),
        released: Some("2007-10-10".to_string()),
    };
    let detailed = RawgGameDetailed {
        id: 1,
        name: "Portal".to_string(),
        metacritic: Some(90),
        released: Some("2007-10-10".to_string()),
        background_image: None,
        reddit_url: Some("reddit".to_string()),
        metacritic_url: Some("mcu".to_string()),
        platforms: Vec::new(),
        stores: None,
    };
    (basic, detailed)
}

#[test]
fn enrichment_reconciles_first_non_empty_wins() {
    let merging = MergingService::new(empty_config());
    let sites = vec![site("SiteA", vec![("portal", 1)])];
    let merged = merging.merge_games(&sites);
    let svc = service(catalog(vec![(400, "Portal")]), 9, 10);
    let matched = svc.match_games(&merged);
    let info = make_store_info(store_details(), reviews());
    let enriched = enrich_game(&matched[0], Some(400), Some(info), None, Some(rawg_records()));
    assert_eq!(enriched.title, "Portal");
    assert_eq!(enriched.steam_id, Some(400));
    // the store's image wins over the secondary database's
    assert_eq!(enriched.header_image, Some("header.jpg".to_string()));
    assert_eq!(enriched.metacritic, Some(88));
    // fields only the secondary database supplies fill the gaps
    assert_eq!(enriched.release_date, Some("2007-10-10".to_string()));
    assert_eq!(enriched.reddit_url, Some("reddit".to_string()));
    assert!(enriched.platforms.switch);
    // storefronts are unioned, deduplicated and sorted
    assert_eq!(
        enriched.stores,
        vec!["Epic".to_string(), "GOG".to_string(), "Steam".to_string()]
    );
    assert_eq!(enriched.harmony_score, 100);
}

#[test]
fn enrichment_degrades_to_absent_fields() {
    let matched = gamerank::matching::GameWithSteamId {
        name: "portal".to_string(),
        rankings: vec![("A".to_string(), 1)],
        steam_id: None,
    };
    let enriched = enrich_game(&matched, None, None, None, None);
    assert_eq!(enriched.title, "Portal");
    assert_eq!(enriched.steam_id, None);
    assert_eq!(enriched.price, None);
    assert_eq!(enriched.header_image, None);
    assert_eq!(enriched.metacritic, None);
    assert!(!enriched.platforms.switch);
    assert_eq!(enriched.platforms, ExtendedPlatforms::default());
}

#[test]
fn sanitized_filenames_keep_safe_characters() {
    let publisher = gamerank::publish::PublishService::new("user".to_string(), "repo".to_string());
    assert_eq!(publisher.sanitize_filename("God of War: Ragnarok"), "god_of_war__ragnarok");
    assert_eq!(publisher.sanitize_filename("half-life_2"), "half-life_2");
}

#[test]
fn games_sort_best_first() {
    let mk = |title: &str, score: u64| {
        Game::new(title.to_string(), vec![("A".to_string(), 1)], score)
    };
    let sorted = gamerank::manifest::sort_games_by_score(vec![
        mk("low", 10),
        mk("high", 400),
        mk("mid", 40),
        mk("mid2", 40),
    ]);
    let scores: Vec<u64> = sorted.iter().map(|g| g.harmony_score).collect();
    assert_eq!(scores, vec![400, 40, 40, 10]);
    assert_eq!(sorted.len(), 4);
}

#[test]
fn index_and_match_stages_follow_the_cache_protocol() {
    let mut cache = PipelineCache::new();
    let apps = catalog(vec![(10, "Portal")]);
    let config = MatchingConfig::default();
    let first = run_index_stage(&mut cache, &apps, 77, &config, false);
    assert_eq!(first.created_at, 77);
    assert!(cache.load_indexed_games().is_some());
    // a later run with a different catalog reuses the snapshot
    let other_apps = catalog(vec![(99, "Hades")]);
    let second = run_index_stage(&mut cache, &other_apps, 88, &config, false);
    assert_eq!(second.created_at, 77);
    assert_eq!(second.name_index, first.name_index);
    // skipping the cache rebuilds
    let third = run_index_stage(&mut cache, &other_apps, 88, &config, true);
    assert_eq!(third.created_at, 88);

    let merging = MergingService::new(empty_config());
    let merged = merging.merge_games(&vec![site("SiteA", vec![("Portal", 1)])]);
    let service = MatchingService::from_indexed_games(
        build_index(&apps, 0, &config),
        config,
    );
    let matched = run_match_stage(&mut cache, &service, false, &merged);
    assert_eq!(matched[0].steam_id, Some("10".to_string()));
    assert!(cache.load_matched_games().is_some());
    let again = run_match_stage(&mut cache, &service, false, &vec![]);
    assert_eq!(again, matched);

    let enriched = run_enrich_stage(&mut cache, false, vec![Game::new(
        "Portal".to_string(),
        vec![("SiteA".to_string(), 1)],
        100,
    )]);
    assert_eq!(enriched.len(), 1);
    let reused = run_enrich_stage(&mut cache, false, vec![]);
    assert_eq!(reused, enriched);
}
