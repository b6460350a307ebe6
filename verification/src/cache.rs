//! The pipeline's stage sequence and the cache contract: each stage checks
//! for a persisted snapshot of its output before recomputing, and persists
//! its output before returning, making the pipeline resumable at stage
//! granularity.  The store here is the in-memory model of that contract;
//! the persistence mechanics behind it live outside the core.

use vstd::prelude::*;

use crate::game::Game;
use crate::matching::{app_views, bucket_expected, bucket_keys, build_index, clone_indexed_games,
    clone_matched_games, exact_fold, find_result, gws_views, indexed_items, letters_view,
    name_map_view, sorted_entries, GameWithSteamId, IndexedGames, MatchingConfig,
    MatchingService};
use crate::steam::{ExtendedPlatforms, SteamApp};
use crate::text::u64_dec_spec;
use crate::merge::{merge_spec, prepare_items, rank_views, MergedGame, MergingService,
    WebsiteGames};

verus! {

/// The five pipeline stages, in execution order.
#[derive(Debug, Clone, Copy, PartialEq, Eq, Structural)]
pub enum Stage {
    Scrape,
    Merge,
    Match,
    Enrich,
    Publish,
}

pub open spec fn next_stage_spec(s: Stage) -> Option<Stage> {
    match s {
        Stage::Scrape => Some(Stage::Merge),
        Stage::Merge => Some(Stage::Match),
        Stage::Match => Some(Stage::Enrich),
        Stage::Enrich => Some(Stage::Publish),
        Stage::Publish => None,
    }
}

/// The stage that follows `s`, if any.
pub fn next_stage(s: Stage) -> (r: Option<Stage>)
    ensures
        r == next_stage_spec(s),
{
    match s {
        Stage::Scrape => Some(Stage::Merge),
        Stage::Merge => Some(Stage::Match),
        Stage::Match => Some(Stage::Enrich),
        Stage::Enrich => Some(Stage::Publish),
        Stage::Publish => None,
    }
}

/// One snapshot slot per stage output.  Saving a snapshot never touches the
/// other slots, and loading returns exactly what was saved: the round-trip
/// law is each `save` method's contract together with its `load`.
pub struct PipelineCache {
    pub website_games: Option<Vec<WebsiteGames>>,
    pub merged: Option<Vec<MergedGame>>,
    pub matched: Option<Vec<GameWithSteamId>>,
    pub enriched: Option<Vec<Game>>,
    pub indexed: Option<IndexedGames>,
}

impl PipelineCache {
    /// An empty cache: no stage has a snapshot.
    pub fn new() -> (c: PipelineCache)
        ensures
            c.website_games is None,
            c.merged is None,
            c.matched is None,
            c.enriched is None,
            c.indexed is None,
    {
        PipelineCache {
            website_games: None,
            merged: None,
            matched: None,
            enriched: None,
            indexed: None,
        }
    }

    pub fn save_website_games(&mut self, v: Vec<WebsiteGames>)
        ensures
            final(self).website_games == Some(v),
            final(self).merged == old(self).merged,
            final(self).matched == old(self).matched,
            final(self).enriched == old(self).enriched,
            final(self).indexed == old(self).indexed,
    {
        self.website_games = Some(v);
    }

    pub fn load_website_games(&self) -> (r: &Option<Vec<WebsiteGames>>)
        ensures
            *r == self.website_games,
    {
        &self.website_games
    }

    pub fn save_merged_games(&mut self, v: Vec<MergedGame>)
        ensures
            final(self).merged == Some(v),
            final(self).website_games == old(self).website_games,
            final(self).matched == old(self).matched,
            final(self).enriched == old(self).enriched,
            final(self).indexed == old(self).indexed,
    {
        self.merged = Some(v);
    }

    pub fn load_merged_games(&self) -> (r: &Option<Vec<MergedGame>>)
        ensures
            *r == self.merged,
    {
        &self.merged
    }

    pub fn save_matched_games(&mut self, v: Vec<GameWithSteamId>)
        ensures
            final(self).matched == Some(v),
            final(self).website_games == old(self).website_games,
            final(self).merged == old(self).merged,
            final(self).enriched == old(self).enriched,
            final(self).indexed == old(self).indexed,
    {
        self.matched = Some(v);
    }

    pub fn load_matched_games(&self) -> (r: &Option<Vec<GameWithSteamId>>)
        ensures
            *r == self.matched,
    {
        &self.matched
    }

    pub fn save_enriched_games(&mut self, v: Vec<Game>)
        ensures
            final(self).enriched == Some(v),
            final(self).website_games == old(self).website_games,
            final(self).merged == old(self).merged,
            final(self).matched == old(self).matched,
            final(self).indexed == old(self).indexed,
    {
        self.enriched = Some(v);
    }

    pub fn load_enriched_games(&self) -> (r: &Option<Vec<Game>>)
        ensures
            *r == self.enriched,
    {
        &self.enriched
    }

    pub fn save_indexed_games(&mut self, v: IndexedGames)
        ensures
            final(self).indexed == Some(v),
            final(self).website_games == old(self).website_games,
            final(self).merged == old(self).merged,
            final(self).matched == old(self).matched,
            final(self).enriched == old(self).enriched,
    {
        self.indexed = Some(v);
    }

    pub fn load_indexed_games(&self) -> (r: &Option<IndexedGames>)
        ensures
            *r == self.indexed,
    {
        &self.indexed
    }
}

/// Round-trip: a snapshot saved for a stage is exactly what a load then
/// returns, and saving one stage's snapshot never disturbs another's.
pub proof fn lemma_cache_round_trip(c: PipelineCache, v: Vec<MergedGame>)
    ensures
        (PipelineCache { merged: Some(v), ..c }).merged == Some(v),
        (PipelineCache { merged: Some(v), ..c }).website_games == c.website_games,
        (PipelineCache { merged: Some(v), ..c }).matched == c.matched,
        (PipelineCache { merged: Some(v), ..c }).enriched == c.enriched,
        (PipelineCache { merged: Some(v), ..c }).indexed == c.indexed,
{
}

/// Copies a merged game, preserving its value.
pub fn clone_merged_game(g: &MergedGame) -> (r: MergedGame)
    ensures
        r@ == g@,
{
    let mut names: Vec<String> = Vec::new();
    let mut i: usize = 0;
    while i < g.original_names.len()
        invariant
            0 <= i <= g.original_names.len(),
            crate::game::strs(names@) == crate::game::strs(g.original_names@).take(i as int),
        decreases g.original_names.len() - i,
    {
        let ghost pre = crate::game::strs(names@);
        names.push(g.original_names[i].clone());
        proof {
            assert(crate::game::strs(names@) =~= pre.push(g.original_names@[i as int]@));
            assert(crate::game::strs(g.original_names@).take(i + 1) =~= crate::game::strs(
                g.original_names@,
            ).take(i as int).push(g.original_names@[i as int]@));
        }
        i = i + 1;
    }
    let mut rankings: Vec<(String, u64)> = Vec::new();
    let mut k: usize = 0;
    while k < g.rankings.len()
        invariant
            0 <= k <= g.rankings.len(),
            rank_views(rankings@) == rank_views(g.rankings@).take(k as int),
        decreases g.rankings.len() - k,
    {
        let ghost pre = rank_views(rankings@);
        rankings.push((g.rankings[k].0.clone(), g.rankings[k].1));
        proof {
            assert(rank_views(rankings@) =~= pre.push(rank_views(g.rankings@)[k as int]));
            assert(rank_views(g.rankings@).take(k + 1) =~= rank_views(g.rankings@).take(
                k as int,
            ).push(rank_views(g.rankings@)[k as int]));
        }
        k = k + 1;
    }
    proof {
        assert(crate::game::strs(g.original_names@).take(g.original_names@.len() as int)
            =~= crate::game::strs(g.original_names@));
        assert(rank_views(g.rankings@).take(g.rankings@.len() as int) =~= rank_views(
            g.rankings@,
        ));
    }
    MergedGame {
        normalized_name: g.normalized_name.clone(),
        original_names: names,
        rankings,
    }
}

/// Copies a list of merged games, preserving their values.
pub fn clone_merged_games(v: &Vec<MergedGame>) -> (r: Vec<MergedGame>)
    ensures
        r@.map_values(|g: MergedGame| g@) == v@.map_values(|g: MergedGame| g@),
{
    let mut out: Vec<MergedGame> = Vec::new();
    let mut i: usize = 0;
    while i < v.len()
        invariant
            0 <= i <= v.len(),
            out@.map_values(|g: MergedGame| g@) == v@.map_values(|g: MergedGame| g@).take(
                i as int,
            ),
        decreases v.len() - i,
    {
        let ghost pre = out@.map_values(|g: MergedGame| g@);
        let c = clone_merged_game(&v[i]);
        out.push(c);
        proof {
            assert(out@.map_values(|g: MergedGame| g@) =~= pre.push(v@[i as int]@));
            assert(v@.map_values(|g: MergedGame| g@).take(i + 1) =~= v@.map_values(
                |g: MergedGame| g@,
            ).take(i as int).push(v@[i as int]@));
        }
        i = i + 1;
    }
    proof {
        assert(v@.map_values(|g: MergedGame| g@).take(v@.len() as int) =~= v@.map_values(
            |g: MergedGame| g@,
        ));
    }
    out
}

/// The merge stage under the cache contract: an existing snapshot is
/// reused unless the caller asks to skip the cache; a recomputed output is
/// persisted before it is returned.
pub fn run_merge_stage(
    cache: &mut PipelineCache,
    merging: &MergingService,
    skip_cache: bool,
    website_games: &Vec<WebsiteGames>,
) -> (r: Vec<MergedGame>)
    ensures
        ({
            let views = r@.map_values(|g: MergedGame| g@);
            if !skip_cache && old(cache).merged is Some {
                &&& views == (old(cache).merged)->0@.map_values(|g: MergedGame| g@)
                &&& *final(cache) == *old(cache)
            } else {
                &&& views == merge_spec(
                    prepare_items(website_games@, merging.scraper_config.websites@),
                )
                &&& final(cache).merged matches Some(saved) && saved@.map_values(
                    |g: MergedGame| g@,
                ) == views
                &&& final(cache).website_games == old(cache).website_games
                &&& final(cache).matched == old(cache).matched
                &&& final(cache).enriched == old(cache).enriched
                &&& final(cache).indexed == old(cache).indexed
            }
        }),
{
    if !skip_cache {
        match cache.load_merged_games() {
            Some(cached) => {
                return clone_merged_games(cached);
            },
            None => {},
        }
    }
    let games = merging.merge_games(website_games);
    let copy = clone_merged_games(&games);
    cache.save_merged_games(copy);
    games
}


/// The index stage under the cache contract: an existing snapshot is reused
/// unless the caller asks to skip the cache; a rebuilt index is persisted
/// before it is returned.
pub fn run_index_stage(
    cache: &mut PipelineCache,
    steam_apps: &Vec<SteamApp>,
    created_at: u64,
    config: &MatchingConfig,
    skip_cache: bool,
) -> (r: IndexedGames)
    ensures
        if !skip_cache && old(cache).indexed is Some {
            &&& r.created_at == (old(cache).indexed)->0.created_at
            &&& name_map_view(r.name_index@) == name_map_view((old(cache).indexed)->0.name_index@)
            &&& letters_view(r.letter_index@) == letters_view((old(cache).indexed)->0.letter_index@)
            &&& *final(cache) == *old(cache)
        } else {
            &&& r.created_at == created_at
            &&& name_map_view(r.name_index@) == exact_fold(
                indexed_items(app_views(steam_apps@), config.exclude_markers@, config.filter_dlc),
            )
            &&& letters_view(r.letter_index@).len() == 27
            &&& (forall|k: int|
                0 <= k < 27 ==> (#[trigger] letters_view(r.letter_index@)[k]).0 == bucket_keys()[k])
            &&& (forall|k: int| 0 <= k < 27 ==> sorted_entries(letters_view(r.letter_index@)[k].1))
            &&& (forall|k: int|
                0 <= k < 27 ==> (#[trigger] letters_view(r.letter_index@)[k]).1.to_multiset()
                    == bucket_expected(
                    indexed_items(
                        app_views(steam_apps@),
                        config.exclude_markers@,
                        config.filter_dlc,
                    ),
                    bucket_keys()[k],
                ).to_multiset())
            &&& final(cache).indexed matches Some(saved) && saved.created_at == r.created_at
                && name_map_view(saved.name_index@) == name_map_view(r.name_index@)
                && letters_view(saved.letter_index@) == letters_view(r.letter_index@)
            &&& final(cache).website_games == old(cache).website_games
            &&& final(cache).merged == old(cache).merged
            &&& final(cache).matched == old(cache).matched
            &&& final(cache).enriched == old(cache).enriched
        },
{
    if !skip_cache {
        match cache.load_indexed_games() {
            Some(cached) => {
                return clone_indexed_games(cached);
            },
            None => {},
        }
    }
    let built = build_index(steam_apps, created_at, config);
    let copy = clone_indexed_games(&built);
    cache.save_indexed_games(copy);
    built
}

/// The match stage under the cache contract: an existing snapshot is reused
/// unless the caller asks to skip the cache; a recomputed resolution is
/// persisted before it is returned.
pub fn run_match_stage(
    cache: &mut PipelineCache,
    service: &MatchingService,
    skip_cache: bool,
    merged_games: &Vec<MergedGame>,
) -> (r: Vec<GameWithSteamId>)
    requires
        forall|i: int|
            0 <= i < merged_games@.len() ==> (#[trigger] merged_games@[i])@.1.len() > 0,
    ensures
        if !skip_cache && old(cache).matched is Some {
            &&& gws_views(r@) == gws_views((old(cache).matched)->0@)
            &&& *final(cache) == *old(cache)
        } else {
            &&& r@.len() == merged_games@.len()
            &&& (forall|i: int|
                0 <= i < r@.len() ==> {
                    &&& (#[trigger] r@[i]).name@ == merged_games@[i]@.1[0]
                    &&& rank_views(r@[i].rankings@) == merged_games@[i]@.2
                    &&& match find_result(
                        name_map_view(service.name_index@),
                        letters_view(service.letter_index@),
                        service.config.similarity_num as int,
                        service.config.similarity_den as int,
                        merged_games@[i]@.1[0],
                    ) {
                        Some(id) => r@[i].steam_id matches Some(s) && s@ == u64_dec_spec(
                            id as int,
                        ),
                        None => r@[i].steam_id is None,
                    }
                })
            &&& final(cache).matched matches Some(saved) && gws_views(saved@) == gws_views(r@)
            &&& final(cache).website_games == old(cache).website_games
            &&& final(cache).merged == old(cache).merged
            &&& final(cache).enriched == old(cache).enriched
            &&& final(cache).indexed == old(cache).indexed
        },
{
    if !skip_cache {
        match cache.load_matched_games() {
            Some(cached) => {
                return clone_matched_games(cached);
            },
            None => {},
        }
    }
    let matched = service.match_games(merged_games);
    let copy = clone_matched_games(&matched);
    cache.save_matched_games(copy);
    matched
}

pub open spec fn opt_str_view(o: Option<String>) -> Option<Seq<char>> {
    match o {
        Some(s) => Some(s@),
        None => None,
    }
}

/// An enriched game as plain values.
pub open spec fn game_view(g: Game) -> (
    (Seq<char>, Seq<(Seq<char>, u64)>, u64),
    (Option<u64>, Option<Seq<char>>, Option<i32>, i32),
    (Option<Seq<char>>, Option<i32>, Option<Seq<char>>, Option<Seq<char>>, Option<Seq<char>>),
    (bool, bool, bool, Seq<char>, bool),
    Seq<Seq<char>>,
) {
    (
        (g.title@, rank_views(g.rankings@), g.harmony_score),
        (g.steam_id, opt_str_view(g.price), g.user_score, g.total_reviews),
        (
            opt_str_view(g.header_image),
            g.metacritic,
            opt_str_view(g.metacritic_url),
            opt_str_view(g.release_date),
            opt_str_view(g.reddit_url),
        ),
        (
            g.platforms.windows,
            g.platforms.macos,
            g.platforms.linux,
            g.platforms.steamdeck@,
            g.platforms.switch,
        ),
        crate::game::strs(g.stores@),
    )
}

pub open spec fn game_views(v: Seq<Game>) -> Seq<
    (
        (Seq<char>, Seq<(Seq<char>, u64)>, u64),
        (Option<u64>, Option<Seq<char>>, Option<i32>, i32),
        (
            Option<Seq<char>>,
            Option<i32>,
            Option<Seq<char>>,
            Option<Seq<char>>,
            Option<Seq<char>>,
        ),
        (bool, bool, bool, Seq<char>, bool),
        Seq<Seq<char>>,
    ),
> {
    v.map_values(|g: Game| game_view(g))
}

fn clone_opt_str(o: &Option<String>) -> (r: Option<String>)
    ensures
        opt_str_view(r) == opt_str_view(*o),
{
    match o {
        Some(s) => Some(s.clone()),
        None => None,
    }
}

fn clone_strings(v: &Vec<String>) -> (r: Vec<String>)
    ensures
        crate::game::strs(r@) == crate::game::strs(v@),
{
    let mut out: Vec<String> = Vec::new();
    let mut i: usize = 0;
    while i < v.len()
        invariant
            0 <= i <= v.len(),
            crate::game::strs(out@) == crate::game::strs(v@).take(i as int),
        decreases v.len() - i,
    {
        let ghost pre = crate::game::strs(out@);
        out.push(v[i].clone());
        proof {
            assert(crate::game::strs(out@) =~= pre.push(v@[i as int]@));
            assert(crate::game::strs(v@).take(i + 1) =~= crate::game::strs(v@).take(i as int).push(
                v@[i as int]@,
            ));
        }
        i = i + 1;
    }
    proof {
        assert(crate::game::strs(v@).take(v@.len() as int) =~= crate::game::strs(v@));
    }
    out
}

fn clone_rankings_pairs(rk: &Vec<(String, u64)>) -> (r: Vec<(String, u64)>)
    ensures
        rank_views(r@) == rank_views(rk@),
{
    crate::matching::clone_rankings(rk)
}

/// Copies an enriched game, preserving its value.
pub fn clone_game(g: &Game) -> (r: Game)
    ensures
        game_view(r) == game_view(*g),
{
    Game {
        title: g.title.clone(),
        rankings: clone_rankings_pairs(&g.rankings),
        platforms: ExtendedPlatforms {
            windows: g.platforms.windows,
            macos: g.platforms.macos,
            linux: g.platforms.linux,
            steamdeck: g.platforms.steamdeck.clone(),
            switch: g.platforms.switch,
        },
        stores: clone_strings(&g.stores),
        steam_id: g.steam_id,
        user_score: g.user_score,
        total_reviews: g.total_reviews,
        price: clone_opt_str(&g.price),
        header_image: clone_opt_str(&g.header_image),
        metacritic: g.metacritic,
        release_date: clone_opt_str(&g.release_date),
        reddit_url: clone_opt_str(&g.reddit_url),
        metacritic_url: clone_opt_str(&g.metacritic_url),
        protondb_url: clone_opt_str(&g.protondb_url),
        harmony_score: g.harmony_score,
    }
}

/// Copies a list of enriched games, preserving their values.
pub fn clone_games(v: &Vec<Game>) -> (r: Vec<Game>)
    ensures
        game_views(r@) == game_views(v@),
{
    let mut out: Vec<Game> = Vec::new();
    let mut i: usize = 0;
    while i < v.len()
        invariant
            0 <= i <= v.len(),
            game_views(out@) == game_views(v@).take(i as int),
        decreases v.len() - i,
    {
        let ghost pre = game_views(out@);
        let c = clone_game(&v[i]);
        out.push(c);
        proof {
            assert(game_views(out@) =~= pre.push(game_view(v@[i as int])));
            assert(game_views(v@).take(i + 1) =~= game_views(v@).take(i as int).push(
                game_view(v@[i as int]),
            ));
        }
        i = i + 1;
    }
    proof {
        assert(game_views(v@).take(v@.len() as int) =~= game_views(v@));
    }
    out
}

/// The enrichment stage under the cache contract: an existing snapshot is
/// reused unless the caller asks to skip the cache; otherwise the records
/// assembled for this run — each built by `enrich_game` from whatever the
/// collaborators returned between the stages — are persisted before they
/// are returned.
pub fn run_enrich_stage(cache: &mut PipelineCache, skip_cache: bool, computed: Vec<Game>) -> (r:
    Vec<Game>)
    ensures
        if !skip_cache && old(cache).enriched is Some {
            &&& game_views(r@) == game_views((old(cache).enriched)->0@)
            &&& *final(cache) == *old(cache)
        } else {
            &&& r == computed
            &&& final(cache).enriched matches Some(saved) && game_views(saved@) == game_views(
                computed@,
            )
            &&& final(cache).website_games == old(cache).website_games
            &&& final(cache).merged == old(cache).merged
            &&& final(cache).matched == old(cache).matched
            &&& final(cache).indexed == old(cache).indexed
        },
{
    if !skip_cache {
        match cache.load_enriched_games() {
            Some(cached) => {
                return clone_games(cached);
            },
            None => {},
        }
    }
    let copy = clone_games(&computed);
    cache.save_enriched_games(copy);
    computed
}

} // verus!
