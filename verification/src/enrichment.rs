//! The enrichment stage's decision core: assembling one enriched game out of
//! whatever the fallible collaborators returned.  A failed or missing call
//! degrades its fields to absent; nothing aborts.  The calls themselves are
//! made outside the core, which receives their results as plain values.

use vstd::prelude::*;

use crate::game::{distinct_seqs, sorted_lex, strs, Game};
use crate::matching::GameWithSteamId;
use crate::merge::rank_views;
use crate::rawg::{has_platform, RawgGameBasic, RawgGameDetailed};
use crate::scoring::{harmony_spec, calculate_harmony_score};
use crate::steam::{SteamDeckVerifiedResponse, StoreInfo};
use crate::text_utils::{format_display_spec, format_display_title};

verus! {

/// The compatibility report resolved positively.
pub open spec fn deck_positive(deck: Option<SteamDeckVerifiedResponse>) -> bool {
    deck matches Some(d) && d.results matches Some(res) && res.resolved_category > 0
}

/// A storefront name the enriched record should carry: the store itself
/// when its record arrived, plus every storefront the secondary database
/// lists.
pub open spec fn expected_store(
    x: Seq<char>,
    store_info: Option<StoreInfo>,
    rawg: Option<(RawgGameBasic, RawgGameDetailed)>,
) -> bool {
    ||| (store_info is Some && x == "Steam"@)
    ||| (match rawg {
        Some((basic, _)) => match basic.stores {
            Some(sts) => exists|k: int|
                0 <= k < sts@.len() && (#[trigger] sts@[k]).store.name@ == x,
            None => false,
        },
        None => false,
    })
}

/// Builds the enriched record for one matched game: the harmony score from
/// its rankings, the display form of its first recorded title, and every
/// metadata field first-non-empty-wins across the store record, the
/// compatibility report, and the secondary-database records.
pub fn enrich_game(
    matched: &GameWithSteamId,
    steam_id_num: Option<u64>,
    store_info: Option<StoreInfo>,
    deck: Option<SteamDeckVerifiedResponse>,
    rawg: Option<(RawgGameBasic, RawgGameDetailed)>,
) -> (g: Game)
    requires
        matched.rankings@.len() <= 10_000_000,
    ensures
        g.title@ == format_display_spec(matched.name@),
        rank_views(g.rankings@) == rank_views(matched.rankings@),
        g.harmony_score == harmony_spec(
            rank_views(matched.rankings@).map_values(|p: (Seq<char>, u64)| p.1),
        ),
        g.steam_id == steam_id_num,
        g.price == (match store_info {
            Some(ref si) => si.price,
            None => None::<String>,
        }),
        g.user_score == (match store_info {
            Some(ref si) => Some(si.user_score),
            None => None::<i32>,
        }),
        g.total_reviews == (match store_info {
            Some(ref si) => si.total_reviews,
            None => 0i32,
        }),
        g.header_image == (match (store_info, rawg) {
            (Some(ref si), _) if si.header_image is Some => si.header_image,
            (_, Some((ref basic, _))) => basic.background_image,
            _ => None::<String>,
        }),
        g.metacritic == (match (store_info, rawg) {
            (Some(ref si), _) if si.metacritic_score is Some => si.metacritic_score,
            (_, Some((_, ref detailed))) => detailed.metacritic,
            _ => None::<i32>,
        }),
        g.release_date == (match rawg {
            Some((_, ref detailed)) => detailed.released,
            None => None::<String>,
        }),
        g.reddit_url == (match rawg {
            Some((_, ref detailed)) => detailed.reddit_url,
            None => None::<String>,
        }),
        g.metacritic_url == (match (store_info, rawg) {
            (Some(ref si), _) if si.metacritic_url is Some => si.metacritic_url,
            (_, Some((_, ref detailed))) => detailed.metacritic_url,
            _ => None::<String>,
        }),
        g.platforms.steamdeck@ == (if deck_positive(deck) {
            "verified"@
        } else {
            match store_info {
                Some(ref si) => si.platforms.steamdeck@,
                None => Seq::<char>::empty(),
            }
        }),
        deck_positive(deck) ==> (g.protondb_url matches Some(u) && u@
            == "https://www.protondb.com/app/"@ + (match matched.steam_id {
            Some(ref id) => id@,
            None => Seq::<char>::empty(),
        })),
        !deck_positive(deck) ==> g.protondb_url is None,
        (rawg matches Some((basic, _)) && basic.stores is Some) ==> {
            &&& sorted_lex(strs(g.stores@))
            &&& distinct_seqs(strs(g.stores@))
            &&& forall|x: Seq<char>|
                strs(g.stores@).contains(x) <==> expected_store(x, store_info, rawg)
        },
        !(rawg matches Some((basic, _)) && basic.stores is Some) ==> strs(g.stores@) == (
        if store_info is Some {
            seq!["Steam"@]
        } else {
            Seq::<Seq<char>>::empty()
        }),
        g.platforms.switch == ((match store_info {
            Some(ref si) => si.platforms.switch,
            None => false,
        }) || (match rawg {
            Some((ref basic, _)) => has_platform(basic.platforms@, "Nintendo Switch"@),
            None => false,
        })),
{
    let ghost si_ghost = store_info;
    let ghost rawg_ghost = rawg;
    let title = format_display_title(matched.name.as_str());
    let rankings = crate::matching::clone_rankings(&matched.rankings);
    proof {
        assert(rankings@.map_values(|p: (String, u64)| p.1) =~= rank_views(
            matched.rankings@,
        ).map_values(|p: (Seq<char>, u64)| p.1));
    }
    let score = calculate_harmony_score(&rankings);
    let mut g = Game::new(title, rankings, score);
    g.steam_id = steam_id_num;
    match store_info {
        Some(si) => {
            g = g.with_steam_info(si);
        },
        None => {},
    }
    match (deck, &matched.steam_id) {
        (Some(d), Some(id)) => {
            g = g.with_steam_deck_info(d, id.clone());
        },
        (Some(d), None) => {
            g = g.with_steam_deck_info(d, String::new());
        },
        _ => {},
    }
    match rawg {
        Some((basic, detailed)) => {
            let ghost pre = strs(g.stores@);
            proof {
                if si_ghost is Some {
                    assert(pre =~= seq!["Steam"@]);
                } else {
                    assert(pre =~= Seq::<Seq<char>>::empty());
                }
            }
            let ghost had_stores = basic.stores is Some;
            g = g.with_rawg_info(basic, detailed);
            proof {
                if had_stores {
                    assert forall|x: Seq<char>| strs(g.stores@).contains(x) <==> expected_store(
                        x,
                        si_ghost,
                        rawg_ghost,
                    ) by {
                        if pre.contains(x) {
                            assert(pre[0] == x);
                        }
                        if si_ghost is Some && x == "Steam"@ {
                            assert(pre.contains(x)) by {
                                assert(pre[0] == x);
                            }
                        }
                    }
                }
            }
        },
        None => {},
    }
    g
}

} // verus!
