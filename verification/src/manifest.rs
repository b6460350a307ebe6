//! The final manifest: the scored games plus metadata about the sources
//! seen and the enrichment coverage.

use vstd::multiset::Multiset;
use vstd::prelude::*;

use crate::game::{strs, Game};
use crate::merge::rank_views;

verus! {

#[derive(Debug, Clone, PartialEq)]
pub struct EnrichmentInfo {
    pub steam: bool,
    pub rawg: bool,
}

#[derive(Debug, Clone, PartialEq)]
pub struct ManifestMetadata {
    pub sources: Vec<String>,
    pub enrichment_used: EnrichmentInfo,
    pub version: String,
}

#[derive(Debug, Clone, PartialEq)]
pub struct Manifest {
    pub total_games: usize,
    pub last_updated: String,
    pub games: Vec<Game>,
    pub metadata: ManifestMetadata,
}

/// Accumulates ranking keys, keeping each key once, in first-seen order.
pub open spec fn add_keys(acc: Seq<Seq<char>>, rk: Seq<(Seq<char>, u64)>) -> Seq<Seq<char>>
    decreases rk.len(),
{
    if rk.len() == 0 {
        acc
    } else {
        add_keys(
            if acc.contains(rk[0].0) {
                acc
            } else {
                acc.push(rk[0].0)
            },
            rk.skip(1),
        )
    }
}

/// Every source named by any game's rankings, first occurrence first.
pub open spec fn sources_fold(games: Seq<Game>, acc: Seq<Seq<char>>) -> Seq<Seq<char>>
    decreases games.len(),
{
    if games.len() == 0 {
        acc
    } else {
        sources_fold(games.skip(1), add_keys(acc, rank_views(games[0].rankings@)))
    }
}

pub open spec fn some_steam_id(games: Seq<Game>) -> bool {
    exists|i: int| 0 <= i < games.len() && (#[trigger] games[i]).steam_id is Some
}

pub open spec fn some_reddit_url(games: Seq<Game>) -> bool {
    exists|i: int| 0 <= i < games.len() && (#[trigger] games[i]).reddit_url is Some
}

/// Appends `s` unless an equal string is already in the list.
fn push_unique(out: &mut Vec<String>, s: &String)
    ensures
        strs(final(out)@) == (if strs(old(out)@).contains(s@) {
            strs(old(out)@)
        } else {
            strs(old(out)@).push(s@)
        }),
{
    let mut i: usize = 0;
    while i < out.len()
        invariant
            0 <= i <= out.len(),
            out@ == old(out)@,
            forall|j: int| 0 <= j < i ==> strs(out@)[j] != s@,
        decreases out.len() - i,
    {
        proof {
            assert(strs(out@)[i as int] == out@[i as int]@);
        }
        if out[i] == *s {
            proof {
                assert(strs(out@).contains(s@)) by {
                    assert(strs(out@)[i as int] == s@);
                }
            }
            return ;
        }
        i = i + 1;
    }
    proof {
        assert(!strs(out@).contains(s@));
    }
    let ghost pre = strs(out@);
    out.push(s.clone());
    proof {
        assert(strs(out@) =~= pre.push(s@));
    }
}

impl Manifest {
    /// Assembles the manifest: the game count, the distinct sources of all
    /// rankings (first occurrence first), and which enrichment families
    /// contributed, with the timestamp and version the caller supplies.
    pub fn new(games: Vec<Game>, last_updated: String, version: String) -> (m: Manifest)
        ensures
            m.total_games == games@.len(),
            m.games == games,
            m.last_updated == last_updated,
            m.metadata.version == version,
            strs(m.metadata.sources@) == sources_fold(games@, Seq::<Seq<char>>::empty()),
            m.metadata.enrichment_used.steam == some_steam_id(games@),
            m.metadata.enrichment_used.rawg == some_reddit_url(games@),
    {
        let mut sources: Vec<String> = Vec::new();
        let mut steam: bool = false;
        let mut rawg: bool = false;
        let mut i: usize = 0;
        proof {
            assert(games@.skip(0) =~= games@);
            assert(strs(sources@) =~= Seq::<Seq<char>>::empty());
        }
        while i < games.len()
            invariant
                0 <= i <= games.len(),
                sources_fold(games@, Seq::<Seq<char>>::empty()) == sources_fold(
                    games@.skip(i as int),
                    strs(sources@),
                ),
                steam == some_steam_id(games@.take(i as int)),
                rawg == some_reddit_url(games@.take(i as int)),
            decreases games.len() - i,
        {
            let ghost suf = games@.skip(i as int);
            proof {
                assert(suf[0] == games@[i as int]);
                assert(suf.skip(1) =~= games@.skip(i + 1));
            }
            let g = &games[i];
            let mut k: usize = 0;
            let ghost s0 = strs(sources@);
            proof {
                assert(rank_views(g.rankings@).skip(0) =~= rank_views(g.rankings@));
            }
            while k < g.rankings.len()
                invariant
                    0 <= k <= g.rankings.len(),
                    g == games@[i as int],
                    0 <= i < games@.len(),
                    add_keys(s0, rank_views(g.rankings@)) == add_keys(
                        strs(sources@),
                        rank_views(g.rankings@).skip(k as int),
                    ),
                decreases g.rankings.len() - k,
            {
                let ghost rsuf = rank_views(g.rankings@).skip(k as int);
                proof {
                    assert(rsuf[0] == rank_views(g.rankings@)[k as int]);
                    assert(rank_views(g.rankings@)[k as int].0 == g.rankings@[k as int].0@);
                    assert(rsuf.skip(1) =~= rank_views(g.rankings@).skip(k + 1));
                }
                push_unique(&mut sources, &g.rankings[k].0);
                k = k + 1;
            }
            proof {
                assert(rank_views(g.rankings@).skip(g.rankings@.len() as int) =~= Seq::<
                    (Seq<char>, u64),
                >::empty());
            }
            if g.steam_id.is_some() {
                steam = true;
            }
            if g.reddit_url.is_some() {
                rawg = true;
            }
            proof {
                assert(games@.take(i + 1).drop_last() =~= games@.take(i as int));
                assert(games@.take(i + 1).last() == games@[i as int]);
                assert(some_steam_id(games@.take(i + 1)) == (some_steam_id(games@.take(i as int))
                    || games@[i as int].steam_id is Some)) by {
                    lemma_some_steam_push(games@.take(i as int), games@[i as int]);
                }
                assert(some_reddit_url(games@.take(i + 1)) == (some_reddit_url(
                    games@.take(i as int),
                ) || games@[i as int].reddit_url is Some)) by {
                    lemma_some_reddit_push(games@.take(i as int), games@[i as int]);
                }
            }
            i = i + 1;
        }
        proof {
            assert(games@.skip(games@.len() as int) =~= Seq::<Game>::empty());
            assert(games@.take(games@.len() as int) =~= games@);
        }
        let total_games = games.len();
        Manifest {
            total_games,
            last_updated,
            games,
            metadata: ManifestMetadata {
                sources,
                enrichment_used: EnrichmentInfo { steam, rawg },
                version,
            },
        }
    }
}

proof fn lemma_some_steam_push(games: Seq<Game>, g: Game)
    ensures
        some_steam_id(games.push(g)) == (some_steam_id(games) || g.steam_id is Some),
{
    let p = games.push(g);
    if some_steam_id(games) {
        let w = choose|i: int| 0 <= i < games.len() && games[i].steam_id is Some;
        assert(p[w].steam_id is Some);
    }
    if g.steam_id is Some {
        assert(p[games.len() as int].steam_id is Some);
    }
    if some_steam_id(p) {
        let w = choose|i: int| 0 <= i < p.len() && p[i].steam_id is Some;
        if w < games.len() {
            assert(games[w].steam_id is Some);
        }
    }
}

proof fn lemma_some_reddit_push(games: Seq<Game>, g: Game)
    ensures
        some_reddit_url(games.push(g)) == (some_reddit_url(games) || g.reddit_url is Some),
{
    let p = games.push(g);
    if some_reddit_url(games) {
        let w = choose|i: int| 0 <= i < games.len() && games[i].reddit_url is Some;
        assert(p[w].reddit_url is Some);
    }
    if g.reddit_url is Some {
        assert(p[games.len() as int].reddit_url is Some);
    }
    if some_reddit_url(p) {
        let w = choose|i: int| 0 <= i < p.len() && p[i].reddit_url is Some;
        if w < games.len() {
            assert(games[w].reddit_url is Some);
        }
    }
}


/// The list is ordered best-first by harmony score.
pub open spec fn sorted_by_score_desc(games: Seq<Game>) -> bool {
    forall|i: int, j: int|
        0 <= i < j < games.len() ==> (#[trigger] games[i]).harmony_score
            >= (#[trigger] games[j]).harmony_score
}

/// Orders the enriched games best-first by harmony score, keeping exactly
/// the same games (ties keep their arrival order).
pub fn sort_games_by_score(games: Vec<Game>) -> (r: Vec<Game>)
    ensures
        sorted_by_score_desc(r@),
        r@.to_multiset() == games@.to_multiset(),
{
    broadcast use vstd::seq_lib::group_to_multiset_ensures, vstd::seq_lib::to_multiset_remove,
        vstd::seq_lib::to_multiset_insert;

    let ghost orig = games@;
    let mut rest = games;
    let mut out: Vec<Game> = Vec::new();
    proof {
        assert(out@.to_multiset().add(rest@.to_multiset()) =~= orig.to_multiset());
    }
    while rest.len() > 0
        invariant
            sorted_by_score_desc(out@),
            out@.to_multiset().add(rest@.to_multiset()) == orig.to_multiset(),
        decreases rest.len(),
    {
        let ghost rest0 = rest@;
        let ghost out0 = out@;
        let g = rest.remove(0);
        proof {
            vstd::seq_lib::to_multiset_remove::<Game>(rest0, 0);
            assert(rest@ == rest0.remove(0));
            assert(rest@.to_multiset() =~= rest0.to_multiset().remove(g));
        }
        let mut j: usize = 0;
        while j < out.len() && out[j].harmony_score >= g.harmony_score
            invariant
                0 <= j <= out.len(),
                out@ == out0,
                forall|p: int| 0 <= p < j ==> (#[trigger] out@[p]).harmony_score >= g.harmony_score,
            decreases out.len() - j,
        {
            j = j + 1;
        }
        out.insert(j, g);
        proof {
            vstd::seq_lib::to_multiset_insert::<Game>(out0, j as int, g);
            assert(out@ == out0.insert(j as int, g));
            assert(out@.to_multiset() =~= out0.to_multiset().insert(g));
            assert(rest0.contains(g)) by {
                assert(rest0[0] == g);
            }
            rest0.to_multiset_ensures();
            assert(rest0.to_multiset().count(g) > 0);
            assert(out@.to_multiset().add(rest@.to_multiset()) =~= orig.to_multiset());
            assert forall|p: int, q: int| 0 <= p < q < out@.len() implies (
            #[trigger] out@[p]).harmony_score >= (#[trigger] out@[q]).harmony_score by {
                assert(forall|m: int| 0 <= m < j ==> out@[m] == out0[m]);
                assert(out@[j as int] == g);
                assert(forall|m: int| j < m < out@.len() ==> out@[m] == out0[m - 1]);
            }
        }
    }
    proof {
        assert(rest@.to_multiset() =~= Multiset::<Game>::empty());
        assert(out@.to_multiset() =~= out@.to_multiset().add(rest@.to_multiset()));
    }
    out
}

} // verus!
