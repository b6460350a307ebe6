//! The enriched game record and the reconciliation of metadata from several
//! independent sources: every optional field is first-non-empty-wins,
//! platform flags are OR-combined, and storefront lists are unioned,
//! deduplicated and sorted.

use vstd::prelude::*;

use crate::rawg::{has_platform, platforms_contain, RawgGameBasic, RawgGameDetailed, RawgStore};
use crate::steam::{ExtendedPlatforms, SteamDeckVerifiedResponse, StoreInfo};
use crate::text::{lemma_lex_le_trans, lemma_lex_total, lex_le, lex_lt, lex_lt_vec, str_to_chars,
    vec_char_eq};

verus! {

/// The views of a list of strings.
pub open spec fn strs(v: Seq<String>) -> Seq<Seq<char>> {
    v.map_values(|s: String| s@)
}

pub open spec fn sorted_lex(v: Seq<Seq<char>>) -> bool {
    forall|i: int, j: int| 0 <= i < j < v.len() ==> lex_le(#[trigger] v[i], #[trigger] v[j])
}

pub open spec fn distinct_seqs(v: Seq<Seq<char>>) -> bool {
    forall|i: int, j: int| 0 <= i < j < v.len() ==> #[trigger] v[i] != #[trigger] v[j]
}

proof fn lemma_lex_lt_ne(a: Seq<char>, b: Seq<char>)
    requires
        lex_lt(a, b),
    ensures
        a != b,
    decreases a.len(),
{
    if b.len() > 0 && a.len() > 0 && a[0] == b[0] {
        lemma_lex_lt_ne(a.drop_first(), b.drop_first());
        if a == b {
            assert(a.drop_first() =~= b.drop_first());
        }
    }
}

/// Inserts `name` into a sorted, duplicate-free list of strings, keeping it
/// sorted and duplicate-free.
fn insert_store(stores: &mut Vec<String>, name: String)
    requires
        sorted_lex(strs(old(stores)@)),
        distinct_seqs(strs(old(stores)@)),
    ensures
        sorted_lex(strs(final(stores)@)),
        distinct_seqs(strs(final(stores)@)),
        forall|x: Seq<char>|
            strs(final(stores)@).contains(x) <==> (strs(old(stores)@).contains(x) || x == name@),
{
    let ghost olds = strs(old(stores)@);
    let nc = str_to_chars(name.as_str());
    let mut i: usize = 0;
    let mut found: bool = false;
    while i < stores.len() && !found
        invariant_except_break
            0 <= i <= stores.len(),
            stores@ == old(stores)@,
            nc@ == name@,
            olds == strs(old(stores)@),
            !found,
            forall|j: int| 0 <= j < i ==> lex_lt(#[trigger] olds[j], name@),
        ensures
            0 <= i <= stores@.len(),
            stores@ == old(stores)@,
            nc@ == name@,
            forall|j: int| 0 <= j < i ==> lex_lt(#[trigger] olds[j], name@),
            found ==> olds.contains(name@),
            !found && i < stores@.len() ==> !lex_lt(olds[i as int], name@) && olds[i as int]
                != name@,
        decreases stores.len() - i,
    {
        let c = str_to_chars(stores[i].as_str());
        proof {
            assert(olds[i as int] == stores@[i as int]@);
        }
        if vec_char_eq(&c, &nc) {
            found = true;
            proof {
                assert(olds.contains(name@)) by {
                    assert(olds[i as int] == name@);
                }
            }
            break ;
        }
        if !lex_lt_vec(&c, &nc) {
            break ;
        }
        i = i + 1;
    }
    if found {
        return ;
    }
    proof {
        if i < stores@.len() {
            lemma_lex_total(olds[i as int], name@);
            assert(lex_lt(name@, olds[i as int]));
        }
    }
    stores.insert(i, name);
    proof {
        let news = strs(stores@);
        assert(news.len() == olds.len() + 1);
        assert(news[i as int] == name@);
        assert(forall|j: int| 0 <= j < i ==> news[j] == olds[j]);
        assert(forall|j: int| i < j < news.len() ==> news[j] == olds[j - 1]);
        assert forall|p: int, q: int| 0 <= p < q < news.len() implies lex_le(
            #[trigger] news[p],
            #[trigger] news[q],
        ) by {
            if p == i {
                // name against a later element
                assert(lex_lt(name@, olds[i as int]));
                if q - 1 > i {
                    lemma_lex_le_trans(name@, olds[i as int], olds[q - 1]);
                }
            } else if q == i {
                assert(lex_lt(olds[p], name@));
            } else if p < i && q > i {
                if p < q - 1 {
                    assert(lex_le(olds[p], olds[q - 1]));
                }
            }
        }
        assert forall|p: int, q: int| 0 <= p < q < news.len() implies #[trigger] news[p]
            != #[trigger] news[q] by {
            if p == i {
                assert(lex_lt(name@, olds[i as int]));
                if q - 1 == i {
                    lemma_lex_lt_ne(name@, olds[i as int]);
                } else {
                    lemma_lex_le_trans(name@, olds[i as int], olds[q - 1]);
                    lemma_lex_lt_ne(name@, olds[q - 1]);
                }
            } else if q == i {
                lemma_lex_lt_ne(olds[p], name@);
            }
        }
        assert forall|x: Seq<char>| news.contains(x) <==> (olds.contains(x) || x == name@) by {
            if news.contains(x) {
                let k = choose|k: int| 0 <= k < news.len() && news[k] == x;
                if k < i {
                    assert(olds[k] == x);
                } else if k > i {
                    assert(olds[k - 1] == x);
                }
            }
            if olds.contains(x) {
                let k = choose|k: int| 0 <= k < olds.len() && olds[k] == x;
                if k < i {
                    assert(news[k] == x);
                } else {
                    assert(news[k + 1] == x);
                }
            }
            if x == name@ {
                assert(news[i as int] == x);
            }
        }
    }
}

/// Unions the storefront names of `incoming` into `existing`, returning a
/// sorted, duplicate-free list holding exactly the names of both.
pub fn merge_store_lists(existing: &Vec<String>, incoming: &Vec<RawgStore>) -> (r: Vec<String>)
    ensures
        sorted_lex(strs(r@)),
        distinct_seqs(strs(r@)),
        forall|x: Seq<char>|
            strs(r@).contains(x) <==> (strs(existing@).contains(x) || exists|k: int|
                0 <= k < incoming@.len() && #[trigger] incoming@[k].store.name@ == x),
{
    let mut out: Vec<String> = Vec::new();
    let mut i: usize = 0;
    while i < existing.len()
        invariant
            0 <= i <= existing.len(),
            sorted_lex(strs(out@)),
            distinct_seqs(strs(out@)),
            forall|x: Seq<char>|
                strs(out@).contains(x) <==> strs(existing@).take(i as int).contains(x),
        decreases existing.len() - i,
    {
        insert_store(&mut out, existing[i].clone());
        proof {
            let pre = strs(existing@).take(i as int);
            let post = strs(existing@).take(i + 1);
            assert(post.drop_last() =~= pre);
            assert(post.last() == existing@[i as int]@);
            assert forall|x: Seq<char>| post.contains(x) implies (pre.contains(x) || x
                == existing@[i as int]@) by {
                let k = choose|k: int| 0 <= k < post.len() && post[k] == x;
                if k < i {
                    assert(pre[k] == x);
                }
            }
            assert forall|x: Seq<char>| pre.contains(x) implies post.contains(x) by {
                let k = choose|k: int| 0 <= k < pre.len() && pre[k] == x;
                assert(post[k] == x);
            }
            assert(post.contains(existing@[i as int]@)) by {
                assert(post[i as int] == existing@[i as int]@);
            }
        }
        i = i + 1;
    }
    proof {
        assert(strs(existing@).take(existing@.len() as int) =~= strs(existing@));
    }
    let mut k: usize = 0;
    while k < incoming.len()
        invariant
            0 <= k <= incoming.len(),
            sorted_lex(strs(out@)),
            distinct_seqs(strs(out@)),
            forall|x: Seq<char>|
                strs(out@).contains(x) <==> (strs(existing@).contains(x) || exists|m: int|
                    0 <= m < k && #[trigger] incoming@[m].store.name@ == x),
        decreases incoming.len() - k,
    {
        insert_store(&mut out, incoming[k].store.name.clone());
        k = k + 1;
    }
    out
}

/// One aggregated game: its display title, its per-source rankings, the
/// reconciled metadata, and its harmony score.
#[derive(Debug, Clone, PartialEq)]
pub struct Game {
    pub title: String,
    pub rankings: Vec<(String, u64)>,
    pub platforms: ExtendedPlatforms,
    pub stores: Vec<String>,
    pub steam_id: Option<u64>,
    pub user_score: Option<i32>,
    pub total_reviews: i32,
    pub price: Option<String>,
    pub header_image: Option<String>,
    pub metacritic: Option<i32>,
    pub release_date: Option<String>,
    pub reddit_url: Option<String>,
    pub metacritic_url: Option<String>,
    pub protondb_url: Option<String>,
    pub harmony_score: u64,
}

impl Game {
    /// A bare record: only the title, the rankings and the score are set.
    pub fn new(title: String, rankings: Vec<(String, u64)>, harmony_score: u64) -> (g: Game)
        ensures
            g.title == title,
            g.rankings == rankings,
            g.harmony_score == harmony_score,
            g.steam_id is None,
            g.user_score is None,
            g.total_reviews == 0,
            g.price is None,
            g.header_image is None,
            g.metacritic is None,
            g.release_date is None,
            g.reddit_url is None,
            g.metacritic_url is None,
            g.protondb_url is None,
            g.stores@.len() == 0,
            !g.platforms.windows && !g.platforms.macos && !g.platforms.linux
                && !g.platforms.switch,
            g.platforms.steamdeck@ == Seq::<char>::empty(),
    {
        Game {
            title,
            rankings,
            platforms: ExtendedPlatforms::default(),
            stores: Vec::new(),
            steam_id: None,
            user_score: None,
            total_reviews: 0,
            price: None,
            header_image: None,
            metacritic: None,
            release_date: None,
            reddit_url: None,
            metacritic_url: None,
            protondb_url: None,
            harmony_score,
        }
    }

    /// Takes price, platforms, images and review scores from the store
    /// record, and notes the store in the storefront list.
    pub fn with_steam_info(self, store_info: StoreInfo) -> (g: Game)
        ensures
            g.price == store_info.price,
            g.platforms == store_info.platforms,
            g.user_score == Some(store_info.user_score),
            g.total_reviews == store_info.total_reviews,
            g.header_image == store_info.header_image,
            g.metacritic == store_info.metacritic_score,
            g.metacritic_url == store_info.metacritic_url,
            strs(g.stores@) == strs(self.stores@).push("Steam"@),
            g.title == self.title,
            g.rankings == self.rankings,
            g.harmony_score == self.harmony_score,
            g.steam_id == self.steam_id,
            g.release_date == self.release_date,
            g.reddit_url == self.reddit_url,
            g.protondb_url == self.protondb_url,
    {
        let mut g = self;
        g.price = store_info.price;
        g.platforms = store_info.platforms;
        g.user_score = Some(store_info.user_score);
        g.total_reviews = store_info.total_reviews;
        g.header_image = store_info.header_image;
        g.metacritic = store_info.metacritic_score;
        g.metacritic_url = store_info.metacritic_url;
        let s = String::from_str("Steam");
        let ghost st0 = g.stores@;
        g.stores.push(s);
        proof {
            assert(strs(g.stores@) =~= strs(st0).push("Steam"@));
        }
        g
    }

    /// Marks the game deck-verified when the compatibility report resolves
    /// positively, linking the compatibility page for its identifier.
    pub fn with_steam_deck_info(self, deck_status: SteamDeckVerifiedResponse, steam_id: String)
        -> (g: Game)
        ensures
            (deck_status.results matches Some(res) && res.resolved_category > 0) ==> {
                &&& g.platforms.steamdeck@ == "verified"@
                &&& g.protondb_url matches Some(u) && u@ == "https://www.protondb.com/app/"@
                    + steam_id@
                &&& g.platforms.windows == self.platforms.windows
                &&& g.platforms.macos == self.platforms.macos
                &&& g.platforms.linux == self.platforms.linux
                &&& g.platforms.switch == self.platforms.switch
            },
            !(deck_status.results matches Some(res) && res.resolved_category > 0) ==> g == self,
            g.title == self.title,
            g.rankings == self.rankings,
            g.stores == self.stores,
            g.harmony_score == self.harmony_score,
            g.steam_id == self.steam_id,
            g.price == self.price,
            g.header_image == self.header_image,
            g.metacritic == self.metacritic,
            g.metacritic_url == self.metacritic_url,
            g.release_date == self.release_date,
            g.reddit_url == self.reddit_url,
            g.user_score == self.user_score,
            g.total_reviews == self.total_reviews,
    {
        let mut g = self;
        match deck_status.results {
            Some(results) => {
                if results.resolved_category > 0 {
                    g.platforms.steamdeck = String::from_str("verified");
                    let url = String::from_str("https://www.protondb.com/app/").concat(
                        steam_id.as_str(),
                    );
                    g.protondb_url = Some(url);
                }
            },
            None => {},
        }
        g
    }

    /// Fills every still-absent field from the secondary database record:
    /// images and scores first-wins, the Switch flag OR-combined, and the
    /// storefront list unioned, deduplicated and sorted.
    pub fn with_rawg_info(self, basic: RawgGameBasic, detailed: RawgGameDetailed) -> (g: Game)
        ensures
            g.header_image == (if self.header_image is Some {
                self.header_image
            } else {
                basic.background_image
            }),
            g.platforms.switch == (self.platforms.switch || has_platform(
                basic.platforms@,
                "Nintendo Switch"@,
            )),
            g.platforms.windows == self.platforms.windows,
            g.platforms.macos == self.platforms.macos,
            g.platforms.linux == self.platforms.linux,
            g.platforms.steamdeck == self.platforms.steamdeck,
            basic.stores matches Some(sts) ==> {
                &&& sorted_lex(strs(g.stores@))
                &&& distinct_seqs(strs(g.stores@))
                &&& forall|x: Seq<char>|
                    strs(g.stores@).contains(x) <==> (strs(self.stores@).contains(x) || exists|
                        k: int,
                    | 0 <= k < sts@.len() && #[trigger] sts@[k].store.name@ == x)
            },
            basic.stores is None ==> g.stores == self.stores,
            g.metacritic == (if self.metacritic is Some {
                self.metacritic
            } else {
                detailed.metacritic
            }),
            g.release_date == (if self.release_date is Some {
                self.release_date
            } else {
                detailed.released
            }),
            g.reddit_url == (if self.reddit_url is Some {
                self.reddit_url
            } else {
                detailed.reddit_url
            }),
            g.metacritic_url == (if self.metacritic_url is Some {
                self.metacritic_url
            } else {
                detailed.metacritic_url
            }),
            g.title == self.title,
            g.rankings == self.rankings,
            g.harmony_score == self.harmony_score,
            g.steam_id == self.steam_id,
            g.price == self.price,
            g.user_score == self.user_score,
            g.total_reviews == self.total_reviews,
            g.protondb_url == self.protondb_url,
    {
        let mut g = self;
        if g.header_image.is_none() {
            g.header_image = basic.background_image;
        }
        if !g.platforms.switch {
            g.platforms.switch = platforms_contain(&basic.platforms, "Nintendo Switch");
        }
        match basic.stores {
            Some(sts) => {
                g.stores = merge_store_lists(&g.stores, &sts);
            },
            None => {},
        }
        if g.metacritic.is_none() {
            g.metacritic = detailed.metacritic;
        }
        if g.release_date.is_none() {
            g.release_date = detailed.released;
        }
        if g.reddit_url.is_none() {
            g.reddit_url = detailed.reddit_url;
        }
        if g.metacritic_url.is_none() {
            g.metacritic_url = detailed.metacritic_url;
        }
        g
    }
}

} // verus!
