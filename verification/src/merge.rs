//! The merge engine: groups per-source scraped rankings into canonical
//! merged games.  Two rankings merge iff their normalized titles agree once
//! numeric tokens are stripped AND their numeric-token sequences agree —
//! this keeps sequels apart while joining spelling variants.

use vstd::prelude::*;

use crate::chars::{is_digit, is_word_char, exec_is_digit, exec_is_word_char};
use crate::config::{first_matching, normalize_source, ScraperConfig};
use crate::game::strs;
use crate::normalize::{digit_run_len, normalize, normalize_spec, split_ws_tokens};
use crate::text::{chars_to_string, str_to_chars, vec_char_eq};

verus! {

/// One scraped ranking: a raw title and its 1-based position.
#[derive(Debug, Clone, PartialEq)]
pub struct ScrapedGame {
    pub name: String,
    pub rank: u64,
}

/// Every ranking one source published, keyed by the source.
#[derive(Debug, Clone, PartialEq)]
pub struct WebsiteGames {
    pub source: String,
    pub games: Vec<ScrapedGame>,
}

/// One ranking prepared for merging: the raw title, its normalized form,
/// the numeric tokens, and the group key (the normalized title with numeric
/// tokens removed and whitespace collapsed).
#[derive(Debug, Clone, PartialEq)]
pub struct GameData {
    pub original_name: String,
    pub normalized_title: String,
    pub numeric_tokens: Vec<String>,
    pub non_numeric_title: String,
    pub rank: u64,
    pub source: String,
}

/// One merged game: the canonical (normalized) title of its first ranking,
/// every distinct raw title, and one rank per source (re-insertion for a
/// source overwrites).
#[derive(Debug, Clone, PartialEq)]
pub struct MergedGame {
    pub normalized_name: String,
    pub original_names: Vec<String>,
    pub rankings: Vec<(String, u64)>,
}

/// The ranking pairs of a merged game, as plain values.
pub open spec fn rank_views(v: Seq<(String, u64)>) -> Seq<(Seq<char>, u64)> {
    v.map_values(|p: (String, u64)| (p.0@, p.1))
}

impl View for MergedGame {
    type V = (Seq<char>, Seq<Seq<char>>, Seq<(Seq<char>, u64)>);

    open spec fn view(&self) -> (Seq<char>, Seq<Seq<char>>, Seq<(Seq<char>, u64)>) {
        (self.normalized_name@, strs(self.original_names@), rank_views(self.rankings@))
    }
}

// ---------------------------------------------------------------------------
// Numeric tokens
// ---------------------------------------------------------------------------
/// The maximal digit runs standing as whole words, left to right.
pub open spec fn num_tokens_rec(s: Seq<char>, prev_word: bool) -> Seq<Seq<char>>
    decreases s.len(),
    via num_tokens_rec_decreases
{
    if s.len() == 0 {
        Seq::empty()
    } else if is_digit(s[0]) && !prev_word {
        let d = digit_run_len(s) as int;
        if d == s.len() || !is_word_char(s[d]) {
            seq![s.take(d)] + num_tokens_rec(s.skip(d), true)
        } else {
            num_tokens_rec(s.skip(d), true)
        }
    } else {
        num_tokens_rec(s.skip(1), is_word_char(s[0]))
    }
}

#[via_fn]
proof fn num_tokens_rec_decreases(s: Seq<char>, prev_word: bool) {
    crate::normalize::lemma_digit_run_le(s);
}

pub open spec fn num_tokens(s: Seq<char>) -> Seq<Seq<char>> {
    num_tokens_rec(s, false)
}

/// The string with those whole-word digit runs removed.
pub open spec fn strip_num_tokens_rec(s: Seq<char>, prev_word: bool) -> Seq<char>
    decreases s.len(),
    via strip_num_tokens_rec_decreases
{
    if s.len() == 0 {
        s
    } else if is_digit(s[0]) && !prev_word {
        let d = digit_run_len(s) as int;
        if d == s.len() || !is_word_char(s[d]) {
            strip_num_tokens_rec(s.skip(d), true)
        } else {
            s.take(d) + strip_num_tokens_rec(s.skip(d), true)
        }
    } else {
        seq![s[0]] + strip_num_tokens_rec(s.skip(1), is_word_char(s[0]))
    }
}

#[via_fn]
proof fn strip_num_tokens_rec_decreases(s: Seq<char>, prev_word: bool) {
    crate::normalize::lemma_digit_run_le(s);
}

pub open spec fn strip_num_tokens(s: Seq<char>) -> Seq<char> {
    strip_num_tokens_rec(s, false)
}

/// Tokens joined by a separator character.
pub open spec fn join_sep(ts: Seq<Seq<char>>, sep: char, started: bool) -> Seq<char>
    decreases ts.len(),
{
    if ts.len() == 0 {
        Seq::empty()
    } else if started {
        seq![sep] + ts[0] + join_sep(ts.skip(1), sep, true)
    } else {
        ts[0] + join_sep(ts.skip(1), sep, true)
    }
}

/// The group key: the normalized title with numeric tokens removed and
/// whitespace collapsed to single spaces.
pub open spec fn group_key_spec(norm: Seq<char>) -> Seq<char> {
    join_sep(split_ws_tokens(strip_num_tokens(norm)), ' ', false)
}

/// The variant key: the numeric tokens joined with an underscore; the empty
/// sequence is its own variant.
pub open spec fn variant_key_spec(norm: Seq<char>) -> Seq<char> {
    join_sep(num_tokens(norm), '_', false)
}

/// Computes the numeric tokens of `s`.
pub fn exec_num_tokens(s: &Vec<char>) -> (r: Vec<String>)
    ensures
        strs(r@) == num_tokens(s@),
{
    let mut out: Vec<String> = Vec::new();
    let mut i: usize = 0;
    let mut prevw: bool = false;
    proof {
        assert(s@.skip(0) =~= s@);
        assert(strs(out@) =~= Seq::<Seq<char>>::empty());
        assert(Seq::<Seq<char>>::empty() + num_tokens(s@) =~= num_tokens(s@));
    }
    while i < s.len()
        invariant
            0 <= i <= s.len(),
            num_tokens(s@) == strs(out@) + num_tokens_rec(s@.skip(i as int), prevw),
        decreases s.len() - i,
    {
        let ghost suf = s@.skip(i as int);
        proof {
            assert(suf[0] == s@[i as int]);
        }
        if exec_is_digit(s[i]) && !prevw {
            let d = crate::normalize::digit_run_at(s, i);
            proof {
                assert(suf.skip(d as int) =~= s@.skip(i + d));
                assert(suf.take(d as int) =~= s@.subrange(i as int, i + d));
                if i + d < s.len() {
                    assert(suf[d as int] == s@[i + d]);
                }
            }
            let boundary = i + d == s.len() || !exec_is_word_char(s[i + d]);
            if boundary {
                let tok = crate::normalize::copy_range(s, i, i + d);
                let ghost out0 = strs(out@);
                out.push(chars_to_string(&tok));
                proof {
                    assert(strs(out@) =~= out0.push(tok@));
                    assert(strs(out@) + num_tokens_rec(s@.skip(i + d), true) =~= out0 + (seq![
                        suf.take(d as int),
                    ] + num_tokens_rec(s@.skip(i + d), true)));
                }
            }
            i = i + d;
            prevw = true;
        } else {
            proof {
                assert(suf.skip(1) =~= s@.skip(i + 1));
            }
            prevw = exec_is_word_char(s[i]);
            i = i + 1;
        }
    }
    proof {
        assert(num_tokens_rec(s@.skip(i as int), prevw) =~= Seq::<Seq<char>>::empty());
        assert(strs(out@) + Seq::<Seq<char>>::empty() =~= strs(out@));
    }
    out
}

/// Removes the numeric tokens of `s`.
pub fn exec_strip_num_tokens(s: &Vec<char>) -> (r: Vec<char>)
    ensures
        r@ == strip_num_tokens(s@),
{
    let mut out: Vec<char> = Vec::new();
    let mut i: usize = 0;
    let mut prevw: bool = false;
    proof {
        assert(s@.skip(0) =~= s@);
        assert(Seq::<char>::empty() + strip_num_tokens(s@) =~= strip_num_tokens(s@));
    }
    while i < s.len()
        invariant
            0 <= i <= s.len(),
            strip_num_tokens(s@) == out@ + strip_num_tokens_rec(s@.skip(i as int), prevw),
        decreases s.len() - i,
    {
        let ghost suf = s@.skip(i as int);
        proof {
            assert(suf[0] == s@[i as int]);
        }
        if exec_is_digit(s[i]) && !prevw {
            let d = crate::normalize::digit_run_at(s, i);
            proof {
                assert(suf.skip(d as int) =~= s@.skip(i + d));
                assert(suf.take(d as int) =~= s@.subrange(i as int, i + d));
                if i + d < s.len() {
                    assert(suf[d as int] == s@[i + d]);
                }
            }
            let boundary = i + d == s.len() || !exec_is_word_char(s[i + d]);
            if !boundary {
                let ghost out0 = out@;
                crate::normalize::push_range(&mut out, s, i, i + d);
                proof {
                    assert(out@ + strip_num_tokens_rec(s@.skip(i + d), true) =~= out0 + (suf.take(
                        d as int,
                    ) + strip_num_tokens_rec(s@.skip(i + d), true)));
                }
            }
            i = i + d;
            prevw = true;
        } else {
            out.push(s[i]);
            proof {
                assert(suf.skip(1) =~= s@.skip(i + 1));
                assert(out@ + strip_num_tokens_rec(s@.skip(i + 1), is_word_char(s@[i as int]))
                    =~= out@.drop_last() + (seq![s@[i as int]] + strip_num_tokens_rec(
                    s@.skip(i + 1),
                    is_word_char(s@[i as int]),
                )));
            }
            prevw = exec_is_word_char(s[i]);
            i = i + 1;
        }
    }
    proof {
        assert(strip_num_tokens_rec(s@.skip(i as int), prevw) =~= Seq::<char>::empty());
        assert(out@ + Seq::<char>::empty() =~= out@);
    }
    out
}

/// Joins tokens with a separator character.
pub fn exec_join_sep(tokens: &Vec<String>, sep: char) -> (r: String)
    ensures
        r@ == join_sep(strs(tokens@), sep, false),
{
    let mut out: Vec<char> = Vec::new();
    let mut started: bool = false;
    let mut i: usize = 0;
    proof {
        assert(strs(tokens@).skip(0) =~= strs(tokens@));
        assert(Seq::<char>::empty() + join_sep(strs(tokens@), sep, false) =~= join_sep(
            strs(tokens@),
            sep,
            false,
        ));
    }
    while i < tokens.len()
        invariant
            0 <= i <= tokens.len(),
            join_sep(strs(tokens@), sep, false) == out@ + join_sep(
                strs(tokens@).skip(i as int),
                sep,
                started,
            ),
        decreases tokens.len() - i,
    {
        let ghost suf = strs(tokens@).skip(i as int);
        proof {
            assert(suf[0] == strs(tokens@)[i as int]);
            assert(strs(tokens@)[i as int] == tokens@[i as int]@);
            assert(suf.skip(1) =~= strs(tokens@).skip(i + 1));
        }
        let tok = str_to_chars(tokens[i].as_str());
        let ghost out0 = out@;
        if started {
            out.push(sep);
        }
        crate::normalize::push_range(&mut out, &tok, 0, tok.len());
        proof {
            assert(tok@.subrange(0, tok@.len() as int) =~= tok@);
            if started {
                assert(out@ + join_sep(strs(tokens@).skip(i + 1), sep, true) =~= out0 + (seq![sep]
                    + tok@ + join_sep(strs(tokens@).skip(i + 1), sep, true)));
            } else {
                assert(out@ + join_sep(strs(tokens@).skip(i + 1), sep, true) =~= out0 + (tok@
                    + join_sep(strs(tokens@).skip(i + 1), sep, true)));
            }
        }
        started = true;
        i = i + 1;
    }
    proof {
        assert(join_sep(strs(tokens@).skip(i as int), sep, started) =~= Seq::<char>::empty());
        assert(out@ + Seq::<char>::empty() =~= out@);
    }
    chars_to_string(&out)
}


/// Collapses whitespace runs to single spaces and trims the ends.
pub fn exec_collapse_ws(s: &Vec<char>) -> (r: Vec<char>)
    ensures
        r@ == join_sep(split_ws_tokens(s@), ' ', false),
{
    let mut out: Vec<char> = Vec::new();
    let mut started: bool = false;
    let mut i: usize = 0;
    proof {
        assert(s@.skip(0) =~= s@);
        assert(Seq::<char>::empty() + join_sep(split_ws_tokens(s@), ' ', false) =~= join_sep(
            split_ws_tokens(s@),
            ' ',
            false,
        ));
    }
    while i < s.len()
        invariant
            0 <= i <= s.len(),
            join_sep(split_ws_tokens(s@), ' ', false) == out@ + join_sep(
                split_ws_tokens(s@.skip(i as int)),
                ' ',
                started,
            ),
        decreases s.len() - i,
    {
        let ghost suf = s@.skip(i as int);
        proof {
            assert(suf[0] == s@[i as int]);
        }
        if crate::chars::exec_is_space_char(s[i]) {
            proof {
                assert(suf.skip(1) =~= s@.skip(i + 1));
            }
            i = i + 1;
        } else {
            let w = crate::normalize::nonws_run_at(s, i);
            let tok = crate::normalize::copy_range(s, i, i + w);
            proof {
                assert(suf.take(w as int) =~= s@.subrange(i as int, i + w));
                assert(suf.skip(w as int) =~= s@.skip(i + w));
                assert(split_ws_tokens(suf) == seq![tok@] + split_ws_tokens(s@.skip(i + w)));
                assert((seq![tok@] + split_ws_tokens(s@.skip(i + w)))[0] == tok@);
                assert((seq![tok@] + split_ws_tokens(s@.skip(i + w))).skip(1) =~= split_ws_tokens(
                    s@.skip(i + w),
                ));
            }
            let ghost out0 = out@;
            if started {
                out.push(' ');
            }
            crate::normalize::push_range(&mut out, &tok, 0, tok.len());
            proof {
                assert(tok@.subrange(0, tok@.len() as int) =~= tok@);
                if started {
                    assert(out@ + join_sep(split_ws_tokens(s@.skip(i + w)), ' ', true) =~= out0 + (
                    seq![' '] + tok@ + join_sep(split_ws_tokens(s@.skip(i + w)), ' ', true)));
                } else {
                    assert(out@ + join_sep(split_ws_tokens(s@.skip(i + w)), ' ', true) =~= out0 + (
                    tok@ + join_sep(split_ws_tokens(s@.skip(i + w)), ' ', true)));
                }
            }
            started = true;
            i = i + w;
        }
    }
    proof {
        assert(split_ws_tokens(s@.skip(i as int)) =~= Seq::<Seq<char>>::empty());
        assert(join_sep(Seq::<Seq<char>>::empty(), ' ', started) =~= Seq::<char>::empty());
        assert(out@ + Seq::<char>::empty() =~= out@);
    }
    out
}

// ---------------------------------------------------------------------------
// The merge fold
// ---------------------------------------------------------------------------
/// The items one source contributes: its display name, each raw title, its
/// normalized form, and the rank.
pub open spec fn site_items(disp: Seq<char>, games: Seq<ScrapedGame>) -> Seq<
    (Seq<char>, Seq<char>, Seq<char>, u64),
> {
    games.map_values(|g: ScrapedGame| (disp, g.name@, normalize_spec(g.name@), g.rank))
}

/// All items of all sources, in source then list order, with sources mapped
/// to their configured display names.
pub open spec fn prepare_items(wgs: Seq<WebsiteGames>, cfg: Seq<crate::config::Website>) -> Seq<
    (Seq<char>, Seq<char>, Seq<char>, u64),
>
    decreases wgs.len(),
{
    if wgs.len() == 0 {
        Seq::empty()
    } else {
        prepare_items(wgs.drop_last(), cfg) + site_items(
            first_matching(cfg, wgs.last().source@),
            wgs.last().games@,
        )
    }
}

pub open spec fn item_of(g: GameData) -> (Seq<char>, Seq<char>, Seq<char>, u64) {
    (g.source@, g.original_name@, g.normalized_title@, g.rank)
}

pub open spec fn items_of(gs: Seq<GameData>) -> Seq<(Seq<char>, Seq<char>, Seq<char>, u64)> {
    gs.map_values(|g: GameData| item_of(g))
}

/// A prepared ranking is well-formed: its normalized title, group key and
/// numeric tokens are the ones its raw title determines.
pub open spec fn gd_wf(g: GameData) -> bool {
    &&& g.normalized_title@ == normalize_spec(g.original_name@)
    &&& g.non_numeric_title@ == group_key_spec(g.normalized_title@)
    &&& strs(g.numeric_tokens@) == num_tokens(g.normalized_title@)
}

pub open spec fn item_key(it: (Seq<char>, Seq<char>, Seq<char>, u64)) -> (Seq<char>, Seq<char>) {
    (group_key_spec(it.2), variant_key_spec(it.2))
}

/// The key of a merged game, as its canonical title determines it.
pub open spec fn game_key(g: (Seq<char>, Seq<Seq<char>>, Seq<(Seq<char>, u64)>)) -> (
    Seq<char>,
    Seq<char>,
) {
    (group_key_spec(g.0), variant_key_spec(g.0))
}

/// First index of the game carrying `key`, or -1.
pub open spec fn game_index(
    gs: Seq<(Seq<char>, Seq<Seq<char>>, Seq<(Seq<char>, u64)>)>,
    key: (Seq<char>, Seq<char>),
) -> int
    decreases gs.len(),
{
    if gs.len() == 0 {
        -1
    } else if game_key(gs[0]) == key {
        0
    } else {
        let r = game_index(gs.drop_first(), key);
        if r < 0 {
            -1
        } else {
            r + 1
        }
    }
}

pub proof fn lemma_game_index(
    gs: Seq<(Seq<char>, Seq<Seq<char>>, Seq<(Seq<char>, u64)>)>,
    key: (Seq<char>, Seq<char>),
)
    ensures
        game_index(gs, key) >= 0 ==> game_index(gs, key) < gs.len() && game_key(
            gs[game_index(gs, key)],
        ) == key && (forall|j: int|
            0 <= j < game_index(gs, key) ==> game_key(#[trigger] gs[j]) != key),
        game_index(gs, key) < 0 ==> (forall|j: int|
            0 <= j < gs.len() ==> game_key(#[trigger] gs[j]) != key),
    decreases gs.len(),
{
    if gs.len() > 0 && game_key(gs[0]) != key {
        lemma_game_index(gs.drop_first(), key);
        assert(forall|j: int| 1 <= j < gs.len() ==> gs[j] == gs.drop_first()[j - 1]);
    }
}

/// Appends a raw title unless it is already recorded.
pub open spec fn add_name(names: Seq<Seq<char>>, n: Seq<char>) -> Seq<Seq<char>> {
    if names.contains(n) {
        names
    } else {
        names.push(n)
    }
}

/// First index of the source in the ranking pairs, or -1.
pub open spec fn rank_index(rk: Seq<(Seq<char>, u64)>, src: Seq<char>) -> int
    decreases rk.len(),
{
    if rk.len() == 0 {
        -1
    } else if rk[0].0 == src {
        0
    } else {
        let r = rank_index(rk.drop_first(), src);
        if r < 0 {
            -1
        } else {
            r + 1
        }
    }
}

pub proof fn lemma_rank_index(rk: Seq<(Seq<char>, u64)>, src: Seq<char>)
    ensures
        rank_index(rk, src) >= 0 ==> rank_index(rk, src) < rk.len() && rk[rank_index(rk, src)].0
            == src && (forall|j: int|
            0 <= j < rank_index(rk, src) ==> (#[trigger] rk[j]).0 != src),
        rank_index(rk, src) < 0 ==> (forall|j: int|
            0 <= j < rk.len() ==> (#[trigger] rk[j]).0 != src),
    decreases rk.len(),
{
    if rk.len() > 0 && rk[0].0 != src {
        lemma_rank_index(rk.drop_first(), src);
        assert(forall|j: int| 1 <= j < rk.len() ==> rk[j] == rk.drop_first()[j - 1]);
    }
}

/// Records the rank a source reports, overwriting that source's earlier
/// rank if one is there.
pub open spec fn set_rank(rk: Seq<(Seq<char>, u64)>, src: Seq<char>, rank: u64) -> Seq<
    (Seq<char>, u64),
> {
    let j = rank_index(rk, src);
    if j >= 0 {
        rk.update(j, (src, rank))
    } else {
        rk.push((src, rank))
    }
}

pub open spec fn upd_game(
    g: (Seq<char>, Seq<Seq<char>>, Seq<(Seq<char>, u64)>),
    it: (Seq<char>, Seq<char>, Seq<char>, u64),
) -> (Seq<char>, Seq<Seq<char>>, Seq<(Seq<char>, u64)>) {
    (g.0, add_name(g.1, it.1), set_rank(g.2, it.0, it.3))
}

pub open spec fn new_game(it: (Seq<char>, Seq<char>, Seq<char>, u64)) -> (
    Seq<char>,
    Seq<Seq<char>>,
    Seq<(Seq<char>, u64)>,
) {
    (it.2, seq![it.1], seq![(it.0, it.3)])
}

/// The merge of a sequence of items, folding left: the first item of a
/// (group key, variant key) bucket seeds the merged game with its
/// normalized title; every further item of the bucket adds its raw title
/// (once) and its source's rank (last write per source wins).
pub open spec fn merge_spec(items: Seq<(Seq<char>, Seq<char>, Seq<char>, u64)>) -> Seq<
    (Seq<char>, Seq<Seq<char>>, Seq<(Seq<char>, u64)>),
>
    decreases items.len(),
{
    if items.len() == 0 {
        Seq::empty()
    } else {
        let prev = merge_spec(items.drop_last());
        let it = items.last();
        let j = game_index(prev, item_key(it));
        if j >= 0 {
            prev.update(j, upd_game(prev[j], it))
        } else {
            prev.push(new_game(it))
        }
    }
}

/// No two merged games carry the same (group key, variant key): in
/// particular, rankings whose numeric tokens differ never merge.
pub proof fn lemma_merge_distinct_keys(items: Seq<(Seq<char>, Seq<char>, Seq<char>, u64)>)
    ensures
        forall|j1: int, j2: int|
            0 <= j1 < j2 < merge_spec(items).len() ==> game_key(#[trigger] merge_spec(items)[j1])
                != game_key(#[trigger] merge_spec(items)[j2]),
    decreases items.len(),
{
    if items.len() > 0 {
        lemma_merge_distinct_keys(items.drop_last());
        let prev = merge_spec(items.drop_last());
        let it = items.last();
        let j = game_index(prev, item_key(it));
        lemma_game_index(prev, item_key(it));
        if j >= 0 {
            assert(game_key(upd_game(prev[j], it)) == game_key(prev[j]));
        }
    }
}




/// Prepares one scraped ranking under a given source display name.
pub fn prepare_one(g: &ScrapedGame, source: &String) -> (gd: GameData)
    ensures
        gd_wf(gd),
        item_of(gd) == (source@, g.name@, normalize_spec(g.name@), g.rank),
{
    let normalized_title = normalize(g.name.as_str());
    let norm_chars = str_to_chars(normalized_title.as_str());
    let numeric_tokens = exec_num_tokens(&norm_chars);
    let stripped = exec_strip_num_tokens(&norm_chars);
    let collapsed = exec_collapse_ws(&stripped);
    let non_numeric_title = chars_to_string(&collapsed);
    GameData {
        original_name: g.name.clone(),
        normalized_title,
        numeric_tokens,
        non_numeric_title,
        rank: g.rank,
        source: source.clone(),
    }
}

/// Adds one prepared ranking to an existing merged game: the raw title is
/// recorded once, and the source's rank is written, overwriting an earlier
/// rank from the same source.
pub fn record_ranking(g: &mut MergedGame, gd: &GameData)
    ensures
        final(g)@ == upd_game(old(g)@, item_of(*gd)),
{
    let ghost gv = old(g)@;
    let ghost it = item_of(*gd);
    let mut p: usize = 0;
    let mut has_name: bool = false;
    while p < g.original_names.len() && !has_name
        invariant_except_break
            0 <= p <= g.original_names.len(),
            !has_name,
            gv == g@,
            it == item_of(*gd),
            forall|q: int| 0 <= q < p ==> strs(g.original_names@)[q] != gd.original_name@,
        ensures
            gv == g@,
            it == item_of(*gd),
            has_name ==> strs(g.original_names@).contains(it.1),
            !has_name ==> !strs(g.original_names@).contains(it.1),
        decreases g.original_names.len() - p,
    {
        let a = str_to_chars(g.original_names[p].as_str());
        let b = str_to_chars(gd.original_name.as_str());
        proof {
            assert(strs(g.original_names@)[p as int] == g.original_names@[p as int]@);
        }
        if vec_char_eq(&a, &b) {
            has_name = true;
            proof {
                assert(strs(g.original_names@).contains(it.1)) by {
                    assert(strs(g.original_names@)[p as int] == it.1);
                }
            }
            break ;
        }
        p = p + 1;
    }
    let ghost names0 = strs(g.original_names@);
    if !has_name {
        g.original_names.push(gd.original_name.clone());
        proof {
            assert(strs(g.original_names@) =~= names0.push(it.1));
        }
    }
    proof {
        assert(strs(g.original_names@) == add_name(gv.1, it.1));
    }
    let ghost rk0 = rank_views(g.rankings@);
    let mut q: usize = 0;
    let mut has_src: bool = false;
    while q < g.rankings.len() && !has_src
        invariant_except_break
            0 <= q <= g.rankings.len(),
            !has_src,
            rk0 == rank_views(g.rankings@),
            it == item_of(*gd),
            forall|m: int| 0 <= m < q ==> (#[trigger] rk0[m]).0 != it.0,
        ensures
            rk0 == rank_views(g.rankings@),
            it == item_of(*gd),
            forall|m: int| 0 <= m < q ==> (#[trigger] rk0[m]).0 != it.0,
            has_src ==> q < g.rankings@.len() && rk0[q as int].0 == it.0,
            !has_src ==> q == g.rankings@.len(),
        decreases g.rankings.len() - q,
    {
        let a = str_to_chars(g.rankings[q].0.as_str());
        let b = str_to_chars(gd.source.as_str());
        proof {
            assert(rk0[q as int].0 == g.rankings@[q as int].0@);
        }
        if vec_char_eq(&a, &b) {
            has_src = true;
            break ;
        }
        q = q + 1;
    }
    proof {
        lemma_rank_index(rk0, it.0);
    }
    if has_src {
        proof {
            assert(rank_index(rk0, it.0) == q as int);
        }
        g.rankings[q] = (gd.source.clone(), gd.rank);
        proof {
            assert(rank_views(g.rankings@) =~= rk0.update(q as int, (it.0, it.3)));
        }
    } else {
        g.rankings.push((gd.source.clone(), gd.rank));
        proof {
            assert(rank_index(rk0, it.0) < 0);
            assert(rank_views(g.rankings@) =~= rk0.push((it.0, it.3)));
        }
    }
    proof {
        assert(rank_views(g.rankings@) == set_rank(gv.2, it.0, it.3));
        assert(g@ == upd_game(gv, it));
    }
}

/// The merge engine, configured with the scraper table that maps source
/// URLs to display names.
#[derive(Debug, Clone, PartialEq)]
pub struct MergingService {
    pub scraper_config: ScraperConfig,
}

impl MergingService {
    pub fn new(scraper_config: ScraperConfig) -> (s: MergingService)
        ensures
            s.scraper_config == scraper_config,
    {
        MergingService { scraper_config }
    }

    /// Normalizes every scraped title and computes its numeric tokens and
    /// group key, with the source mapped to its display name.
    #[verifier::rlimit(60)]
    pub fn prepare_game_data(&self, website_games: &Vec<WebsiteGames>) -> (r: Vec<GameData>)
        ensures
            items_of(r@) == prepare_items(website_games@, self.scraper_config.websites@),
            forall|k: int| 0 <= k < r@.len() ==> gd_wf(#[trigger] r@[k]),
    {
        let ghost cfg = self.scraper_config.websites@;
        let mut out: Vec<GameData> = Vec::new();
        let mut i: usize = 0;
        proof {
            assert(website_games@.take(0) =~= Seq::<WebsiteGames>::empty());
            assert(items_of(out@) =~= Seq::<(Seq<char>, Seq<char>, Seq<char>, u64)>::empty());
        }
        while i < website_games.len()
            invariant
                0 <= i <= website_games.len(),
                cfg == self.scraper_config.websites@,
                items_of(out@) == prepare_items(website_games@.take(i as int), cfg),
                forall|k: int| 0 <= k < out@.len() ==> gd_wf(#[trigger] out@[k]),
            decreases website_games.len() - i,
        {
            let wg = &website_games[i];
            let source = normalize_source(wg.source.as_str(), &self.scraper_config);
            let ghost disp = first_matching(cfg, wg.source@);
            let mut j: usize = 0;
            proof {
                assert(website_games@.take(i + 1).drop_last() =~= website_games@.take(i as int));
                assert(website_games@.take(i + 1).last() == website_games@[i as int]);
                assert(wg.games@.take(0) =~= Seq::<ScrapedGame>::empty());
                assert(site_items(disp, wg.games@.take(0)) =~= Seq::<
                    (Seq<char>, Seq<char>, Seq<char>, u64),
                >::empty());
                assert(items_of(out@) + site_items(disp, wg.games@.take(0)) =~= items_of(out@));
            }
            while j < wg.games.len()
                invariant
                    0 <= j <= wg.games.len(),
                    cfg == self.scraper_config.websites@,
                    source@ == disp,
                    disp == first_matching(cfg, wg.source@),
                    wg == website_games@[i as int],
                    0 <= i < website_games@.len(),
                    items_of(out@) == prepare_items(website_games@.take(i as int), cfg)
                        + site_items(disp, wg.games@.take(j as int)),
                    forall|k: int| 0 <= k < out@.len() ==> gd_wf(#[trigger] out@[k]),
                decreases wg.games.len() - j,
            {
                let gd = prepare_one(&wg.games[j], &source);
                let ghost items0 = items_of(out@);
                let ghost gj = wg.games@[j as int];
                let ghost newit = (disp, gj.name@, normalize_spec(gj.name@), gj.rank);
                out.push(gd);
                proof {
                    let pre_take = wg.games@.take(j as int);
                    let post_take = wg.games@.take(j + 1);
                    assert(items_of(out@) =~= items0.push(item_of(out@.last())));
                    assert(post_take.drop_last() =~= pre_take);
                    assert(post_take.last() == gj);
                    assert(site_items(disp, post_take) =~= site_items(disp, pre_take).push(newit));
                    let base = prepare_items(website_games@.take(i as int), cfg);
                    assert(items_of(out@) =~= base + site_items(disp, post_take));
                }
                j = j + 1;
            }
            proof {
                assert(wg.games@.take(wg.games@.len() as int) =~= wg.games@);
                assert(prepare_items(website_games@.take(i + 1), cfg) == prepare_items(
                    website_games@.take(i as int),
                    cfg,
                ) + site_items(disp, wg.games@));
            }
            i = i + 1;
        }
        proof {
            assert(website_games@.take(website_games@.len() as int) =~= website_games@);
        }
        out
    }

    /// Folds the prepared rankings into merged games, one per (group key,
    /// variant key) bucket.
    #[verifier::rlimit(80)]
    pub fn perform_merge(&self, games_data: &Vec<GameData>) -> (r: Vec<MergedGame>)
        requires
            forall|k: int| 0 <= k < games_data@.len() ==> gd_wf(#[trigger] games_data@[k]),
        ensures
            r@.map_values(|g: MergedGame| g@) == merge_spec(items_of(games_data@)),
    {
        let ghost items = items_of(games_data@);
        let mut out: Vec<MergedGame> = Vec::new();
        let mut keys: Vec<(String, String)> = Vec::new();
        let mut n: usize = 0;
        proof {
            assert(items.take(0) =~= Seq::<(Seq<char>, Seq<char>, Seq<char>, u64)>::empty());
            assert(out@.map_values(|g: MergedGame| g@) =~= Seq::<
                (Seq<char>, Seq<Seq<char>>, Seq<(Seq<char>, u64)>),
            >::empty());
        }
        while n < games_data.len()
            invariant
                0 <= n <= games_data.len(),
                items == items_of(games_data@),
                forall|k: int| 0 <= k < games_data@.len() ==> gd_wf(#[trigger] games_data@[k]),
                out@.map_values(|g: MergedGame| g@) == merge_spec(items.take(n as int)),
                keys@.len() == out@.len(),
                forall|j: int|
                    0 <= j < out@.len() ==> (#[trigger] keys@[j]).0@ == group_key_spec(out@[j]@.0)
                        && keys@[j].1@ == variant_key_spec(out@[j]@.0),
            decreases games_data.len() - n,
        {
            let ghost prev = merge_spec(items.take(n as int));
            let ghost it = items[n as int];
            proof {
                assert(items.take(n + 1).drop_last() =~= items.take(n as int));
                assert(items.take(n + 1).last() == items[n as int]);
                assert(items[n as int] == item_of(games_data@[n as int]));
                assert(gd_wf(games_data@[n as int]));
            }
            let gd = &games_data[n];
            let vk = exec_join_sep(&gd.numeric_tokens, '_');
            proof {
                assert(vk@ == variant_key_spec(it.2));
                assert(gd.non_numeric_title@ == group_key_spec(it.2));
            }
            let mut j: usize = 0;
            let mut found: bool = false;
            while j < out.len() && !found
                invariant_except_break
                    0 <= j <= out.len(),
                    !found,
                    keys@.len() == out@.len(),
                    vk@ == variant_key_spec(it.2),
                    gd == games_data@[n as int],
                    0 <= n < games_data@.len(),
                    it == item_of(games_data@[n as int]),
                    gd_wf(games_data@[n as int]),
                    prev == out@.map_values(|g: MergedGame| g@),
                    forall|p: int|
                        0 <= p < out@.len() ==> (#[trigger] keys@[p]).0@ == group_key_spec(
                            out@[p]@.0,
                        ) && keys@[p].1@ == variant_key_spec(out@[p]@.0),
                    forall|p: int| 0 <= p < j ==> game_key(#[trigger] prev[p]) != item_key(it),
                ensures
                    0 <= j <= out@.len(),
                    keys@.len() == out@.len(),
                    prev == out@.map_values(|g: MergedGame| g@),
                    forall|p: int| 0 <= p < j ==> game_key(#[trigger] prev[p]) != item_key(it),
                    found ==> j < out@.len() && game_key(prev[j as int]) == item_key(it),
                    !found ==> j == out@.len(),
                decreases out.len() - j,
            {
                proof {
                    assert(prev[j as int] == out@[j as int]@);
                }
                if keys[j].0 == gd.non_numeric_title && keys[j].1 == vk {
                    found = true;
                    proof {
                        assert(game_key(prev[j as int]) == item_key(it));
                    }
                    break ;
                }
                proof {
                    assert(keys@[j as int].0@ != group_key_spec(it.2) || keys@[j as int].1@
                        != variant_key_spec(it.2));
                    assert(game_key(prev[j as int]) != item_key(it));
                }
                j = j + 1;
            }
            proof {
                lemma_game_index(prev, item_key(it));
            }
            if found {
                proof {
                    assert(game_index(prev, item_key(it)) == j as int);
                }
                let mut g = out.remove(j);
                let ghost gv = g@;
                proof {
                    assert(gv == prev[j as int]);
                }
                record_ranking(&mut g, gd);
                out.insert(j, g);
                proof {
                    assert(out@.map_values(|g2: MergedGame| g2@) =~= prev.update(
                        j as int,
                        upd_game(prev[j as int], it),
                    ));
                    assert(out@.map_values(|g2: MergedGame| g2@) == merge_spec(items.take(n + 1)));
                }
            } else {
                proof {
                    assert(game_index(prev, item_key(it)) < 0);
                }
                let mut names: Vec<String> = Vec::new();
                names.push(gd.original_name.clone());
                let mut rankings: Vec<(String, u64)> = Vec::new();
                rankings.push((gd.source.clone(), gd.rank));
                let g = MergedGame {
                    normalized_name: gd.normalized_title.clone(),
                    original_names: names,
                    rankings,
                };
                proof {
                    assert(strs(g.original_names@) =~= seq![it.1]);
                    assert(rank_views(g.rankings@) =~= seq![(it.0, it.3)]);
                    assert(g@ == new_game(it));
                }
                out.push(g);
                keys.push((gd.non_numeric_title.clone(), vk));
                proof {
                    assert(out@.map_values(|g2: MergedGame| g2@) =~= prev.push(new_game(it)));
                    assert(out@.map_values(|g2: MergedGame| g2@) == merge_spec(items.take(n + 1)));
                }
            }
            n = n + 1;
        }
        proof {
            assert(items.take(items.len() as int) =~= items);
        }
        out
    }

    /// Merges all scraped rankings into canonical merged games.
    pub fn merge_games(&self, website_games: &Vec<WebsiteGames>) -> (r: Vec<MergedGame>)
        ensures
            r@.map_values(|g: MergedGame| g@) == merge_spec(
                prepare_items(website_games@, self.scraper_config.websites@),
            ),
    {
        let games_data = self.prepare_game_data(website_games);
        self.perform_merge(&games_data)
    }
}

} // verus!
