//! The catalog index and the matching engine: an exact index keyed by
//! normalized title (last write wins) and 27 letter buckets ('a' to 'z' plus
//! a catch-all for digit-leading titles), each sorted by normalized title and
//! then identifier; lookup tries the exact index first and falls back to
//! bounded approximate matching inside one bucket.
//!
//! Similarity is the normalized Levenshtein similarity `1 - d/l`, compared
//! exactly as a rational against the configured threshold, so a candidate at
//! exactly the threshold is rejected.

use vstd::prelude::*;

use crate::chars::{ascii_lower_char, is_digit, is_space_char, is_word_char, exec_is_space_char,
    exec_is_word_char};
use crate::levenshtein::{lemma_lev_le_max, lev, levenshtein};
use crate::normalize::{normalize, normalize_spec};
use crate::steam::SteamApp;
use crate::text::{lemma_lex_total, lex_lt, lex_lt_vec, str_to_chars, u64_dec_spec,
    u64_to_dec_string, vec_char_eq};

verus! {

impl View for SteamApp {
    type V = (u64, Seq<char>);

    open spec fn view(&self) -> (u64, Seq<char>) {
        (self.appid, self.name@)
    }
}

/// One indexed catalog entry.
#[derive(Debug, Clone, PartialEq)]
pub struct IndexedGame {
    pub appid: u64,
    pub name: String,
}

impl View for IndexedGame {
    type V = (u64, Seq<char>);

    open spec fn view(&self) -> (u64, Seq<char>) {
        (self.appid, self.name@)
    }
}

/// The persistable form of the index: the exact map and the letter buckets.
#[derive(Debug, Clone, PartialEq)]
pub struct IndexedGames {
    pub created_at: u64,
    pub name_index: Vec<(String, IndexedGame)>,
    pub letter_index: Vec<(char, Vec<(IndexedGame, String)>)>,
}

/// A merged game resolved against the catalog: the identifier is absent when
/// no catalog entry matched.
#[derive(Debug, Clone, PartialEq)]
pub struct GameWithSteamId {
    pub name: String,
    pub rankings: Vec<(String, u64)>,
    pub steam_id: Option<String>,
}

/// One pattern of the exclusion filter: a case-insensitive text, matched as
/// a whole word when `whole_word` is set; a space in the text matches any
/// single whitespace character.
#[derive(Debug, Clone, PartialEq)]
pub struct ExcludeMarker {
    pub text: String,
    pub whole_word: bool,
}

/// Matching parameters: the similarity threshold as an exact rational
/// `similarity_num / similarity_den`, and the exclusion filter applied while
/// building the index.
#[derive(Debug, Clone, PartialEq)]
pub struct MatchingConfig {
    pub similarity_num: u64,
    pub similarity_den: u64,
    pub exclude_markers: Vec<ExcludeMarker>,
    pub filter_dlc: bool,
}

pub open spec fn marker_views(ms: Seq<ExcludeMarker>) -> Seq<(Seq<char>, bool)> {
    ms.map_values(|m: ExcludeMarker| (m.text@, m.whole_word))
}

impl Default for MatchingConfig {
    /// The default configuration: a 0.9 similarity threshold and the
    /// filter for non-primary catalog content (add-ons, soundtracks, demos,
    /// bundles and the like).
    fn default() -> (c: MatchingConfig)
        ensures
            c.similarity_num == 9,
            c.similarity_den == 10,
            c.filter_dlc,
            marker_views(c.exclude_markers@) =~= seq![
                ("DLC"@, false),
                ("Soundtrack"@, false),
                ("OST"@, false),
                ("Bonus"@, false),
                ("Season Pass"@, false),
                ("Content Pack"@, false),
                ("VR"@, true),
                ("Beta"@, true),
                ("Demo"@, true),
                ("Art of"@, true),
                ("Upgrade"@, true),
                ("Pack"@, true),
                ("Bundle"@, true),
            ],
    {
        let mut markers: Vec<ExcludeMarker> = Vec::new();
        markers.push(ExcludeMarker { text: String::from_str("DLC"), whole_word: false });
        markers.push(ExcludeMarker { text: String::from_str("Soundtrack"), whole_word: false });
        markers.push(ExcludeMarker { text: String::from_str("OST"), whole_word: false });
        markers.push(ExcludeMarker { text: String::from_str("Bonus"), whole_word: false });
        markers.push(ExcludeMarker { text: String::from_str("Season Pass"), whole_word: false });
        markers.push(ExcludeMarker { text: String::from_str("Content Pack"), whole_word: false });
        markers.push(ExcludeMarker { text: String::from_str("VR"), whole_word: true });
        markers.push(ExcludeMarker { text: String::from_str("Beta"), whole_word: true });
        markers.push(ExcludeMarker { text: String::from_str("Demo"), whole_word: true });
        markers.push(ExcludeMarker { text: String::from_str("Art of"), whole_word: true });
        markers.push(ExcludeMarker { text: String::from_str("Upgrade"), whole_word: true });
        markers.push(ExcludeMarker { text: String::from_str("Pack"), whole_word: true });
        markers.push(ExcludeMarker { text: String::from_str("Bundle"), whole_word: true });
        MatchingConfig {
            similarity_num: 9,
            similarity_den: 10,
            exclude_markers: markers,
            filter_dlc: true,
        }
    }
}

// ---------------------------------------------------------------------------
// Exclusion filter
// ---------------------------------------------------------------------------
/// One pattern character against one name character: a space in the pattern
/// stands for any whitespace; everything else compares after ASCII
/// lowercasing.
pub open spec fn ci_char_match(pc: char, sc: char) -> bool {
    if pc == ' ' {
        is_space_char(sc)
    } else {
        ascii_lower_char(pc) == ascii_lower_char(sc)
    }
}

pub open spec fn ci_match_at(s: Seq<char>, pat: Seq<char>, i: int) -> bool {
    0 <= i && i + pat.len() <= s.len() && forall|k: int|
        0 <= k < pat.len() ==> ci_char_match(#[trigger] pat[k], s[i + k])
}

pub open spec fn word_bounded(s: Seq<char>, i: int, n: int) -> bool {
    (i == 0 || !is_word_char(s[i - 1])) && (i + n == s.len() || !is_word_char(s[i + n]))
}

/// The marker occurs in the name, word-bounded if the marker asks for it.
pub open spec fn marker_hits(s: Seq<char>, text: Seq<char>, whole: bool) -> bool {
    exists|i: int| ci_match_at(s, text, i) && (whole ==> word_bounded(s, i, text.len() as int))
}

/// The name matches some marker of the exclusion filter.
pub open spec fn is_excluded(name: Seq<char>, markers: Seq<ExcludeMarker>) -> bool {
    exists|m: int|
        0 <= m < markers.len() && marker_hits(
            name,
            #[trigger] markers[m].text@,
            markers[m].whole_word,
        )
}

fn exec_lower_char(c: char) -> (r: char)
    ensures
        r == ascii_lower_char(c),
{
    if 'A' <= c && c <= 'Z' {
        ((c as u8) + 32) as char
    } else {
        c
    }
}

fn exec_ci_match_at(s: &Vec<char>, pat: &Vec<char>, i: usize) -> (r: bool)
    requires
        i <= s.len(),
    ensures
        r == ci_match_at(s@, pat@, i as int),
{
    if pat.len() > s.len() - i {
        return false;
    }
    let mut k: usize = 0;
    while k < pat.len()
        invariant
            0 <= k <= pat.len(),
            i + pat.len() <= s.len(),
            forall|j: int| 0 <= j < k ==> ci_char_match(#[trigger] pat@[j], s@[i + j]),
        decreases pat.len() - k,
    {
        let pc = pat[k];
        let sc = s[i + k];
        let ok = if pc == ' ' {
            exec_is_space_char(sc)
        } else {
            exec_lower_char(pc) == exec_lower_char(sc)
        };
        if !ok {
            return false;
        }
        k = k + 1;
    }
    true
}

fn exec_marker_hits(s: &Vec<char>, text: &Vec<char>, whole: bool) -> (r: bool)
    ensures
        r == marker_hits(s@, text@, whole),
{
    let mut i: usize = 0;
    loop
        invariant
            0 <= i <= s.len(),
            forall|k: int|
                0 <= k < i ==> !(ci_match_at(s@, text@, k) && (whole ==> word_bounded(
                    s@,
                    k,
                    text@.len() as int,
                ))),
        decreases s.len() - i,
    {
        if exec_ci_match_at(s, text, i) {
            let bounded: bool = if whole {
                let left = i == 0 || !exec_is_word_char(s[i - 1]);
                let rend = i + text.len();
                let right = rend == s.len() || !exec_is_word_char(s[rend]);
                left && right
            } else {
                true
            };
            if bounded {
                return true;
            }
        }
        if i == s.len() {
            assert(forall|k: int| ci_match_at(s@, text@, k) ==> 0 <= k <= s@.len());
            return false;
        }
        i = i + 1;
    }
}

/// Checks the name against every marker of the exclusion filter.
pub fn exec_is_excluded(name: &Vec<char>, markers: &Vec<ExcludeMarker>) -> (r: bool)
    ensures
        r == is_excluded(name@, markers@),
{
    let mut m: usize = 0;
    while m < markers.len()
        invariant
            0 <= m <= markers.len(),
            forall|j: int|
                0 <= j < m ==> !marker_hits(
                    name@,
                    #[trigger] markers@[j].text@,
                    markers@[j].whole_word,
                ),
        decreases markers.len() - m,
    {
        let text = str_to_chars(markers[m].text.as_str());
        if exec_marker_hits(name, &text, markers[m].whole_word) {
            return true;
        }
        m = m + 1;
    }
    false
}

// ---------------------------------------------------------------------------
// Index structure
// ---------------------------------------------------------------------------
/// The bucket a normalized title belongs to: its first letter, the catch-all
/// bucket `'0'` when it starts with a digit, none otherwise.
pub open spec fn bucket_char(norm: Seq<char>) -> Option<char> {
    if norm.len() == 0 {
        None
    } else if 'a' <= norm[0] && norm[0] <= 'z' {
        Some(norm[0])
    } else if is_digit(norm[0]) {
        Some('0')
    } else {
        None
    }
}

pub open spec fn entry_view(e: (IndexedGame, String)) -> ((u64, Seq<char>), Seq<char>) {
    (e.0@, e.1@)
}

pub open spec fn entries(v: Seq<(IndexedGame, String)>) -> Seq<((u64, Seq<char>), Seq<char>)> {
    v.map_values(|e: (IndexedGame, String)| entry_view(e))
}

/// Bucket order: by normalized title, then by identifier.
pub open spec fn entry_le(x: ((u64, Seq<char>), Seq<char>), y: ((u64, Seq<char>), Seq<char>))
    -> bool {
    lex_lt(x.1, y.1) || (x.1 == y.1 && x.0.0 <= y.0.0)
}

pub open spec fn sorted_entries(b: Seq<((u64, Seq<char>), Seq<char>)>) -> bool {
    forall|i: int, j: int| 0 <= i < j < b.len() ==> entry_le(#[trigger] b[i], #[trigger] b[j])
}

proof fn lemma_entry_le_total(x: ((u64, Seq<char>), Seq<char>), y: ((u64, Seq<char>), Seq<char>))
    ensures
        entry_le(x, y) || entry_le(y, x),
{
    lemma_lex_total(x.1, y.1);
}

proof fn lemma_entry_le_trans(
    x: ((u64, Seq<char>), Seq<char>),
    y: ((u64, Seq<char>), Seq<char>),
    z: ((u64, Seq<char>), Seq<char>),
)
    requires
        entry_le(x, y),
        entry_le(y, z),
    ensures
        entry_le(x, z),
{
    if lex_lt(x.1, y.1) && lex_lt(y.1, z.1) {
        crate::text::lemma_lex_lt_trans(x.1, y.1, z.1);
    }
}

/// Inserts an entry into a bucket, keeping the bucket sorted.
fn insert_entry(bucket: &mut Vec<(IndexedGame, String)>, e: (IndexedGame, String))
    requires
        sorted_entries(entries(old(bucket)@)),
    ensures
        sorted_entries(entries(final(bucket)@)),
        entries(final(bucket)@).to_multiset() == entries(old(bucket)@).to_multiset().insert(
            entry_view(e),
        ),
{
    let ghost olds = entries(old(bucket)@);
    let ghost ev = entry_view(e);
    let nc = str_to_chars(e.1.as_str());
    let mut i: usize = 0;
    loop
        invariant_except_break
            0 <= i <= bucket.len(),
            bucket@ == old(bucket)@,
            nc@ == e.1@,
            ev == entry_view(e),
            olds == entries(old(bucket)@),
            forall|j: int| 0 <= j < i ==> entry_le(#[trigger] olds[j], ev),
        ensures
            0 <= i <= bucket@.len(),
            bucket@ == old(bucket)@,
            forall|j: int| 0 <= j < i ==> entry_le(#[trigger] olds[j], ev),
            i < bucket@.len() ==> !entry_le(olds[i as int], ev),
        decreases bucket.len() - i,
    {
        if i == bucket.len() {
            break ;
        }
        let c = str_to_chars(bucket[i].1.as_str());
        proof {
            assert(olds[i as int] == entry_view(bucket@[i as int]));
            assert(olds[i as int].1 == bucket@[i as int].1@);
            assert(olds[i as int].0.0 == bucket@[i as int].0.appid);
            assert(ev.1 == e.1@);
            assert(ev.0.0 == e.0.appid);
        }
        let le = if lex_lt_vec(&c, &nc) {
            true
        } else if vec_char_eq(&c, &nc) {
            bucket[i].0.appid <= e.0.appid
        } else {
            false
        };
        proof {
            assert(le == entry_le(olds[i as int], ev));
        }
        if !le {
            break ;
        }
        i = i + 1;
    }
    proof {
        if i < bucket@.len() {
            lemma_entry_le_total(olds[i as int], ev);
        }
    }
    bucket.insert(i, e);
    proof {
        broadcast use vstd::seq_lib::to_multiset_insert;

        let news = entries(bucket@);
        assert(news =~= olds.insert(i as int, ev));
        assert(olds.insert(i as int, ev).to_multiset() == olds.to_multiset().insert(ev));
        assert forall|p: int, q: int| 0 <= p < q < news.len() implies entry_le(
            #[trigger] news[p],
            #[trigger] news[q],
        ) by {
            assert(forall|j: int| 0 <= j < i ==> news[j] == olds[j]);
            assert(news[i as int] == ev);
            assert(forall|j: int| i < j < news.len() ==> news[j] == olds[j - 1]);
            if p == i {
                assert(entry_le(ev, olds[i as int]));
                if q - 1 > i {
                    lemma_entry_le_trans(ev, olds[i as int], olds[q - 1]);
                }
            } else if q == i {
            } else if p < i && q > i {
                if q - 1 == p {
                } else {
                    assert(entry_le(olds[p], olds[q - 1]));
                }
            }
        }
    }
}

/// The indexed form of one kept catalog entry: identifier, raw name, and
/// normalized name.
pub open spec fn indexed_items(
    apps: Seq<(u64, Seq<char>)>,
    markers: Seq<ExcludeMarker>,
    filter: bool,
) -> Seq<(u64, Seq<char>, Seq<char>)>
    decreases apps.len(),
{
    if apps.len() == 0 {
        Seq::empty()
    } else {
        let rest = indexed_items(apps.drop_last(), markers, filter);
        let a = apps.last();
        if filter && is_excluded(a.1, markers) {
            rest
        } else {
            rest + seq![(a.0, a.1, normalize_spec(a.1))]
        }
    }
}

/// First index of `k` among the keys, or -1.
pub open spec fn assoc_index(m: Seq<(Seq<char>, (u64, Seq<char>))>, k: Seq<char>) -> int
    decreases m.len(),
{
    if m.len() == 0 {
        -1
    } else if m[0].0 == k {
        0
    } else {
        let r = assoc_index(m.drop_first(), k);
        if r < 0 {
            -1
        } else {
            r + 1
        }
    }
}

pub proof fn lemma_assoc_index(m: Seq<(Seq<char>, (u64, Seq<char>))>, k: Seq<char>)
    ensures
        assoc_index(m, k) >= 0 ==> assoc_index(m, k) < m.len() && m[assoc_index(m, k)].0 == k
            && (forall|j: int| 0 <= j < assoc_index(m, k) ==> (#[trigger] m[j]).0 != k),
        assoc_index(m, k) < 0 ==> (forall|j: int| 0 <= j < m.len() ==> (#[trigger] m[j]).0 != k),
    decreases m.len(),
{
    if m.len() > 0 && m[0].0 != k {
        lemma_assoc_index(m.drop_first(), k);
        assert(forall|j: int| 1 <= j < m.len() ==> m[j] == m.drop_first()[j - 1]);
    }
}

/// The exact lookup: the value stored for key `k`, if any.
pub open spec fn assoc_lookup(m: Seq<(Seq<char>, (u64, Seq<char>))>, k: Seq<char>) -> Option<
    (u64, Seq<char>),
> {
    if assoc_index(m, k) >= 0 {
        Some(m[assoc_index(m, k)].1)
    } else {
        None
    }
}

/// Last write wins: the exact index after inserting every item in order.
pub open spec fn exact_fold(items: Seq<(u64, Seq<char>, Seq<char>)>) -> Seq<
    (Seq<char>, (u64, Seq<char>)),
>
    decreases items.len(),
{
    if items.len() == 0 {
        Seq::empty()
    } else {
        let prev = exact_fold(items.drop_last());
        let it = items.last();
        let j = assoc_index(prev, it.2);
        if j >= 0 {
            prev.update(j, (it.2, (it.0, it.1)))
        } else {
            prev.push((it.2, (it.0, it.1)))
        }
    }
}

pub open spec fn name_map_view(v: Seq<(String, IndexedGame)>) -> Seq<
    (Seq<char>, (u64, Seq<char>)),
> {
    v.map_values(|p: (String, IndexedGame)| (p.0@, p.1@))
}

pub open spec fn letters_view(v: Seq<(char, Vec<(IndexedGame, String)>)>) -> Seq<
    (char, Seq<((u64, Seq<char>), Seq<char>)>),
> {
    v.map_values(|p: (char, Vec<(IndexedGame, String)>)| (p.0, entries(p.1@)))
}

/// The 27 bucket keys, in index order.
pub open spec fn bucket_keys() -> Seq<char> {
    seq![
        'a', 'b', 'c', 'd', 'e', 'f', 'g', 'h', 'i', 'j', 'k', 'l', 'm', 'n', 'o', 'p', 'q', 'r',
        's', 't', 'u', 'v', 'w', 'x', 'y', 'z', '0',
    ]
}

/// The entries an input sequence contributes to the bucket of `key`, in
/// input order.
pub open spec fn bucket_expected(items: Seq<(u64, Seq<char>, Seq<char>)>, key: char) -> Seq<
    ((u64, Seq<char>), Seq<char>),
>
    decreases items.len(),
{
    if items.len() == 0 {
        Seq::empty()
    } else {
        let rest = bucket_expected(items.drop_last(), key);
        let it = items.last();
        if bucket_char(it.2) == Some(key) {
            rest + seq![((it.0, it.1), it.2)]
        } else {
            rest
        }
    }
}


/// The apps of the catalog, as plain values.
pub open spec fn app_views(apps: Seq<SteamApp>) -> Seq<(u64, Seq<char>)> {
    apps.map_values(|a: SteamApp| a@)
}

/// Builds the catalog index: discards excluded entries, normalizes every
/// kept name once, fills the exact index with last write winning on
/// normalized-title collisions, and distributes entries over the letter
/// buckets, each kept sorted by normalized title and then identifier.
#[verifier::rlimit(60)]
pub fn build_index(steam_apps: &Vec<SteamApp>, created_at: u64, config: &MatchingConfig) -> (r:
    IndexedGames)
    ensures
        r.created_at == created_at,
        name_map_view(r.name_index@) == exact_fold(
            indexed_items(app_views(steam_apps@), config.exclude_markers@, config.filter_dlc),
        ),
        letters_view(r.letter_index@).len() == 27,
        forall|k: int|
            0 <= k < 27 ==> (#[trigger] letters_view(r.letter_index@)[k]).0 == bucket_keys()[k],
        forall|k: int| 0 <= k < 27 ==> sorted_entries(letters_view(r.letter_index@)[k].1),
        forall|k: int|
            0 <= k < 27 ==> letters_view(r.letter_index@)[k].1.to_multiset() == bucket_expected(
                indexed_items(app_views(steam_apps@), config.exclude_markers@, config.filter_dlc),
                bucket_keys()[k],
            ).to_multiset(),
{
    let ghost appsv = app_views(steam_apps@);
    let ghost markers = config.exclude_markers@;
    let ghost filter = config.filter_dlc;
    let mut name_index: Vec<(String, IndexedGame)> = Vec::new();
    let mut letter_index: Vec<(char, Vec<(IndexedGame, String)>)> = Vec::new();
    let mut c: u8 = 97;
    while c <= 122
        invariant
            97 <= c <= 123,
            letter_index@.len() == c - 97,
            forall|k: int|
                0 <= k < c - 97 ==> ((#[trigger] letters_view(letter_index@)[k]).0
                    == bucket_keys()[k] && letters_view(letter_index@)[k].1.len() == 0),
        decreases 123 - c,
    {
        let ghost pre = letter_index@;
        letter_index.push((c as char, Vec::new()));
        proof {
            assert(letters_view(letter_index@) =~~= letters_view(pre).push(
                (c as char, Seq::empty()),
            ));
        }
        c = c + 1;
    }
    let ghost pre = letter_index@;
    letter_index.push(('0', Vec::new()));
    proof {
        broadcast use vstd::seq_lib::group_to_multiset_ensures;

        assert(letters_view(letter_index@) =~~= letters_view(pre).push(('0', Seq::empty())));
        assert(forall|k: int|
            0 <= k < 27 ==> (#[trigger] letters_view(letter_index@)[k]).0 == bucket_keys()[k]
                && letters_view(letter_index@)[k].1.len() == 0);
        assert(appsv.take(0) =~= Seq::<(u64, Seq<char>)>::empty());
        assert(name_map_view(name_index@) =~= Seq::<(Seq<char>, (u64, Seq<char>))>::empty());
        assert(exact_fold(indexed_items(appsv.take(0), markers, filter)) =~= Seq::<
            (Seq<char>, (u64, Seq<char>)),
        >::empty());
        assert forall|k: int| 0 <= k < 27 implies (#[trigger] letters_view(
            letter_index@,
        )[k]).1.to_multiset() =~= bucket_expected(
            indexed_items(appsv.take(0), markers, filter),
            bucket_keys()[k],
        ).to_multiset() by {
            let b = letters_view(letter_index@)[k].1;
            assert(b =~= Seq::<((u64, Seq<char>), Seq<char>)>::empty());
            assert(bucket_expected(indexed_items(appsv.take(0), markers, filter), bucket_keys()[k])
                =~= Seq::<((u64, Seq<char>), Seq<char>)>::empty());
        }
    }
    let mut i: usize = 0;
    while i < steam_apps.len()
        invariant
            0 <= i <= steam_apps.len(),
            appsv == app_views(steam_apps@),
            markers == config.exclude_markers@,
            filter == config.filter_dlc,
            name_map_view(name_index@) == exact_fold(
                indexed_items(appsv.take(i as int), markers, filter),
            ),
            letters_view(letter_index@).len() == 27,
            forall|k: int|
                0 <= k < 27 ==> (#[trigger] letters_view(letter_index@)[k]).0 == bucket_keys()[k],
            forall|k: int| 0 <= k < 27 ==> sorted_entries(letters_view(letter_index@)[k].1),
            forall|k: int|
                0 <= k < 27 ==> (#[trigger] letters_view(letter_index@)[k]).1.to_multiset()
                    == bucket_expected(
                    indexed_items(appsv.take(i as int), markers, filter),
                    bucket_keys()[k],
                ).to_multiset(),
        decreases steam_apps.len() - i,
    {
        let ghost items_pre = indexed_items(appsv.take(i as int), markers, filter);
        proof {
            assert(appsv.take(i + 1).drop_last() =~= appsv.take(i as int));
            assert(appsv.take(i + 1).last() == appsv[i as int]);
            assert(appsv[i as int] == steam_apps@[i as int]@);
        }
        let name_chars = str_to_chars(steam_apps[i].name.as_str());
        let keep = if config.filter_dlc {
            !exec_is_excluded(&name_chars, &config.exclude_markers)
        } else {
            true
        };
        if keep {
            let appid = steam_apps[i].appid;
            let norm = normalize(steam_apps[i].name.as_str());
            let norm_chars = str_to_chars(norm.as_str());
            let ghost it = (appid, steam_apps@[i as int].name@, normalize_spec(
                steam_apps@[i as int].name@,
            ));
            let ghost items_post = indexed_items(appsv.take(i + 1), markers, filter);
            proof {
                assert(items_post =~= items_pre + seq![it]);
                assert(items_post.drop_last() =~= items_pre);
                assert(items_post.last() == it);
            }
            // exact index: last write wins
            let ghost nm_pre = name_map_view(name_index@);
            let mut j: usize = 0;
            let mut found: bool = false;
            while j < name_index.len() && !found
                invariant_except_break
                    0 <= j <= name_index.len(),
                    !found,
                    norm_chars@ == it.2,
                    forall|p: int|
                        0 <= p < j ==> (#[trigger] name_map_view(name_index@)[p]).0 != it.2,
                ensures
                    0 <= j <= name_index@.len(),
                    norm_chars@ == it.2,
                    forall|p: int|
                        0 <= p < j ==> (#[trigger] name_map_view(name_index@)[p]).0 != it.2,
                    found ==> j < name_index@.len() && name_map_view(name_index@)[j as int].0
                        == it.2,
                    !found ==> j == name_index@.len(),
                decreases name_index.len() - j,
            {
                let kc = str_to_chars(name_index[j].0.as_str());
                proof {
                    assert(name_map_view(name_index@)[j as int].0 == name_index@[j as int].0@);
                }
                if vec_char_eq(&kc, &norm_chars) {
                    found = true;
                    break ;
                }
                j = j + 1;
            }
            proof {
                lemma_assoc_index(nm_pre, it.2);
            }
            if found {
                name_index[j] = (norm.clone(), IndexedGame { appid, name: steam_apps[i].name.clone() });
                proof {
                    assert(name_map_view(name_index@) =~= nm_pre.update(
                        j as int,
                        (it.2, (it.0, it.1)),
                    ));
                    assert(assoc_index(nm_pre, it.2) == j as int);
                    assert(name_map_view(name_index@) == exact_fold(items_post));
                }
            } else {
                name_index.push(
                    (norm.clone(), IndexedGame { appid, name: steam_apps[i].name.clone() }),
                );
                proof {
                    assert(name_map_view(name_index@) =~= nm_pre.push((it.2, (it.0, it.1))));
                    assert(assoc_index(nm_pre, it.2) < 0);
                    assert(name_map_view(name_index@) == exact_fold(items_post));
                }
            }
            // letter bucket
            let bc: Option<char> = if norm_chars.len() == 0 {
                None
            } else {
                let c0 = norm_chars[0];
                if 'a' <= c0 && c0 <= 'z' {
                    Some(c0)
                } else if crate::chars::exec_is_digit(c0) {
                    Some('0')
                } else {
                    None
                }
            };
            proof {
                assert(bc == bucket_char(it.2));
            }
            match bc {
                Some(bchar) => {
                    let idx: usize = if bchar == '0' {
                        26
                    } else {
                        ((bchar as u8) - 97) as usize
                    };
                    proof {
                        assert(bucket_keys()[idx as int] == bchar);
                        assert(letters_view(letter_index@)[idx as int].0 == bchar);
                    }
                    let ghost lv_pre = letter_index@;
                    let mut pair = letter_index.remove(idx);
                    let entry = (
                        IndexedGame { appid, name: steam_apps[i].name.clone() },
                        norm.clone(),
                    );
                    let ghost epre = entries(pair.1@);
                    proof {
                        assert(epre == letters_view(lv_pre)[idx as int].1);
                    }
                    insert_entry(&mut pair.1, entry);
                    let ghost ins = entries(pair.1@);
                    letter_index.insert(idx, pair);
                    proof {
                        assert(letters_view(letter_index@) =~~= letters_view(lv_pre).update(
                            idx as int,
                            (bchar, ins),
                        ));
                        broadcast use vstd::seq_lib::to_multiset_build;

                        assert forall|k: int| 0 <= k < 27 implies (#[trigger] letters_view(
                            letter_index@,
                        )[k]).1.to_multiset() == bucket_expected(
                            items_post,
                            bucket_keys()[k],
                        ).to_multiset() by {
                            let key = bucket_keys()[k];
                            let bep = bucket_expected(items_pre, key);
                            let ben = bucket_expected(items_post, key);
                            if k == idx {
                                assert(ben =~= bep.push(((it.0, it.1), it.2)));
                                assert(ben.to_multiset() == bep.to_multiset().insert(
                                    ((it.0, it.1), it.2),
                                ));
                                assert(entry_view(entry) == ((it.0, it.1), it.2));
                            } else {
                                assert(bucket_char(it.2) != Some(key));
                                assert(ben == bep);
                            }
                        }
                    }
                },
                None => {
                    proof {
                        assert forall|k: int| 0 <= k < 27 implies (#[trigger] letters_view(
                            letter_index@,
                        )[k]).1.to_multiset() == bucket_expected(
                            items_post,
                            bucket_keys()[k],
                        ).to_multiset() by {
                            let key = bucket_keys()[k];
                            assert(bucket_char(it.2) != Some(key));
                            assert(bucket_expected(items_post, key) == bucket_expected(
                                items_pre,
                                key,
                            ));
                        }
                    }
                },
            }
        } else {
            proof {
                assert(indexed_items(appsv.take(i + 1), markers, filter) == items_pre);
            }
        }
        i = i + 1;
    }
    proof {
        assert(appsv.take(steam_apps@.len() as int) =~= appsv);
    }
    IndexedGames { created_at, name_index, letter_index }
}


// ---------------------------------------------------------------------------
// Lookup
// ---------------------------------------------------------------------------
/// First index whose key is `c`, or -1.
pub open spec fn bucket_index(ls: Seq<(char, Seq<((u64, Seq<char>), Seq<char>)>)>, c: char) -> int
    decreases ls.len(),
{
    if ls.len() == 0 {
        -1
    } else if ls[0].0 == c {
        0
    } else {
        let r = bucket_index(ls.drop_first(), c);
        if r < 0 {
            -1
        } else {
            r + 1
        }
    }
}

pub proof fn lemma_bucket_index(ls: Seq<(char, Seq<((u64, Seq<char>), Seq<char>)>)>, c: char)
    ensures
        bucket_index(ls, c) >= 0 ==> bucket_index(ls, c) < ls.len() && ls[bucket_index(ls, c)].0
            == c && (forall|j: int| 0 <= j < bucket_index(ls, c) ==> (#[trigger] ls[j]).0 != c),
        bucket_index(ls, c) < 0 ==> (forall|j: int| 0 <= j < ls.len() ==> (#[trigger] ls[j]).0
            != c),
    decreases ls.len(),
{
    if ls.len() > 0 && ls[0].0 != c {
        lemma_bucket_index(ls.drop_first(), c);
        assert(forall|j: int| 1 <= j < ls.len() ==> ls[j] == ls.drop_first()[j - 1]);
    }
}

/// The bucket stored under key `c`, if one is there.
pub open spec fn bucket_lookup(ls: Seq<(char, Seq<((u64, Seq<char>), Seq<char>)>)>, c: char)
    -> Option<Seq<((u64, Seq<char>), Seq<char>)>> {
    if bucket_index(ls, c) >= 0 {
        Some(ls[bucket_index(ls, c)].1)
    } else {
        None
    }
}

pub open spec fn max_len(a: nat, b: nat) -> nat {
    if a >= b {
        a
    } else {
        b
    }
}

/// The candidate's similarity strictly exceeds the threshold `tn/td`:
/// `1 - d/l > tn/td`, as integers `td*(l - d) > tn*l`.  Equality with the
/// threshold is a rejection.
pub open spec fn sim_exceeds(d: int, l: int, tn: int, td: int) -> bool {
    td * (l - d) > tn * l
}

/// The first candidate is strictly more similar than the second:
/// `1 - d1/l1 > 1 - d2/l2`, as integers `d1*l2 < d2*l1`.
pub open spec fn sim_better(d1: int, l1: int, d2: int, l2: int) -> bool {
    d1 * l2 < d2 * l1
}

/// The scan over one bucket: keeps the first candidate of maximal
/// similarity among those strictly above the threshold.  The accumulator
/// holds identifier, distance and length of the best candidate so far.
pub open spec fn best_fold(
    cands: Seq<((u64, Seq<char>), Seq<char>)>,
    q: Seq<char>,
    tn: int,
    td: int,
    acc: Option<(u64, nat, nat)>,
) -> Option<(u64, nat, nat)>
    decreases cands.len(),
{
    if cands.len() == 0 {
        acc
    } else {
        let c = cands[0];
        let d = lev(q, c.1);
        let l = max_len(q.len(), c.1.len());
        let acc2 = match acc {
            None => if sim_exceeds(d as int, l as int, tn, td) {
                Some((c.0.0, d, l))
            } else {
                None
            },
            Some(b) => if sim_exceeds(d as int, l as int, tn, td) && sim_better(
                d as int,
                l as int,
                b.1 as int,
                b.2 as int,
            ) {
                Some((c.0.0, d, l))
            } else {
                Some(b)
            },
        };
        best_fold(cands.drop_first(), q, tn, td, acc2)
    }
}

/// The identifier the approximate matcher picks from a bucket, if any
/// candidate strictly exceeds the threshold.
pub open spec fn best_match(
    cands: Seq<((u64, Seq<char>), Seq<char>)>,
    q: Seq<char>,
    tn: int,
    td: int,
) -> Option<u64> {
    match best_fold(cands, q, tn, td, None) {
        Some(b) => Some(b.0),
        None => None,
    }
}

/// When no candidate strictly exceeds the threshold — in particular when
/// every candidate sits exactly at the threshold — the lookup reports no
/// match.
pub proof fn lemma_best_match_none(
    cands: Seq<((u64, Seq<char>), Seq<char>)>,
    q: Seq<char>,
    tn: int,
    td: int,
)
    requires
        forall|i: int|
            0 <= i < cands.len() ==> !sim_exceeds(
                lev(q, (#[trigger] cands[i]).1) as int,
                max_len(q.len(), cands[i].1.len()) as int,
                tn,
                td,
            ),
    ensures
        best_match(cands, q, tn, td) is None,
    decreases cands.len(),
{
    if cands.len() > 0 {
        assert(forall|i: int|
            0 <= i < cands.drop_first().len() ==> #[trigger] cands.drop_first()[i] == cands[i
                + 1]);
        lemma_best_match_none(cands.drop_first(), q, tn, td);
    }
}

/// When the lookup reports a match, some candidate with that identifier
/// strictly exceeds the threshold.
pub proof fn lemma_best_match_exceeds(
    cands: Seq<((u64, Seq<char>), Seq<char>)>,
    q: Seq<char>,
    tn: int,
    td: int,
)
    ensures
        match best_match(cands, q, tn, td) {
            Some(id) => exists|i: int|
                0 <= i < cands.len() && (#[trigger] cands[i]).0.0 == id && sim_exceeds(
                    lev(q, cands[i].1) as int,
                    max_len(q.len(), cands[i].1.len()) as int,
                    tn,
                    td,
                ),
            None => true,
        },
{
    lemma_best_fold_exceeds(cands, q, tn, td, None);
}

proof fn lemma_best_fold_exceeds(
    cands: Seq<((u64, Seq<char>), Seq<char>)>,
    q: Seq<char>,
    tn: int,
    td: int,
    acc: Option<(u64, nat, nat)>,
)
    ensures
        match best_fold(cands, q, tn, td, acc) {
            Some(b) => acc == Some(b) || exists|i: int|
                0 <= i < cands.len() && (#[trigger] cands[i]).0.0 == b.0 && lev(q, cands[i].1)
                    == b.1 && max_len(q.len(), cands[i].1.len()) == b.2 && sim_exceeds(
                    b.1 as int,
                    b.2 as int,
                    tn,
                    td,
                ),
            None => acc is None,
        },
    decreases cands.len(),
{
    if cands.len() > 0 {
        let c = cands[0];
        let d = lev(q, c.1);
        let l = max_len(q.len(), c.1.len());
        let acc2 = match acc {
            None => if sim_exceeds(d as int, l as int, tn, td) {
                Some((c.0.0, d, l))
            } else {
                None
            },
            Some(b) => if sim_exceeds(d as int, l as int, tn, td) && sim_better(
                d as int,
                l as int,
                b.1 as int,
                b.2 as int,
            ) {
                Some((c.0.0, d, l))
            } else {
                Some(b)
            },
        };
        lemma_best_fold_exceeds(cands.drop_first(), q, tn, td, acc2);
        assert(forall|i: int|
            0 <= i < cands.drop_first().len() ==> #[trigger] cands.drop_first()[i] == cands[i
                + 1]);
        match best_fold(cands.drop_first(), q, tn, td, acc2) {
            Some(b) => {
                if acc2 == Some(b) && acc != Some(b) {
                    assert(cands[0].0.0 == b.0 && lev(q, cands[0].1) == b.1 && max_len(
                        q.len(),
                        cands[0].1.len(),
                    ) == b.2);
                }
            },
            None => {},
        }
    }
}

/// `sim1 <= sim2 <= sim3` for rational similarities `1 - d/l`, by cross
/// multiplication.
proof fn lemma_sim_le_trans(d1: int, l1: int, d2: int, l2: int, d3: int, l3: int)
    requires
        d1 >= 0 && d2 >= 0 && d3 >= 0,
        l1 >= 0 && l2 >= 1 && l3 >= 0,
        !sim_better(d1, l1, d2, l2),
        !sim_better(d2, l2, d3, l3),
    ensures
        !sim_better(d1, l1, d3, l3),
{
    assert(d1 * l3 >= d3 * l1) by (nonlinear_arith)
        requires
            d1 * l2 >= d2 * l1,
            d2 * l3 >= d3 * l2,
            d1 >= 0 && d2 >= 0 && d3 >= 0,
            l1 >= 0 && l2 >= 1 && l3 >= 0,
    ;
}

/// The match the fold keeps is maximal: no candidate above the threshold is
/// strictly more similar than the one returned.  Together with the fold
/// keeping the first of equally similar candidates, and the buckets being
/// sorted, the tie-break is deterministic.
pub proof fn lemma_best_match_maximal(
    cands: Seq<((u64, Seq<char>), Seq<char>)>,
    q: Seq<char>,
    tn: int,
    td: int,
)
    requires
        q.len() > 0,
    ensures
        match best_fold(cands, q, tn, td, None) {
            Some(b) => forall|i: int|
                0 <= i < cands.len() && sim_exceeds(
                    lev(q, (#[trigger] cands[i]).1) as int,
                    max_len(q.len(), cands[i].1.len()) as int,
                    tn,
                    td,
                ) ==> !sim_better(
                    lev(q, cands[i].1) as int,
                    max_len(q.len(), cands[i].1.len()) as int,
                    b.1 as int,
                    b.2 as int,
                ),
            None => true,
        },
{
    lemma_best_fold_maximal(cands, q, tn, td, None);
}

/// The head candidate, when it passes the threshold, is never strictly
/// more similar than the fold's final pick.
proof fn lemma_head_not_better(
    cands: Seq<((u64, Seq<char>), Seq<char>)>,
    q: Seq<char>,
    tn: int,
    td: int,
    acc: Option<(u64, nat, nat)>,
    acc2: Option<(u64, nat, nat)>,
    b: (u64, nat, nat),
)
    requires
        q.len() > 0,
        cands.len() > 0,
        acc matches Some(a) ==> a.2 >= 1,
        sim_exceeds(
            lev(q, cands[0].1) as int,
            max_len(q.len(), cands[0].1.len()) as int,
            tn,
            td,
        ),
        acc2 == (match acc {
            None => if sim_exceeds(
                lev(q, cands[0].1) as int,
                max_len(q.len(), cands[0].1.len()) as int,
                tn,
                td,
            ) {
                Some((cands[0].0.0, lev(q, cands[0].1), max_len(q.len(), cands[0].1.len())))
            } else {
                None
            },
            Some(a) => if sim_exceeds(
                lev(q, cands[0].1) as int,
                max_len(q.len(), cands[0].1.len()) as int,
                tn,
                td,
            ) && sim_better(
                lev(q, cands[0].1) as int,
                max_len(q.len(), cands[0].1.len()) as int,
                a.1 as int,
                a.2 as int,
            ) {
                Some((cands[0].0.0, lev(q, cands[0].1), max_len(q.len(), cands[0].1.len())))
            } else {
                Some(a)
            },
        }),
        best_fold(cands.drop_first(), q, tn, td, acc2) == Some(b),
        b.2 >= 1,
        acc2 matches Some(a2) ==> !sim_better(a2.1 as int, a2.2 as int, b.1 as int, b.2 as int),
    ensures
        !sim_better(
            lev(q, cands[0].1) as int,
            max_len(q.len(), cands[0].1.len()) as int,
            b.1 as int,
            b.2 as int,
        ),
{
    let d = lev(q, cands[0].1);
    let l = max_len(q.len(), cands[0].1.len());
    match acc {
        None => {},
        Some(a) => {
            if !sim_better(d as int, l as int, a.1 as int, a.2 as int) {
                lemma_sim_le_trans(d as int, l as int, a.1 as int, a.2 as int, b.1 as int, b.2 as int);
            }
        },
    }
}

proof fn lemma_best_fold_maximal(
    cands: Seq<((u64, Seq<char>), Seq<char>)>,
    q: Seq<char>,
    tn: int,
    td: int,
    acc: Option<(u64, nat, nat)>,
)
    requires
        q.len() > 0,
        acc matches Some(a) ==> a.2 >= 1,
    ensures
        match best_fold(cands, q, tn, td, acc) {
            Some(b) => {
                &&& b.2 >= 1
                &&& (acc matches Some(a) ==> !sim_better(
                    a.1 as int,
                    a.2 as int,
                    b.1 as int,
                    b.2 as int,
                ))
                &&& forall|i: int|
                    0 <= i < cands.len() && sim_exceeds(
                        lev(q, (#[trigger] cands[i]).1) as int,
                        max_len(q.len(), cands[i].1.len()) as int,
                        tn,
                        td,
                    ) ==> !sim_better(
                        lev(q, cands[i].1) as int,
                        max_len(q.len(), cands[i].1.len()) as int,
                        b.1 as int,
                        b.2 as int,
                    )
            },
            None => acc is None,
        },
    decreases cands.len(),
{
    if cands.len() > 0 {
        let c = cands[0];
        let d = lev(q, c.1);
        let l = max_len(q.len(), c.1.len());
        let acc2 = match acc {
            None => if sim_exceeds(d as int, l as int, tn, td) {
                Some((c.0.0, d, l))
            } else {
                None
            },
            Some(b) => if sim_exceeds(d as int, l as int, tn, td) && sim_better(
                d as int,
                l as int,
                b.1 as int,
                b.2 as int,
            ) {
                Some((c.0.0, d, l))
            } else {
                Some(b)
            },
        };
        lemma_best_fold_maximal(cands.drop_first(), q, tn, td, acc2);
        assert(forall|i: int|
            0 <= i < cands.drop_first().len() ==> #[trigger] cands.drop_first()[i] == cands[i
                + 1]);
        match best_fold(cands.drop_first(), q, tn, td, acc2) {
            Some(b) => {
                assert forall|i: int|
                    0 <= i < cands.len() && sim_exceeds(
                        lev(q, (#[trigger] cands[i]).1) as int,
                        max_len(q.len(), cands[i].1.len()) as int,
                        tn,
                        td,
                    ) implies !sim_better(
                    lev(q, cands[i].1) as int,
                    max_len(q.len(), cands[i].1.len()) as int,
                    b.1 as int,
                    b.2 as int,
                ) by {
                    if i > 0 {
                        assert(cands.drop_first()[i - 1] == cands[i]);
                    } else {
                        lemma_head_not_better(cands, q, tn, td, acc, acc2, b);
                    }
                }
                match acc {
                    Some(a) => {
                        match acc2 {
                            Some(a2) => {
                                if a2 == a {
                                } else {
                                    // the accumulator was replaced by a
                                    // strictly better candidate
                                    assert(sim_better(
                                        a2.1 as int,
                                        a2.2 as int,
                                        a.1 as int,
                                        a.2 as int,
                                    ));
                                    assert(!sim_better(
                                        a.1 as int,
                                        a.2 as int,
                                        a2.1 as int,
                                        a2.2 as int,
                                    )) by (nonlinear_arith)
                                        requires
                                            sim_better(
                                                a2.1 as int,
                                                a2.2 as int,
                                                a.1 as int,
                                                a.2 as int,
                                            ),
                                    ;
                                    lemma_sim_le_trans(
                                        a.1 as int,
                                        a.2 as int,
                                        a2.1 as int,
                                        a2.2 as int,
                                        b.1 as int,
                                        b.2 as int,
                                    );
                                }
                            },
                            None => {},
                        }
                    },
                    None => {},
                }
            },
            None => {},
        }
    }
}

proof fn lemma_mul_lt_u128(a: int, b: int)
    requires
        0 <= a < 0x10000000000000000,
        0 <= b < 0x10000000000000000,
    ensures
        a * b < 0x100000000000000000000000000000000,
{
    assert(a * b < 0x100000000000000000000000000000000) by (nonlinear_arith)
        requires
            0 <= a < 0x10000000000000000,
            0 <= b < 0x10000000000000000,
    ;
}

/// The identifier the whole lookup yields for a raw title: the exact
/// index's entry when the normalized title is a key there, otherwise the
/// best approximate candidate of the title's bucket.
pub open spec fn find_result(
    nm: Seq<(Seq<char>, (u64, Seq<char>))>,
    lv: Seq<(char, Seq<((u64, Seq<char>), Seq<char>)>)>,
    tn: int,
    td: int,
    q: Seq<char>,
) -> Option<u64> {
    match assoc_lookup(nm, normalize_spec(q)) {
        Some(g) => Some(g.0),
        None => match bucket_char(normalize_spec(q)) {
            None => None,
            Some(c) => match bucket_lookup(lv, c) {
                None => None,
                Some(b) => best_match(b, normalize_spec(q), tn, td),
            },
        },
    }
}

/// The matching engine: the exact index, the letter buckets, and the
/// configuration.
#[derive(Debug, Clone, PartialEq)]
pub struct MatchingService {
    pub name_index: Vec<(String, IndexedGame)>,
    pub letter_index: Vec<(char, Vec<(IndexedGame, String)>)>,
    pub config: MatchingConfig,
}

impl MatchingService {
    /// Reconstitutes the engine from a persisted index snapshot.
    pub fn from_indexed_games(indexed: IndexedGames, config: MatchingConfig) -> (s:
        MatchingService)
        ensures
            s.name_index == indexed.name_index,
            s.letter_index == indexed.letter_index,
            s.config == config,
    {
        MatchingService { name_index: indexed.name_index, letter_index: indexed.letter_index, config }
    }

    /// Resolves a raw title against the catalog: an exact hit on the
    /// normalized title always wins; otherwise the title's letter bucket is
    /// scanned for the first candidate of maximal similarity strictly above
    /// the threshold.  An empty normalized title, a missing bucket, or no
    /// candidate above the threshold give no identifier.
    #[verifier::rlimit(60)]
    pub fn find_steam_id(&self, game_name: &str) -> (r: Option<String>)
        ensures
            match find_result(
                name_map_view(self.name_index@),
                letters_view(self.letter_index@),
                self.config.similarity_num as int,
                self.config.similarity_den as int,
                game_name@,
            ) {
                Some(id) => r matches Some(s) && s@ == u64_dec_spec(id as int),
                None => r is None,
            },
    {
        let ghost nm = name_map_view(self.name_index@);
        let nq = normalize(game_name);
        let nqv = str_to_chars(nq.as_str());
        let mut j: usize = 0;
        while j < self.name_index.len()
            invariant
                0 <= j <= self.name_index.len(),
                nqv@ == normalize_spec(game_name@),
                nm == name_map_view(self.name_index@),
                forall|p: int| 0 <= p < j ==> (#[trigger] nm[p]).0 != nqv@,
            decreases self.name_index.len() - j,
        {
            let kc = str_to_chars(self.name_index[j].0.as_str());
            proof {
                assert(nm[j as int].0 == self.name_index@[j as int].0@);
                assert(nm[j as int].1 == self.name_index@[j as int].1@);
            }
            if vec_char_eq(&kc, &nqv) {
                proof {
                    lemma_assoc_index(nm, nqv@);
                }
                return Some(u64_to_dec_string(self.name_index[j].1.appid));
            }
            j = j + 1;
        }
        proof {
            lemma_assoc_index(nm, nqv@);
            assert(assoc_lookup(nm, nqv@) is None);
        }
        if nqv.len() == 0 {
            return None;
        }
        let c0 = nqv[0];
        let bchar: char = if 'a' <= c0 && c0 <= 'z' {
            c0
        } else if crate::chars::exec_is_digit(c0) {
            '0'
        } else {
            return None;
        };
        proof {
            assert(Some(bchar) == bucket_char(nqv@));
        }
        let ghost lv = letters_view(self.letter_index@);
        let mut k: usize = 0;
        let mut bucket_at: usize = 0;
        let mut have_bucket: bool = false;
        while k < self.letter_index.len()
            invariant_except_break
                0 <= k <= self.letter_index.len(),
                !have_bucket,
                lv == letters_view(self.letter_index@),
                forall|p: int| 0 <= p < k ==> (#[trigger] lv[p]).0 != bchar,
            ensures
                lv == letters_view(self.letter_index@),
                have_bucket ==> bucket_at < self.letter_index@.len() && lv[bucket_at as int].0
                    == bchar && (forall|p: int|
                    0 <= p < bucket_at ==> (#[trigger] lv[p]).0 != bchar),
                !have_bucket ==> (forall|p: int|
                    0 <= p < self.letter_index@.len() ==> (#[trigger] lv[p]).0 != bchar),
            decreases self.letter_index.len() - k,
        {
            proof {
                assert(lv[k as int].0 == self.letter_index@[k as int].0);
            }
            if self.letter_index[k].0 == bchar {
                bucket_at = k;
                have_bucket = true;
                break ;
            }
            k = k + 1;
        }
        proof {
            lemma_bucket_index(lv, bchar);
        }
        if !have_bucket {
            return None;
        }
        let bucket = &self.letter_index[bucket_at].1;
        let ghost bv = entries(bucket@);
        proof {
            assert(bucket_index(lv, bchar) == bucket_at as int);
            assert(bucket_lookup(lv, bchar) == Some(bv));
        }
        let tn = self.config.similarity_num;
        let td = self.config.similarity_den;
        let mut best: Option<(u64, usize, usize)> = None;
        let ghost accv: Option<(u64, nat, nat)> = None;
        let mut m: usize = 0;
        proof {
            assert(bv.skip(0) =~= bv);
        }
        while m < bucket.len()
            invariant
                0 <= m <= bucket.len(),
                nqv@ == normalize_spec(game_name@),
                bv == entries(bucket@),
                accv == (match best {
                    Some(b) => Some((b.0, b.1 as nat, b.2 as nat)),
                    None => None::<(u64, nat, nat)>,
                }),
                best matches Some(b) ==> b.1 <= b.2,
                best_fold(bv, nqv@, tn as int, td as int, None) == best_fold(
                    bv.skip(m as int),
                    nqv@,
                    tn as int,
                    td as int,
                    accv,
                ),
            decreases bucket.len() - m,
        {
            let ghost suf = bv.skip(m as int);
            proof {
                assert(suf[0] == bv[m as int]);
                assert(bv[m as int] == entry_view(bucket@[m as int]));
                assert(suf.drop_first() =~= bv.skip(m + 1));
            }
            let cn = str_to_chars(bucket[m].1.as_str());
            let d = levenshtein(&nqv, &cn);
            let l = if nqv.len() >= cn.len() {
                nqv.len()
            } else {
                cn.len()
            };
            proof {
                lemma_lev_le_max(nqv@, cn@);
                assert(d <= l);
                lemma_mul_lt_u128(td as int, (l - d) as int);
                lemma_mul_lt_u128(tn as int, l as int);
            }
            let accept = (td as u128) * ((l - d) as u128) > (tn as u128) * (l as u128);
            let better: bool = match best {
                None => true,
                Some((_, bd, bl)) => {
                    proof {
                        lemma_mul_lt_u128(d as int, bl as int);
                        lemma_mul_lt_u128(bd as int, l as int);
                    }
                    (d as u128) * (bl as u128) < (bd as u128) * (l as u128)
                },
            };
            if accept && better {
                best = Some((bucket[m].0.appid, d, l));
                proof {
                    accv = Some((bucket@[m as int].0.appid, d as nat, l as nat));
                }
            }
            m = m + 1;
        }
        proof {
            assert(bv.skip(bv.len() as int) =~= Seq::<((u64, Seq<char>), Seq<char>)>::empty());
        }
        match best {
            Some((id, _, _)) => Some(u64_to_dec_string(id)),
            None => None,
        }
    }
}


/// Copies ranking pairs, preserving their values.
pub fn clone_rankings(rk: &Vec<(String, u64)>) -> (r: Vec<(String, u64)>)
    ensures
        crate::merge::rank_views(r@) == crate::merge::rank_views(rk@),
{
    let mut out: Vec<(String, u64)> = Vec::new();
    let mut i: usize = 0;
    while i < rk.len()
        invariant
            0 <= i <= rk.len(),
            crate::merge::rank_views(out@) == crate::merge::rank_views(rk@).take(i as int),
        decreases rk.len() - i,
    {
        let ghost pre = crate::merge::rank_views(out@);
        out.push((rk[i].0.clone(), rk[i].1));
        proof {
            assert(crate::merge::rank_views(out@) =~= pre.push(
                crate::merge::rank_views(rk@)[i as int],
            ));
            assert(crate::merge::rank_views(rk@).take(i + 1) =~= crate::merge::rank_views(
                rk@,
            ).take(i as int).push(crate::merge::rank_views(rk@)[i as int]));
        }
        i = i + 1;
    }
    proof {
        assert(crate::merge::rank_views(rk@).take(rk@.len() as int) =~= crate::merge::rank_views(
            rk@,
        ));
    }
    out
}

impl MatchingService {
    /// Resolves every merged game against the catalog through its first
    /// recorded raw title, carrying name and rankings over unchanged.
    pub fn match_games(&self, merged_games: &Vec<crate::merge::MergedGame>) -> (r: Vec<
        GameWithSteamId,
    >)
        requires
            forall|i: int|
                0 <= i < merged_games@.len() ==> (#[trigger] merged_games@[i])@.1.len() > 0,
        ensures
            r@.len() == merged_games@.len(),
            forall|i: int|
                0 <= i < r@.len() ==> {
                    &&& (#[trigger] r@[i]).name@ == merged_games@[i]@.1[0]
                    &&& crate::merge::rank_views(r@[i].rankings@) == merged_games@[i]@.2
                    &&& match find_result(
                        name_map_view(self.name_index@),
                        letters_view(self.letter_index@),
                        self.config.similarity_num as int,
                        self.config.similarity_den as int,
                        merged_games@[i]@.1[0],
                    ) {
                        Some(id) => r@[i].steam_id matches Some(s) && s@ == u64_dec_spec(
                            id as int,
                        ),
                        None => r@[i].steam_id is None,
                    }
                },
    {
        let mut out: Vec<GameWithSteamId> = Vec::new();
        let mut i: usize = 0;
        while i < merged_games.len()
            invariant
                0 <= i <= merged_games.len(),
                out@.len() == i,
                forall|k: int|
                    0 <= k < merged_games@.len() ==> (#[trigger] merged_games@[k])@.1.len() > 0,
                forall|k: int|
                    0 <= k < i ==> {
                        &&& (#[trigger] out@[k]).name@ == merged_games@[k]@.1[0]
                        &&& crate::merge::rank_views(out@[k].rankings@) == merged_games@[k]@.2
                        &&& match find_result(
                            name_map_view(self.name_index@),
                            letters_view(self.letter_index@),
                            self.config.similarity_num as int,
                            self.config.similarity_den as int,
                            merged_games@[k]@.1[0],
                        ) {
                            Some(id) => out@[k].steam_id matches Some(s) && s@ == u64_dec_spec(
                                id as int,
                            ),
                            None => out@[k].steam_id is None,
                        }
                    },
            decreases merged_games.len() - i,
        {
            let mg = &merged_games[i];
            proof {
                assert(crate::game::strs(mg.original_names@)[0] == mg.original_names@[0]@);
            }
            let first = &mg.original_names[0];
            let steam_id = self.find_steam_id(first.as_str());
            let g = GameWithSteamId {
                name: first.clone(),
                rankings: clone_rankings(&mg.rankings),
                steam_id,
            };
            out.push(g);
            i = i + 1;
        }
        out
    }
}


/// A matched game as plain values.
pub open spec fn gws_view(g: GameWithSteamId) -> (
    Seq<char>,
    Seq<(Seq<char>, u64)>,
    Option<Seq<char>>,
) {
    (
        g.name@,
        crate::merge::rank_views(g.rankings@),
        match g.steam_id {
            Some(s) => Some(s@),
            None => None,
        },
    )
}

pub open spec fn gws_views(v: Seq<GameWithSteamId>) -> Seq<
    (Seq<char>, Seq<(Seq<char>, u64)>, Option<Seq<char>>),
> {
    v.map_values(|g: GameWithSteamId| gws_view(g))
}

/// Copies a matched game, preserving its value.
pub fn clone_matched_game(g: &GameWithSteamId) -> (r: GameWithSteamId)
    ensures
        gws_view(r) == gws_view(*g),
{
    let steam_id = match &g.steam_id {
        Some(s) => Some(s.clone()),
        None => None,
    };
    GameWithSteamId { name: g.name.clone(), rankings: clone_rankings(&g.rankings), steam_id }
}

/// Copies a list of matched games, preserving their values.
pub fn clone_matched_games(v: &Vec<GameWithSteamId>) -> (r: Vec<GameWithSteamId>)
    ensures
        gws_views(r@) == gws_views(v@),
{
    let mut out: Vec<GameWithSteamId> = Vec::new();
    let mut i: usize = 0;
    while i < v.len()
        invariant
            0 <= i <= v.len(),
            gws_views(out@) == gws_views(v@).take(i as int),
        decreases v.len() - i,
    {
        let ghost pre = gws_views(out@);
        let c = clone_matched_game(&v[i]);
        out.push(c);
        proof {
            assert(gws_views(out@) =~= pre.push(gws_view(v@[i as int])));
            assert(gws_views(v@).take(i + 1) =~= gws_views(v@).take(i as int).push(
                gws_view(v@[i as int]),
            ));
        }
        i = i + 1;
    }
    proof {
        assert(gws_views(v@).take(v@.len() as int) =~= gws_views(v@));
    }
    out
}

/// Copies an index snapshot, preserving its contents.
pub fn clone_indexed_games(v: &IndexedGames) -> (r: IndexedGames)
    ensures
        r.created_at == v.created_at,
        name_map_view(r.name_index@) == name_map_view(v.name_index@),
        letters_view(r.letter_index@) == letters_view(v.letter_index@),
{
    let mut name_index: Vec<(String, IndexedGame)> = Vec::new();
    let mut i: usize = 0;
    while i < v.name_index.len()
        invariant
            0 <= i <= v.name_index.len(),
            name_map_view(name_index@) == name_map_view(v.name_index@).take(i as int),
        decreases v.name_index.len() - i,
    {
        let ghost pre = name_map_view(name_index@);
        let p = &v.name_index[i];
        name_index.push(
            (p.0.clone(), IndexedGame { appid: p.1.appid, name: p.1.name.clone() }),
        );
        proof {
            assert(name_map_view(name_index@) =~= pre.push(
                name_map_view(v.name_index@)[i as int],
            ));
            assert(name_map_view(v.name_index@).take(i + 1) =~= name_map_view(
                v.name_index@,
            ).take(i as int).push(name_map_view(v.name_index@)[i as int]));
        }
        i = i + 1;
    }
    let mut letter_index: Vec<(char, Vec<(IndexedGame, String)>)> = Vec::new();
    let mut k: usize = 0;
    while k < v.letter_index.len()
        invariant
            0 <= k <= v.letter_index.len(),
            letters_view(letter_index@) == letters_view(v.letter_index@).take(k as int),
        decreases v.letter_index.len() - k,
    {
        let ghost lpre = letters_view(letter_index@);
        let src = &v.letter_index[k];
        let mut bucket: Vec<(IndexedGame, String)> = Vec::new();
        let mut j: usize = 0;
        while j < src.1.len()
            invariant
                0 <= j <= src.1.len(),
                src == v.letter_index@[k as int],
                0 <= k < v.letter_index@.len(),
                entries(bucket@) == entries(src.1@).take(j as int),
            decreases src.1.len() - j,
        {
            let ghost bpre = entries(bucket@);
            let e = &src.1[j];
            bucket.push((IndexedGame { appid: e.0.appid, name: e.0.name.clone() }, e.1.clone()));
            proof {
                assert(entries(bucket@) =~= bpre.push(entries(src.1@)[j as int]));
                assert(entries(src.1@).take(j + 1) =~= entries(src.1@).take(j as int).push(
                    entries(src.1@)[j as int],
                ));
            }
            j = j + 1;
        }
        proof {
            assert(entries(src.1@).take(src.1@.len() as int) =~= entries(src.1@));
        }
        letter_index.push((src.0, bucket));
        proof {
            assert(letters_view(letter_index@) =~~= lpre.push(
                letters_view(v.letter_index@)[k as int],
            ));
            assert(letters_view(v.letter_index@).take(k + 1) =~= letters_view(
                v.letter_index@,
            ).take(k as int).push(letters_view(v.letter_index@)[k as int]));
        }
        k = k + 1;
    }
    proof {
        assert(name_map_view(v.name_index@).take(v.name_index@.len() as int) =~= name_map_view(
            v.name_index@,
        ));
        assert(letters_view(v.letter_index@).take(v.letter_index@.len() as int) =~= letters_view(
            v.letter_index@,
        ));
    }
    IndexedGames { created_at: v.created_at, name_index, letter_index }
}

} // verus!
