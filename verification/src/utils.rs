//! Light title utilities: the curated normalization table, the identifier
//! table loaded beside it, a lighter title normalizer used for quick
//! comparisons, and the check whether two raw titles name the same game.

use vstd::prelude::*;

use crate::chars::{is_digit, exec_is_digit};
use crate::levenshtein::{lemma_lev_le_max, lev, levenshtein};
use crate::normalize::{digit_run_len, lowercase, lower_of, trim_ws, ws_run_len, exec_trim_ws};
use crate::text::{chars_to_string, str_to_chars, vec_char_eq};

verus! {

/// String pairs as plain values.
pub open spec fn str_pairs(v: Seq<(String, String)>) -> Seq<(Seq<char>, Seq<char>)> {
    v.map_values(|p: (String, String)| (p.0@, p.1@))
}

/// First index of `k` among the pair keys, or -1.
pub open spec fn pair_index(m: Seq<(Seq<char>, Seq<char>)>, k: Seq<char>) -> int
    decreases m.len(),
{
    if m.len() == 0 {
        -1
    } else if m[0].0 == k {
        0
    } else {
        let r = pair_index(m.drop_first(), k);
        if r < 0 {
            -1
        } else {
            r + 1
        }
    }
}

pub proof fn lemma_pair_index(m: Seq<(Seq<char>, Seq<char>)>, k: Seq<char>)
    ensures
        pair_index(m, k) >= 0 ==> pair_index(m, k) < m.len() && m[pair_index(m, k)].0 == k && (
        forall|j: int| 0 <= j < pair_index(m, k) ==> (#[trigger] m[j]).0 != k),
        pair_index(m, k) < 0 ==> (forall|j: int| 0 <= j < m.len() ==> (#[trigger] m[j]).0 != k),
    decreases m.len(),
{
    if m.len() > 0 && m[0].0 != k {
        lemma_pair_index(m.drop_first(), k);
        assert(forall|j: int| 1 <= j < m.len() ==> m[j] == m.drop_first()[j - 1]);
    }
}

pub open spec fn pair_lookup(m: Seq<(Seq<char>, Seq<char>)>, k: Seq<char>) -> Option<Seq<char>> {
    if pair_index(m, k) >= 0 {
        Some(m[pair_index(m, k)].1)
    } else {
        None
    }
}

/// Looks a key up in a pair table.
pub fn pair_get(map: &Vec<(String, String)>, key: &Vec<char>) -> (r: Option<String>)
    ensures
        match pair_lookup(str_pairs(map@), key@) {
            Some(v) => r matches Some(s) && s@ == v,
            None => r is None,
        },
{
    let ghost m = str_pairs(map@);
    let mut j: usize = 0;
    while j < map.len()
        invariant
            0 <= j <= map.len(),
            m == str_pairs(map@),
            forall|p: int| 0 <= p < j ==> (#[trigger] m[p]).0 != key@,
        decreases map.len() - j,
    {
        let kc = str_to_chars(map[j].0.as_str());
        proof {
            assert(m[j as int].0 == map@[j as int].0@);
            assert(m[j as int].1 == map@[j as int].1@);
        }
        if vec_char_eq(&kc, key) {
            proof {
                lemma_pair_index(m, key@);
            }
            return Some(map[j].1.clone());
        }
        j = j + 1;
    }
    proof {
        lemma_pair_index(m, key@);
    }
    None
}

/// The curated normalization table as plain values.
pub open spec fn norm_map_spec() -> Seq<(Seq<char>, Seq<char>)> {
    seq![
        ("grand theft auto 5"@, "Grand Theft Auto V"@),
        ("crusader kings 3"@, "Crusader Kings III"@),
        ("crusader king 3"@, "Crusader Kings III"@),
        ("titanfall 2"@, "Titanfall 2"@),
        ("mass effect: legendary edition"@, "Mass Effect Legendary Edition"@),
        ("mass effect legendary edition"@, "Mass Effect Legendary Edition"@),
        ("resident evil 4 remake"@, "Resident Evil 4 (Remake)"@),
        ("resident evil iv (remake)"@, "Resident Evil 4 (Remake)"@),
        ("resident evil iv"@, "Resident Evil 4 (Remake)"@),
        ("total war: warhammer 3"@, "Total War: Warhammer III"@),
        ("god of war 2018"@, "God of War"@),
        ("god of war (2018)"@, "God of War"@),
        ("hunt: showdown"@, "Hunt: Showdown 1896"@),
        ("doom (1993)"@, "Doom"@),
        ("Dark Souls"@, "DARK SOULS: REMASTERED"@),
        ("final fantasy 14"@, "FINAL FANTASY XIV"@),
    ]
}

/// The fixed table of curated title spellings, keyed by a lightly
/// normalized form.
pub fn get_normalization_map() -> (r: Vec<(String, String)>)
    ensures
        str_pairs(r@) == norm_map_spec(),
{
    let mut m: Vec<(String, String)> = Vec::new();
    m.push((String::from_str("grand theft auto 5"), String::from_str("Grand Theft Auto V")));
    m.push((String::from_str("crusader kings 3"), String::from_str("Crusader Kings III")));
    m.push((String::from_str("crusader king 3"), String::from_str("Crusader Kings III")));
    m.push((String::from_str("titanfall 2"), String::from_str("Titanfall 2")));
    m.push(
        (
            String::from_str("mass effect: legendary edition"),
            String::from_str("Mass Effect Legendary Edition"),
        ),
    );
    m.push(
        (
            String::from_str("mass effect legendary edition"),
            String::from_str("Mass Effect Legendary Edition"),
        ),
    );
    m.push(
        (String::from_str("resident evil 4 remake"), String::from_str("Resident Evil 4 (Remake)")),
    );
    m.push(
        (
            String::from_str("resident evil iv (remake)"),
            String::from_str("Resident Evil 4 (Remake)"),
        ),
    );
    m.push((String::from_str("resident evil iv"), String::from_str("Resident Evil 4 (Remake)")));
    m.push(
        (String::from_str("total war: warhammer 3"), String::from_str("Total War: Warhammer III")),
    );
    m.push((String::from_str("god of war 2018"), String::from_str("God of War")));
    m.push((String::from_str("god of war (2018)"), String::from_str("God of War")));
    m.push((String::from_str("hunt: showdown"), String::from_str("Hunt: Showdown 1896")));
    m.push((String::from_str("doom (1993)"), String::from_str("Doom")));
    m.push((String::from_str("Dark Souls"), String::from_str("DARK SOULS: REMASTERED")));
    m.push((String::from_str("final fantasy 14"), String::from_str("FINAL FANTASY XIV")));
    proof {
        assert(str_pairs(m@) =~= norm_map_spec());
    }
    m
}

/// One curated identifier mapping.
#[derive(Debug, Clone, PartialEq)]
pub struct SteamIdMapping {
    pub name: String,
    pub steam_id: String,
}

/// The curated identifier table, as loaded from disk by the boundary.
#[derive(Debug, Clone, PartialEq)]
pub struct SteamIdConfig {
    pub mappings: Vec<SteamIdMapping>,
}

/// The pair table after inserting every mapping in order, with a later
/// mapping for an already-present name overwriting the earlier one.
pub open spec fn pairs_upsert(ms: Seq<SteamIdMapping>) -> Seq<(Seq<char>, Seq<char>)>
    decreases ms.len(),
{
    if ms.len() == 0 {
        Seq::empty()
    } else {
        let prev = pairs_upsert(ms.drop_last());
        let m = ms.last();
        let j = pair_index(prev, m.name@);
        if j >= 0 {
            prev.update(j, (m.name@, m.steam_id@))
        } else {
            prev.push((m.name@, m.steam_id@))
        }
    }
}

impl SteamIdConfig {
    /// The table as name-to-identifier pairs, one per name; when two
    /// mappings share a name, the later one wins.
    pub fn to_hashmap(&self) -> (r: Vec<(String, String)>)
        ensures
            str_pairs(r@) == pairs_upsert(self.mappings@),
    {
        let mut out: Vec<(String, String)> = Vec::new();
        let mut i: usize = 0;
        proof {
            assert(self.mappings@.take(0) =~= Seq::<SteamIdMapping>::empty());
            assert(str_pairs(out@) =~= Seq::<(Seq<char>, Seq<char>)>::empty());
        }
        while i < self.mappings.len()
            invariant
                0 <= i <= self.mappings.len(),
                str_pairs(out@) == pairs_upsert(self.mappings@.take(i as int)),
            decreases self.mappings.len() - i,
        {
            let ghost pre = str_pairs(out@);
            let m = &self.mappings[i];
            proof {
                assert(self.mappings@.take(i + 1).drop_last() =~= self.mappings@.take(i as int));
                assert(self.mappings@.take(i + 1).last() == self.mappings@[i as int]);
            }
            let key = str_to_chars(m.name.as_str());
            let mut j: usize = 0;
            let mut found: bool = false;
            while j < out.len() && !found
                invariant_except_break
                    0 <= j <= out.len(),
                    !found,
                    key@ == m.name@,
                    pre == str_pairs(out@),
                    forall|p: int| 0 <= p < j ==> (#[trigger] pre[p]).0 != m.name@,
                ensures
                    0 <= j <= out@.len(),
                    pre == str_pairs(out@),
                    forall|p: int| 0 <= p < j ==> (#[trigger] pre[p]).0 != m.name@,
                    found ==> j < out@.len() && pre[j as int].0 == m.name@,
                    !found ==> j == out@.len(),
                decreases out.len() - j,
            {
                let kc = str_to_chars(out[j].0.as_str());
                proof {
                    assert(pre[j as int].0 == out@[j as int].0@);
                }
                if vec_char_eq(&kc, &key) {
                    found = true;
                    break ;
                }
                j = j + 1;
            }
            proof {
                lemma_pair_index(pre, m.name@);
            }
            if found {
                proof {
                    assert(pair_index(pre, m.name@) == j as int);
                }
                out[j] = (m.name.clone(), m.steam_id.clone());
                proof {
                    assert(str_pairs(out@) =~= pre.update(j as int, (m.name@, m.steam_id@)));
                }
            } else {
                proof {
                    assert(pair_index(pre, m.name@) < 0);
                }
                out.push((m.name.clone(), m.steam_id.clone()));
                proof {
                    assert(str_pairs(out@) =~= pre.push((m.name@, m.steam_id@)));
                }
            }
            i = i + 1;
        }
        proof {
            assert(self.mappings@.take(self.mappings@.len() as int) =~= self.mappings@);
        }
        out
    }
}

/// The name-to-identifier pairs of a curated table, later duplicates
/// winning.
pub fn get_steam_id_map(config: &SteamIdConfig) -> (r: Vec<(String, String)>)
    ensures
        str_pairs(r@) == pairs_upsert(config.mappings@),
{
    config.to_hashmap()
}

// ---------------------------------------------------------------------------
// The light normalizer
// ---------------------------------------------------------------------------
/// Drops the registered-trademark and trademark signs.
pub open spec fn remove_marks(s: Seq<char>) -> Seq<char>
    decreases s.len(),
{
    if s.len() == 0 {
        s
    } else if s[0] == '\u{ae}' || s[0] == '\u{2122}' {
        remove_marks(s.skip(1))
    } else {
        seq![s[0]] + remove_marks(s.skip(1))
    }
}

/// Length of a parenthesized year at the front of `s`: optional whitespace,
/// then exactly `(` four digits `)`.
pub open spec fn paren_year_front(s: Seq<char>) -> Option<int> {
    let w = ws_run_len(s) as int;
    if w + 6 <= s.len() && s[w] == '(' && is_digit(s[w + 1]) && is_digit(s[w + 2]) && is_digit(
        s[w + 3],
    ) && is_digit(s[w + 4]) && s[w + 5] == ')' {
        Some(w + 6)
    } else {
        None
    }
}

/// Removes every parenthesized year annotation.
pub open spec fn strip_paren_years(s: Seq<char>) -> Seq<char>
    decreases s.len(),
    via strip_paren_years_decreases
{
    if s.len() == 0 {
        s
    } else {
        match paren_year_front(s) {
            Some(n) => strip_paren_years(s.skip(n)),
            None => seq![s[0]] + strip_paren_years(s.skip(1)),
        }
    }
}

#[via_fn]
proof fn strip_paren_years_decreases(s: Seq<char>) {
    crate::normalize::lemma_ws_run_le(s);
}

/// Removes trailing colons and hyphens.
pub open spec fn trim_end_colon_dash(s: Seq<char>) -> Seq<char>
    decreases s.len(),
{
    if s.len() > 0 && (s[s.len() - 1] == ':' || s[s.len() - 1] == '-') {
        trim_end_colon_dash(s.drop_last())
    } else {
        s
    }
}

/// The light normal form: lowercased, trademark signs dropped, trimmed,
/// replaced by its curated spelling when the table has one, parenthesized
/// years dropped, and trailing colons and hyphens trimmed.
pub open spec fn light_norm_spec(s: Seq<char>) -> Seq<char> {
    let t0 = trim_ws(remove_marks(lower_of(s)));
    let t1 = match pair_lookup(norm_map_spec(), t0) {
        Some(v) => v,
        None => t0,
    };
    trim_end_colon_dash(strip_paren_years(t1))
}

fn exec_remove_marks(s: &Vec<char>) -> (r: Vec<char>)
    ensures
        r@ == remove_marks(s@),
{
    let mut out: Vec<char> = Vec::new();
    let mut i: usize = 0;
    proof {
        assert(s@.skip(0) =~= s@);
        assert(Seq::<char>::empty() + remove_marks(s@) =~= remove_marks(s@));
    }
    while i < s.len()
        invariant
            0 <= i <= s.len(),
            remove_marks(s@) == out@ + remove_marks(s@.skip(i as int)),
        decreases s.len() - i,
    {
        let c = s[i];
        proof {
            assert(s@.skip(i as int)[0] == c);
            assert(s@.skip(i as int).skip(1) =~= s@.skip(i + 1));
        }
        if !(c == '\u{ae}' || c == '\u{2122}') {
            out.push(c);
            proof {
                assert(out@ + remove_marks(s@.skip(i + 1)) =~= out@.drop_last() + (seq![c]
                    + remove_marks(s@.skip(i + 1))));
            }
        }
        i = i + 1;
    }
    proof {
        assert(remove_marks(s@.skip(i as int)) =~= Seq::<char>::empty());
        assert(out@ + Seq::<char>::empty() =~= out@);
    }
    out
}

fn exec_strip_paren_years(s: &Vec<char>) -> (r: Vec<char>)
    ensures
        r@ == strip_paren_years(s@),
{
    let mut out: Vec<char> = Vec::new();
    let mut i: usize = 0;
    proof {
        assert(s@.skip(0) =~= s@);
        assert(Seq::<char>::empty() + strip_paren_years(s@) =~= strip_paren_years(s@));
    }
    while i < s.len()
        invariant
            0 <= i <= s.len(),
            strip_paren_years(s@) == out@ + strip_paren_years(s@.skip(i as int)),
        decreases s.len() - i,
    {
        let ghost suf = s@.skip(i as int);
        let w = crate::normalize::ws_run_at(s, i);
        proof {
            assert(forall|k: int| 0 <= k < suf.len() ==> suf[k] == s@[i + k]);
        }
        let len = s.len();
        let hit: bool = if len >= 6 && i + w <= len - 6 {
            s[i + w] == '(' && exec_is_digit(s[i + w + 1]) && exec_is_digit(s[i + w + 2])
                && exec_is_digit(s[i + w + 3]) && exec_is_digit(s[i + w + 4]) && s[i + w + 5]
                == ')'
        } else {
            false
        };
        proof {
            if hit {
                assert(paren_year_front(suf) == Some(w + 6int));
            } else {
                assert(paren_year_front(suf) is None);
            }
        }
        if hit {
            proof {
                assert(suf.skip(w + 6int) =~= s@.skip(i + w + 6));
            }
            i = i + w + 6;
        } else {
            proof {
                assert(suf[0] == s@[i as int]);
                assert(suf.skip(1) =~= s@.skip(i + 1));
            }
            out.push(s[i]);
            proof {
                assert(out@ + strip_paren_years(s@.skip(i + 1)) =~= out@.drop_last() + (seq![
                    s@[i as int],
                ] + strip_paren_years(s@.skip(i + 1))));
            }
            i = i + 1;
        }
    }
    proof {
        assert(strip_paren_years(s@.skip(i as int)) =~= Seq::<char>::empty());
        assert(out@ + Seq::<char>::empty() =~= out@);
    }
    out
}

fn exec_trim_end_colon_dash(s: &Vec<char>) -> (r: Vec<char>)
    ensures
        r@ == trim_end_colon_dash(s@),
{
    let mut e: usize = s.len();
    proof {
        assert(s@.take(s@.len() as int) =~= s@);
    }
    while e > 0 && (s[e - 1] == ':' || s[e - 1] == '-')
        invariant
            0 <= e <= s.len(),
            trim_end_colon_dash(s@) == trim_end_colon_dash(s@.take(e as int)),
        decreases e,
    {
        proof {
            assert(s@.take(e as int).drop_last() =~= s@.take(e - 1));
            assert(s@.take(e as int).last() == s@[e - 1]);
        }
        e = e - 1;
    }
    proof {
        if e > 0 {
            assert(s@.take(e as int).last() == s@[e - 1]);
        }
        assert(trim_end_colon_dash(s@.take(e as int)) == s@.take(e as int));
    }
    crate::normalize::copy_range(s, 0, e)
}

/// The light title normalizer: quick comparisons use it instead of the
/// full canonicalization pipeline.
pub fn normalize_title(title: &str) -> (r: String)
    ensures
        r@ == light_norm_spec(title@),
{
    let lowered = lowercase(title);
    let v = str_to_chars(lowered.as_str());
    let v = exec_remove_marks(&v);
    let v = exec_trim_ws(&v);
    let map = get_normalization_map();
    let v = match pair_get(&map, &v) {
        Some(mapped) => str_to_chars(mapped.as_str()),
        None => v,
    };
    let v = exec_strip_paren_years(&v);
    let v = exec_trim_end_colon_dash(&v);
    chars_to_string(&v)
}


/// The similarity `1 - d/l` strictly exceeds `tn/td`; two empty strings
/// count as identical.
pub open spec fn sim_above(d: int, l: int, tn: int, td: int) -> bool {
    if l == 0 {
        td > tn
    } else {
        td * (l - d) > tn * l
    }
}

pub open spec fn max_int(a: int, b: int) -> int {
    if a >= b {
        a
    } else {
        b
    }
}

/// Index of the first ASCII digit, or -1.
pub open spec fn first_digit_idx(s: Seq<char>) -> int
    decreases s.len(),
{
    if s.len() == 0 {
        -1
    } else if is_digit(s[0]) {
        0
    } else {
        let r = first_digit_idx(s.drop_first());
        if r < 0 {
            -1
        } else {
            r + 1
        }
    }
}

pub proof fn lemma_first_digit_idx(s: Seq<char>)
    ensures
        first_digit_idx(s) >= 0 ==> first_digit_idx(s) < s.len() && is_digit(
            s[first_digit_idx(s)],
        ) && (forall|j: int| 0 <= j < first_digit_idx(s) ==> !is_digit(#[trigger] s[j])),
        first_digit_idx(s) < 0 ==> (forall|j: int| 0 <= j < s.len() ==> !is_digit(
            #[trigger] s[j],
        )),
    decreases s.len(),
{
    if s.len() > 0 && !is_digit(s[0]) {
        lemma_first_digit_idx(s.drop_first());
        assert(forall|j: int| 1 <= j < s.len() ==> s[j] == s.drop_first()[j - 1]);
    }
}

/// The base (text before the first digit, trimmed) and the first digit run
/// of a title, when it holds a digit at all.
pub open spec fn num_split_spec(s: Seq<char>) -> Option<(Seq<char>, Seq<char>)> {
    let idx = first_digit_idx(s);
    if idx >= 0 {
        Some(
            (trim_ws(s.take(idx)), s.subrange(idx, idx + digit_run_len(s.skip(idx)) as int)),
        )
    } else {
        None
    }
}

/// Whether two raw titles name the same game: curated spellings win, then
/// exact light-normal equality, then curated identifiers, then a
/// numbered-sequel guard, and last a strict 0.95 similarity bar.
pub open spec fn same_game_spec(t1: Seq<char>, t2: Seq<char>, sm: Seq<(Seq<char>, Seq<char>)>)
    -> bool {
    let n1 = light_norm_spec(t1);
    let n2 = light_norm_spec(t2);
    match (pair_lookup(norm_map_spec(), n1), pair_lookup(norm_map_spec(), n2)) {
        (Some(a), Some(b)) => a == b,
        (Some(a), None) => a == n2,
        (None, Some(b)) => n1 == b,
        (None, None) => {
            if n1 == n2 {
                true
            } else if pair_lookup(sm, n1) is Some && pair_lookup(sm, n2) is Some {
                pair_lookup(sm, n1) == pair_lookup(sm, n2)
            } else {
                let sequel_clash = match (num_split_spec(n1), num_split_spec(n2)) {
                    (Some(p1), Some(p2)) => sim_above(
                        lev(p1.0, p2.0) as int,
                        max_int(p1.0.len() as int, p2.0.len() as int),
                        9,
                        10,
                    ) && p1.1 != p2.1,
                    _ => false,
                };
                if sequel_clash {
                    false
                } else {
                    sim_above(
                        lev(n1, n2) as int,
                        max_int(n1.len() as int, n2.len() as int),
                        19,
                        20,
                    )
                }
            }
        },
    }
}

/// Splits a title at its first digit run.
fn exec_num_split(s: &Vec<char>) -> (r: Option<(Vec<char>, Vec<char>)>)
    ensures
        match r {
            Some(p) => num_split_spec(s@) == Some((p.0@, p.1@)),
            None => num_split_spec(s@) is None,
        },
{
    let mut i: usize = 0;
    while i < s.len() && !exec_is_digit(s[i])
        invariant
            0 <= i <= s.len(),
            forall|j: int| 0 <= j < i ==> !is_digit(#[trigger] s@[j]),
        decreases s.len() - i,
    {
        i = i + 1;
    }
    proof {
        lemma_first_digit_idx(s@);
    }
    if i == s.len() {
        proof {
            assert(first_digit_idx(s@) < 0) by {
                if first_digit_idx(s@) >= 0 {
                    assert(is_digit(s@[first_digit_idx(s@)]));
                }
            }
        }
        return None;
    }
    proof {
        assert(first_digit_idx(s@) == i as int) by {
            if first_digit_idx(s@) < 0 {
                assert(!is_digit(s@[i as int]));
            } else if first_digit_idx(s@) < i {
                assert(!is_digit(s@[first_digit_idx(s@)]));
            } else if first_digit_idx(s@) > i {
                assert(!is_digit(s@[i as int]));
            }
        }
    }
    let head = crate::normalize::copy_range(s, 0, i);
    let base = exec_trim_ws(&head);
    let d = crate::normalize::digit_run_at(s, i);
    let digits = crate::normalize::copy_range(s, i, i + d);
    proof {
        assert(head@ =~= s@.take(i as int));
        assert(s@.skip(i as int) =~= s@.skip(first_digit_idx(s@)));
    }
    Some((base, digits))
}

proof fn lemma_sim_mul_bound(a: int, b: int)
    requires
        0 <= a < 0x10000000000000000,
        0 <= b < 0x10000000000000000,
    ensures
        a * b < 0x100000000000000000000000000000000,
{
    assert(a * b < 0x100000000000000000000000000000000) by (nonlinear_arith)
        requires
            0 <= a < 0x10000000000000000,
            0 <= b < 0x10000000000000000,
    ;
}

/// Compares the similarity `1 - d/l` against `tn/td`, exactly.
fn exec_sim_above(d: usize, l: usize, tn: u64, td: u64) -> (r: bool)
    requires
        d <= l,
        tn <= 100,
        td <= 100,
    ensures
        r == sim_above(d as int, l as int, tn as int, td as int),
{
    if l == 0 {
        td > tn
    } else {
        proof {
            lemma_sim_mul_bound(td as int, (l - d) as int);
            lemma_sim_mul_bound(tn as int, l as int);
        }
        (td as u128) * ((l - d) as u128) > (tn as u128) * (l as u128)
    }
}

/// Decides whether two raw titles name the same game, using the curated
/// tables and an exact-rational similarity comparison.
pub fn are_titles_same_game(title1: &str, title2: &str, steam_id_map: &Vec<(String, String)>)
    -> (r: bool)
    ensures
        r == same_game_spec(title1@, title2@, str_pairs(steam_id_map@)),
{
    let n1s = normalize_title(title1);
    let n2s = normalize_title(title2);
    let n1 = str_to_chars(n1s.as_str());
    let n2 = str_to_chars(n2s.as_str());
    let map = get_normalization_map();
    let m1 = pair_get(&map, &n1);
    let m2 = pair_get(&map, &n2);
    match (m1, m2) {
        (Some(a), Some(b)) => {
            let av = str_to_chars(a.as_str());
            let bv = str_to_chars(b.as_str());
            return vec_char_eq(&av, &bv);
        },
        (Some(a), None) => {
            let av = str_to_chars(a.as_str());
            return vec_char_eq(&av, &n2);
        },
        (None, Some(b)) => {
            let bv = str_to_chars(b.as_str());
            return vec_char_eq(&n1, &bv);
        },
        (None, None) => {},
    }
    if vec_char_eq(&n1, &n2) {
        return true;
    }
    let id1 = pair_get(steam_id_map, &n1);
    let id2 = pair_get(steam_id_map, &n2);
    match (id1, id2) {
        (Some(a), Some(b)) => {
            let av = str_to_chars(a.as_str());
            let bv = str_to_chars(b.as_str());
            return vec_char_eq(&av, &bv);
        },
        _ => {},
    }
    let sp1 = exec_num_split(&n1);
    let sp2 = exec_num_split(&n2);
    match (sp1, sp2) {
        (Some(p1), Some(p2)) => {
            let d = levenshtein(&p1.0, &p2.0);
            let l = if p1.0.len() >= p2.0.len() {
                p1.0.len()
            } else {
                p2.0.len()
            };
            proof {
                lemma_lev_le_max(p1.0@, p2.0@);
            }
            if exec_sim_above(d, l, 9, 10) && !vec_char_eq(&p1.1, &p2.1) {
                return false;
            }
        },
        _ => {},
    }
    let d = levenshtein(&n1, &n2);
    let l = if n1.len() >= n2.len() {
        n1.len()
    } else {
        n2.len()
    };
    proof {
        lemma_lev_le_max(n1@, n2@);
    }
    exec_sim_above(d, l, 19, 20)
}

/// Tidies a slug-like raw name: hyphens become spaces and the ends are
/// trimmed.
pub open spec fn clean_name_spec(s: Seq<char>) -> Seq<char> {
    trim_ws(s.map_values(|c: char| if c == '-' {
        ' '
    } else {
        c
    }))
}

pub fn clean_name(raw_name: &str) -> (r: String)
    ensures
        r@ == clean_name_spec(raw_name@),
{
    let v = str_to_chars(raw_name);
    let mut out: Vec<char> = Vec::new();
    let mut i: usize = 0;
    while i < v.len()
        invariant
            0 <= i <= v.len(),
            out@ == v@.take(i as int).map_values(|c: char| if c == '-' {
                ' '
            } else {
                c
            }),
        decreases v.len() - i,
    {
        let c = v[i];
        if c == '-' {
            out.push(' ');
        } else {
            out.push(c);
        }
        proof {
            assert(out@ =~= v@.take(i + 1).map_values(|c2: char| if c2 == '-' {
                ' '
            } else {
                c2
            }));
        }
        i = i + 1;
    }
    proof {
        assert(v@.take(v@.len() as int) =~= v@);
    }
    let trimmed = exec_trim_ws(&out);
    chars_to_string(&trimmed)
}

/// The fixed label of a known ranking source, recognized by a marker in
/// its URL; an unknown source keeps its URL as the label.
pub open spec fn source_label_spec(s: Seq<char>) -> Seq<char> {
    if crate::text::contains_seq(s, "rockpapershotgun"@) {
        "RPS"@
    } else if crate::text::contains_seq(s, "pcgamer"@) {
        "PCGamer"@
    } else if crate::text::contains_seq(s, "eurogamer"@) {
        "Eurogamer"@
    } else if crate::text::contains_seq(s, "ign"@) {
        "IGN"@
    } else if crate::text::contains_seq(
        s,
        "https://www.polygon.com/ps5/21720698/best-ps5-games-playstation-5"@,
    ) {
        "Polygon - PS5 Top 25"@
    } else {
        s
    }
}

/// Maps a known source URL to its fixed display label.
pub fn normalize_source(source: &str) -> (r: String)
    ensures
        r@ == source_label_spec(source@),
{
    let sv = str_to_chars(source);
    let p = str_to_chars("rockpapershotgun");
    if crate::text::contains_vec(&sv, &p) {
        return String::from_str("RPS");
    }
    let p = str_to_chars("pcgamer");
    if crate::text::contains_vec(&sv, &p) {
        return String::from_str("PCGamer");
    }
    let p = str_to_chars("eurogamer");
    if crate::text::contains_vec(&sv, &p) {
        return String::from_str("Eurogamer");
    }
    let p = str_to_chars("ign");
    if crate::text::contains_vec(&sv, &p) {
        return String::from_str("IGN");
    }
    let p = str_to_chars("https://www.polygon.com/ps5/21720698/best-ps5-games-playstation-5");
    if crate::text::contains_vec(&sv, &p) {
        return String::from_str("Polygon - PS5 Top 25");
    }
    String::from_str(source)
}

} // verus!
