//! Manually curated title mappings: raw titles pinned to a normalized name
//! and optionally to a catalog identifier, overriding the automatic match.

use vstd::prelude::*;

use crate::text::{str_to_chars, vec_char_eq};

verus! {

#[derive(Debug, Clone, PartialEq)]
pub struct GameMapping {
    pub original_name: String,
    pub normalized_name: String,
    pub steam_id: Option<String>,
}

/// A curated mapping as plain values: the normalized name and the pinned
/// identifier.
pub open spec fn gm_view(g: GameMapping) -> (Seq<char>, Seq<char>, Option<Seq<char>>) {
    (
        g.original_name@,
        g.normalized_name@,
        match g.steam_id {
            Some(s) => Some(s@),
            None => None,
        },
    )
}

pub open spec fn mp_view(v: Seq<(String, GameMapping)>) -> Seq<
    (Seq<char>, (Seq<char>, Seq<char>, Option<Seq<char>>)),
> {
    v.map_values(|p: (String, GameMapping)| (p.0@, gm_view(p.1)))
}

/// First index of `k` among the mapping keys, or -1.
pub open spec fn mp_index(
    m: Seq<(Seq<char>, (Seq<char>, Seq<char>, Option<Seq<char>>))>,
    k: Seq<char>,
) -> int
    decreases m.len(),
{
    if m.len() == 0 {
        -1
    } else if m[0].0 == k {
        0
    } else {
        let r = mp_index(m.drop_first(), k);
        if r < 0 {
            -1
        } else {
            r + 1
        }
    }
}

pub proof fn lemma_mp_index(
    m: Seq<(Seq<char>, (Seq<char>, Seq<char>, Option<Seq<char>>))>,
    k: Seq<char>,
)
    ensures
        mp_index(m, k) >= 0 ==> mp_index(m, k) < m.len() && m[mp_index(m, k)].0 == k && (forall|
            j: int,
        | 0 <= j < mp_index(m, k) ==> (#[trigger] m[j]).0 != k),
        mp_index(m, k) < 0 ==> (forall|j: int| 0 <= j < m.len() ==> (#[trigger] m[j]).0 != k),
    decreases m.len(),
{
    if m.len() > 0 && m[0].0 != k {
        lemma_mp_index(m.drop_first(), k);
        assert(forall|j: int| 1 <= j < m.len() ==> m[j] == m.drop_first()[j - 1]);
    }
}

/// Lookup in a curated map: the entry stored under the key, if any.
pub open spec fn mp_lookup(
    m: Seq<(Seq<char>, (Seq<char>, Seq<char>, Option<Seq<char>>))>,
    k: Seq<char>,
) -> Option<(Seq<char>, Seq<char>, Option<Seq<char>>)> {
    if mp_index(m, k) >= 0 {
        Some(m[mp_index(m, k)].1)
    } else {
        None
    }
}

/// The curated mappings, keyed by raw title; insertion for a present key
/// overwrites.
#[derive(Debug, Clone, PartialEq)]
pub struct MappingConfig {
    pub mappings: Vec<(String, GameMapping)>,
}

impl MappingConfig {
    pub fn new() -> (c: MappingConfig)
        ensures
            c.mappings@.len() == 0,
    {
        MappingConfig { mappings: Vec::new() }
    }

    /// Pins `original` to the given normalized name and identifier,
    /// overwriting an earlier mapping for the same title.
    pub fn add_mapping(&mut self, original: String, normalized: String, steam_id: Option<String>)
        ensures
            ({
                let m0 = mp_view(old(self).mappings@);
                let entry = (
                    original@,
                    (
                        original@,
                        normalized@,
                        match steam_id {
                            Some(s) => Some(s@),
                            None => None::<Seq<char>>,
                        },
                    ),
                );
                mp_view(final(self).mappings@) == (if mp_index(m0, original@) >= 0 {
                    m0.update(mp_index(m0, original@), entry)
                } else {
                    m0.push(entry)
                })
            }),
    {
        let ghost m0 = mp_view(self.mappings@);
        let key = str_to_chars(original.as_str());
        let mut j: usize = 0;
        let mut found: bool = false;
        while j < self.mappings.len() && !found
            invariant_except_break
                0 <= j <= self.mappings.len(),
                !found,
                key@ == original@,
                m0 == mp_view(self.mappings@),
                forall|p: int| 0 <= p < j ==> (#[trigger] m0[p]).0 != original@,
            ensures
                0 <= j <= self.mappings@.len(),
                key@ == original@,
                m0 == mp_view(self.mappings@),
                forall|p: int| 0 <= p < j ==> (#[trigger] m0[p]).0 != original@,
                found ==> j < self.mappings@.len() && m0[j as int].0 == original@,
                !found ==> j == self.mappings@.len(),
            decreases self.mappings.len() - j,
        {
            let kc = str_to_chars(self.mappings[j].0.as_str());
            proof {
                assert(m0[j as int].0 == self.mappings@[j as int].0@);
            }
            if vec_char_eq(&kc, &key) {
                found = true;
                break ;
            }
            j = j + 1;
        }
        proof {
            lemma_mp_index(m0, original@);
        }
        let mapping = GameMapping { original_name: original.clone(), normalized_name: normalized, steam_id };
        if found {
            proof {
                assert(mp_index(m0, original@) == j as int);
            }
            self.mappings[j] = (original, mapping);
            proof {
                assert(mp_view(self.mappings@) =~= m0.update(
                    j as int,
                    (original@, gm_view(mapping)),
                ));
            }
        } else {
            proof {
                assert(mp_index(m0, original@) < 0);
            }
            self.mappings.push((original, mapping));
            proof {
                assert(mp_view(self.mappings@) =~= m0.push((original@, gm_view(mapping))));
            }
        }
    }

    /// The pinned identifier for a raw title, if the curated map has one.
    pub fn get_steam_id(&self, game_name: &str) -> (r: Option<String>)
        ensures
            match mp_lookup(mp_view(self.mappings@), game_name@) {
                Some(entry) => match entry.2 {
                    Some(id) => r matches Some(s) && s@ == id,
                    None => r is None,
                },
                None => r is None,
            },
    {
        let ghost m0 = mp_view(self.mappings@);
        let key = str_to_chars(game_name);
        let mut j: usize = 0;
        while j < self.mappings.len()
            invariant
                0 <= j <= self.mappings.len(),
                key@ == game_name@,
                m0 == mp_view(self.mappings@),
                forall|p: int| 0 <= p < j ==> (#[trigger] m0[p]).0 != game_name@,
            decreases self.mappings.len() - j,
        {
            let kc = str_to_chars(self.mappings[j].0.as_str());
            proof {
                assert(m0[j as int].0 == self.mappings@[j as int].0@);
                assert(m0[j as int].1 == gm_view(self.mappings@[j as int].1));
            }
            if vec_char_eq(&kc, &key) {
                proof {
                    lemma_mp_index(m0, game_name@);
                }
                return match &self.mappings[j].1.steam_id {
                    Some(id) => Some(id.clone()),
                    None => None,
                };
            }
            j = j + 1;
        }
        proof {
            lemma_mp_index(m0, game_name@);
        }
        None
    }
}

} // verus!
