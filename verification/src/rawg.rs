//! Records from the secondary game database: search results and detailed
//! lookups, as the enrichment reconciler consumes them.

use vstd::prelude::*;

verus! {

#[derive(Debug, Clone, PartialEq)]
pub struct PlatformInfo {
    pub name: String,
}

#[derive(Debug, Clone, PartialEq)]
pub struct RawgPlatform {
    pub platform: PlatformInfo,
}

#[derive(Debug, Clone, PartialEq)]
pub struct StoreInfo {
    pub name: String,
}

#[derive(Debug, Clone, PartialEq)]
pub struct RawgStore {
    pub store: StoreInfo,
}

/// A search hit: the fields the reconciler reads.  (The upstream record also
/// carries a floating-point community rating, which the core never reads; the
/// boundary in `app` drops it.)
#[derive(Debug, Clone, PartialEq)]
pub struct RawgGameBasic {
    pub id: i32,
    pub name: String,
    pub background_image: Option<String>,
    pub platforms: Vec<RawgPlatform>,
    pub stores: Option<Vec<RawgStore>>,
    pub metacritic: Option<i32>,
    pub released: Option<String>,
}

#[derive(Debug, Clone, PartialEq)]
pub struct RawgGameDetailed {
    pub id: i32,
    pub name: String,
    pub metacritic: Option<i32>,
    pub released: Option<String>,
    pub background_image: Option<String>,
    pub reddit_url: Option<String>,
    pub metacritic_url: Option<String>,
    pub platforms: Vec<RawgPlatform>,
    pub stores: Option<Vec<RawgStore>>,
}

#[derive(Debug, Clone, PartialEq)]
pub struct RawgSearchResponse {
    pub results: Vec<RawgGameBasic>,
}

/// The platform list names the given platform.
pub open spec fn has_platform(platforms: Seq<RawgPlatform>, name: Seq<char>) -> bool {
    exists|i: int| 0 <= i < platforms.len() && platforms[i].platform.name@ == name
}

/// Checks whether any entry of `platforms` carries exactly the name `want`.
pub fn platforms_contain(platforms: &Vec<RawgPlatform>, want: &str) -> (r: bool)
    ensures
        r == has_platform(platforms@, want@),
{
    let w = crate::text::str_to_chars(want);
    let mut i: usize = 0;
    while i < platforms.len()
        invariant
            0 <= i <= platforms.len(),
            w@ == want@,
            forall|j: int| 0 <= j < i ==> platforms@[j].platform.name@ != want@,
        decreases platforms.len() - i,
    {
        let n = crate::text::str_to_chars(platforms[i].platform.name.as_str());
        if crate::text::vec_char_eq(&n, &w) {
            return true;
        }
        i = i + 1;
    }
    false
}

} // verus!
