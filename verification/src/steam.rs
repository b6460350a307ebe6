//! Catalog and store records: the shapes the catalog collaborator and the
//! store endpoints hand over, and the assembly of a `StoreInfo` out of them.

use vstd::prelude::*;

verus! {

/// One catalog entry: a stable identifier and a raw name.
#[derive(Debug, Clone, PartialEq)]
pub struct SteamApp {
    pub appid: u64,
    pub name: String,
}

#[derive(Debug, Clone, PartialEq)]
pub struct SteamAppList {
    pub apps: Vec<SteamApp>,
}

#[derive(Debug, Clone, PartialEq)]
pub struct SteamResponse {
    pub applist: SteamAppList,
}

#[derive(Debug, Clone, PartialEq)]
pub struct PriceOverview {
    pub final_formatted: String,
}

#[derive(Debug, Clone, PartialEq)]
pub struct Metacritic {
    pub score: i32,
    pub url: String,
}

#[derive(Debug, Clone, PartialEq)]
pub struct Platforms {
    pub windows: bool,
    pub mac: bool,
    pub linux: bool,
}

#[derive(Debug, Clone, PartialEq)]
pub struct SteamStoreDetails {
    pub price_overview: Option<PriceOverview>,
    pub platforms: Platforms,
    pub header_image: Option<String>,
    pub metacritic: Option<Metacritic>,
}

#[derive(Debug, Clone, PartialEq)]
pub struct SteamStoreData {
    pub success: bool,
    pub data: SteamStoreDetails,
}

#[derive(Debug, Clone, PartialEq)]
pub struct ReviewsSummary {
    pub total_positive: i64,
    pub total_reviews: i64,
    pub review_score: i32,
    pub review_score_desc: String,
}

#[derive(Debug, Clone, PartialEq)]
pub struct SteamReviewsResponse {
    pub query_summary: ReviewsSummary,
}

#[derive(Debug, Clone, PartialEq)]
pub struct DeckResultItem {
    pub display_type: i32,
    pub loc_token: String,
}

#[derive(Debug, Clone, PartialEq)]
pub struct DeckResults {
    pub appid: u64,
    pub resolved_category: i32,
    pub resolved_items: Vec<DeckResultItem>,
    pub steam_deck_blog_url: String,
    pub search_id: Option<String>,
}

#[derive(Debug, Clone, PartialEq)]
pub struct SteamDeckVerifiedResponse {
    pub success: i32,
    pub results: Option<DeckResults>,
}

/// Platform flags of a store record, extended with the flags that other
/// sources can contribute.
#[derive(Debug, Clone, PartialEq)]
pub struct ExtendedPlatforms {
    pub windows: bool,
    pub macos: bool,
    pub linux: bool,
    pub steamdeck: String,
    pub switch: bool,
}

impl Default for ExtendedPlatforms {
    /// All flags off, with an empty compatibility tier.
    fn default() -> (r: Self)
        ensures
            !r.windows && !r.macos && !r.linux && !r.switch,
            r.steamdeck@ == Seq::<char>::empty(),
    {
        ExtendedPlatforms {
            windows: false,
            macos: false,
            linux: false,
            steamdeck: String::new(),
            switch: false,
        }
    }
}

impl From<Platforms> for ExtendedPlatforms {
    fn from(p: Platforms) -> (r: Self) {
        ExtendedPlatforms {
            windows: p.windows,
            macos: p.mac,
            linux: p.linux,
            steamdeck: String::new(),
            switch: false,
        }
    }
}

impl vstd::std_specs::convert::FromSpecImpl<Platforms> for ExtendedPlatforms {
    // A `String` has no spec-level constructor, so the converted value
    // cannot be written down here; `make_store_info` carries the exact
    // field-level contract instead.
    open spec fn obeys_from_spec() -> bool {
        false
    }

    open spec fn from_spec(p: Platforms) -> Self {
        arbitrary()
    }
}

/// Store and review metadata for one catalog entry, each field independently
/// absent when its source did not supply it.
#[derive(Debug, Clone, PartialEq)]
pub struct StoreInfo {
    pub price: Option<String>,
    pub platforms: ExtendedPlatforms,
    pub header_image: Option<String>,
    pub user_score: i32,
    pub total_reviews: i32,
    pub metacritic_score: Option<i32>,
    pub metacritic_url: Option<String>,
}

/// Assembles the `StoreInfo` for one entry out of a store record and a
/// review summary: prices and images come from the store record, scores from
/// the review summary, the metacritic pair from the store record's
/// metacritic block.
pub fn make_store_info(store: SteamStoreDetails, reviews: SteamReviewsResponse) -> (info:
    StoreInfo)
    ensures
        info.price == (match store.price_overview {
            Some(p) => Some(p.final_formatted),
            None => None::<String>,
        }),
        info.platforms.windows == store.platforms.windows,
        info.platforms.macos == store.platforms.mac,
        info.platforms.linux == store.platforms.linux,
        info.platforms.steamdeck@ == Seq::<char>::empty(),
        !info.platforms.switch,
        info.header_image == store.header_image,
        info.metacritic_score == (match store.metacritic {
            Some(ref m) => Some(m.score),
            None => None::<i32>,
        }),
        info.metacritic_url == (match store.metacritic {
            Some(m) => Some(m.url),
            None => None::<String>,
        }),
        info.user_score == reviews.query_summary.review_score,
        info.total_reviews == reviews.query_summary.total_reviews as i32,
{
    let price = match store.price_overview {
        Some(p) => Some(p.final_formatted),
        None => None,
    };
    let (metacritic_score, metacritic_url) = match store.metacritic {
        Some(m) => (Some(m.score), Some(m.url)),
        None => (None, None),
    };
    StoreInfo {
        price,
        platforms: ExtendedPlatforms {
            windows: store.platforms.windows,
            macos: store.platforms.mac,
            linux: store.platforms.linux,
            steamdeck: String::new(),
            switch: false,
        },
        header_image: store.header_image,
        user_score: reviews.query_summary.review_score,
        total_reviews: #[verifier::truncate] (reviews.query_summary.total_reviews as i32),
        metacritic_score,
        metacritic_url,
    }
}

} // verus!
