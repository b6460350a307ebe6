//! Core engine for aggregating "best games" rankings from several editorial
//! sources: title normalization, merge/dedup of per-source rankings, catalog
//! matching by exact and bounded approximate lookup, and cross-source scoring.

pub mod cache;
pub mod chars;
pub mod config;
pub mod enrichment;
pub mod game;
pub mod levenshtein;
pub mod manifest;
pub mod mapping;
pub mod matching;
pub mod merge;
pub mod normalize;
pub mod publish;
pub mod rawg;
pub mod scoring;
pub mod steam;
pub mod storage;
pub mod text;
pub mod utils;
pub mod text_utils;

use vstd::prelude::*;

verus! {

} // verus!
