//! The catalog data model: game records, query filters and query results.
//!
//! Monetary amounts are stored in cents, ratings and scores in hundredths
//! (a rating of `480` is four point eight stars out of five), so that every
//! attribute is exact integer data.

use std::collections::HashMap;
use vstd::prelude::*;

verus! {

/// Media references of a record. The URLs are opaque to the engine and are
/// never validated here.
#[derive(Debug, Clone, PartialEq)]
pub struct GameMedia {
    pub cover_image: String,
    pub screenshots: Vec<String>,
    pub icon_url: String,
    pub title: String,
    pub trailer_url: Option<String>,
}

/// Pricing of a record, in cents. Promotional data is externally supplied,
/// so `current_price <= base_price` is expected but not enforced.
#[derive(Debug, Clone, PartialEq)]
pub struct GamePricing {
    pub base_price: u64,
    pub current_price: u64,
    pub currency: Option<String>,
}

/// Hardware requirement tables, keyed by component name.
#[derive(Debug, Clone, PartialEq)]
pub struct SystemRequirements {
    pub minimum: HashMap<String, String>,
    pub recommended: HashMap<String, String>,
}

/// Classification and release details of a record.
///
/// `release_date` is an ISO `YYYY-MM-DD` day; absent dates are treated as
/// the epoch day `1970-01-01` wherever ordering by recency is requested.
#[derive(Debug, Clone, PartialEq)]
pub struct GameDetails {
    pub platforms: Vec<String>,
    pub genres: Vec<String>,
    pub tags: Vec<String>,
    pub release_date: Option<String>,
    pub last_updated: Option<String>,
    pub version: Option<String>,
    pub download_size: Option<String>,
    pub system_requirements: Option<SystemRequirements>,
}

/// Play-time statistics, in minutes.
#[derive(Debug, Clone, PartialEq)]
pub struct PlayTime {
    pub average: u64,
    pub median: u64,
}

/// Usage statistics of a record. `rating` is in hundredths of a star and
/// ranges over zero to five stars.
#[derive(Debug, Clone, PartialEq)]
pub struct GameStats {
    pub rating: u32,
    pub review_count: u32,
    pub download_count: u32,
    pub wishlist_count: u32,
    pub play_time: Option<PlayTime>,
}

/// Boolean capability flags of a record.
#[derive(Debug, Clone, PartialEq)]
pub struct GameFeatures {
    pub controller: bool,
    pub cloud_play: bool,
    pub offline: bool,
    pub multi_player: bool,
    pub single_player: bool,
    pub achievements: bool,
    pub workshop: bool,
}

/// A full game record. `id` and `slug` are each unique across a live
/// catalog; the remaining attributes are externally supplied and carried
/// through unchanged. `ai_score` is in hundredths, like `rating`.
#[derive(Debug, Clone, PartialEq)]
pub struct Game {
    pub id: String,
    pub title: String,
    pub slug: String,
    pub description: Option<String>,
    pub developer: Option<String>,
    pub publisher: Option<String>,
    pub media: GameMedia,
    pub pricing: GamePricing,
    pub details: GameDetails,
    pub stats: GameStats,
    pub features: GameFeatures,
    pub discount_percent: Option<u32>,
    pub is_hot: Option<bool>,
    pub is_new: Option<bool>,
    pub is_on_sale: Option<bool>,
    pub is_ai_recommended: Option<bool>,
    pub ai_score: Option<u32>,
    pub match_reason: Option<String>,
    pub is_installed: Option<bool>,
    pub is_in_library: Option<bool>,
    pub is_wishlisted: Option<bool>,
}

/// A transient query request: every field is optional, and an absent field
/// simply skips its pipeline stage (or falls back to a default for sorting
/// and pagination).
#[derive(Debug, Clone, PartialEq)]
pub struct GameFilters {
    pub query: Option<String>,
    pub genres: Option<Vec<String>>,
    pub platforms: Option<Vec<String>>,
    pub sort_by: Option<String>,
    pub page: Option<u32>,
    pub limit: Option<u32>,
}

/// One page of query results. `total` counts the records matching the
/// filters before pagination, and `has_next` says whether records exist
/// beyond this page.
#[derive(Debug, Clone, PartialEq)]
pub struct GameResponse {
    pub data: Vec<Game>,
    pub total: u32,
    pub page: u32,
    pub has_next: bool,
}

/// A whole catalog payload, as supplied by the external catalog source.
#[derive(Debug, Clone, PartialEq)]
pub struct GamesData {
    pub data: Vec<Game>,
}

} // verus!
