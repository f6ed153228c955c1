use oxide_discovery::discovery::{
    get_featured_games, get_game_by_id, get_game_by_slug, get_games_by_category, get_new_games,
    get_trending_games, search_games,
};
use oxide_discovery::games::{
    Game, GameDetails, GameFeatures, GameFilters, GameMedia, GamePricing, GameStats,
};
use oxide_discovery::pipeline::get_games;
use oxide_discovery::store::CatalogStore;
use oxide_discovery::OxideError;

fn base_game(id: &str, slug: &str, title: &str) -> Game {
    Game {
        id: id.to_string(),
        title: title.to_string(),
        slug: slug.to_string(),
        description: None,
        developer: None,
        publisher: None,
        media: GameMedia {
            cover_image: String::new(),
            screenshots: Vec::new(),
            icon_url: String::new(),
            title: title.to_string(),
            trailer_url: None,
        },
        pricing: GamePricing {
            base_price: 0,
            current_price: 0,
            currency: None,
        },
        details: GameDetails {
            platforms: Vec::new(),
            genres: Vec::new(),
            tags: Vec::new(),
            release_date: None,
            last_updated: None,
            version: None,
            download_size: None,
            system_requirements: None,
        },
        stats: GameStats {
            rating: 0,
            review_count: 0,
            download_count: 0,
            wishlist_count: 0,
            play_time: None,
        },
        features: GameFeatures {
            controller: false,
            cloud_play: false,
            offline: false,
            multi_player: false,
            single_player: false,
            achievements: false,
            workshop: false,
        },
        discount_percent: None,
        is_hot: None,
        is_new: None,
        is_on_sale: None,
        is_ai_recommended: None,
        ai_score: None,
        match_reason: None,
        is_installed: None,
        is_in_library: None,
        is_wishlisted: None,
    }
}

fn strs(xs: &[&str]) -> Vec<String> {
    xs.iter().map(|s| s.to_string()).collect()
}

fn empty_filters() -> GameFilters {
    GameFilters {
        query: None,
        genres: None,
        platforms: None,
        sort_by: None,
        page: None,
        limit: None,
    }
}

/// The two-record example catalog: `A` is a strategy title, `B` a more
/// downloaded platformer.
fn example_catalog() -> Vec<Game> {
    let mut a = base_game("a", "empire-builder", "Empire Builder");
    a.details.genres = strs(&["Strategy"]);
    a.stats.download_count = 500;
    a.stats.rating = 480;
    let mut b = base_game("b", "super-jump", "Super Jump");
    b.details.genres = strs(&["Platformer"]);
    b.stats.download_count = 900;
    b.stats.rating = 390;
    vec![a, b]
}

#[test]
fn end_to_end_genre_filter() {
    let mut f = empty_filters();
    f.genres = Some(strs(&["Strategy"]));
    let r = get_games(example_catalog(), Some(f));
    assert_eq!(r.data.len(), 1);
    assert_eq!(r.data[0].title, "Empire Builder");
    assert_eq!(r.total, 1);
    assert!(!r.has_next);
}

#[test]
fn end_to_end_rating_sort() {
    let mut f = empty_filters();
    f.sort_by = Some("rating".to_string());
    let r = get_games(example_catalog(), Some(f));
    assert_eq!(r.data.len(), 2);
    assert_eq!(r.data[0].title, "Empire Builder");
    assert_eq!(r.data[1].title, "Super Jump");
}

#[test]
fn end_to_end_default_sort_is_downloads() {
    let r = get_games(example_catalog(), Some(empty_filters()));
    assert_eq!(r.data.len(), 2);
    assert_eq!(r.data[0].title, "Super Jump");
    assert_eq!(r.data[1].title, "Empire Builder");
}

#[test]
fn no_filters_returns_catalog_unchanged() {
    let r = get_games(example_catalog(), None);
    assert_eq!(r.data.len(), 2);
    assert_eq!(r.data[0].title, "Empire Builder");
    assert_eq!(r.total, 2);
    assert_eq!(r.page, 1);
    assert!(!r.has_next);
}

#[test]
fn page_size_bounds_items_and_has_next_formula() {
    let mut games = Vec::new();
    for i in 0..25 {
        let id = format!("g{}", i);
        games.push(base_game(&id, &format!("s{}", i), &format!("Game {}", i)));
    }
    for (page, limit) in [(1u32, 10u32), (2, 10), (3, 10), (1, 0), (7, 4), (1, 25)] {
        let mut f = empty_filters();
        f.page = Some(page);
        f.limit = Some(limit);
        let r = get_games(games.clone(), Some(f));
        assert!(r.data.len() as u32 <= limit);
        assert_eq!(r.total, 25);
        assert_eq!(
            r.has_next,
            (r.page as u64) * (limit as u64) < r.total as u64
        );
    }
}

#[test]
fn pagination_degenerate_cases() {
    let games = example_catalog();
    let mut f = empty_filters();
    f.limit = Some(0);
    let r = get_games(games.clone(), Some(f));
    assert!(r.data.is_empty());
    assert_eq!(r.total, 2);

    let mut f = empty_filters();
    f.page = Some(50);
    f.limit = Some(10);
    let r = get_games(games.clone(), Some(f));
    assert!(r.data.is_empty());
    assert_eq!(r.total, 2);
    assert!(!r.has_next);

    // Page zero degrades to the first page.
    let mut f = empty_filters();
    f.page = Some(0);
    f.limit = Some(1);
    let r = get_games(games, Some(f));
    assert_eq!(r.data.len(), 1);
    assert_eq!(r.page, 1);
    assert!(r.has_next);
}

#[test]
fn second_page_holds_the_rest() {
    let mut f = empty_filters();
    f.page = Some(2);
    f.limit = Some(1);
    let r = get_games(example_catalog(), Some(f));
    assert_eq!(r.data.len(), 1);
    assert_eq!(r.data[0].title, "Empire Builder");
    assert_eq!(r.total, 2);
    assert!(!r.has_next);
}

#[test]
fn sort_is_stable_on_ties() {
    // Equal download counts: catalog order must survive the default sort.
    let mut games = Vec::new();
    for (id, dl) in [("x", 7u32), ("y", 7), ("z", 9), ("w", 7)] {
        let mut g = base_game(id, &format!("{}-slug", id), id);
        g.stats.download_count = dl;
        games.push(g);
    }
    let r = get_games(games, Some(empty_filters()));
    let ids: Vec<&str> = r.data.iter().map(|g| g.id.as_str()).collect();
    assert_eq!(ids, vec!["z", "x", "y", "w"]);
}

#[test]
fn sort_is_stable_for_every_key() {
    // All sort keys tie: every choice must keep catalog order.
    let games: Vec<Game> = ["one", "two", "three"]
        .iter()
        .map(|id| base_game(id, &format!("{}-slug", id), id))
        .collect();
    for key in ["newest", "rating", "price-low", "price-high", "ai-score", "downloads", "junk"] {
        let mut f = empty_filters();
        f.sort_by = Some(key.to_string());
        let r = get_games(games.clone(), Some(f));
        let ids: Vec<&str> = r.data.iter().map(|g| g.id.as_str()).collect();
        assert_eq!(ids, vec!["one", "two", "three"], "key {}", key);
    }
}

#[test]
fn newest_sort_puts_missing_dates_last() {
    let mut old = base_game("old", "old", "Old");
    old.details.release_date = Some("2020-05-01".to_string());
    let mut new = base_game("new", "new", "New");
    new.details.release_date = Some("2024-11-30".to_string());
    let undated = base_game("undated", "undated", "Undated");
    let mut f = empty_filters();
    f.sort_by = Some("newest".to_string());
    let r = get_games(vec![old, undated, new], Some(f));
    let ids: Vec<&str> = r.data.iter().map(|g| g.id.as_str()).collect();
    assert_eq!(ids, vec!["new", "old", "undated"]);
}

#[test]
fn price_sorts_run_both_ways() {
    let mut cheap = base_game("cheap", "cheap", "Cheap");
    cheap.pricing.current_price = 199;
    let mut dear = base_game("dear", "dear", "Dear");
    dear.pricing.current_price = 5999;
    let mut f = empty_filters();
    f.sort_by = Some("price-low".to_string());
    let r = get_games(vec![dear.clone(), cheap.clone()], Some(f));
    assert_eq!(r.data[0].id, "cheap");
    let mut f = empty_filters();
    f.sort_by = Some("price-high".to_string());
    let r = get_games(vec![cheap, dear], Some(f));
    assert_eq!(r.data[0].id, "dear");
}

#[test]
fn ai_score_sort_treats_absent_as_zero() {
    let mut scored = base_game("scored", "scored", "Scored");
    scored.ai_score = Some(320);
    let unscored = base_game("unscored", "unscored", "Unscored");
    let mut f = empty_filters();
    f.sort_by = Some("ai-score".to_string());
    let r = get_games(vec![unscored, scored], Some(f));
    let ids: Vec<&str> = r.data.iter().map(|g| g.id.as_str()).collect();
    assert_eq!(ids, vec!["scored", "unscored"]);
}

#[test]
fn text_filter_folds_case_and_matches_title_substring() {
    let mut f = empty_filters();
    f.query = Some("EMPIRE".to_string());
    let r = get_games(example_catalog(), Some(f));
    assert_eq!(r.data.len(), 1);
    assert_eq!(r.data[0].id, "a");
}

#[test]
fn text_filter_matches_tags_and_genres_exactly() {
    let mut tagged = base_game("tagged", "tagged", "Nameless");
    tagged.details.tags = strs(&["Roguelike"]);
    let games = vec![tagged, example_catalog().remove(1)];

    let mut f = empty_filters();
    f.query = Some("roguelike".to_string());
    let r = get_games(games.clone(), Some(f));
    assert_eq!(r.data.len(), 1);
    assert_eq!(r.data[0].id, "tagged");

    // A fragment matches a title substring but never a tag or genre.
    let mut f = empty_filters();
    f.query = Some("roguel".to_string());
    let r = get_games(games, Some(f));
    assert_eq!(r.total, 0);
}

#[test]
fn platform_filter_keeps_intersecting_records() {
    let mut pc = base_game("pc", "pc", "PC Only");
    pc.details.platforms = strs(&["windows", "linux"]);
    let mut console = base_game("console", "console", "Console Only");
    console.details.platforms = strs(&["switch"]);
    let mut f = empty_filters();
    f.platforms = Some(strs(&["linux", "macos"]));
    let r = get_games(vec![pc, console], Some(f));
    assert_eq!(r.data.len(), 1);
    assert_eq!(r.data[0].id, "pc");
}

#[test]
fn unknown_category_yields_empty_total_zero() {
    let r = get_games_by_category(example_catalog(), "bogus-slug", None, None);
    assert!(r.data.is_empty());
    assert_eq!(r.total, 0);
    assert!(!r.has_next);
}

#[test]
fn known_category_maps_to_genre() {
    let r = get_games_by_category(example_catalog(), "strategy", None, None);
    assert_eq!(r.data.len(), 1);
    assert_eq!(r.data[0].id, "a");
    assert_eq!(r.total, 1);
    let r = get_games_by_category(example_catalog(), "platformer", None, None);
    assert_eq!(r.data.len(), 1);
    assert_eq!(r.data[0].id, "b");
}

#[test]
fn free_text_search_uses_default_sort() {
    let mut one = base_game("one", "one", "Deep Caves");
    one.stats.download_count = 10;
    let mut two = base_game("two", "two", "Deeper Caves");
    two.stats.download_count = 20;
    let r = search_games(vec![one, two], "caves".to_string(), None, None);
    let ids: Vec<&str> = r.data.iter().map(|g| g.id.as_str()).collect();
    assert_eq!(ids, vec!["two", "one"]);
    assert_eq!(r.total, 2);
}

#[test]
fn featured_takes_hot_or_highly_rated_capped_at_six() {
    let mut games = Vec::new();
    for i in 0..10 {
        let id = format!("f{}", i);
        let mut g = base_game(&id, &format!("fs{}", i), &id);
        if i % 2 == 0 {
            g.is_hot = Some(true);
        } else {
            g.stats.rating = 460;
        }
        games.push(g);
    }
    let mut dull = base_game("dull", "dull", "Dull");
    dull.stats.rating = 300;
    games.push(dull);
    let r = get_featured_games(games);
    assert_eq!(r.len(), 6);
    let ids: Vec<&str> = r.iter().map(|g| g.id.as_str()).collect();
    assert_eq!(ids, vec!["f0", "f1", "f2", "f3", "f4", "f5"]);
}

#[test]
fn trending_sorts_hot_records_by_downloads() {
    let mut a = base_game("ta", "ta", "A");
    a.is_hot = Some(true);
    a.stats.download_count = 5;
    let mut b = base_game("tb", "tb", "B");
    b.is_hot = Some(true);
    b.stats.download_count = 50;
    let mut cold = base_game("tc", "tc", "C");
    cold.stats.download_count = 500;
    let r = get_trending_games(vec![a, b, cold]);
    let ids: Vec<&str> = r.iter().map(|g| g.id.as_str()).collect();
    assert_eq!(ids, vec!["tb", "ta"]);
}

#[test]
fn new_releases_sort_by_date_and_cap_at_twelve() {
    let mut games = Vec::new();
    for i in 0..14 {
        let id = format!("n{}", i);
        let mut g = base_game(&id, &format!("ns{}", i), &id);
        g.is_new = Some(true);
        g.details.release_date = Some(format!("2024-03-{:02}", i + 1));
        games.push(g);
    }
    let r = get_new_games(games);
    assert_eq!(r.len(), 12);
    assert_eq!(r[0].id, "n13");
    assert_eq!(r[11].id, "n2");
}

#[test]
fn store_round_trip_by_id_and_slug() {
    let store = CatalogStore::load(example_catalog()).unwrap();
    let by_id = store.get_by_id("a").expect("record by id");
    let by_slug = store.get_by_slug("empire-builder").expect("record by slug");
    let expected = &example_catalog()[0];
    assert_eq!(by_id, expected);
    assert_eq!(by_slug, expected);
    assert!(store.get_by_id("nobody").is_none());
    assert!(store.get_by_slug("nobody").is_none());
}

#[test]
fn store_rejects_duplicate_identities() {
    let mut games = example_catalog();
    games.push(base_game("a", "other-slug", "Duplicate Id"));
    assert!(matches!(CatalogStore::load(games), Err(OxideError::DataUnavailable)));

    let mut games = example_catalog();
    games.push(base_game("c", "empire-builder", "Duplicate Slug"));
    assert!(matches!(CatalogStore::load(games), Err(OxideError::DataUnavailable)));
}

#[test]
fn snapshot_lookup_by_either_identity() {
    let found = get_game_by_id(example_catalog(), "b").expect("by id");
    assert_eq!(found.title, "Super Jump");
    let found = get_game_by_slug(example_catalog(), "super-jump").expect("by slug");
    assert_eq!(found.id, "b");
    assert!(get_game_by_id(example_catalog(), "zz").is_none());
    assert!(get_game_by_slug(example_catalog(), "zz").is_none());
}

#[test]
fn error_messages_are_nonempty() {
    for e in [
        OxideError::DataUnavailable,
        OxideError::IndexWriteError,
        OxideError::IndexNotReady,
        OxideError::QueryParseError,
    ] {
        assert!(!e.message().is_empty());
    }
}
