use oxide_discovery::games::{
    Game, GameDetails, GameFeatures, GameMedia, GamePricing, GameStats,
};
use oxide_discovery::search_index::{index_games, search_games, GameSearchIndex};
use oxide_discovery::OxideError;

fn plain_game(id: &str, title: &str, description: &str, tags: &[&str]) -> Game {
    Game {
        id: id.to_string(),
        title: title.to_string(),
        slug: id.to_string(),
        description: if description.is_empty() {
            None
        } else {
            Some(description.to_string())
        },
        developer: None,
        publisher: None,
        media: GameMedia {
            cover_image: String::new(),
            screenshots: Vec::new(),
            icon_url: String::new(),
            title: title.to_string(),
            trailer_url: None,
        },
        pricing: GamePricing {
            base_price: 0,
            current_price: 0,
            currency: None,
        },
        details: GameDetails {
            platforms: Vec::new(),
            genres: Vec::new(),
            tags: tags.iter().map(|t| t.to_string()).collect(),
            release_date: None,
            last_updated: None,
            version: None,
            download_size: None,
            system_requirements: None,
        },
        stats: GameStats {
            rating: 0,
            review_count: 0,
            download_count: 0,
            wishlist_count: 0,
            play_time: None,
        },
        features: GameFeatures {
            controller: false,
            cloud_play: false,
            offline: false,
            multi_player: false,
            single_player: false,
            achievements: false,
            workshop: false,
        },
        discount_percent: None,
        is_hot: None,
        is_new: None,
        is_on_sale: None,
        is_ai_recommended: None,
        ai_score: None,
        match_reason: None,
        is_installed: None,
        is_in_library: None,
        is_wishlisted: None,
    }
}

fn tags_of(xs: &[&str]) -> Vec<String> {
    xs.iter().map(|s| s.to_string()).collect()
}

#[test]
fn search_before_any_commit_is_not_ready() {
    let ix = GameSearchIndex::new().unwrap();
    assert!(matches!(ix.search("anything", 10), Err(OxideError::IndexNotReady)));
}

#[test]
fn buffered_writes_stay_invisible_until_commit() {
    let mut ix = GameSearchIndex::new().unwrap();
    ix.add_game("g1", "Moon Lander", "land on the moon", &tags_of(&["space"])).unwrap();
    // Still no commit: the index has never published anything.
    assert!(matches!(ix.search("moon", 10), Err(OxideError::IndexNotReady)));
    ix.commit().unwrap();
    let hits = ix.search("moon", 10).unwrap();
    assert_eq!(hits.len(), 1);
    assert_eq!(hits[0].id, "g1");
}

#[test]
fn commit_publishes_each_indexed_field() {
    let mut ix = GameSearchIndex::new().unwrap();
    ix.add_game("d", "Star Fort", "build a mighty fortress", &tags_of(&["siege", "medieval"]))
        .unwrap();
    ix.commit().unwrap();
    for query in ["star", "FORT", "mighty", "siege", "medieval"] {
        let hits = ix.search(query, 10).unwrap();
        assert_eq!(hits.len(), 1, "query {}", query);
        assert_eq!(hits[0].id, "d");
    }
    assert!(ix.search("castle", 10).unwrap().is_empty());
}

#[test]
fn commits_are_additive() {
    let mut ix = GameSearchIndex::new().unwrap();
    ix.add_game("first", "Alpha Quest", "", &tags_of(&[])).unwrap();
    ix.commit().unwrap();
    ix.add_game("second", "Beta Quest", "", &tags_of(&[])).unwrap();
    ix.commit().unwrap();
    // The earlier document is still served after the later, independent
    // commit.
    let hits = ix.search("alpha", 10).unwrap();
    assert_eq!(hits.len(), 1);
    assert_eq!(hits[0].id, "first");
    let hits = ix.search("quest", 10).unwrap();
    assert_eq!(hits.len(), 2);
}

#[test]
fn queries_without_tokens_fail_to_parse() {
    let mut ix = GameSearchIndex::new().unwrap();
    ix.add_game("x", "Anything", "", &tags_of(&[])).unwrap();
    ix.commit().unwrap();
    assert!(matches!(ix.search("", 10), Err(OxideError::QueryParseError)));
    assert!(matches!(ix.search("!!! ---", 10), Err(OxideError::QueryParseError)));
}

#[test]
fn overlong_queries_are_rejected_before_tokenization() {
    let mut ix = GameSearchIndex::new().unwrap();
    ix.add_game("x", "Anything", "", &tags_of(&[])).unwrap();
    ix.commit().unwrap();
    let long = "a".repeat(257);
    assert!(matches!(ix.search(&long, 10), Err(OxideError::QueryParseError)));
    let exactly = "a".repeat(256);
    assert!(ix.search(&exactly, 10).is_ok());
}

#[test]
fn all_terms_must_match() {
    let mut ix = GameSearchIndex::new().unwrap();
    ix.add_game("both", "red dragon", "", &tags_of(&[])).unwrap();
    ix.add_game("one", "red fox", "", &tags_of(&[])).unwrap();
    ix.commit().unwrap();
    let hits = ix.search("red dragon", 10).unwrap();
    assert_eq!(hits.len(), 1);
    assert_eq!(hits[0].id, "both");
}

#[test]
fn title_hits_outrank_description_hits() {
    let mut ix = GameSearchIndex::new().unwrap();
    ix.add_game("in-desc", "Something Else", "a game about pirates", &tags_of(&[])).unwrap();
    ix.add_game("in-title", "Pirates Ahoy", "", &tags_of(&[])).unwrap();
    ix.add_game("in-tags", "Plain", "", &tags_of(&["pirates"])).unwrap();
    ix.commit().unwrap();
    let hits = ix.search("pirates", 10).unwrap();
    let ids: Vec<&str> = hits.iter().map(|h| h.id.as_str()).collect();
    assert_eq!(ids, vec!["in-title", "in-tags", "in-desc"]);
}

#[test]
fn equal_scores_keep_insertion_order() {
    let mut ix = GameSearchIndex::new().unwrap();
    ix.add_game("early", "gold rush", "", &tags_of(&[])).unwrap();
    ix.add_game("late", "gold coast", "", &tags_of(&[])).unwrap();
    ix.commit().unwrap();
    let hits = ix.search("gold", 10).unwrap();
    let ids: Vec<&str> = hits.iter().map(|h| h.id.as_str()).collect();
    assert_eq!(ids, vec!["early", "late"]);
}

#[test]
fn limit_caps_the_served_hits() {
    let mut ix = GameSearchIndex::new().unwrap();
    for i in 0..5 {
        ix.add_game(&format!("h{}", i), "harvest season", "", &tags_of(&[])).unwrap();
    }
    ix.commit().unwrap();
    let hits = ix.search("harvest", 2).unwrap();
    assert_eq!(hits.len(), 2);
    let ids: Vec<&str> = hits.iter().map(|h| h.id.as_str()).collect();
    assert_eq!(ids, vec!["h0", "h1"]);
    assert!(ix.search("harvest", 0).unwrap().is_empty());
}

#[test]
fn term_frequency_raises_the_score() {
    let mut ix = GameSearchIndex::new().unwrap();
    ix.add_game("once", "wolf den", "", &tags_of(&[])).unwrap();
    ix.add_game("twice", "wolf wolf", "", &tags_of(&[])).unwrap();
    ix.commit().unwrap();
    let hits = ix.search("wolf", 10).unwrap();
    let ids: Vec<&str> = hits.iter().map(|h| h.id.as_str()).collect();
    assert_eq!(ids, vec!["twice", "once"]);
}

#[test]
fn index_games_builds_a_ready_index_over_a_catalog() {
    let games = vec![
        plain_game(
            "indie_platformer_1",
            "Super Jump Adventure",
            "A thrilling platformer with amazing graphics and smooth gameplay",
            &["platformer", "indie", "adventure", "2d"],
        ),
        plain_game(
            "strategy_game_1",
            "Empire Builder",
            "Build your empire and conquer the world in this strategy masterpiece",
            &["strategy", "rts", "empire", "war"],
        ),
    ];
    let ix = index_games(&games).unwrap();
    let hits = search_games(&ix, "empire").unwrap();
    assert_eq!(hits.len(), 1);
    assert_eq!(hits[0].id, "strategy_game_1");
    assert_eq!(hits[0].tags, "strategy rts empire war");
    let hits = search_games(&ix, "platformer").unwrap();
    assert_eq!(hits.len(), 1);
    assert_eq!(hits[0].id, "indie_platformer_1");
    let hits = search_games(&ix, "adventure").unwrap();
    assert_eq!(hits.len(), 1);
    assert!(search_games(&ix, "nonexistent").unwrap().is_empty());
}
