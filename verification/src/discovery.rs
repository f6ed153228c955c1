//! The discovery facade: the entry surface a caller touches. Category
//! browsing, free-text browsing and the curated views all route through
//! the query pipeline, so every view shares one tie-break and ordering
//! behaviour.

use vstd::prelude::*;

use crate::games::{Game, GameFilters, GameResponse};
use crate::pipeline::{
    eff_page, featured_pred, filter_games, filters_view, get_games, hot_pred, new_pred,
    or_default, query_data, query_has_next, query_total, strs_view, FilterSpec, Selector,
    CURATED_CAP, DEFAULT_LIMIT, DEFAULT_PAGE, FEATURED_CAP,
};
use crate::sort::{sort_by_key, sort_games, SortKey};
use crate::store::{find_by_id, find_by_slug};
use crate::text::{fold_seq, str_eq};

verus! {

/// The first `n` records, or all of them when fewer exist.
pub open spec fn cap_seq(s: Seq<Game>, n: int) -> Seq<Game> {
    if s.len() <= n {
        s
    } else {
        s.take(n)
    }
}

/// Look a record up in a snapshot by `id`, yielding the record itself.
pub fn get_game_by_id(games: Vec<Game>, id: &str) -> (r: Option<Game>)
    ensures
        r == find_by_id(games@, id@),
{
    let ghost orig = games@;
    let mut v = games;
    let n: usize = v.len();
    let mut i: usize = 0;
    while i < n
        invariant
            v@ == orig,
            games@ == orig,
            n == orig.len(),
            0 <= i <= n,
            forall|j: int| 0 <= j < i ==> (#[trigger] orig[j]).id@ != id@,
        decreases n - i,
    {
        if str_eq(v[i].id.as_str(), id) {
            proof {
                crate::store::lemma_find_by_at(orig, id@, false, i as int);
            }
            let g = v.remove(i);
            return Some(g);
        }
        i = i + 1;
    }
    proof {
        crate::store::lemma_find_by_at(orig, id@, false, n as int);
    }
    None
}

/// Look a record up in a snapshot by `slug`, yielding the record itself.
pub fn get_game_by_slug(games: Vec<Game>, slug: &str) -> (r: Option<Game>)
    ensures
        r == find_by_slug(games@, slug@),
{
    let ghost orig = games@;
    let mut v = games;
    let n: usize = v.len();
    let mut i: usize = 0;
    while i < n
        invariant
            v@ == orig,
            games@ == orig,
            n == orig.len(),
            0 <= i <= n,
            forall|j: int| 0 <= j < i ==> (#[trigger] orig[j]).slug@ != slug@,
        decreases n - i,
    {
        if str_eq(v[i].slug.as_str(), slug) {
            proof {
                crate::store::lemma_find_by_at(orig, slug@, true, i as int);
            }
            let g = v.remove(i);
            return Some(g);
        }
        i = i + 1;
    }
    proof {
        crate::store::lemma_find_by_at(orig, slug@, true, n as int);
    }
    None
}

/// The featured view: records flagged hot or rated at least four and a
/// half stars, in catalog order, capped at `FEATURED_CAP`.
pub fn get_featured_games(games: Vec<Game>) -> (r: Vec<Game>)
    ensures
        r@ == cap_seq(games@.filter(featured_pred()), FEATURED_CAP as int),
{
    let mut v = filter_games(games, &Selector::Featured);
    let ghost f = v@;
    v.truncate(FEATURED_CAP);
    proof {
        if FEATURED_CAP < f.len() {
            assert(v@ =~= f.take(FEATURED_CAP as int));
        }
    }
    v
}

/// The trending view: records flagged hot, sorted by download count
/// descending, capped at `CURATED_CAP`.
pub fn get_trending_games(games: Vec<Game>) -> (r: Vec<Game>)
    ensures
        r@ == cap_seq(sort_by_key(SortKey::Downloads, games@.filter(hot_pred())), CURATED_CAP
            as int),
{
    let v = filter_games(games, &Selector::Hot);
    let mut v = sort_games(SortKey::Downloads, v);
    let ghost f = v@;
    v.truncate(CURATED_CAP);
    proof {
        if CURATED_CAP < f.len() {
            assert(v@ =~= f.take(CURATED_CAP as int));
        }
    }
    v
}

/// The new-release view: records flagged new, sorted by release date
/// descending with missing dates last, capped at `CURATED_CAP`.
pub fn get_new_games(games: Vec<Game>) -> (r: Vec<Game>)
    ensures
        r@ == cap_seq(sort_by_key(SortKey::Newest, games@.filter(new_pred())), CURATED_CAP as int),
{
    let v = filter_games(games, &Selector::NewRelease);
    let mut v = sort_games(SortKey::Newest, v);
    let ghost f = v@;
    v.truncate(CURATED_CAP);
    proof {
        if CURATED_CAP < f.len() {
            assert(v@ =~= f.take(CURATED_CAP as int));
        }
    }
    v
}

/// The canonical genre label of an enumerated category slug, if the slug
/// is known.
pub open spec fn category_genre(slug: Seq<char>) -> Option<Seq<char>> {
    if slug == "action"@ {
        Some("Action"@)
    } else if slug == "adventure"@ {
        Some("Adventure"@)
    } else if slug == "rpg"@ {
        Some("RPG"@)
    } else if slug == "strategy"@ {
        Some("Strategy"@)
    } else if slug == "simulation"@ {
        Some("Simulation"@)
    } else if slug == "sports"@ {
        Some("Sports"@)
    } else if slug == "racing"@ {
        Some("Racing"@)
    } else if slug == "puzzle"@ {
        Some("Puzzle"@)
    } else if slug == "platformer"@ {
        Some("Platformer"@)
    } else if slug == "horror"@ {
        Some("Horror"@)
    } else if slug == "indie"@ {
        Some("Indie"@)
    } else if slug == "multiplayer"@ {
        Some("Multiplayer"@)
    } else {
        None
    }
}

/// Resolve a category slug to its genre label.
fn category_genre_exec(slug: &str) -> (r: Option<String>)
    ensures
        match r {
            Some(g) => category_genre(slug@) == Some(g@),
            None => category_genre(slug@) is None,
        },
{
    let label: &str = if str_eq(slug, "action") {
        "Action"
    } else if str_eq(slug, "adventure") {
        "Adventure"
    } else if str_eq(slug, "rpg") {
        "RPG"
    } else if str_eq(slug, "strategy") {
        "Strategy"
    } else if str_eq(slug, "simulation") {
        "Simulation"
    } else if str_eq(slug, "sports") {
        "Sports"
    } else if str_eq(slug, "racing") {
        "Racing"
    } else if str_eq(slug, "puzzle") {
        "Puzzle"
    } else if str_eq(slug, "platformer") {
        "Platformer"
    } else if str_eq(slug, "horror") {
        "Horror"
    } else if str_eq(slug, "indie") {
        "Indie"
    } else if str_eq(slug, "multiplayer") {
        "Multiplayer"
    } else {
        return None;
    };
    Some(label.to_owned())
}

/// Category browsing: an enumerated slug maps to a single-genre query
/// with the default sort; an unknown slug yields an empty result with a
/// total of zero, never an error.
pub fn get_games_by_category(
    games: Vec<Game>,
    category_slug: &str,
    page: Option<u32>,
    limit: Option<u32>,
) -> (r: GameResponse)
    requires
        games@.len() <= u32::MAX,
    ensures
        match category_genre(category_slug@) {
            None => {
                &&& r.data@ == Seq::<Game>::empty()
                &&& r.total == 0
                &&& r.page == eff_page(or_default(page, DEFAULT_PAGE))
                &&& !r.has_next
            },
            Some(gen) => {
                let fs = FilterSpec {
                    query: None,
                    genres: Some(seq![gen]),
                    platforms: None,
                    sort: SortKey::Downloads,
                    page: or_default(page, DEFAULT_PAGE),
                    limit: or_default(limit, DEFAULT_LIMIT),
                };
                &&& r.data@ == query_data(games@, fs)
                &&& r.total == query_total(games@, fs)
                &&& r.page == eff_page(fs.page)
                &&& r.has_next == query_has_next(games@, fs)
            },
        },
{
    match category_genre_exec(category_slug) {
        None => {
            let page_v: u32 = match page {
                Some(p) => p,
                None => DEFAULT_PAGE,
            };
            let page_e: u32 = if page_v == 0 {
                1
            } else {
                page_v
            };
            let data: Vec<Game> = Vec::new();
            GameResponse { data, total: 0, page: page_e, has_next: false }
        },
        Some(genre) => {
            let ghost gen = genre@;
            let genres: Vec<String> = vec![genre];
            let ghost gsv = genres@;
            let f = GameFilters {
                query: None,
                genres: Some(genres),
                platforms: None,
                sort_by: None,
                page,
                limit,
            };
            proof {
                let fs = FilterSpec {
                    query: None,
                    genres: Some(seq![gen]),
                    platforms: None,
                    sort: SortKey::Downloads,
                    page: or_default(page, DEFAULT_PAGE),
                    limit: or_default(limit, DEFAULT_LIMIT),
                };
                assert(strs_view(gsv) =~= seq![gen]);
                assert(filters_view(f) == fs);
            }
            get_games(games, Some(f))
        },
    }
}

/// Free-text browsing over the catalog: the query runs through the
/// pipeline's substring and tag filter, with the default sort.
pub fn search_games(games: Vec<Game>, query: String, page: Option<u32>, limit: Option<u32>) -> (r:
    GameResponse)
    requires
        games@.len() <= u32::MAX,
    ensures
        ({
            let fs = FilterSpec {
                query: Some(fold_seq(query@)),
                genres: None,
                platforms: None,
                sort: SortKey::Downloads,
                page: or_default(page, DEFAULT_PAGE),
                limit: or_default(limit, DEFAULT_LIMIT),
            };
            &&& r.data@ == query_data(games@, fs)
            &&& r.total == query_total(games@, fs)
            &&& r.page == eff_page(fs.page)
            &&& r.has_next == query_has_next(games@, fs)
        }),
{
    let ghost q = query@;
    let f = GameFilters {
        query: Some(query),
        genres: None,
        platforms: None,
        sort_by: None,
        page,
        limit,
    };
    get_games(games, Some(f))
}

} // verus!
