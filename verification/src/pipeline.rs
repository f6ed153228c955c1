//! The structured query pipeline: text, genre and platform filters, then a
//! stable sort, then pagination, in that fixed order.
//!
//! The pipeline is specified over `FilterSpec`, a ghost image of a
//! `GameFilters` request in which every text is a character sequence. The
//! executable stages are each verified against a spec function, and
//! `get_games` composes them.

use vstd::prelude::*;

use crate::games::{Game, GameFilters, GameResponse};
use crate::sort::{sort_by_key, sort_games, SortKey};
use crate::text::{chars_eq, contains_seq, contains_sub, fold_seq, fold_str, str_eq};

verus! {

/// A record's rating, in hundredths, from which it counts as featured.
pub const FEATURED_RATING: u32 = 450;

/// The page used when a request names none.
pub const DEFAULT_PAGE: u32 = 1;

/// The page size used when a request names none.
pub const DEFAULT_LIMIT: u32 = 20;

/// How many records a featured view holds at most.
pub const FEATURED_CAP: usize = 6;

/// How many records the trending and new-release views hold at most.
pub const CURATED_CAP: usize = 12;

/// The ghost image of a query request: texts as character sequences, the
/// sort key resolved, page and page size defaulted.
pub ghost struct FilterSpec {
    /// The free-text query, already case folded.
    pub query: Option<Seq<char>>,
    pub genres: Option<Seq<Seq<char>>>,
    pub platforms: Option<Seq<Seq<char>>>,
    pub sort: SortKey,
    pub page: u32,
    pub limit: u32,
}

/// Whether some entry of `list` holds exactly the characters `x`.
pub open spec fn str_in(list: Seq<String>, x: Seq<char>) -> bool {
    exists|j: int| 0 <= j < list.len() && #[trigger] list[j]@ == x
}

/// Whether some entry of `list`, case folded, holds exactly `x`.
pub open spec fn str_in_folded(list: Seq<String>, x: Seq<char>) -> bool {
    exists|j: int| 0 <= j < list.len() && fold_seq(#[trigger] list[j]@) == x
}

/// The views of a sequence of strings.
pub open spec fn strs_view(list: Seq<String>) -> Seq<Seq<char>> {
    list.map_values(|s: String| s@)
}

/// Whether a record matches a case-folded free-text query: the query is a
/// substring of the folded title, or folds equal to some tag or genre.
pub open spec fn text_matches(g: Game, q: Seq<char>) -> bool {
    contains_seq(fold_seq(g.title@), q) || str_in_folded(g.details.tags@, q) || str_in_folded(
        g.details.genres@,
        q,
    )
}

/// Whether a record carries at least one of the wanted genres.
pub open spec fn genre_matches(g: Game, wanted: Seq<Seq<char>>) -> bool {
    exists|i: int| 0 <= i < wanted.len() && #[trigger] str_in(g.details.genres@, wanted[i])
}

/// Whether a record runs on at least one of the wanted platforms.
pub open spec fn platform_matches(g: Game, wanted: Seq<Seq<char>>) -> bool {
    exists|i: int| 0 <= i < wanted.len() && #[trigger] str_in(g.details.platforms@, wanted[i])
}

/// The text-filter predicate for a folded query.
pub open spec fn text_pred(q: Seq<char>) -> spec_fn(Game) -> bool {
    |g: Game| text_matches(g, q)
}

/// The genre-filter predicate for a wanted genre set.
pub open spec fn genre_pred(wanted: Seq<Seq<char>>) -> spec_fn(Game) -> bool {
    |g: Game| genre_matches(g, wanted)
}

/// The platform-filter predicate for a wanted platform set.
pub open spec fn platform_pred(wanted: Seq<Seq<char>>) -> spec_fn(Game) -> bool {
    |g: Game| platform_matches(g, wanted)
}

/// The predicate of records flagged hot.
pub open spec fn hot_pred() -> spec_fn(Game) -> bool {
    |g: Game| g.is_hot == Some(true)
}

/// The predicate of featured records: flagged hot, or rated at least
/// `FEATURED_RATING`.
pub open spec fn featured_pred() -> spec_fn(Game) -> bool {
    |g: Game| g.is_hot == Some(true) || g.stats.rating >= FEATURED_RATING
}

/// The predicate of records flagged new.
pub open spec fn new_pred() -> spec_fn(Game) -> bool {
    |g: Game| g.is_new == Some(true)
}

/// A filter stage selector, carrying the argument of its predicate.
pub enum Selector {
    /// Keep records matching this case-folded free-text query.
    Text(Vec<char>),
    /// Keep records carrying at least one of these genres.
    Genres(Vec<String>),
    /// Keep records running on at least one of these platforms.
    Platforms(Vec<String>),
    /// Keep records flagged hot.
    Hot,
    /// Keep featured records: flagged hot or highly rated.
    Featured,
    /// Keep records flagged new.
    NewRelease,
}

/// The predicate a selector stands for.
pub open spec fn sel_pred(sel: Selector) -> spec_fn(Game) -> bool {
    match sel {
        Selector::Text(q) => text_pred(q@),
        Selector::Genres(gs) => genre_pred(strs_view(gs@)),
        Selector::Platforms(ps) => platform_pred(strs_view(ps@)),
        Selector::Hot => hot_pred(),
        Selector::Featured => featured_pred(),
        Selector::NewRelease => new_pred(),
    }
}

/// Whether some entry of `list`, case folded, equals the characters `q`.
fn any_folded_eq(list: &Vec<String>, q: &Vec<char>) -> (r: bool)
    ensures
        r == str_in_folded(list@, q@),
{
    let n: usize = list.len();
    let mut i: usize = 0;
    while i < n
        invariant
            n == list@.len(),
            0 <= i <= n,
            forall|j: int| 0 <= j < i ==> fold_seq(#[trigger] list@[j]@) != q@,
        decreases n - i,
    {
        let f = fold_str(list[i].as_str());
        if chars_eq(&f, q) {
            return true;
        }
        i = i + 1;
    }
    false
}

/// Whether some entry of `list` equals the string `wanted`.
fn any_str_eq(list: &Vec<String>, wanted: &str) -> (r: bool)
    ensures
        r == str_in(list@, wanted@),
{
    let n: usize = list.len();
    let mut i: usize = 0;
    while i < n
        invariant
            n == list@.len(),
            0 <= i <= n,
            forall|j: int| 0 <= j < i ==> #[trigger] list@[j]@ != wanted@,
        decreases n - i,
    {
        if str_eq(list[i].as_str(), wanted) {
            return true;
        }
        i = i + 1;
    }
    false
}

/// Whether the record's list intersects the wanted list.
fn any_intersects(have: &Vec<String>, wanted: &Vec<String>) -> (r: bool)
    ensures
        r == (exists|i: int|
            0 <= i < strs_view(wanted@).len() && #[trigger] str_in(
                have@,
                strs_view(wanted@)[i],
            )),
{
    let n: usize = wanted.len();
    let mut i: usize = 0;
    while i < n
        invariant
            n == wanted@.len(),
            0 <= i <= n,
            forall|j: int| 0 <= j < i ==> !#[trigger] str_in(have@, strs_view(wanted@)[j]),
        decreases n - i,
    {
        proof {
            assert(strs_view(wanted@)[i as int] == wanted@[i as int]@);
        }
        if any_str_eq(have, wanted[i].as_str()) {
            return true;
        }
        i = i + 1;
    }
    false
}

/// Whether a record passes the selector's predicate.
fn sel_matches(sel: &Selector, g: &Game) -> (r: bool)
    ensures
        r == sel_pred(*sel)(*g),
{
    match sel {
        Selector::Text(q) => {
            let folded_title = fold_str(g.title.as_str());
            if contains_sub(&folded_title, q) {
                return true;
            }
            if any_folded_eq(&g.details.tags, q) {
                return true;
            }
            any_folded_eq(&g.details.genres, q)
        },
        Selector::Genres(gs) => any_intersects(&g.details.genres, gs),
        Selector::Platforms(ps) => any_intersects(&g.details.platforms, ps),
        Selector::Hot => {
            match g.is_hot {
                Some(true) => true,
                _ => false,
            }
        },
        Selector::Featured => {
            let hot = match g.is_hot {
                Some(true) => true,
                _ => false,
            };
            hot || g.stats.rating >= FEATURED_RATING
        },
        Selector::NewRelease => {
            match g.is_new {
                Some(true) => true,
                _ => false,
            }
        },
    }
}

/// Keep exactly the records passing the selector's predicate, in order.
pub fn filter_games(games: Vec<Game>, sel: &Selector) -> (r: Vec<Game>)
    ensures
        r@ == games@.filter(sel_pred(*sel)),
{
    let ghost orig = games@;
    let ghost pred = sel_pred(*sel);
    let mut v = games;
    let mut out: Vec<Game> = Vec::new();
    let ghost mut done: int = 0;
    proof {
        reveal(Seq::filter);
        assert(orig.skip(0) =~= orig);
        assert(orig.take(0) =~= Seq::<Game>::empty());
        assert(out@ =~= orig.take(0).filter(pred));
    }
    while v.len() > 0
        invariant
            0 <= done <= orig.len(),
            v@ == orig.skip(done),
            out@ == orig.take(done).filter(pred),
            pred == sel_pred(*sel),
        decreases v@.len(),
    {
        let g = v.remove(0);
        proof {
            assert(g == orig[done]);
            assert(orig.skip(done).remove(0) =~= orig.skip(done + 1));
        }
        let keep = sel_matches(sel, &g);
        proof {
            reveal(Seq::filter);
            assert(orig.take(done + 1).drop_last() =~= orig.take(done));
            assert(orig.take(done + 1).last() == orig[done]);
        }
        if keep {
            out.push(g);
        }
        proof {
            done = done + 1;
        }
    }
    proof {
        assert(orig.take(done) =~= orig);
    }
    out
}

/// The sort key a request resolves to: the five named keys, or download
/// count for anything else.
pub open spec fn sort_key_of(o: Option<String>) -> SortKey {
    match o {
        None => SortKey::Downloads,
        Some(s) => if s@ == "newest"@ {
            SortKey::Newest
        } else if s@ == "rating"@ {
            SortKey::Rating
        } else if s@ == "price-low"@ {
            SortKey::PriceLow
        } else if s@ == "price-high"@ {
            SortKey::PriceHigh
        } else if s@ == "ai-score"@ {
            SortKey::AiScore
        } else {
            SortKey::Downloads
        },
    }
}

/// Resolve a requested sort key. An unknown name never errs: it falls back
/// to the default key.
pub fn parse_sort_key(o: &Option<String>) -> (k: SortKey)
    ensures
        k == sort_key_of(*o),
{
    match o {
        None => SortKey::Downloads,
        Some(s) => {
            if str_eq(s.as_str(), "newest") {
                SortKey::Newest
            } else if str_eq(s.as_str(), "rating") {
                SortKey::Rating
            } else if str_eq(s.as_str(), "price-low") {
                SortKey::PriceLow
            } else if str_eq(s.as_str(), "price-high") {
                SortKey::PriceHigh
            } else if str_eq(s.as_str(), "ai-score") {
                SortKey::AiScore
            } else {
                SortKey::Downloads
            }
        },
    }
}

/// A `u32` option with its default.
pub open spec fn or_default(o: Option<u32>, d: u32) -> u32 {
    match o {
        Some(v) => v,
        None => d,
    }
}

/// The page actually served: pages are one-based, and a request for page
/// zero degrades to the first page.
pub open spec fn eff_page(page: u32) -> u32 {
    if page == 0 {
        1
    } else {
        page
    }
}

/// Where the served page starts in the sorted sequence.
pub open spec fn page_start(page: u32, limit: u32) -> int {
    (eff_page(page) - 1) * limit
}

/// The records of the served page: the slice of length at most `limit`
/// that starts at `page_start`, empty when the start lies past the end.
pub open spec fn page_slice(s: Seq<Game>, page: u32, limit: u32) -> Seq<Game> {
    let st = page_start(page, limit);
    if st >= s.len() {
        Seq::empty()
    } else if st + limit <= s.len() {
        s.subrange(st, st + limit)
    } else {
        s.subrange(st, s.len() as int)
    }
}

/// Whether records exist beyond the served page.
pub open spec fn spec_has_next(total: int, page: u32, limit: u32) -> bool {
    (eff_page(page) as int) * (limit as int) < total
}

/// The ghost image of a request, with the query folded, the sort key
/// resolved and page and page size defaulted.
pub open spec fn filters_view(f: GameFilters) -> FilterSpec {
    FilterSpec {
        query: match f.query {
            Some(q) => Some(fold_seq(q@)),
            None => None,
        },
        genres: match f.genres {
            Some(gs) => Some(strs_view(gs@)),
            None => None,
        },
        platforms: match f.platforms {
            Some(ps) => Some(strs_view(ps@)),
            None => None,
        },
        sort: sort_key_of(f.sort_by),
        page: or_default(f.page, DEFAULT_PAGE),
        limit: or_default(f.limit, DEFAULT_LIMIT),
    }
}

/// The catalog records that pass all requested filters, in catalog order.
pub open spec fn query_filtered(s: Seq<Game>, fs: FilterSpec) -> Seq<Game> {
    let after_text = match fs.query {
        Some(q) => s.filter(text_pred(q)),
        None => s,
    };
    let after_genres = match fs.genres {
        Some(gs) => after_text.filter(genre_pred(gs)),
        None => after_text,
    };
    match fs.platforms {
        Some(ps) => after_genres.filter(platform_pred(ps)),
        None => after_genres,
    }
}

/// The filtered records in their served order.
pub open spec fn query_sorted(s: Seq<Game>, fs: FilterSpec) -> Seq<Game> {
    sort_by_key(fs.sort, query_filtered(s, fs))
}

/// The records of the served page.
pub open spec fn query_data(s: Seq<Game>, fs: FilterSpec) -> Seq<Game> {
    page_slice(query_sorted(s, fs), fs.page, fs.limit)
}

/// How many records match the filters, before pagination.
pub open spec fn query_total(s: Seq<Game>, fs: FilterSpec) -> int {
    query_filtered(s, fs).len() as int
}

/// Whether records exist beyond the served page.
pub open spec fn query_has_next(s: Seq<Game>, fs: FilterSpec) -> bool {
    spec_has_next(query_total(s, fs), fs.page, fs.limit)
}

/// Slice one page out of the sorted records.
fn paginate(sorted: Vec<Game>, page: u32, limit: u32) -> (r: Vec<Game>)
    ensures
        r@ == page_slice(sorted@, page, limit),
{
    let ghost orig = sorted@;
    let mut v = sorted;
    let page_e: u32 = if page == 0 {
        1
    } else {
        page
    };
    proof {
        vstd::arithmetic::mul::lemma_mul_upper_bound(
            page_e as int - 1,
            u32::MAX as int,
            limit as int,
            u32::MAX as int,
        );
    }
    let start: u64 = (page_e as u64 - 1) * (limit as u64);
    if start >= v.len() as u64 {
        let r: Vec<Game> = Vec::new();
        proof {
            assert(r@ =~= page_slice(orig, page, limit));
        }
        return r;
    }
    let mut tail = v.split_off(start as usize);
    tail.truncate(limit as usize);
    proof {
        let st = page_start(page, limit);
        if st + limit <= orig.len() {
            assert(tail@ =~= orig.subrange(st, st + limit));
        } else {
            assert(tail@ =~= orig.subrange(st, orig.len() as int));
        }
    }
    tail
}

/// Run the whole query pipeline over a catalog snapshot.
///
/// With no request at all, the snapshot comes back whole, unsorted, as a
/// single page. With a request, the result holds exactly the page
/// `query_data` describes: filters, then a stable sort, then pagination,
/// with `total` counting the records before pagination.
pub fn get_games(games: Vec<Game>, filters: Option<GameFilters>) -> (r: GameResponse)
    requires
        games@.len() <= u32::MAX,
    ensures
        match filters {
            None => r.data@ == games@ && r.total == games@.len() && r.page == 1 && !r.has_next,
            Some(f) => {
                let fs = filters_view(f);
                &&& r.data@ == query_data(games@, fs)
                &&& r.total == query_total(games@, fs)
                &&& r.page == eff_page(fs.page)
                &&& r.has_next == query_has_next(games@, fs)
            },
        },
{
    match filters {
        None => {
            let total: u32 = games.len() as u32;
            GameResponse { data: games, total, page: 1, has_next: false }
        },
        Some(f) => {
            let ghost fs = filters_view(f);
            let ghost orig = games@;
            let GameFilters { query, genres, platforms, sort_by, page, limit } = f;
            let mut v = games;
            match &query {
                Some(q) => {
                    let qf = fold_str(q.as_str());
                    v = filter_games(v, &Selector::Text(qf));
                },
                None => {},
            }
            match genres {
                Some(gs) => {
                    v = filter_games(v, &Selector::Genres(gs));
                },
                None => {},
            }
            match platforms {
                Some(ps) => {
                    v = filter_games(v, &Selector::Platforms(ps));
                },
                None => {},
            }
            proof {
                assert(v@ == query_filtered(orig, fs));
                lemma_query_filtered_len(orig, fs);
            }
            let key = parse_sort_key(&sort_by);
            let v = sort_games(key, v);
            proof {
                crate::sort::lemma_sort_by_key_len(key, query_filtered(orig, fs));
            }
            let total: u32 = v.len() as u32;
            let page_v: u32 = match page {
                Some(p) => p,
                None => DEFAULT_PAGE,
            };
            let limit_v: u32 = match limit {
                Some(l) => l,
                None => DEFAULT_LIMIT,
            };
            let data = paginate(v, page_v, limit_v);
            let page_e: u32 = if page_v == 0 {
                1
            } else {
                page_v
            };
            proof {
                vstd::arithmetic::mul::lemma_mul_upper_bound(
                    page_e as int,
                    u32::MAX as int,
                    limit_v as int,
                    u32::MAX as int,
                );
            }
            let has_next: bool = (page_e as u64) * (limit_v as u64) < (total as u64);
            GameResponse { data, total, page: page_e, has_next }
        },
    }
}

/// Filtering never grows the working set.
pub proof fn lemma_query_filtered_len(s: Seq<Game>, fs: FilterSpec)
    ensures
        query_filtered(s, fs).len() <= s.len(),
{
    broadcast use vstd::seq_lib::group_filter_ensures;

}

/// A served page never holds more records than the page size, and
/// `has_next` says exactly whether the page arithmetic leaves records
/// beyond the served page.
pub proof fn lemma_query_bounds(s: Seq<Game>, f: GameFilters)
    ensures
        query_data(s, filters_view(f)).len() <= or_default(f.limit, DEFAULT_LIMIT),
        query_has_next(s, filters_view(f)) == ((eff_page(or_default(f.page, DEFAULT_PAGE)) as int)
            * (or_default(f.limit, DEFAULT_LIMIT) as int) < query_total(s, filters_view(f))),
{
}

/// Degenerate pagination: a page size of zero, or a page past the end,
/// yields an empty page, while `total` still counts every filtered record.
pub proof fn lemma_page_degenerate(s: Seq<Game>, page: u32, limit: u32)
    ensures
        limit == 0 ==> page_slice(s, page, limit) == Seq::<Game>::empty(),
        page_start(page, limit) >= s.len() ==> page_slice(s, page, limit) == Seq::<Game>::empty(),
{
    if limit == 0 && page_start(page, limit) < s.len() {
        assert(page_slice(s, page, limit) =~= Seq::<Game>::empty());
    }
}

} // verus!
