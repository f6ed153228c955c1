//! The catalog store: the full set of game records, loaded once per
//! session, with lookups by either identity.
//!
//! The store's invariant is that `id` and `slug` are each unique across
//! the live catalog; `load` establishes it by rejecting a payload that
//! breaks it, and the round-trip law says that a stored record is found
//! again, unchanged, under both identities.

use vstd::prelude::*;

use crate::games::Game;
use crate::text::str_eq;
use crate::OxideError;

verus! {

/// The identity of a record that a lookup goes by: its slug, or its id.
pub open spec fn ident_of(g: Game, by_slug: bool) -> Seq<char> {
    if by_slug {
        g.slug@
    } else {
        g.id@
    }
}

/// The first record of `s` whose chosen identity holds the characters
/// `key`, if any.
pub open spec fn find_by(s: Seq<Game>, key: Seq<char>, by_slug: bool) -> Option<Game>
    decreases s.len(),
{
    if s.len() == 0 {
        None
    } else if ident_of(s[0], by_slug) == key {
        Some(s[0])
    } else {
        find_by(s.drop_first(), key, by_slug)
    }
}

/// The first record with this `id`, if any.
pub open spec fn find_by_id(s: Seq<Game>, key: Seq<char>) -> Option<Game> {
    find_by(s, key, false)
}

/// The first record with this `slug`, if any.
pub open spec fn find_by_slug(s: Seq<Game>, key: Seq<char>) -> Option<Game> {
    find_by(s, key, true)
}

/// Whether the chosen identity is unique across the catalog.
pub open spec fn unique_keys(s: Seq<Game>, by_slug: bool) -> bool {
    forall|i: int, j: int|
        0 <= i < j < s.len() ==> ident_of(#[trigger] s[i], by_slug) != ident_of(
            #[trigger] s[j],
            by_slug,
        )
}

/// Whether every `id` is unique across the catalog.
pub open spec fn unique_ids(s: Seq<Game>) -> bool {
    unique_keys(s, false)
}

/// Whether every `slug` is unique across the catalog.
pub open spec fn unique_slugs(s: Seq<Game>) -> bool {
    unique_keys(s, true)
}

/// A linear scan that stopped at `i` determines the first match.
pub proof fn lemma_find_by_at(s: Seq<Game>, key: Seq<char>, by_slug: bool, i: int)
    requires
        0 <= i <= s.len(),
        forall|j: int| 0 <= j < i ==> ident_of(#[trigger] s[j], by_slug) != key,
        i < s.len() ==> ident_of(s[i], by_slug) == key,
    ensures
        i < s.len() ==> find_by(s, key, by_slug) == Some(s[i]),
        i == s.len() ==> find_by(s, key, by_slug) is None,
    decreases i,
{
    if s.len() == 0 {
    } else if i == 0 {
    } else {
        assert(ident_of(s[0], by_slug) != key);
        assert forall|j: int|
            0 <= j < i - 1 implies ident_of(#[trigger] s.drop_first()[j], by_slug) != key by {
            assert(s.drop_first()[j] == s[j + 1]);
        }
        if i < s.len() {
            assert(s.drop_first()[i - 1] == s[i]);
        }
        lemma_find_by_at(s.drop_first(), key, by_slug, i - 1);
    }
}

/// With unique identities, the first match under a record's own identity
/// is that record itself.
pub proof fn lemma_find_by_unique(s: Seq<Game>, by_slug: bool, i: int)
    requires
        unique_keys(s, by_slug),
        0 <= i < s.len(),
    ensures
        find_by(s, ident_of(s[i], by_slug), by_slug) == Some(s[i]),
{
    assert forall|j: int| 0 <= j < i implies ident_of(#[trigger] s[j], by_slug) != ident_of(
        s[i],
        by_slug,
    ) by {}
    lemma_find_by_at(s, ident_of(s[i], by_slug), by_slug, i);
}

/// Round trip: a record standing in a catalog with unique identities is
/// found again, attribute for attribute unchanged, when looked up by its
/// own `id` and by its own `slug`.
pub proof fn lemma_store_round_trip(s: Seq<Game>, g: Game)
    requires
        unique_ids(s),
        unique_slugs(s),
        s.contains(g),
    ensures
        find_by_id(s, g.id@) == Some(g),
        find_by_slug(s, g.slug@) == Some(g),
{
    let i = choose|i: int| 0 <= i < s.len() && s[i] == g;
    lemma_find_by_unique(s, false, i);
    lemma_find_by_unique(s, true, i);
}

/// Whether the chosen identity of every record is unique.
fn check_unique(games: &Vec<Game>, by_slug: bool) -> (r: bool)
    ensures
        r == unique_keys(games@, by_slug),
{
    let n: usize = games.len();
    let mut i: usize = 0;
    while i < n
        invariant
            n == games@.len(),
            0 <= i <= n,
            forall|a: int, b: int|
                0 <= a < b < games@.len() && a < i ==> ident_of(#[trigger] games@[a], by_slug)
                    != ident_of(#[trigger] games@[b], by_slug),
        decreases n - i,
    {
        let ka: &str = if by_slug {
            games[i].slug.as_str()
        } else {
            games[i].id.as_str()
        };
        let mut j: usize = i + 1;
        while j < n
            invariant
                n == games@.len(),
                0 <= i < n,
                i < j <= n,
                ka@ == ident_of(games@[i as int], by_slug),
                forall|b: int|
                    i < b < j ==> ident_of(games@[i as int], by_slug) != ident_of(
                        #[trigger] games@[b],
                        by_slug,
                    ),
            decreases n - j,
        {
            let kb: &str = if by_slug {
                games[j].slug.as_str()
            } else {
                games[j].id.as_str()
            };
            if str_eq(ka, kb) {
                return false;
            }
            j = j + 1;
        }
        i = i + 1;
    }
    true
}

/// The in-memory catalog store. Once loaded it is read-only: a fresh load
/// installs a whole new store, and readers keep the snapshot they hold.
pub struct CatalogStore {
    games: Vec<Game>,
}

impl CatalogStore {
    /// The records the store holds, in catalog order.
    pub closed spec fn catalog(self) -> Seq<Game> {
        self.games@
    }

    /// The store's invariant: both identities are unique.
    pub open spec fn wf(self) -> bool {
        unique_ids(self.catalog()) && unique_slugs(self.catalog())
    }

    /// Install a catalog supplied by the external source. A payload whose
    /// `id`s or `slug`s collide is malformed data and is rejected whole;
    /// any other payload is accepted unchanged.
    pub fn load(games: Vec<Game>) -> (r: Result<CatalogStore, OxideError>)
        ensures
            match r {
                Ok(store) => store.catalog() == games@ && store.wf(),
                Err(e) => e == OxideError::DataUnavailable,
            },
            r is Ok <==> unique_ids(games@) && unique_slugs(games@),
    {
        if !check_unique(&games, false) {
            return Err(OxideError::DataUnavailable);
        }
        if !check_unique(&games, true) {
            return Err(OxideError::DataUnavailable);
        }
        Ok(CatalogStore { games })
    }

    /// Borrow the whole catalog, for example to take a query snapshot.
    pub fn games(&self) -> (r: &Vec<Game>)
        ensures
            r@ == self.catalog(),
    {
        &self.games
    }

    /// Look a record up by `id`. Absence is an expected outcome, not an
    /// error.
    pub fn get_by_id<'a>(&'a self, id: &str) -> (r: Option<&'a Game>)
        ensures
            match r {
                Some(g) => find_by_id(self.catalog(), id@) == Some(*g),
                None => find_by_id(self.catalog(), id@) is None,
            },
    {
        let n: usize = self.games.len();
        let mut i: usize = 0;
        while i < n
            invariant
                n == self.games@.len(),
                0 <= i <= n,
                forall|j: int| 0 <= j < i ==> (#[trigger] self.games@[j]).id@ != id@,
            decreases n - i,
        {
            if str_eq(self.games[i].id.as_str(), id) {
                proof {
                    lemma_find_by_at(self.catalog(), id@, false, i as int);
                }
                return Some(&self.games[i]);
            }
            i = i + 1;
        }
        proof {
            lemma_find_by_at(self.catalog(), id@, false, n as int);
        }
        None
    }

    /// Look a record up by `slug`. Absence is an expected outcome, not an
    /// error.
    pub fn get_by_slug<'a>(&'a self, slug: &str) -> (r: Option<&'a Game>)
        ensures
            match r {
                Some(g) => find_by_slug(self.catalog(), slug@) == Some(*g),
                None => find_by_slug(self.catalog(), slug@) is None,
            },
    {
        let n: usize = self.games.len();
        let mut i: usize = 0;
        while i < n
            invariant
                n == self.games@.len(),
                0 <= i <= n,
                forall|j: int| 0 <= j < i ==> (#[trigger] self.games@[j]).slug@ != slug@,
            decreases n - i,
        {
            if str_eq(self.games[i].slug.as_str(), slug) {
                proof {
                    lemma_find_by_at(self.catalog(), slug@, true, i as int);
                }
                return Some(&self.games[i]);
            }
            i = i + 1;
        }
        proof {
            lemma_find_by_at(self.catalog(), slug@, true, n as int);
        }
        None
    }
}

} // verus!
