//! The full-text search index: an inverted match over the title,
//! description and tag fields of indexed documents.
//!
//! Writes are buffered: a document added with `add_game` becomes visible
//! to `search` only after an explicit `commit`, and commits are additive.
//! Queries are bare terms combined by implicit AND; relevance is
//! term-frequency scoring weighted by field, with ties broken by
//! insertion order.

use vstd::prelude::*;
use vstd::string::StringExecFns;

use crate::games::Game;
use crate::pipeline::strs_view;
use crate::text::{chars_eq, lemma_tokenize_acc_len, token_views, tokenize, tokenize_str};
use crate::OxideError;

verus! {

/// The longest free-text query, in characters, accepted by `search`:
/// longer queries are rejected before tokenization to bound their work.
pub const MAX_QUERY_CHARS: usize = 256;

/// The number of hits a plain index search serves.
pub const DEFAULT_SEARCH_LIMIT: usize = 10;

/// The weight of a term hit in the title field.
pub const TITLE_WEIGHT: u128 = 3;

/// The weight of a term hit in the tags field.
pub const TAGS_WEIGHT: u128 = 2;

/// The indexed projection of a game record: its searchable texts, plus
/// the `id` that maps a hit back to the record.
pub struct IndexedDoc {
    pub id: String,
    pub title: String,
    pub description: String,
    /// The record's tags, joined by single spaces.
    pub tags: String,
}

impl Clone for IndexedDoc {
    /// Cloning an indexed document keeps it equal, field for field.
    fn clone(&self) -> (res: Self)
        ensures
            res == *self,
    {
        IndexedDoc {
            id: self.id.clone(),
            title: self.title.clone(),
            description: self.description.clone(),
            tags: self.tags.clone(),
        }
    }
}

/// How often the token `w` occurs in the token list `ts`.
pub open spec fn count_tok(ts: Seq<Seq<char>>, w: Seq<char>) -> int
    decreases ts.len(),
{
    if ts.len() == 0 {
        0
    } else {
        count_tok(ts.drop_last(), w) + if ts.last() == w {
            1int
        } else {
            0int
        }
    }
}

/// The tokens of a document's title.
pub open spec fn title_toks(d: IndexedDoc) -> Seq<Seq<char>> {
    tokenize(d.title@)
}

/// The tokens of a document's tags.
pub open spec fn tag_toks(d: IndexedDoc) -> Seq<Seq<char>> {
    tokenize(d.tags@)
}

/// The tokens of a document's description.
pub open spec fn desc_toks(d: IndexedDoc) -> Seq<Seq<char>> {
    tokenize(d.description@)
}

/// The relevance contribution of one term: its frequency in each field,
/// weighted with the title heaviest and the description lightest. The
/// score is positive exactly when the term occurs in some field.
pub open spec fn term_score(d: IndexedDoc, w: Seq<char>) -> int {
    (TITLE_WEIGHT as int) * count_tok(title_toks(d), w) + (TAGS_WEIGHT as int) * count_tok(
        tag_toks(d),
        w,
    ) + count_tok(desc_toks(d), w)
}

/// The relevance score of a document for a term list: the sum of the
/// term scores, monotonic in every term frequency.
pub open spec fn score_of(terms: Seq<Seq<char>>, d: IndexedDoc) -> int
    decreases terms.len(),
{
    if terms.len() == 0 {
        0
    } else {
        score_of(terms.drop_last(), d) + term_score(d, terms.last())
    }
}

/// Whether a document matches a query: every term occurs in some indexed
/// field (implicit AND).
pub open spec fn doc_matches(d: IndexedDoc, terms: Seq<Seq<char>>) -> bool {
    forall|i: int| 0 <= i < terms.len() ==> term_score(d, #[trigger] terms[i]) > 0
}

/// The match predicate of a term list.
pub open spec fn match_pred(terms: Seq<Seq<char>>) -> spec_fn(IndexedDoc) -> bool {
    |d: IndexedDoc| doc_matches(d, terms)
}

/// The committed documents matching a query, in insertion order.
pub open spec fn matching(docs: Seq<IndexedDoc>, terms: Seq<Seq<char>>) -> Seq<IndexedDoc> {
    docs.filter(match_pred(terms))
}

/// Ranking order: `a` may stand before `b` when its score is at least as
/// high, so equal scores keep insertion order.
pub open spec fn rank_le(terms: Seq<Seq<char>>, a: IndexedDoc, b: IndexedDoc) -> bool {
    score_of(terms, a) >= score_of(terms, b)
}

/// Stable insertion of a document into a ranked sequence.
pub open spec fn insert_ranked(terms: Seq<Seq<char>>, s: Seq<IndexedDoc>, d: IndexedDoc) -> Seq<
    IndexedDoc,
>
    decreases s.len(),
{
    if s.len() == 0 {
        seq![d]
    } else if rank_le(terms, s[0], d) {
        seq![s[0]] + insert_ranked(terms, s.drop_first(), d)
    } else {
        seq![d] + s
    }
}

/// Where `insert_ranked` places the new document.
pub open spec fn rank_pos(terms: Seq<Seq<char>>, s: Seq<IndexedDoc>, d: IndexedDoc) -> int
    decreases s.len(),
{
    if s.len() == 0 {
        0
    } else if rank_le(terms, s[0], d) {
        1 + rank_pos(terms, s.drop_first(), d)
    } else {
        0
    }
}

/// `insert_ranked` is a positional insert at `rank_pos`.
proof fn lemma_rank_pos_props(terms: Seq<Seq<char>>, s: Seq<IndexedDoc>, d: IndexedDoc)
    ensures
        0 <= rank_pos(terms, s, d) <= s.len(),
        insert_ranked(terms, s, d) == s.insert(rank_pos(terms, s, d), d),
        forall|t: int| 0 <= t < rank_pos(terms, s, d) ==> rank_le(terms, #[trigger] s[t], d),
        rank_pos(terms, s, d) < s.len() ==> !rank_le(terms, s[rank_pos(terms, s, d)], d),
    decreases s.len(),
{
    let j = rank_pos(terms, s, d);
    if s.len() == 0 {
        assert(insert_ranked(terms, s, d) =~= s.insert(0, d));
    } else if rank_le(terms, s[0], d) {
        lemma_rank_pos_props(terms, s.drop_first(), d);
        assert(seq![s[0]] + s.drop_first().insert(j - 1, d) =~= s.insert(j, d));
        assert forall|t: int| 0 <= t < j implies rank_le(terms, #[trigger] s[t], d) by {
            if t > 0 {
                assert(s.drop_first()[t - 1] == s[t]);
                assert(rank_le(terms, s.drop_first()[t - 1], d));
            }
        }
        if j < s.len() {
            assert(s.drop_first()[j - 1] == s[j]);
        }
    } else {
        assert(seq![d] + s =~= s.insert(0, d));
    }
}

/// The stable ranking of matching documents: highest score first, ties
/// in insertion order.
pub open spec fn sort_ranked(terms: Seq<Seq<char>>, s: Seq<IndexedDoc>) -> Seq<IndexedDoc>
    decreases s.len(),
{
    if s.len() == 0 {
        Seq::empty()
    } else {
        insert_ranked(terms, sort_ranked(terms, s.drop_last()), s.last())
    }
}

/// Ranking keeps the number of documents.
pub proof fn lemma_sort_ranked_len(terms: Seq<Seq<char>>, s: Seq<IndexedDoc>)
    ensures
        sort_ranked(terms, s).len() == s.len(),
    decreases s.len(),
{
    if s.len() > 0 {
        lemma_sort_ranked_len(terms, s.drop_last());
        let sp = sort_ranked(terms, s.drop_last());
        lemma_rank_pos_props(terms, sp, s.last());
        sp.insert_ensures(rank_pos(terms, sp, s.last()), s.last());
    }
}

/// Whether scores never increase along a sequence.
pub open spec fn ranked(terms: Seq<Seq<char>>, s: Seq<IndexedDoc>) -> bool {
    forall|i: int, j: int|
        0 <= i < j < s.len() ==> score_of(terms, #[trigger] s[i]) >= score_of(
            terms,
            #[trigger] s[j],
        )
}

/// Inserting into a ranked sequence keeps it ranked.
proof fn lemma_insert_preserves_ranked(terms: Seq<Seq<char>>, s: Seq<IndexedDoc>, d: IndexedDoc)
    requires
        ranked(terms, s),
    ensures
        ranked(terms, insert_ranked(terms, s, d)),
{
    lemma_rank_pos_props(terms, s, d);
    let j = rank_pos(terms, s, d);
    let r = insert_ranked(terms, s, d);
    s.insert_ensures(j, d);
    assert forall|a: int, b: int|
        0 <= a < b < r.len() implies score_of(terms, r[a]) >= score_of(terms, r[b]) by {
        if a < j && b == j {
            assert(rank_le(terms, s[a], d));
        } else if a < j && b > j {
            assert(r[b] == s[b - 1]);
        } else if a == j {
            assert(j < s.len());
        } else if a > j {
            assert(r[a] == s[a - 1] && r[b] == s[b - 1]);
        }
    }
}

/// Search results come out ranked: scores never increase.
pub proof fn lemma_sort_ranked_sorted(terms: Seq<Seq<char>>, s: Seq<IndexedDoc>)
    ensures
        ranked(terms, sort_ranked(terms, s)),
    decreases s.len(),
{
    if s.len() > 0 {
        lemma_sort_ranked_sorted(terms, s.drop_last());
        lemma_insert_preserves_ranked(terms, sort_ranked(terms, s.drop_last()), s.last());
    }
}

/// A positional insert adds exactly the new document to the contents.
proof fn lemma_insert_multiset_docs(s: Seq<IndexedDoc>, j: int, d: IndexedDoc)
    requires
        0 <= j <= s.len(),
    ensures
        s.insert(j, d).to_multiset() == s.to_multiset().insert(d),
{
    broadcast use vstd::seq_lib::group_to_multiset_ensures;

    let left = s.subrange(0, j);
    let right = s.subrange(j, s.len() as int);
    assert(s.insert(j, d) == left.push(d) + right);
    vstd::seq_lib::lemma_multiset_commutative(left.push(d), right);
    vstd::seq_lib::lemma_multiset_commutative(left, right);
    assert(left + right =~= s);
    assert(left.push(d).to_multiset() =~= left.to_multiset().insert(d));
    assert(s.insert(j, d).to_multiset() =~= s.to_multiset().insert(d));
}

/// Ranking permutes the matching documents: none is dropped or invented.
pub proof fn lemma_sort_ranked_permutes(terms: Seq<Seq<char>>, s: Seq<IndexedDoc>)
    ensures
        sort_ranked(terms, s).to_multiset() == s.to_multiset(),
    decreases s.len(),
{
    broadcast use vstd::seq_lib::group_to_multiset_ensures;

    if s.len() > 0 {
        lemma_sort_ranked_permutes(terms, s.drop_last());
        let sp = sort_ranked(terms, s.drop_last());
        lemma_rank_pos_props(terms, sp, s.last());
        lemma_insert_multiset_docs(sp, rank_pos(terms, sp, s.last()), s.last());
        assert(s.drop_last().push(s.last()) =~= s);
        assert(s.drop_last().push(s.last()).to_multiset() =~= s.drop_last().to_multiset().insert(
            s.last(),
        ));
    }
}

/// The first `n` documents, or all of them when fewer exist.
pub open spec fn cap_docs(s: Seq<IndexedDoc>, n: int) -> Seq<IndexedDoc> {
    if s.len() <= n {
        s
    } else {
        s.take(n)
    }
}

/// What a successful search serves: the matching documents, ranked, then
/// capped at the requested limit.
pub open spec fn search_results(docs: Seq<IndexedDoc>, terms: Seq<Seq<char>>, limit: int) -> Seq<
    IndexedDoc,
> {
    cap_docs(sort_ranked(terms, matching(docs, terms)), limit)
}

/// Whether a query is acceptable: not pathologically long, and holding
/// at least one token.
pub open spec fn valid_query(q: Seq<char>) -> bool {
    q.len() <= MAX_QUERY_CHARS && tokenize(q).len() > 0
}

/// The token sequences joined by single spaces.
pub open spec fn join_spaces(ts: Seq<Seq<char>>) -> Seq<char>
    decreases ts.len(),
{
    if ts.len() == 0 {
        Seq::empty()
    } else if ts.len() == 1 {
        ts[0]
    } else {
        join_spaces(ts.drop_last()) + seq![' '] + ts.last()
    }
}

/// The description text a record is indexed under: its description, or
/// nothing when it has none.
pub open spec fn game_desc(g: Game) -> Seq<char> {
    match g.description {
        Some(d) => d@,
        None => Seq::empty(),
    }
}

/// Whether an indexed document is the projection of a game record.
pub open spec fn doc_represents(d: IndexedDoc, g: Game) -> bool {
    &&& d.id@ == g.id@
    &&& d.title@ == g.title@
    &&& d.description@ == game_desc(g)
    &&& d.tags@ == join_spaces(strs_view(g.details.tags@))
}

/// Join a list of strings with single spaces.
fn join_with_spaces(parts: &Vec<String>) -> (r: String)
    ensures
        r@ == join_spaces(strs_view(parts@)),
{
    let ghost pv = strs_view(parts@);
    let n: usize = parts.len();
    let mut r = String::new();
    let mut i: usize = 0;
    while i < n
        invariant
            n == parts@.len(),
            pv == strs_view(parts@),
            0 <= i <= n,
            r@ == join_spaces(pv.take(i as int)),
        decreases n - i,
    {
        if i > 0 {
            r.append(" ");
            proof {
                reveal_strlit(" ");
                assert(r@ =~= join_spaces(pv.take(i as int)) + seq![' ']);
            }
        }
        r.append(parts[i].as_str());
        proof {
            assert(pv.take(i + 1).drop_last() =~= pv.take(i as int));
            assert(pv.take(i + 1).last() == pv[i as int]);
            assert(pv[i as int] == parts@[i as int]@);
            if i == 0 {
                assert(r@ =~= join_spaces(pv.take(1)));
            }
        }
        i = i + 1;
    }
    proof {
        assert(pv.take(n as int) =~= pv);
    }
    r
}

/// The document views of scored pairs.
pub open spec fn docs_of(ps: Seq<(IndexedDoc, u128)>) -> Seq<IndexedDoc> {
    ps.map_values(|p: (IndexedDoc, u128)| p.0)
}

/// The stable insertion position of a scored document in a ranked list,
/// found by comparing the cached scores.
fn find_rank_pos(
    ranked_v: &Vec<(IndexedDoc, u128)>,
    p: &(IndexedDoc, u128),
    Ghost(tv): Ghost<Seq<Seq<char>>>,
) -> (j: usize)
    requires
        p.1 as int == score_of(tv, p.0),
        forall|t: int|
            0 <= t < ranked_v@.len() ==> (#[trigger] ranked_v@[t]).1 as int == score_of(
                tv,
                ranked_v@[t].0,
            ),
    ensures
        0 <= j <= ranked_v@.len(),
        forall|t: int| 0 <= t < j ==> rank_le(tv, #[trigger] docs_of(ranked_v@)[t], p.0),
        j < ranked_v@.len() ==> !rank_le(tv, docs_of(ranked_v@)[j as int], p.0),
{
    let m: usize = ranked_v.len();
    let mut j: usize = 0;
    while j < m
        invariant
            m == ranked_v@.len(),
            p.1 as int == score_of(tv, p.0),
            forall|t: int|
                0 <= t < ranked_v@.len() ==> (#[trigger] ranked_v@[t]).1 as int == score_of(
                    tv,
                    ranked_v@[t].0,
                ),
            0 <= j <= m,
            forall|t: int| 0 <= t < j ==> rank_le(tv, #[trigger] docs_of(ranked_v@)[t], p.0),
        decreases m - j,
    {
        proof {
            assert(docs_of(ranked_v@)[j as int] == ranked_v@[j as int].0);
        }
        if ranked_v[j].1 < p.1 {
            return j;
        }
        proof {
            assert(rank_le(tv, docs_of(ranked_v@)[j as int], p.0));
        }
        j = j + 1;
    }
    j
}

/// How often the characters `w` occur as a token in `toks`.
fn count_occurrences(toks: &Vec<Vec<char>>, w: &Vec<char>) -> (c: usize)
    ensures
        c as int == count_tok(token_views(toks@), w@),
{
    let ghost tv = token_views(toks@);
    let n: usize = toks.len();
    let mut c: usize = 0;
    let mut i: usize = 0;
    proof {
        assert(tv.take(0) =~= Seq::<Seq<char>>::empty());
    }
    while i < n
        invariant
            n == toks@.len(),
            tv == token_views(toks@),
            0 <= i <= n,
            c <= i,
            c as int == count_tok(tv.take(i as int), w@),
        decreases n - i,
    {
        proof {
            assert(tv.take(i + 1).drop_last() =~= tv.take(i as int));
            assert(tv.take(i + 1).last() == tv[i as int]);
            assert(tv[i as int] == toks@[i as int]@);
        }
        if chars_eq(&toks[i], w) {
            c = c + 1;
        }
        i = i + 1;
    }
    proof {
        assert(tv.take(n as int) =~= tv);
    }
    c
}

/// The highest score one term can contribute.
const TERM_SCORE_CEIL: u128 = 110680464442257309690;

/// Score a document against the query terms and test whether it matches
/// every one of them.
fn score_doc(d: &IndexedDoc, terms: &Vec<Vec<char>>) -> (r: (u128, bool))
    requires
        terms@.len() <= MAX_QUERY_CHARS + 1,
    ensures
        r.0 as int == score_of(token_views(terms@), *d),
        r.1 == doc_matches(*d, token_views(terms@)),
{
    let ghost tv = token_views(terms@);
    let ttoks = tokenize_str(d.title.as_str());
    let gtoks = tokenize_str(d.tags.as_str());
    let dtoks = tokenize_str(d.description.as_str());
    let n: usize = terms.len();
    let mut acc: u128 = 0;
    let mut matched: bool = true;
    let mut i: usize = 0;
    proof {
        assert(tv.take(0) =~= Seq::<Seq<char>>::empty());
    }
    while i < n
        invariant
            n == terms@.len(),
            n <= MAX_QUERY_CHARS + 1,
            tv == token_views(terms@),
            token_views(ttoks@) == title_toks(*d),
            token_views(gtoks@) == tag_toks(*d),
            token_views(dtoks@) == desc_toks(*d),
            0 <= i <= n,
            acc as int == score_of(tv.take(i as int), *d),
            acc <= (i as u128) * TERM_SCORE_CEIL,
            matched == (forall|j: int| 0 <= j < i ==> term_score(*d, #[trigger] tv[j]) > 0),
        decreases n - i,
    {
        let c1 = count_occurrences(&ttoks, &terms[i]);
        let c2 = count_occurrences(&gtoks, &terms[i]);
        let c3 = count_occurrences(&dtoks, &terms[i]);
        proof {
            assert(terms@[i as int]@ == tv[i as int]);
            assert(c1 as u128 <= 0xffff_ffff_ffff_ffffu128);
            assert(c2 as u128 <= 0xffff_ffff_ffff_ffffu128);
            assert(c3 as u128 <= 0xffff_ffff_ffff_ffffu128);
        }
        let ts: u128 = TITLE_WEIGHT * (c1 as u128) + TAGS_WEIGHT * (c2 as u128) + (c3 as u128);
        proof {
            assert(ts as int == term_score(*d, tv[i as int]));
            assert(ts <= TERM_SCORE_CEIL);
            assert(tv.take(i + 1).drop_last() =~= tv.take(i as int));
            assert(tv.take(i + 1).last() == tv[i as int]);
            assert((i as u128 + 1) * TERM_SCORE_CEIL == (i as u128) * TERM_SCORE_CEIL
                + TERM_SCORE_CEIL) by (nonlinear_arith);
            assert((i as u128 + 1) * TERM_SCORE_CEIL <= 257u128 * TERM_SCORE_CEIL)
                by (nonlinear_arith)
                requires
                    i + 1 <= 257,
            ;
        }
        if ts == 0 {
            matched = false;
        }
        acc = acc + ts;
        i = i + 1;
    }
    proof {
        assert(tv.take(n as int) =~= tv);
    }
    (acc, matched)
}

/// The in-memory search index: committed documents, visible to readers,
/// and buffered pending writes that only a commit makes visible.
///
/// Writes (`add_game`, `commit`) take `&mut self` and are thereby
/// serialized; searches take `&self`, never block a writer, and never
/// observe a buffered write: the commit is the sole visibility boundary.
pub struct GameSearchIndex {
    committed_docs: Vec<IndexedDoc>,
    pending_docs: Vec<IndexedDoc>,
    ready: bool,
}

impl GameSearchIndex {
    /// The documents visible to searches, in insertion order.
    pub closed spec fn committed(self) -> Seq<IndexedDoc> {
        self.committed_docs@
    }

    /// The buffered documents no search can see yet.
    pub closed spec fn pending(self) -> Seq<IndexedDoc> {
        self.pending_docs@
    }

    /// Whether any commit has occurred.
    pub closed spec fn is_ready(self) -> bool {
        self.ready
    }

    /// A fresh index: nothing committed, nothing pending, no commit yet.
    pub fn new() -> (r: Result<GameSearchIndex, OxideError>)
        ensures
            r matches Ok(ix) && ix.committed() == Seq::<IndexedDoc>::empty() && ix.pending()
                == Seq::<IndexedDoc>::empty() && !ix.is_ready(),
    {
        Ok(
            GameSearchIndex {
                committed_docs: Vec::new(),
                pending_docs: Vec::new(),
                ready: false,
            },
        )
    }

    /// Buffer one document for indexing. The write is not visible to any
    /// search until `commit`; in this in-memory index it always succeeds.
    pub fn add_game(
        &mut self,
        game_id: &str,
        title: &str,
        description: &str,
        tags: &Vec<String>,
    ) -> (r: Result<(), OxideError>)
        ensures
            r is Ok,
            final(self).committed() == old(self).committed(),
            final(self).is_ready() == old(self).is_ready(),
            final(self).pending().len() == old(self).pending().len() + 1,
            final(self).pending().drop_last() == old(self).pending(),
            final(self).pending().last().id@ == game_id@,
            final(self).pending().last().title@ == title@,
            final(self).pending().last().description@ == description@,
            final(self).pending().last().tags@ == join_spaces(strs_view(tags@)),
    {
        let doc = IndexedDoc {
            id: game_id.to_owned(),
            title: title.to_owned(),
            description: description.to_owned(),
            tags: join_with_spaces(tags),
        };
        self.pending_docs.push(doc);
        proof {
            assert(final(self).pending().drop_last() =~= old(self).pending());
        }
        Ok(())
    }

    /// Make every buffered write visible: the pending documents join the
    /// committed ones, in order, and the index counts as ready. Commits
    /// are additive: nothing already committed is dropped or reordered.
    pub fn commit(&mut self) -> (r: Result<(), OxideError>)
        ensures
            r is Ok,
            final(self).committed() == old(self).committed() + old(self).pending(),
            final(self).pending() == Seq::<IndexedDoc>::empty(),
            final(self).is_ready(),
    {
        let mut moved = self.pending_docs.split_off(0);
        self.committed_docs.append(&mut moved);
        self.ready = true;
        proof {
            assert(old(self).pending().subrange(0, old(self).pending().len() as int) =~= old(
                self,
            ).pending());
            assert(final(self).pending() =~= Seq::<IndexedDoc>::empty());
        }
        Ok(())
    }

    /// Search the committed documents.
    ///
    /// Before any commit the index is not ready. A query longer than
    /// `MAX_QUERY_CHARS`, or one without a single token, is invalid. For
    /// a valid query the result is exactly `search_results`: every
    /// committed document whose fields hold all query tokens, ranked by
    /// weighted term frequency with ties in insertion order, capped at
    /// `limit`.
    pub fn search(&self, query: &str, limit: usize) -> (r: Result<Vec<IndexedDoc>, OxideError>)
        ensures
            !self.is_ready() ==> r == Err::<Vec<IndexedDoc>, OxideError>(OxideError::IndexNotReady),
            self.is_ready() && !valid_query(query@) ==> r == Err::<Vec<IndexedDoc>, OxideError>(
                OxideError::QueryParseError,
            ),
            self.is_ready() && valid_query(query@) ==> (r matches Ok(hits) && hits@
                == search_results(self.committed(), tokenize(query@), limit as int)),
    {
        if !self.ready {
            return Err(OxideError::IndexNotReady);
        }
        if query.unicode_len() > MAX_QUERY_CHARS {
            return Err(OxideError::QueryParseError);
        }
        let terms = tokenize_str(query);
        if terms.len() == 0 {
            proof {
                assert(tokenize(query@).len() == 0);
            }
            return Err(OxideError::QueryParseError);
        }
        let ghost tv = token_views(terms@);
        proof {
            lemma_tokenize_acc_len(query@, Seq::empty());
        }
        // Score every committed document and keep the matching ones, in
        // insertion order.
        let ghost cdocs = self.committed_docs@;
        let n: usize = self.committed_docs.len();
        let mut scored: Vec<(IndexedDoc, u128)> = Vec::new();
        let mut i: usize = 0;
        proof {
            reveal(Seq::filter);
            assert(cdocs.take(0) =~= Seq::<IndexedDoc>::empty());
            assert(docs_of(scored@) =~= cdocs.take(0).filter(match_pred(tv)));
        }
        while i < n
            invariant
                n == self.committed_docs@.len(),
                cdocs == self.committed_docs@,
                tv == token_views(terms@),
                terms@.len() <= MAX_QUERY_CHARS + 1,
                0 <= i <= n,
                docs_of(scored@) == cdocs.take(i as int).filter(match_pred(tv)),
                forall|j: int|
                    0 <= j < scored@.len() ==> (#[trigger] scored@[j]).1 as int == score_of(
                        tv,
                        scored@[j].0,
                    ),
            decreases n - i,
        {
            let ghost scored0 = scored@;
            let (sc, matched) = score_doc(&self.committed_docs[i], &terms);
            proof {
                reveal(Seq::filter);
                assert(cdocs.take(i + 1).drop_last() =~= cdocs.take(i as int));
                assert(cdocs.take(i + 1).last() == cdocs[i as int]);
            }
            if matched {
                let doc = self.committed_docs[i].clone();
                scored.push((doc, sc));
                proof {
                    assert(docs_of(scored@) =~= docs_of(scored0).push(cdocs[i as int]));
                }
            }
            i = i + 1;
        }
        proof {
            assert(cdocs.take(n as int) =~= cdocs);
        }
        // Rank by score, stably: ties keep insertion order.
        let ghost mseq = matching(cdocs, tv);
        let mut rest = scored;
        let mut ranked_v: Vec<(IndexedDoc, u128)> = Vec::new();
        let ghost mut done: int = 0;
        proof {
            assert(mseq.skip(0) =~= mseq);
            assert(mseq.take(0) =~= Seq::<IndexedDoc>::empty());
            assert(docs_of(ranked_v@) =~= Seq::<IndexedDoc>::empty());
        }
        while rest.len() > 0
            invariant
                tv == token_views(terms@),
                0 <= done <= mseq.len(),
                docs_of(rest@) == mseq.skip(done),
                docs_of(ranked_v@) == sort_ranked(tv, mseq.take(done)),
                forall|j: int|
                    0 <= j < rest@.len() ==> (#[trigger] rest@[j]).1 as int == score_of(
                        tv,
                        rest@[j].0,
                    ),
                forall|j: int|
                    0 <= j < ranked_v@.len() ==> (#[trigger] ranked_v@[j]).1 as int == score_of(
                        tv,
                        ranked_v@[j].0,
                    ),
            decreases rest@.len(),
        {
            let ghost rest0 = rest@;
            let ghost ranked0 = ranked_v@;
            let p = rest.remove(0);
            proof {
                assert(docs_of(rest@) =~= docs_of(rest0).drop_first());
                assert(docs_of(rest0).drop_first() =~= mseq.skip(done + 1));
                assert(p.0 == docs_of(rest0)[0]);
                assert(p.0 == mseq[done]);
            }
            // Find the stable insertion position by cached score.
            let j = find_rank_pos(&ranked_v, &p, Ghost(tv));
            proof {
                let rdocs = docs_of(ranked0);
                lemma_rank_pos_props(tv, rdocs, p.0);
                let q = rank_pos(tv, rdocs, p.0);
                if (j as int) < q {
                    assert(rank_le(tv, rdocs[j as int], p.0));
                    assert(false);
                }
                if q < j as int {
                    assert(rank_le(tv, rdocs[q], p.0));
                    assert(false);
                }
            }
            ranked_v.insert(j, p);
            proof {
                assert(docs_of(ranked_v@) =~= docs_of(ranked0).insert(j as int, p.0));
                assert(mseq.take(done + 1).drop_last() =~= mseq.take(done));
                assert(mseq.take(done + 1).last() == mseq[done]);
                assert forall|t: int|
                    0 <= t < ranked_v@.len() implies (#[trigger] ranked_v@[t]).1 as int == score_of(
                    tv,
                    ranked_v@[t].0,
                ) by {
                    ranked0.insert_ensures(j as int, p);
                    if t < j {
                        assert(ranked_v@[t] == ranked0[t]);
                    } else if t == j {
                        assert(ranked_v@[t] == p);
                    } else {
                        assert(ranked_v@[t] == ranked0[t - 1]);
                    }
                }
                done = done + 1;
            }
        }
        proof {
            assert(mseq.take(done) =~= mseq);
        }
        // Cap at the requested limit and strip the cached scores.
        let ghost full = docs_of(ranked_v@);
        ranked_v.truncate(limit);
        proof {
            if (limit as int) < full.len() {
                assert(docs_of(ranked_v@) =~= full.take(limit as int));
            } else {
                assert(docs_of(ranked_v@) =~= full);
            }
            assert(docs_of(ranked_v@) == cap_docs(full, limit as int));
        }
        let ghost capped = docs_of(ranked_v@);
        let mut hits: Vec<IndexedDoc> = Vec::new();
        let ghost mut taken: int = 0;
        proof {
            assert(capped.skip(0) =~= capped);
            assert(hits@ =~= capped.take(0));
        }
        while ranked_v.len() > 0
            invariant
                0 <= taken <= capped.len(),
                docs_of(ranked_v@) == capped.skip(taken),
                hits@ == capped.take(taken),
            decreases ranked_v@.len(),
        {
            let ghost rv0 = ranked_v@;
            let p = ranked_v.remove(0);
            proof {
                assert(docs_of(ranked_v@) =~= docs_of(rv0).drop_first());
                assert(docs_of(rv0).drop_first() =~= capped.skip(taken + 1));
                assert(p.0 == docs_of(rv0)[0]);
                assert(p.0 == capped[taken]);
                assert(capped.take(taken + 1) =~= capped.take(taken).push(capped[taken]));
            }
            hits.push(p.0);
            proof {
                taken = taken + 1;
            }
        }
        proof {
            assert(capped.take(taken) =~= capped);
        }
        Ok(hits)
    }
}

/// Build and commit an index over a whole catalog: one document per
/// record, in catalog order, visible to searches at once.
pub fn index_games(games: &Vec<Game>) -> (r: Result<GameSearchIndex, OxideError>)
    ensures
        r matches Ok(ix) && ix.is_ready() && ix.pending() == Seq::<IndexedDoc>::empty()
            && ix.committed().len() == games@.len() && forall|i: int|
            0 <= i < games@.len() ==> doc_represents(#[trigger] ix.committed()[i], games@[i]),
{
    let mut ix = match GameSearchIndex::new() {
        Ok(ix) => ix,
        Err(e) => {
            return Err(e);
        },
    };
    let n: usize = games.len();
    let mut i: usize = 0;
    while i < n
        invariant
            n == games@.len(),
            0 <= i <= n,
            ix.committed() == Seq::<IndexedDoc>::empty(),
            !ix.is_ready(),
            ix.pending().len() == i,
            forall|j: int| 0 <= j < i ==> doc_represents(#[trigger] ix.pending()[j], games@[j]),
        decreases n - i,
    {
        let g = &games[i];
        let desc: &str = match &g.description {
            Some(d) => d.as_str(),
            None => "",
        };
        proof {
            reveal_strlit("");
            assert(desc@ =~= game_desc(games@[i as int]));
        }
        let ghost pending0 = ix.pending();
        let res = ix.add_game(g.id.as_str(), g.title.as_str(), desc, &g.details.tags);
        proof {
            assert(res is Ok);
            assert forall|j: int|
                0 <= j < i + 1 implies doc_represents(#[trigger] ix.pending()[j], games@[j]) by {
                if j < i {
                    assert(ix.pending().drop_last()[j] == ix.pending()[j]);
                }
            }
        }
        i = i + 1;
    }
    let ghost pend = ix.pending();
    let res = ix.commit();
    proof {
        assert(res is Ok);
        assert(Seq::<IndexedDoc>::empty() + pend =~= pend);
        assert(ix.committed() == pend);
    }
    Ok(ix)
}

/// Search an index with the default result limit.
pub fn search_games(index: &GameSearchIndex, query: &str) -> (r: Result<
    Vec<IndexedDoc>,
    OxideError,
>)
    ensures
        !index.is_ready() ==> r == Err::<Vec<IndexedDoc>, OxideError>(OxideError::IndexNotReady),
        index.is_ready() && !valid_query(query@) ==> r == Err::<Vec<IndexedDoc>, OxideError>(
            OxideError::QueryParseError,
        ),
        index.is_ready() && valid_query(query@) ==> (r matches Ok(hits) && hits@ == search_results(
            index.committed(),
            tokenize(query@),
            DEFAULT_SEARCH_LIMIT as int,
        )),
{
    index.search(query, DEFAULT_SEARCH_LIMIT)
}

/// A committed document that matches a query is served whenever the limit
/// admits every committed document: indexing then committing makes a
/// record retrievable by any query matching its fields.
pub proof fn lemma_search_finds_committed(
    docs: Seq<IndexedDoc>,
    terms: Seq<Seq<char>>,
    d: IndexedDoc,
    limit: int,
)
    requires
        docs.contains(d),
        doc_matches(d, terms),
        limit >= docs.len(),
    ensures
        search_results(docs, terms, limit).contains(d),
{
    broadcast use vstd::seq_lib::group_to_multiset_ensures;

    let i = choose|i: int| 0 <= i < docs.len() && docs[i] == d;
    docs.lemma_filter_contains(match_pred(terms), i);
    let m = matching(docs, terms);
    assert(m.contains(d));
    docs.lemma_filter_len(match_pred(terms));
    lemma_sort_ranked_permutes(terms, m);
    lemma_sort_ranked_len(terms, m);
    let sorted = sort_ranked(terms, m);
    assert(sorted.to_multiset().count(d) > 0);
    assert(sorted.contains(d));
    assert(search_results(docs, terms, limit) == sorted);
}

/// Commits are additive: every document already committed stays in the
/// committed sequence after a further commit.
pub proof fn lemma_commit_preserves_docs(
    committed: Seq<IndexedDoc>,
    pending: Seq<IndexedDoc>,
    d: IndexedDoc,
)
    requires
        committed.contains(d),
    ensures
        (committed + pending).contains(d),
{
    let i = choose|i: int| 0 <= i < committed.len() && committed[i] == d;
    assert((committed + pending)[i] == d);
}

} // verus!
