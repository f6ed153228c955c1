//! Stable sorting of game records by an enumerated sort key.
//!
//! The executable sort is an insertion sort that is verified against the
//! recursive specification `sort_by_key`. Three public laws pin the
//! specification down: the output is ordered by the key, it is a
//! permutation of the input, and records whose keys tie keep their
//! relative catalog order.

use vstd::prelude::*;
use vstd::seq_lib::lemma_multiset_commutative;

use crate::games::Game;
use crate::text::{lemma_lex_le_total, lemma_lex_le_trans, lex_le};

verus! {

/// The enumerated sort keys of the query pipeline. An unknown or absent
/// request falls back to `Downloads`.
#[derive(Debug, Clone, Copy, PartialEq, Eq, Structural)]
pub enum SortKey {
    /// Release date descending; records with no release date sort as the
    /// epoch day, that is, last.
    Newest,
    /// Rating descending.
    Rating,
    /// Current price ascending.
    PriceLow,
    /// Current price descending.
    PriceHigh,
    /// Recommendation score descending, treating an absent score as zero.
    AiScore,
    /// Download count descending: the default.
    Downloads,
}

/// The release-date sort key of a record: its date, or the epoch day when
/// none is present.
pub open spec fn game_date(g: Game) -> Seq<char> {
    match g.details.release_date {
        Some(d) => d@,
        None => "1970-01-01"@,
    }
}

/// The recommendation-score sort key of a record, zero when absent.
pub open spec fn game_ai_score(g: Game) -> u32 {
    match g.ai_score {
        Some(s) => s,
        None => 0,
    }
}

/// The sort order: `key_le(k, a, b)` says that `a` may stand before `b`
/// when sorting by `k`. It is a total preorder for every key.
pub open spec fn key_le(k: SortKey, a: Game, b: Game) -> bool {
    match k {
        SortKey::Newest => lex_le(game_date(b), game_date(a)),
        SortKey::Rating => a.stats.rating >= b.stats.rating,
        SortKey::PriceLow => a.pricing.current_price <= b.pricing.current_price,
        SortKey::PriceHigh => a.pricing.current_price >= b.pricing.current_price,
        SortKey::AiScore => game_ai_score(a) >= game_ai_score(b),
        SortKey::Downloads => a.stats.download_count >= b.stats.download_count,
    }
}

/// Two records tie when each may stand before the other.
pub open spec fn tied(k: SortKey, a: Game, b: Game) -> bool {
    key_le(k, a, b) && key_le(k, b, a)
}

/// The sort order is total.
pub proof fn lemma_key_le_total(k: SortKey, a: Game, b: Game)
    ensures
        key_le(k, a, b) || key_le(k, b, a),
{
    if k is Newest {
        lemma_lex_le_total(game_date(b), game_date(a));
    }
}

/// The sort order is transitive.
pub proof fn lemma_key_le_trans(k: SortKey, a: Game, b: Game, c: Game)
    requires
        key_le(k, a, b),
        key_le(k, b, c),
    ensures
        key_le(k, a, c),
{
    if k is Newest {
        lemma_lex_le_trans(game_date(c), game_date(b), game_date(a));
    }
}

/// Whether a sequence is ordered by the key.
pub open spec fn sorted_by(k: SortKey, s: Seq<Game>) -> bool {
    forall|i: int, j: int| 0 <= i < j < s.len() ==> key_le(k, #[trigger] s[i], #[trigger] s[j])
}

/// Stable insertion of one record into a sorted sequence: the new record
/// goes after every record that may stand before it.
pub open spec fn insert_sorted(k: SortKey, s: Seq<Game>, g: Game) -> Seq<Game>
    decreases s.len(),
{
    if s.len() == 0 {
        seq![g]
    } else if key_le(k, s[0], g) {
        seq![s[0]] + insert_sorted(k, s.drop_first(), g)
    } else {
        seq![g] + s
    }
}

/// The position at which `insert_sorted` places the new record: the first
/// index whose record may not stand before it.
pub open spec fn ins_pos(k: SortKey, s: Seq<Game>, g: Game) -> int
    decreases s.len(),
{
    if s.len() == 0 {
        0
    } else if key_le(k, s[0], g) {
        1 + ins_pos(k, s.drop_first(), g)
    } else {
        0
    }
}

/// `insert_sorted` is exactly a positional insert at `ins_pos`, which sits
/// after every record that may stand before the new one.
pub proof fn lemma_ins_pos_props(k: SortKey, s: Seq<Game>, g: Game)
    ensures
        0 <= ins_pos(k, s, g) <= s.len(),
        insert_sorted(k, s, g) == s.insert(ins_pos(k, s, g), g),
        forall|t: int| 0 <= t < ins_pos(k, s, g) ==> key_le(k, #[trigger] s[t], g),
        ins_pos(k, s, g) < s.len() ==> !key_le(k, s[ins_pos(k, s, g)], g),
    decreases s.len(),
{
    let j = ins_pos(k, s, g);
    if s.len() == 0 {
        assert(insert_sorted(k, s, g) =~= s.insert(0, g));
    } else if key_le(k, s[0], g) {
        lemma_ins_pos_props(k, s.drop_first(), g);
        assert(seq![s[0]] + s.drop_first().insert(j - 1, g) =~= s.insert(j, g));
        assert forall|t: int| 0 <= t < j implies key_le(k, #[trigger] s[t], g) by {
            if t > 0 {
                assert(s.drop_first()[t - 1] == s[t]);
                assert(key_le(k, s.drop_first()[t - 1], g));
            }
        }
        if j < s.len() {
            assert(s.drop_first()[j - 1] == s[j]);
        }
    } else {
        assert(seq![g] + s =~= s.insert(0, g));
    }
}

/// The recursive stable sort: records are inserted in catalog order.
pub open spec fn sort_by_key(k: SortKey, s: Seq<Game>) -> Seq<Game>
    decreases s.len(),
{
    if s.len() == 0 {
        Seq::empty()
    } else {
        insert_sorted(k, sort_by_key(k, s.drop_last()), s.last())
    }
}

/// Inserting into a sorted sequence keeps it sorted.
proof fn lemma_insert_preserves_sorted(k: SortKey, s: Seq<Game>, g: Game)
    requires
        sorted_by(k, s),
    ensures
        sorted_by(k, insert_sorted(k, s, g)),
{
    lemma_ins_pos_props(k, s, g);
    let j = ins_pos(k, s, g);
    let r = insert_sorted(k, s, g);
    s.insert_ensures(j, g);
    assert forall|a: int, b: int| 0 <= a < b < r.len() implies key_le(k, r[a], r[b]) by {
        if a < j && b < j {
        } else if a < j && b == j {
            assert(key_le(k, s[a], g));
        } else if a < j && b > j {
            assert(r[b] == s[b - 1]);
        } else if a == j {
            assert(j < s.len());
            lemma_key_le_total(k, s[j], g);
            assert(key_le(k, g, s[j]));
            if b - 1 > j {
                lemma_key_le_trans(k, g, s[j], s[b - 1]);
            }
        } else {
            assert(r[a] == s[a - 1] && r[b] == s[b - 1]);
        }
    }
}

/// The sorted output is ordered by the requested key.
pub proof fn lemma_sort_by_key_sorted(k: SortKey, s: Seq<Game>)
    ensures
        sorted_by(k, sort_by_key(k, s)),
    decreases s.len(),
{
    if s.len() > 0 {
        lemma_sort_by_key_sorted(k, s.drop_last());
        lemma_insert_preserves_sorted(k, sort_by_key(k, s.drop_last()), s.last());
    }
}

/// Inserting a record adds exactly that record to the contents.
proof fn lemma_insert_multiset(s: Seq<Game>, j: int, g: Game)
    requires
        0 <= j <= s.len(),
    ensures
        s.insert(j, g).to_multiset() == s.to_multiset().insert(g),
{
    broadcast use vstd::seq_lib::group_to_multiset_ensures;

    let left = s.subrange(0, j);
    let right = s.subrange(j, s.len() as int);
    assert(s.insert(j, g) == left.push(g) + right);
    lemma_multiset_commutative(left.push(g), right);
    lemma_multiset_commutative(left, right);
    assert(left + right =~= s);
    assert(left.push(g).to_multiset() =~= left.to_multiset().insert(g));
    assert(s.insert(j, g).to_multiset() =~= s.to_multiset().insert(g));
}

/// The sorted output holds exactly the input records: sorting permutes and
/// neither drops nor invents anything.
pub proof fn lemma_sort_by_key_permutes(k: SortKey, s: Seq<Game>)
    ensures
        sort_by_key(k, s).to_multiset() == s.to_multiset(),
    decreases s.len(),
{
    broadcast use vstd::seq_lib::group_to_multiset_ensures;

    if s.len() > 0 {
        lemma_sort_by_key_permutes(k, s.drop_last());
        let sp = sort_by_key(k, s.drop_last());
        lemma_ins_pos_props(k, sp, s.last());
        lemma_insert_multiset(sp, ins_pos(k, sp, s.last()), s.last());
        assert(s.drop_last().push(s.last()) =~= s);
        assert(s.drop_last().push(s.last()).to_multiset() =~= s.drop_last().to_multiset().insert(
            s.last(),
        ));
    }
}

/// Sorting keeps the number of records.
pub proof fn lemma_sort_by_key_len(k: SortKey, s: Seq<Game>)
    ensures
        sort_by_key(k, s).len() == s.len(),
    decreases s.len(),
{
    if s.len() > 0 {
        lemma_sort_by_key_len(k, s.drop_last());
        let sp = sort_by_key(k, s.drop_last());
        lemma_ins_pos_props(k, sp, s.last());
        sp.insert_ensures(ins_pos(k, sp, s.last()), s.last());
    }
}

/// The records of `s` that tie with `g0` under key `k`, in order.
pub open spec fn tied_filter(k: SortKey, g0: Game, s: Seq<Game>) -> Seq<Game> {
    s.filter(|x: Game| tied(k, x, g0))
}

/// Inserting a record into a sorted sequence either appends it to its tie
/// class or leaves every tie class unchanged.
proof fn lemma_insert_tied_filter(k: SortKey, s: Seq<Game>, g: Game, g0: Game)
    requires
        sorted_by(k, s),
    ensures
        tied(k, g, g0) ==> tied_filter(k, g0, insert_sorted(k, s, g)) == tied_filter(
            k,
            g0,
            s,
        ).push(g),
        !tied(k, g, g0) ==> tied_filter(k, g0, insert_sorted(k, s, g)) == tied_filter(k, g0, s),
{
    reveal_with_fuel(Seq::filter, 3);
    let pred = |x: Game| tied(k, x, g0);
    lemma_ins_pos_props(k, s, g);
    let j = ins_pos(k, s, g);
    let left = s.subrange(0, j);
    let right = s.subrange(j, s.len() as int);
    assert(s.insert(j, g) == left.push(g) + right);
    assert(left.push(g) =~= left + seq![g]);
    Seq::filter_distributes_over_add(left + seq![g], right, pred);
    Seq::filter_distributes_over_add(left, seq![g], pred);
    Seq::filter_distributes_over_add(left, right, pred);
    assert(left + right =~= s);
    assert(seq![g].drop_last() =~= Seq::<Game>::empty());
    if tied(k, g, g0) {
        // No record at or after the insertion point ties with `g0`: such a
        // record could stand before `g`, which the position rules out.
        assert forall|t: int| 0 <= t < right.len() implies !pred(right[t]) by {
            assert(right[t] == s[j + t]);
            if pred(s[j + t]) {
                lemma_key_le_trans(k, s[j + t], g0, g);
                if j + t > j {
                    lemma_key_le_trans(k, s[j], s[j + t], g);
                }
                assert(false);
            }
        }
        right.lemma_all_neg_filter_empty(pred);
        assert(right.filter(pred) =~= Seq::<Game>::empty());
        assert(seq![g].filter(pred) =~= seq![g]);
        assert(tied_filter(k, g0, insert_sorted(k, s, g)) =~= tied_filter(k, g0, s).push(g));
    } else {
        assert(seq![g].filter(pred) =~= Seq::<Game>::empty());
        assert(tied_filter(k, g0, insert_sorted(k, s, g)) =~= tied_filter(k, g0, s));
    }
}

/// Sorting is stable: the records that tie with any fixed record `g0` come
/// out in exactly the order in which they stood in the input, for every
/// choice of sort key.
pub proof fn lemma_sort_by_key_stable(k: SortKey, s: Seq<Game>, g0: Game)
    ensures
        tied_filter(k, g0, sort_by_key(k, s)) == tied_filter(k, g0, s),
    decreases s.len(),
{
    reveal(Seq::filter);
    if s.len() > 0 {
        let pred = |x: Game| tied(k, x, g0);
        lemma_sort_by_key_stable(k, s.drop_last(), g0);
        let sp = sort_by_key(k, s.drop_last());
        lemma_sort_by_key_sorted(k, s.drop_last());
        lemma_insert_tied_filter(k, sp, s.last(), g0);
    }
}

/// Executable comparison: whether `a` may stand before `b` under key `k`.
pub fn le_key(k: SortKey, a: &Game, b: &Game) -> (r: bool)
    ensures
        r == key_le(k, *a, *b),
{
    match k {
        SortKey::Newest => {
            let da: &str = match &a.details.release_date {
                Some(d) => d.as_str(),
                None => "1970-01-01",
            };
            let db: &str = match &b.details.release_date {
                Some(d) => d.as_str(),
                None => "1970-01-01",
            };
            crate::text::lex_le_str(db, da)
        },
        SortKey::Rating => a.stats.rating >= b.stats.rating,
        SortKey::PriceLow => a.pricing.current_price <= b.pricing.current_price,
        SortKey::PriceHigh => a.pricing.current_price >= b.pricing.current_price,
        SortKey::AiScore => {
            let sa: u32 = match &a.ai_score {
                Some(s) => *s,
                None => 0,
            };
            let sb: u32 = match &b.ai_score {
                Some(s) => *s,
                None => 0,
            };
            sa >= sb
        },
        SortKey::Downloads => a.stats.download_count >= b.stats.download_count,
    }
}

/// The position at which a new record is inserted: the first index whose
/// record may not stand before the new one.
fn find_insert_pos(k: SortKey, out: &Vec<Game>, g: &Game) -> (j: usize)
    ensures
        0 <= j <= out@.len(),
        forall|t: int| 0 <= t < j ==> key_le(k, #[trigger] out@[t], *g),
        j < out@.len() ==> !key_le(k, out@[j as int], *g),
{
    let n: usize = out.len();
    let mut j: usize = 0;
    while j < n
        invariant
            n == out@.len(),
            0 <= j <= n,
            forall|t: int| 0 <= t < j ==> key_le(k, #[trigger] out@[t], *g),
        decreases n - j,
    {
        if !le_key(k, &out[j], g) {
            return j;
        }
        j = j + 1;
    }
    j
}

/// Insert one record into an already sorted vector, keeping it sorted and
/// placing the record after its ties.
fn insert_game(k: SortKey, out: &mut Vec<Game>, g: Game)
    ensures
        final(out)@ == insert_sorted(k, old(out)@, g),
{
    let j = find_insert_pos(k, out, &g);
    proof {
        lemma_ins_pos_props(k, out@, g);
        let p = ins_pos(k, out@, g);
        if j < p {
            assert(key_le(k, out@[j as int], g));
            assert(false);
        }
        if p < j {
            assert(key_le(k, out@[p], g));
            assert(false);
        }
    }
    out.insert(j, g);
}

/// Stable sort of a catalog snapshot by the requested key.
pub fn sort_games(k: SortKey, games: Vec<Game>) -> (r: Vec<Game>)
    ensures
        r@ == sort_by_key(k, games@),
{
    let ghost orig = games@;
    let mut v = games;
    let mut out: Vec<Game> = Vec::new();
    let ghost mut done: int = 0;
    proof {
        assert(orig.skip(0) =~= orig);
        assert(orig.take(0) =~= Seq::<Game>::empty());
    }
    while v.len() > 0
        invariant
            0 <= done <= orig.len(),
            v@ == orig.skip(done),
            out@ == sort_by_key(k, orig.take(done)),
        decreases v@.len(),
    {
        let g = v.remove(0);
        proof {
            assert(g == orig[done]);
            assert(orig.skip(done).remove(0) =~= orig.skip(done + 1));
        }
        insert_game(k, &mut out, g);
        proof {
            assert(orig.take(done + 1).drop_last() =~= orig.take(done));
            assert(orig.take(done + 1).last() == orig[done]);
            done = done + 1;
        }
    }
    proof {
        assert(done == orig.len());
        assert(orig.take(done) =~= orig);
    }
    out
}

} // verus!
