//! Reciprocal rank fusion: the scores that two ranked lists of document ids
//! give to each document, and the ranking that follows from them.
//!
//! A score is a whole number of units of `1 / SCORE_SCALE`.
use vstd::arithmetic::div_mod::{lemma_basic_div, lemma_div_is_ordered_by_denominator};
use std::collections::HashMap;
use vstd::prelude::*;
use vstd::std_specs::hash::group_hash_axioms;

verus! {

/// The constant `K` of reciprocal rank fusion.
pub const RRF_K: u64 = 60;

/// How many units of score make one.
pub const SCORE_SCALE: u64 = 1000000000;

/// What a hit at the 0-based rank `rank` of a list adds to the score of its
/// document: `1 / (K + rank + 1)`, in units of score, rounded down.
pub open spec fn contribution(rank: nat) -> nat {
    SCORE_SCALE as nat / (RRF_K as nat + rank + 1)
}

/// What the list `ids` adds to the score of `doc`: the sum of the
/// contributions of the ranks at which `doc` stands.
pub open spec fn list_score(ids: Seq<i64>, doc: i64) -> nat
    decreases ids.len(),
{
    if ids.len() == 0 {
        0
    } else {
        list_score(ids.drop_last(), doc) + if ids.last() == doc {
            contribution((ids.len() - 1) as nat)
        } else {
            0
        }
    }
}

/// The fused score of `doc`: what the keyword list and the vector list add
/// to it. A list in which `doc` does not stand adds nothing.
pub open spec fn fused_score(keyword: Seq<i64>, vector: Seq<i64>, doc: i64) -> nat {
    list_score(keyword, doc) + list_score(vector, doc)
}

/// The last rank at which `doc` stands in `ids`.
pub open spec fn last_position(ids: Seq<i64>, doc: i64) -> Option<int>
    decreases ids.len(),
{
    if ids.len() == 0 {
        None
    } else if ids.last() == doc {
        Some(ids.len() - 1)
    } else {
        last_position(ids.drop_last(), doc)
    }
}

/// The ids of `ids` without repetitions, each at its first place.
pub open spec fn distinct(ids: Seq<i64>) -> Seq<i64>
    decreases ids.len(),
{
    if ids.len() == 0 {
        Seq::empty()
    } else {
        let before = distinct(ids.drop_last());
        if before.contains(ids.last()) {
            before
        } else {
            before.push(ids.last())
        }
    }
}

/// The most that one hit adds to a score.
pub open spec fn max_contribution() -> nat {
    16393442
}

/// The contribution of a rank is at most that of rank 0, and nothing from
/// the rank `SCORE_SCALE` on.
pub proof fn lemma_contribution(rank: nat)
    ensures
        contribution(rank) <= max_contribution(),
        contribution(0) == max_contribution(),
        rank >= SCORE_SCALE ==> contribution(rank) == 0,
        rank + RRF_K < SCORE_SCALE ==> contribution(rank) >= 1,
{
    lemma_div_is_ordered_by_denominator(SCORE_SCALE as int, 61, RRF_K + rank + 1);
    assert(1000000000int / 61 == 16393442) by (nonlinear_arith);
    if rank >= SCORE_SCALE {
        lemma_basic_div(SCORE_SCALE as int, RRF_K + rank + 1);
    }
    if rank + RRF_K < SCORE_SCALE {
        lemma_div_is_ordered_by_denominator(
            SCORE_SCALE as int,
            RRF_K + rank + 1,
            SCORE_SCALE as int,
        );
        assert(1000000000int / 1000000000 == 1) by (nonlinear_arith);
    }
}

/// A hit at a better rank adds at least as much.
pub proof fn lemma_contribution_decreases(better: nat, worse: nat)
    requires
        better <= worse,
    ensures
        contribution(better) >= contribution(worse),
{
    lemma_div_is_ordered_by_denominator(
        SCORE_SCALE as int,
        RRF_K + better + 1,
        RRF_K + worse + 1,
    );
}

/// The most that one list adds to a score, however long it is.
pub open spec fn max_list_score() -> nat {
    16393442000000000
}

/// One list adds at most `max_list_score` to a score.
pub proof fn lemma_list_score_bound(ids: Seq<i64>, doc: i64)
    ensures
        list_score(ids, doc) <= max_list_score(),
        list_score(ids, doc) <= ids.len() * max_contribution(),
    decreases ids.len(),
{
    if ids.len() > 0 {
        let n = (ids.len() - 1) as nat;
        lemma_list_score_bound(ids.drop_last(), doc);
        lemma_contribution(n);
        if n >= SCORE_SCALE {
            assert(contribution(n) == 0);
        } else {
            assert(list_score(ids.drop_last(), doc) <= n * 16393442);
        }
    }
}

/// A list adds nothing to the score of a document that does not stand in
/// it, and gives it no rank.
pub proof fn lemma_absent(ids: Seq<i64>, doc: i64)
    requires
        !ids.contains(doc),
    ensures
        list_score(ids, doc) == 0,
        last_position(ids, doc) is None,
    decreases ids.len(),
{
    if ids.len() > 0 {
        assert(ids[ids.len() - 1] != doc);
        assert(!ids.drop_last().contains(doc)) by {
            if ids.drop_last().contains(doc) {
                let j = choose|j: int| 0 <= j < ids.drop_last().len() && ids.drop_last()[j] == doc;
                assert(ids[j] == doc);
            }
        }
        lemma_absent(ids.drop_last(), doc);
    }
}

/// A document that stands in a list has a last rank there, at which it
/// stands.
pub proof fn lemma_present(ids: Seq<i64>, doc: i64)
    requires
        ids.contains(doc),
    ensures
        last_position(ids, doc) is Some,
        0 <= last_position(ids, doc)->Some_0 < ids.len(),
        ids[last_position(ids, doc)->Some_0] == doc,
        list_score(ids, doc) >= contribution(last_position(ids, doc)->Some_0 as nat),
    decreases ids.len(),
{
    if ids.len() > 0 && ids.last() != doc {
        let j = choose|j: int| 0 <= j < ids.len() && ids[j] == doc;
        assert(ids.drop_last()[j] == doc);
        assert(ids.drop_last().contains(doc));
        lemma_present(ids.drop_last(), doc);
        let p = last_position(ids.drop_last(), doc)->Some_0;
        assert(ids.drop_last()[p] == ids[p]);
    }
}

/// The distinct ids of a list are the ids that stand in it, each once.
pub proof fn lemma_distinct(ids: Seq<i64>)
    ensures
        forall|d: i64| distinct(ids).contains(d) <==> ids.contains(d),
        forall|i: int, j: int|
            0 <= i < j < distinct(ids).len() ==> distinct(ids)[i] != distinct(ids)[j],
        distinct(ids).len() <= ids.len(),
    decreases ids.len(),
{
    if ids.len() > 0 {
        let rest = ids.drop_last();
        let before = distinct(rest);
        lemma_distinct(rest);
        assert forall|d: i64| distinct(ids).contains(d) <==> ids.contains(d) by {
            if ids.contains(d) {
                let j = choose|j: int| 0 <= j < ids.len() && ids[j] == d;
                if j < rest.len() {
                    assert(rest[j] == d);
                    assert(rest.contains(d));
                    assert(before.contains(d));
                    if !before.contains(ids.last()) {
                        let k = choose|k: int| 0 <= k < before.len() && before[k] == d;
                        assert(before.push(ids.last())[k] == d);
                    }
                } else {
                    if !before.contains(ids.last()) {
                        assert(before.push(ids.last())[before.len() as int] == d);
                    }
                }
            }
            if distinct(ids).contains(d) {
                let k = choose|k: int| 0 <= k < distinct(ids).len() && distinct(ids)[k] == d;
                if k < before.len() {
                    assert(before[k] == d);
                    assert(rest.contains(d));
                    let j = choose|j: int| 0 <= j < rest.len() && rest[j] == d;
                    assert(ids[j] == d);
                } else {
                    assert(ids[ids.len() - 1] == d);
                }
            }
        }
    }
}

/// What one more hit at the end of a list changes: it adds its
/// contribution to the score of its document and becomes that document's
/// last rank; nothing changes for another document.
pub proof fn lemma_one_more_hit(ids: Seq<i64>, doc: i64, other: i64)
    ensures
        list_score(ids.push(doc), other) == list_score(ids, other) + if other == doc {
            contribution(ids.len())
        } else {
            0
        },
        last_position(ids.push(doc), other) == if other == doc {
            Some(ids.len() as int)
        } else {
            last_position(ids, other)
        },
{
    assert(ids.push(doc).drop_last() =~= ids);
    assert(ids.push(doc).last() == doc);
}

/// What the two lists say of one document.
#[derive(Clone, Copy, Debug)]
pub struct Tally {
    /// The document.
    pub doc_id: i64,
    /// Its fused score.
    pub score: u64,
    /// The last rank at which it stands in the keyword list.
    pub keyword_rank: Option<usize>,
    /// The last rank at which it stands in the vector list.
    pub vector_rank: Option<usize>,
}

/// Whether a rank held in memory is the rank that a contract speaks of.
pub open spec fn same_rank(held: Option<usize>, rank: Option<int>) -> bool {
    match (held, rank) {
        (Some(a), Some(b)) => a == b,
        (None, None) => true,
        _ => false,
    }
}

/// Whether `t` says of its document what the two lists say of it.
pub open spec fn is_tally(t: Tally, keyword: Seq<i64>, vector: Seq<i64>) -> bool {
    &&& t.score == fused_score(keyword, vector, t.doc_id)
    &&& same_rank(t.keyword_rank, last_position(keyword, t.doc_id))
    &&& same_rank(t.vector_rank, last_position(vector, t.doc_id))
}

/// The documents of the given tallies.
pub open spec fn doc_ids(tallies: Seq<Tally>) -> Seq<i64> {
    Seq::new(tallies.len(), |i: int| tallies[i].doc_id)
}

/// What a hit at the 0-based rank `rank` adds to the score of its document.
pub fn rrf_contribution(rank: usize) -> (c: u64)
    ensures
        c == contribution(rank as nat),
        c <= max_contribution(),
{
    proof {
        lemma_contribution(rank as nat);
    }
    if rank as u64 >= SCORE_SCALE {
        0
    } else {
        SCORE_SCALE / (RRF_K + rank as u64 + 1)
    }
}

/// Whether `index` tells of each document of `tallies`, and of no other,
/// the place of its tally.
pub open spec fn indexes(index: Map<i64, usize>, tallies: Seq<Tally>) -> bool {
    &&& forall|d: i64| #[trigger]
        index.contains_key(d) ==> index[d] < tallies.len() && tallies[index[d] as int].doc_id == d
    &&& forall|k: int|
        0 <= k < tallies.len() ==> index.contains_key((#[trigger] tallies[k]).doc_id)
}

/// The place of the tally of `doc` among `tallies`, looked up in `index`.
fn find_tally(index: &HashMap<i64, usize>, tallies: &Vec<Tally>, doc: i64) -> (r: Option<usize>)
    requires
        indexes(index@, tallies@),
    ensures
        match r {
            Some(k) => k < tallies.len() && tallies@[k as int].doc_id == doc,
            None => !doc_ids(tallies@).contains(doc),
        },
{
    broadcast use group_hash_axioms;

    match index.get(&doc) {
        Some(k) => {
            assert(index@.contains_key(doc));
            Some(*k)
        },
        None => {
            proof {
                if doc_ids(tallies@).contains(doc) {
                    let j = choose|j: int|
                        0 <= j < doc_ids(tallies@).len() && doc_ids(tallies@)[j] == doc;
                    assert(index@.contains_key(tallies@[j].doc_id));
                }
            }
            None
        },
    }
}

/// Puts a new tally at the end of `tallies` and notes its place in `index`.
fn push_tally(index: &mut HashMap<i64, usize>, tallies: &mut Vec<Tally>, tally: Tally)
    requires
        indexes(old(index)@, old(tallies)@),
        !doc_ids(old(tallies)@).contains(tally.doc_id),
    ensures
        final(tallies)@ == old(tallies)@.push(tally),
        indexes(final(index)@, final(tallies)@),
{
    broadcast use group_hash_axioms;

    let place = tallies.len();
    let ghost before = tallies@;
    let ghost noted = index@;
    tallies.push(tally);
    index.insert(tally.doc_id, place);
    proof {
        assert forall|d: i64| #[trigger] index@.contains_key(d) implies index@[d] < tallies.len()
            && tallies@[index@[d] as int].doc_id == d by {
            if d != tally.doc_id {
                assert(noted.contains_key(d));
            }
        }
        assert forall|k: int| 0 <= k < tallies.len() implies index@.contains_key(
            (#[trigger] tallies@[k]).doc_id,
        ) by {
            if k < before.len() {
                assert(noted.contains_key(before[k].doc_id));
            }
        }
    }
}

/// Puts `tally`, which speaks of the same document, in the place `k` of
/// `tallies`.
fn replace_tally(
    index: &HashMap<i64, usize>,
    tallies: &mut Vec<Tally>,
    k: usize,
    tally: Tally,
)
    requires
        indexes(index@, old(tallies)@),
        k < old(tallies).len(),
        old(tallies)@[k as int].doc_id == tally.doc_id,
    ensures
        final(tallies)@ == old(tallies)@.update(k as int, tally),
        indexes(index@, final(tallies)@),
{
    let ghost before = tallies@;
    tallies.set(k, tally);
    proof {
        assert forall|d: i64| #[trigger] index@.contains_key(d) implies index@[d] < tallies.len()
            && tallies@[index@[d] as int].doc_id == d by {
            assert(before[index@[d] as int].doc_id == d);
        }
        assert forall|j: int| 0 <= j < tallies.len() implies index@.contains_key(
            (#[trigger] tallies@[j]).doc_id,
        ) by {
            assert(index@.contains_key(before[j].doc_id));
        }
    }
}

proof fn lemma_doc_ids_contains(tallies: Seq<Tally>, k: int)
    requires
        0 <= k < tallies.len(),
    ensures
        doc_ids(tallies).contains(tallies[k].doc_id),
{
    assert(doc_ids(tallies)[k] == tallies[k].doc_id);
}

/// One tally for each document of the two lists, in the order in which the
/// documents first appear, the keyword list read before the vector list.
/// The tallies stand in a vector; a hash map tells the place of the tally of
/// each document.
pub fn tally_hits(keyword: &Vec<i64>, vector: &Vec<i64>) -> (out: Vec<Tally>)
    ensures
        doc_ids(out@) == distinct(keyword@ + vector@),
        forall|i: int| 0 <= i < out.len() ==> is_tally(#[trigger] out@[i], keyword@, vector@),
{
    let mut tallies: Vec<Tally> = Vec::new();
    let mut index: HashMap<i64, usize> = HashMap::new();
    let mut i: usize = 0;
    let ghost none = Seq::<i64>::empty();
    proof {
        assert(keyword@.take(0) =~= Seq::<i64>::empty());
        assert(doc_ids(tallies@) =~= distinct(keyword@.take(0)));
    }
    while i < keyword.len()
        invariant
            i <= keyword.len(),
            none == Seq::<i64>::empty(),
            indexes(index@, tallies@),
            doc_ids(tallies@) == distinct(keyword@.take(i as int)),
            forall|k: int|
                0 <= k < tallies.len() ==> is_tally(
                    #[trigger] tallies@[k],
                    keyword@.take(i as int),
                    none,
                ),
        decreases keyword.len() - i,
    {
        let doc = keyword[i];
        let c = rrf_contribution(i);
        let ghost seen = keyword@.take(i as int);
        let ghost next = keyword@.take(i + 1);
        let ghost before = tallies@;
        proof {
            assert(next =~= seen.push(doc));
            assert(next.drop_last() =~= seen);
            lemma_distinct(seen);
        }
        match find_tally(&index, &tallies, doc) {
            Some(k) => {
                let t = tallies[k];
                proof {
                    lemma_list_score_bound(seen, doc);
                    lemma_doc_ids_contains(before, k as int);
                }
                replace_tally(
                    &index,
                    &mut tallies,
                    k,
                    Tally {
                        doc_id: doc,
                        score: t.score + c,
                        keyword_rank: Some(i),
                        vector_rank: t.vector_rank,
                    },
                );
                proof {
                    assert(doc_ids(tallies@) =~= doc_ids(before));
                    assert forall|j: int| 0 <= j < tallies.len() implies is_tally(
                        #[trigger] tallies@[j],
                        next,
                        none,
                    ) by {
                        assert(is_tally(before[j], seen, none));
                        assert(doc_ids(before)[j] == before[j].doc_id);
                        assert(doc_ids(before)[k as int] == doc);
                        lemma_one_more_hit(seen, doc, before[j].doc_id);
                    }
                }
            },
            None => {
                proof {
                    lemma_absent(seen, doc);
                }
                push_tally(
                    &mut index,
                    &mut tallies,
                    Tally { doc_id: doc, score: c, keyword_rank: Some(i), vector_rank: None },
                );
                proof {
                    assert(doc_ids(tallies@) =~= doc_ids(before).push(doc));
                    assert forall|j: int| 0 <= j < tallies.len() implies is_tally(
                        #[trigger] tallies@[j],
                        next,
                        none,
                    ) by {
                        if j < before.len() {
                            assert(is_tally(before[j], seen, none));
                            assert(doc_ids(before)[j] == before[j].doc_id);
                            lemma_one_more_hit(seen, doc, before[j].doc_id);
                        } else {
                            lemma_one_more_hit(seen, doc, doc);
                        }
                    }
                }
            },
        }
        i += 1;
    }
    let mut j: usize = 0;
    proof {
        assert(keyword@.take(keyword.len() as int) =~= keyword@);
        assert(vector@.take(0) =~= none);
        assert(keyword@ + vector@.take(0) =~= keyword@);
    }
    while j < vector.len()
        invariant
            j <= vector.len(),
            indexes(index@, tallies@),
            doc_ids(tallies@) == distinct(keyword@ + vector@.take(j as int)),
            forall|k: int|
                0 <= k < tallies.len() ==> is_tally(
                    #[trigger] tallies@[k],
                    keyword@,
                    vector@.take(j as int),
                ),
        decreases vector.len() - j,
    {
        let doc = vector[j];
        let c = rrf_contribution(j);
        let ghost seen = vector@.take(j as int);
        let ghost next = vector@.take(j + 1);
        let ghost before = tallies@;
        proof {
            assert(next =~= seen.push(doc));
            assert(next.drop_last() =~= seen);
            assert((keyword@ + next).drop_last() =~= keyword@ + seen);
            assert((keyword@ + next).last() == doc);
            lemma_distinct(keyword@ + seen);
        }
        match find_tally(&index, &tallies, doc) {
            Some(k) => {
                let t = tallies[k];
                proof {
                    lemma_list_score_bound(seen, doc);
                    lemma_list_score_bound(keyword@, doc);
                    lemma_doc_ids_contains(before, k as int);
                }
                replace_tally(
                    &index,
                    &mut tallies,
                    k,
                    Tally {
                        doc_id: doc,
                        score: t.score + c,
                        keyword_rank: t.keyword_rank,
                        vector_rank: Some(j),
                    },
                );
                proof {
                    assert(doc_ids(tallies@) =~= doc_ids(before));
                    assert forall|m: int| 0 <= m < tallies.len() implies is_tally(
                        #[trigger] tallies@[m],
                        keyword@,
                        next,
                    ) by {
                        assert(is_tally(before[m], keyword@, seen));
                        assert(doc_ids(before)[m] == before[m].doc_id);
                        assert(doc_ids(before)[k as int] == doc);
                        lemma_one_more_hit(seen, doc, before[m].doc_id);
                    }
                }
            },
            None => {
                proof {
                    assert(!(keyword@ + seen).contains(doc));
                    assert(!keyword@.contains(doc)) by {
                        if keyword@.contains(doc) {
                            let a = choose|a: int| 0 <= a < keyword@.len() && keyword@[a] == doc;
                            assert((keyword@ + seen)[a] == doc);
                        }
                    }
                    assert(!seen.contains(doc)) by {
                        if seen.contains(doc) {
                            let a = choose|a: int| 0 <= a < seen.len() && seen[a] == doc;
                            assert((keyword@ + seen)[keyword@.len() + a] == doc);
                        }
                    }
                    lemma_absent(seen, doc);
                    lemma_absent(keyword@, doc);
                }
                push_tally(
                    &mut index,
                    &mut tallies,
                    Tally { doc_id: doc, score: c, keyword_rank: None, vector_rank: Some(j) },
                );
                proof {
                    assert(doc_ids(tallies@) =~= doc_ids(before).push(doc));
                    assert forall|m: int| 0 <= m < tallies.len() implies is_tally(
                        #[trigger] tallies@[m],
                        keyword@,
                        next,
                    ) by {
                        if m < before.len() {
                            assert(is_tally(before[m], keyword@, seen));
                            assert(doc_ids(before)[m] == before[m].doc_id);
                            lemma_one_more_hit(seen, doc, before[m].doc_id);
                        } else {
                            lemma_one_more_hit(seen, doc, doc);
                        }
                    }
                }
            },
        }
        j += 1;
    }
    proof {
        assert(vector@.take(vector.len() as int) =~= vector@);
    }
    tallies
}

/// The first place of `doc` in `ids`, or the length of `ids` where it does
/// not stand in it.
pub open spec fn index_of(ids: Seq<i64>, doc: i64) -> int
    decreases ids.len(),
{
    if ids.len() == 0 || ids[0] == doc {
        0
    } else {
        1 + index_of(ids.skip(1), doc)
    }
}

/// In a list without repetitions each id stands at its first place.
pub proof fn lemma_index_of(ids: Seq<i64>, j: int)
    requires
        0 <= j < ids.len(),
        forall|a: int, b: int| 0 <= a < b < ids.len() ==> ids[a] != ids[b],
    ensures
        index_of(ids, ids[j]) == j,
    decreases ids.len(),
{
    if j > 0 {
        assert(ids[0] != ids[j]);
        let rest = ids.skip(1);
        assert forall|a: int, b: int| 0 <= a < b < rest.len() implies rest[a] != rest[b] by {
            assert(ids[a + 1] != ids[b + 1]);
        }
        assert(rest[j - 1] == ids[j]);
        lemma_index_of(rest, j - 1);
    }
}

/// Whether, among tallies of equal score, each stands before those that
/// come later in `order`.
pub open spec fn ties_in_order(tallies: Seq<Tally>, order: Seq<i64>) -> bool {
    forall|a: int, b: int|
        0 <= a < b < tallies.len() && tallies[a].score == tallies[b].score ==> index_of(
            order,
            tallies[a].doc_id,
        ) < index_of(order, tallies[b].doc_id)
}

/// Whether the tallies stand from the highest score to the lowest.
pub open spec fn ranked(tallies: Seq<Tally>) -> bool {
    forall|a: int, b: int| 0 <= a <= b < tallies.len() ==> tallies[a].score >= tallies[b].score
}

/// Whether no two of the tallies speak of one document.
pub open spec fn one_per_document(tallies: Seq<Tally>) -> bool {
    forall|a: int, b: int| 0 <= a < b < tallies.len() ==> tallies[a].doc_id != tallies[b].doc_id
}

/// Whether `sorted` holds the first `i` of `tallies`, each once, from the
/// highest score to the lowest, equal scores in the order of `tallies`.
pub open spec fn sorts_first(sorted: Seq<Tally>, tallies: Seq<Tally>, i: int) -> bool {
    &&& sorted.len() == i
    &&& ranked(sorted)
    &&& one_per_document(sorted)
    &&& ties_in_order(sorted, doc_ids(tallies))
    &&& forall|a: int|
        0 <= a < sorted.len() ==> exists|j: int| 0 <= j < i && tallies[j] == #[trigger] sorted[a]
    &&& forall|j: int| 0 <= j < i ==> sorted.contains(#[trigger] tallies[j])
}

/// Putting the next tally behind the tallies that score at least as high,
/// and before those that score lower, keeps the order.
proof fn lemma_insert_tally(tallies: Seq<Tally>, before: Seq<Tally>, i: int, p: int)
    requires
        0 <= i < tallies.len(),
        0 <= p <= before.len(),
        one_per_document(tallies),
        sorts_first(before, tallies, i),
        forall|a: int| 0 <= a < p ==> before[a].score >= tallies[i].score,
        p < before.len() ==> before[p].score < tallies[i].score,
    ensures
        sorts_first(before.insert(p, tallies[i]), tallies, i + 1),
{
    let t = tallies[i];
    let after = before.insert(p, t);
    let order = doc_ids(tallies);
    assert forall|a: int, b: int| 0 <= a < b < order.len() implies order[a] != order[b] by {
        assert(tallies[a].doc_id != tallies[b].doc_id);
    }
    assert(ranked(after)) by {
        assert forall|a: int, b: int| 0 <= a <= b < after.len() implies after[a].score
            >= after[b].score by {
            let x = if a < p {
                a
            } else {
                a - 1
            };
            let y = if b < p {
                b
            } else {
                b - 1
            };
            if a != p && b != p {
                assert(before[x].score >= before[y].score);
            } else if a == p && b != p {
                assert(before[p].score >= before[y].score);
            }
        }
    }
    assert forall|a: int| 0 <= a < after.len() implies exists|j: int|
        0 <= j < i + 1 && tallies[j] == #[trigger] after[a] by {
        if a == p {
            assert(tallies[i] == after[a]);
        } else {
            let x = if a < p {
                a
            } else {
                a - 1
            };
            let j = choose|j: int| 0 <= j < i && tallies[j] == before[x];
            assert(tallies[j] == after[a]);
        }
    }
    assert forall|j: int| 0 <= j < i + 1 implies after.contains(#[trigger] tallies[j]) by {
        if j == i {
            assert(after[p] == tallies[j]);
        } else {
            let x = choose|x: int| 0 <= x < before.len() && before[x] == tallies[j];
            if x < p {
                assert(after[x] == tallies[j]);
            } else {
                assert(after[x + 1] == tallies[j]);
            }
        }
    }
    assert(one_per_document(after)) by {
        assert forall|a: int, b: int| 0 <= a < b < after.len() implies after[a].doc_id
            != after[b].doc_id by {
            let x = if a < p {
                a
            } else {
                a - 1
            };
            let y = if b < p {
                b
            } else {
                b - 1
            };
            if a != p && b != p {
                assert(before[x].doc_id != before[y].doc_id);
            } else {
                let other = if a == p {
                    y
                } else {
                    x
                };
                let j = choose|j: int| 0 <= j < i && tallies[j] == before[other];
                assert(tallies[j].doc_id != tallies[i].doc_id);
            }
        }
    }
    assert(ties_in_order(after, order)) by {
        assert forall|a: int, b: int|
            0 <= a < b < after.len() && after[a].score == after[b].score implies index_of(
            order,
            after[a].doc_id,
        ) < index_of(order, after[b].doc_id) by {
            let x = if a < p {
                a
            } else {
                a - 1
            };
            let y = if b < p {
                b
            } else {
                b - 1
            };
            if a != p && b != p {
                assert(before[x].score == before[y].score);
            } else if b == p {
                let j = choose|j: int| 0 <= j < i && tallies[j] == before[x];
                lemma_index_of(order, j);
                lemma_index_of(order, i);
                assert(order[j] == before[x].doc_id);
                assert(order[i] == t.doc_id);
            } else {
                // Behind the new tally stand lower scores only.
                assert(before[p].score >= before[y].score);
            }
        }
    }
}

/// Cutting a sorted list after `limit` tallies keeps the best ones.
proof fn lemma_keep_best(tallies: Seq<Tally>, full: Seq<Tally>, limit: int, out: Seq<Tally>)
    requires
        sorts_first(full, tallies, tallies.len() as int),
        0 <= limit,
        out == if limit <= full.len() {
            full.subrange(0, limit)
        } else {
            full
        },
    ensures
        ranked(out),
        one_per_document(out),
        ties_in_order(out, doc_ids(tallies)),
        forall|a: int| 0 <= a < out.len() ==> tallies.contains(#[trigger] out[a]),
        forall|j: int|
            0 <= j < tallies.len() && !out.contains(#[trigger] tallies[j]) ==> out.len() == limit
                && forall|a: int| 0 <= a < out.len() ==> out[a].score >= tallies[j].score,
{
    assert forall|a: int| 0 <= a < out.len() implies tallies.contains(#[trigger] out[a]) by {
        assert(out[a] == full[a]);
        let j = choose|j: int| 0 <= j < tallies.len() && tallies[j] == full[a];
        assert(tallies[j] == out[a]);
    }
    assert forall|j: int| 0 <= j < tallies.len() && !out.contains(#[trigger] tallies[j]) implies
        out.len() == limit && forall|a: int|
        0 <= a < out.len() ==> out[a].score >= tallies[j].score by {
        let x = choose|x: int| 0 <= x < full.len() && full[x] == tallies[j];
        if x < out.len() {
            assert(out[x] == tallies[j]);
        }
        assert forall|a: int| 0 <= a < out.len() implies out[a].score >= tallies[j].score by {
            assert(full[a].score >= full[x].score);
        }
    }
    assert(ranked(out)) by {
        assert forall|a: int, b: int| 0 <= a <= b < out.len() implies out[a].score
            >= out[b].score by {
            assert(full[a].score >= full[b].score);
        }
    }
    assert(one_per_document(out)) by {
        assert forall|a: int, b: int| 0 <= a < b < out.len() implies out[a].doc_id
            != out[b].doc_id by {
            assert(full[a].doc_id != full[b].doc_id);
        }
    }
    assert(ties_in_order(out, doc_ids(tallies))) by {
        assert forall|a: int, b: int|
            0 <= a < b < out.len() && out[a].score == out[b].score implies index_of(
            doc_ids(tallies),
            out[a].doc_id,
        ) < index_of(doc_ids(tallies), out[b].doc_id) by {
            assert(full[a].score == full[b].score);
        }
    }
}

/// The `limit` tallies with the highest scores, from the highest score to
/// the lowest; all of them where they are fewer. Among equal scores the
/// tally that stands first stays first.
pub fn top_tallies(tallies: &Vec<Tally>, limit: usize) -> (out: Vec<Tally>)
    requires
        one_per_document(tallies@),
    ensures
        out.len() == if limit < tallies.len() {
            limit
        } else {
            tallies.len()
        },
        ranked(out@),
        one_per_document(out@),
        ties_in_order(out@, doc_ids(tallies@)),
        forall|a: int| 0 <= a < out.len() ==> tallies@.contains(#[trigger] out@[a]),
        forall|j: int|
            0 <= j < tallies.len() && !out@.contains(#[trigger] tallies@[j]) ==> out.len() == limit
                && forall|a: int| 0 <= a < out.len() ==> out@[a].score >= tallies@[j].score,
{
    let mut sorted: Vec<Tally> = Vec::new();
    let mut i: usize = 0;
    while i < tallies.len()
        invariant
            i <= tallies.len(),
            one_per_document(tallies@),
            sorts_first(sorted@, tallies@, i as int),
        decreases tallies.len() - i,
    {
        let t = tallies[i];
        let mut p: usize = 0;
        while p < sorted.len() && sorted[p].score >= t.score
            invariant
                p <= sorted.len(),
                forall|a: int| 0 <= a < p ==> sorted@[a].score >= t.score,
            decreases sorted.len() - p,
        {
            p += 1;
        }
        proof {
            lemma_insert_tally(tallies@, sorted@, i as int, p as int);
        }
        sorted.insert(p, t);
        i += 1;
    }
    let ghost full = sorted@;
    sorted.truncate(limit);
    proof {
        lemma_keep_best(tallies@, full, limit as int, sorted@);
    }
    sorted
}

/// A list adds to the score of a document at least the contribution of
/// each rank at which the document stands.
pub proof fn lemma_occurrence(ids: Seq<i64>, doc: i64, rank: int)
    requires
        0 <= rank < ids.len(),
        ids[rank] == doc,
    ensures
        list_score(ids, doc) >= contribution(rank as nat),
    decreases ids.len(),
{
    if rank < ids.len() - 1 {
        assert(ids.drop_last()[rank] == doc);
        lemma_occurrence(ids.drop_last(), doc, rank);
    }
}

/// Whether `doc` stands in `ids` at the rank `rank` and nowhere else.
pub open spec fn stands_once(ids: Seq<i64>, doc: i64, rank: int) -> bool {
    &&& 0 <= rank < ids.len()
    &&& forall|k: int| 0 <= k < ids.len() ==> (#[trigger] ids[k] == doc <==> k == rank)
}

/// A list adds to the score of a document that stands in it once the
/// contribution of that rank.
pub proof fn lemma_stands_once(ids: Seq<i64>, doc: i64, rank: int)
    requires
        stands_once(ids, doc, rank),
    ensures
        list_score(ids, doc) == contribution(rank as nat),
    decreases ids.len(),
{
    let rest = ids.drop_last();
    if rank == ids.len() - 1 {
        assert(ids[rank] == doc);
        assert(!rest.contains(doc)) by {
            if rest.contains(doc) {
                let k = choose|k: int| 0 <= k < rest.len() && rest[k] == doc;
                assert(ids[k] == doc);
            }
        }
        lemma_absent(rest, doc);
    } else {
        assert(ids[ids.len() - 1] != doc);
        assert(stands_once(rest, doc, rank)) by {
            assert forall|k: int| 0 <= k < rest.len() implies (#[trigger] rest[k] == doc <==> k
                == rank) by {
                assert(rest[k] == ids[k]);
            }
        }
        lemma_stands_once(rest, doc, rank);
    }
}

/// Agreement wins: a document that stands in both lists has a higher fused
/// score than a document that stands once in one list only, at a rank that
/// is no better than the better of the first document's two ranks. (The
/// ranks of the first document lie below `SCORE_SCALE - RRF_K`, where a
/// hit still adds a whole unit of score.)
pub proof fn lemma_agreement_wins(
    keyword: Seq<i64>,
    vector: Seq<i64>,
    both: i64,
    keyword_rank: int,
    vector_rank: int,
    single: i64,
    single_rank: int,
)
    requires
        0 <= keyword_rank < keyword.len(),
        keyword[keyword_rank] == both,
        0 <= vector_rank < vector.len(),
        vector[vector_rank] == both,
        keyword_rank + RRF_K < SCORE_SCALE,
        vector_rank + RRF_K < SCORE_SCALE,
        (stands_once(keyword, single, single_rank) && !vector.contains(single)) || (stands_once(
            vector,
            single,
            single_rank,
        ) && !keyword.contains(single)),
        single_rank >= keyword_rank || single_rank >= vector_rank,
    ensures
        fused_score(keyword, vector, both) > fused_score(keyword, vector, single),
{
    lemma_occurrence(keyword, both, keyword_rank);
    lemma_occurrence(vector, both, vector_rank);
    lemma_contribution(keyword_rank as nat);
    lemma_contribution(vector_rank as nat);
    if stands_once(keyword, single, single_rank) && !vector.contains(single) {
        lemma_stands_once(keyword, single, single_rank);
        lemma_absent(vector, single);
    } else {
        lemma_stands_once(vector, single, single_rank);
        lemma_absent(keyword, single);
    }
    if single_rank >= keyword_rank {
        lemma_contribution_decreases(keyword_rank as nat, single_rank as nat);
    } else {
        lemma_contribution_decreases(vector_rank as nat, single_rank as nat);
    }
}

/// Whether no id stands twice in `ids`.
pub open spec fn no_repetition(ids: Seq<i64>) -> bool {
    forall|a: int, b: int| 0 <= a < b < ids.len() ==> ids[a] != ids[b]
}

/// What a list without repetition adds to the score of a document: the
/// contribution of the rank at which the document stands, and nothing where
/// it does not stand in the list.
pub open spec fn rank_score(ids: Seq<i64>, doc: i64) -> nat {
    if ids.contains(doc) {
        contribution(index_of(ids, doc) as nat)
    } else {
        0
    }
}

/// A list without repetition adds to the score of a document the
/// contribution of its one rank there.
pub proof fn lemma_rank_score(ids: Seq<i64>, doc: i64)
    requires
        no_repetition(ids),
    ensures
        list_score(ids, doc) == rank_score(ids, doc),
        ids.contains(doc) ==> 0 <= index_of(ids, doc) < ids.len() && ids[index_of(ids, doc)]
            == doc,
{
    if ids.contains(doc) {
        let j = choose|j: int| 0 <= j < ids.len() && ids[j] == doc;
        lemma_index_of(ids, j);
        assert(stands_once(ids, doc, j)) by {
            assert forall|k: int| 0 <= k < ids.len() implies (#[trigger] ids[k] == doc <==> k
                == j) by {
                if ids[k] == doc {
                    lemma_index_of(ids, k);
                }
            }
        }
        lemma_stands_once(ids, doc, j);
    } else {
        lemma_absent(ids, doc);
    }
}

/// The fused score, where each list names a document at most once, is the
/// sum of one over `K` plus the rank plus one, in units of score, over the
/// lists in which the document stands. It is at most twice the
/// contribution of the first rank, and above 0 for a document of a list
/// that is so short that each of its hits still adds a whole unit of score.
pub proof fn lemma_fused_score(keyword: Seq<i64>, vector: Seq<i64>, doc: i64)
    requires
        no_repetition(keyword),
        no_repetition(vector),
    ensures
        fused_score(keyword, vector, doc) == rank_score(keyword, doc) + rank_score(vector, doc),
        fused_score(keyword, vector, doc) <= 2 * max_contribution(),
        (keyword.contains(doc) || vector.contains(doc)) && keyword.len() + RRF_K <= SCORE_SCALE
            && vector.len() + RRF_K <= SCORE_SCALE ==> fused_score(keyword, vector, doc) > 0,
{
    lemma_rank_score(keyword, doc);
    lemma_rank_score(vector, doc);
    if keyword.contains(doc) {
        lemma_contribution(index_of(keyword, doc) as nat);
    }
    if vector.contains(doc) {
        lemma_contribution(index_of(vector, doc) as nat);
    }
}

} // verus!
