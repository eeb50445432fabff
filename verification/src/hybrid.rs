//! Hybrid search: the results of a keyword search and of a vector search
//! fused by reciprocal rank, and the results of either search alone.
use crate::fusion::{
    distinct, doc_ids, fused_score, index_of, is_tally, last_position, lemma_absent,
    lemma_agreement_wins, lemma_distinct, lemma_present, one_per_document, stands_once,
    tally_hits, top_tallies, Tally, SCORE_SCALE,
};
use crate::store::{Document, FtsSearchResult, StoreStats};
use crate::vector::SearchResult;
use vstd::arithmetic::div_mod::lemma_div_is_ordered_by_denominator;
use vstd::prelude::*;

verus! {

/// Which search found a result.
#[derive(Debug, Clone, Copy, PartialEq, Eq, Structural)]
pub enum SearchMethod {
    /// The vector search alone.
    Vector,
    /// The keyword search alone.
    Fts,
    /// Both searches.
    Hybrid,
}

/// One result of a search.
#[derive(Debug, Clone)]
pub struct HybridSearchResult {
    /// The document.
    pub doc_id: i64,
    /// Where the document comes from; empty where the document is unknown.
    pub url: String,
    /// The title of the document.
    pub title: Option<String>,
    /// The chunk that the vector search matched.
    pub chunk_text: Option<String>,
    /// The place that the keyword search matched.
    pub snippet: Option<String>,
    /// The score of the result, in units of score; higher is better.
    pub rrf_score: u64,
    /// Which search found the result.
    pub method: SearchMethod,
}

/// How much the two indexes hold.
#[derive(Debug, Clone)]
pub struct HybridStats {
    /// The number of documents.
    pub document_count: usize,
    /// The number of vectors.
    pub vector_count: usize,
    /// The size of the texts of the documents, in bytes.
    pub total_content_bytes: usize,
}

impl HybridStats {
    /// The figures of the keyword index together with the number of vectors.
    pub fn from_parts(store: &StoreStats, vector_count: usize) -> (r: Self)
        ensures
            r.document_count == store.document_count,
            r.vector_count == vector_count,
            r.total_content_bytes == store.total_content_bytes,
    {
        HybridStats {
            document_count: store.document_count,
            vector_count,
            total_content_bytes: store.total_content_bytes,
        }
    }
}

/// The text of an optional string.
pub open spec fn opt_text(o: Option<String>) -> Option<Seq<char>> {
    match o {
        Some(s) => Some(s@),
        None => None,
    }
}

/// The documents of the hits of a keyword search, by rank.
pub open spec fn keyword_ids(hits: Seq<FtsSearchResult>) -> Seq<i64> {
    Seq::new(hits.len(), |i: int| hits[i].doc_id)
}

/// The documents of the hits of a vector search, by rank.
pub open spec fn vector_ids(hits: Seq<SearchResult>) -> Seq<i64> {
    Seq::new(hits.len(), |i: int| hits[i].doc_id)
}

/// Which search found a document that stands in the keyword list, in the
/// vector list, or in both.
pub open spec fn method_of(in_keyword: bool, in_vector: bool) -> SearchMethod {
    if in_keyword && !in_vector {
        SearchMethod::Fts
    } else if in_vector && !in_keyword {
        SearchMethod::Vector
    } else {
        SearchMethod::Hybrid
    }
}

/// Whether `r` is the fused result of its document: its score is the fused
/// score, its snippet and its chunk are those of the document's last hit in
/// the keyword list and in the vector list, its method tells in which lists
/// the document stands, and it says nothing yet of where the document comes
/// from.
pub open spec fn is_fused_result(
    r: HybridSearchResult,
    keyword: Seq<FtsSearchResult>,
    vector: Seq<SearchResult>,
) -> bool {
    let kw = keyword_ids(keyword);
    let vc = vector_ids(vector);
    &&& r.rrf_score == fused_score(kw, vc, r.doc_id)
    &&& r.url@.len() == 0
    &&& r.title is None
    &&& opt_text(r.snippet) == match last_position(kw, r.doc_id) {
        Some(p) => Some(keyword[p].content_snippet@),
        None => None,
    }
    &&& opt_text(r.chunk_text) == match last_position(vc, r.doc_id) {
        Some(p) => Some(vector[p].chunk_text@),
        None => None,
    }
    &&& r.method == method_of(kw.contains(r.doc_id), vc.contains(r.doc_id))
}

/// How many candidates each search is asked for: twice the limit, or as
/// many as the machine can count where that is less.
pub fn over_fetch(limit: usize) -> (n: usize)
    ensures
        n == if 2 * limit <= usize::MAX {
            2 * limit
        } else {
            usize::MAX as int
        },
{
    if limit > usize::MAX / 2 {
        usize::MAX
    } else {
        limit * 2
    }
}

fn keyword_doc_ids(hits: &Vec<FtsSearchResult>) -> (ids: Vec<i64>)
    ensures
        ids@ == keyword_ids(hits@),
{
    let mut ids: Vec<i64> = Vec::new();
    let mut i: usize = 0;
    while i < hits.len()
        invariant
            i <= hits.len(),
            ids.len() == i,
            forall|j: int| 0 <= j < i ==> ids@[j] == hits@[j].doc_id,
        decreases hits.len() - i,
    {
        ids.push(hits[i].doc_id);
        i += 1;
    }
    assert(ids@ =~= keyword_ids(hits@));
    ids
}

fn vector_doc_ids(hits: &Vec<SearchResult>) -> (ids: Vec<i64>)
    ensures
        ids@ == vector_ids(hits@),
{
    let mut ids: Vec<i64> = Vec::new();
    let mut i: usize = 0;
    while i < hits.len()
        invariant
            i <= hits.len(),
            ids.len() == i,
            forall|j: int| 0 <= j < i ==> ids@[j] == hits@[j].doc_id,
        decreases hits.len() - i,
    {
        ids.push(hits[i].doc_id);
        i += 1;
    }
    assert(ids@ =~= vector_ids(hits@));
    ids
}

/// The fused result that a tally stands for.
fn fused_result(t: &Tally, keyword: &Vec<FtsSearchResult>, vector: &Vec<SearchResult>) -> (r:
    HybridSearchResult)
    requires
        is_tally(*t, keyword_ids(keyword@), vector_ids(vector@)),
        (keyword_ids(keyword@) + vector_ids(vector@)).contains(t.doc_id),
    ensures
        r.doc_id == t.doc_id,
        is_fused_result(r, keyword@, vector@),
{
    let ghost kw = keyword_ids(keyword@);
    let ghost vc = vector_ids(vector@);
    proof {
        if kw.contains(t.doc_id) {
            lemma_present(kw, t.doc_id);
        } else {
            lemma_absent(kw, t.doc_id);
        }
        if vc.contains(t.doc_id) {
            lemma_present(vc, t.doc_id);
        } else {
            lemma_absent(vc, t.doc_id);
        }
    }
    let snippet = match t.keyword_rank {
        Some(p) => Some(keyword[p].content_snippet.clone()),
        None => None,
    };
    let chunk_text = match t.vector_rank {
        Some(p) => Some(vector[p].chunk_text.clone()),
        None => None,
    };
    let method = match (t.keyword_rank, t.vector_rank) {
        (Some(_), None) => SearchMethod::Fts,
        (None, Some(_)) => SearchMethod::Vector,
        _ => SearchMethod::Hybrid,
    };
    HybridSearchResult {
        doc_id: t.doc_id,
        url: String::new(),
        title: None,
        chunk_text,
        snippet,
        rrf_score: t.score,
        method,
    }
}

/// Fuses the hits of a keyword search and of a vector search, each given
/// best first, by reciprocal rank.
///
/// The results are one for each document of the two lists, the `limit`
/// best of them where they are more: no document twice, each with its
/// fused score, from the highest score to the lowest, and no document that
/// is left out scores higher than one that is returned. Among equal scores
/// the document that appears first, the keyword list read before the vector
/// list, comes first.
pub fn rrf_merge(
    fts_results: &Vec<FtsSearchResult>,
    vector_results: &Vec<SearchResult>,
    limit: usize,
) -> (out: Vec<HybridSearchResult>)
    ensures
        out.len() == if limit < distinct(
            keyword_ids(fts_results@) + vector_ids(vector_results@),
        ).len() {
            limit as int
        } else {
            distinct(keyword_ids(fts_results@) + vector_ids(vector_results@)).len() as int
        },
        forall|i: int|
            0 <= i < out.len() ==> is_fused_result(#[trigger] out@[i], fts_results@, vector_results@)
                && (keyword_ids(fts_results@) + vector_ids(vector_results@)).contains(
                out@[i].doc_id,
            ),
        forall|a: int, b: int| 0 <= a < b < out.len() ==> out@[a].doc_id != out@[b].doc_id,
        forall|a: int, b: int| 0 <= a <= b < out.len() ==> out@[a].rrf_score >= out@[b].rrf_score,
        forall|a: int, b: int|
            0 <= a < b < out.len() && out@[a].rrf_score == out@[b].rrf_score ==> index_of(
                distinct(keyword_ids(fts_results@) + vector_ids(vector_results@)),
                out@[a].doc_id,
            ) < index_of(
                distinct(keyword_ids(fts_results@) + vector_ids(vector_results@)),
                out@[b].doc_id,
            ),
        forall|d: i64|
            (keyword_ids(fts_results@) + vector_ids(vector_results@)).contains(d) && (forall|
                a: int,
            |
                0 <= a < out.len() ==> out@[a].doc_id != d) ==> out.len() == limit && forall|
                a: int,
            |
                0 <= a < out.len() ==> out@[a].rrf_score >= fused_score(
                    keyword_ids(fts_results@),
                    vector_ids(vector_results@),
                    d,
                ),
{
    let kw = keyword_doc_ids(fts_results);
    let vc = vector_doc_ids(vector_results);
    let tallies = tally_hits(&kw, &vc);
    let ghost all = kw@ + vc@;
    proof {
        lemma_distinct(all);
        assert(one_per_document(tallies@)) by {
            assert forall|a: int, b: int| 0 <= a < b < tallies.len() implies tallies@[a].doc_id
                != tallies@[b].doc_id by {
                assert(doc_ids(tallies@)[a] == tallies@[a].doc_id);
                assert(doc_ids(tallies@)[b] == tallies@[b].doc_id);
            }
        }
    }
    let top = top_tallies(&tallies, limit);
    let mut out: Vec<HybridSearchResult> = Vec::new();
    let mut i: usize = 0;
    while i < top.len()
        invariant
            i <= top.len(),
            out.len() == i,
            kw@ == keyword_ids(fts_results@),
            vc@ == vector_ids(vector_results@),
            all == kw@ + vc@,
            doc_ids(tallies@) == distinct(all),
            forall|k: int| 0 <= k < tallies.len() ==> is_tally(#[trigger] tallies@[k], kw@, vc@),
            forall|a: int| 0 <= a < top.len() ==> tallies@.contains(#[trigger] top@[a]),
            forall|d: i64| distinct(all).contains(d) <==> all.contains(d),
            forall|k: int|
                0 <= k < i ==> (#[trigger] out@[k]).doc_id == top@[k].doc_id
                    && out@[k].rrf_score == top@[k].score && is_fused_result(
                    out@[k],
                    fts_results@,
                    vector_results@,
                ) && all.contains(out@[k].doc_id),
        decreases top.len() - i,
    {
        let t = top[i];
        proof {
            assert(tallies@.contains(top@[i as int]));
            let j = choose|j: int| 0 <= j < tallies.len() && tallies@[j] == t;
            assert(is_tally(tallies@[j], kw@, vc@));
            assert(doc_ids(tallies@)[j] == t.doc_id);
            assert(distinct(all).contains(t.doc_id));
        }
        let r = fused_result(&t, fts_results, vector_results);
        out.push(r);
        i += 1;
    }
    proof {
        assert(doc_ids(tallies@).len() == tallies.len());
        assert forall|d: i64|
            all.contains(d) && (forall|a: int| 0 <= a < out.len() ==> out@[a].doc_id != d) implies
            out.len() == limit && forall|a: int|
            0 <= a < out.len() ==> out@[a].rrf_score >= fused_score(kw@, vc@, d) by {
            assert(distinct(all).contains(d));
            let j = choose|j: int| 0 <= j < doc_ids(tallies@).len() && doc_ids(tallies@)[j] == d;
            assert(tallies@[j].doc_id == d);
            assert(is_tally(tallies@[j], kw@, vc@));
            if top@.contains(tallies@[j]) {
                let a = choose|a: int| 0 <= a < top.len() && top@[a] == tallies@[j];
                assert(out@[a].doc_id == d);
            }
            assert forall|a: int| 0 <= a < out.len() implies out@[a].rrf_score >= fused_score(
                kw@,
                vc@,
                d,
            ) by {
                assert(top@[a].score >= tallies@[j].score);
            }
        }
        assert forall|a: int, b: int| 0 <= a < b < out.len() implies out@[a].doc_id
            != out@[b].doc_id by {
            assert(top@[a].doc_id != top@[b].doc_id);
        }
        assert forall|a: int, b: int| 0 <= a <= b < out.len() implies out@[a].rrf_score
            >= out@[b].rrf_score by {
            assert(top@[a].score >= top@[b].score);
        }
        assert forall|a: int, b: int|
            0 <= a < b < out.len() && out@[a].rrf_score == out@[b].rrf_score implies index_of(
            distinct(all),
            out@[a].doc_id,
        ) < index_of(distinct(all), out@[b].doc_id) by {
            assert(top@[a].score == top@[b].score);
        }
    }
    out
}

/// Whether `doc` is the document `doc_id`, so that it tells where that
/// document comes from.
pub open spec fn describes(doc: Option<Document>, doc_id: i64) -> bool {
    doc is Some && doc->Some_0.id == doc_id
}

/// The address and the title of the document `doc_id`, of which `doc` is
/// what the lookup found: those of `doc` where it is that document, and an
/// empty address and no title where the lookup found nothing or another
/// document.
pub fn metadata_of(doc_id: i64, doc: Option<Document>) -> (r: (String, Option<String>))
    ensures
        describes(doc, doc_id) ==> r.0 == doc->Some_0.url && r.1 == doc->Some_0.title,
        !describes(doc, doc_id) ==> r.0@.len() == 0 && r.1 is None,
{
    match doc {
        Some(d) => {
            if d.id == doc_id {
                (d.url, d.title)
            } else {
                (String::new(), None)
            }
        },
        None => (String::new(), None),
    }
}

/// The result with what is known of its document: the document's address
/// and title, or an empty address and no title where the document is
/// unknown.
pub fn with_document(result: HybridSearchResult, doc: Option<Document>) -> (r:
    HybridSearchResult)
    ensures
        r.doc_id == result.doc_id,
        r.chunk_text == result.chunk_text,
        r.snippet == result.snippet,
        r.rrf_score == result.rrf_score,
        r.method == result.method,
        describes(doc, result.doc_id) ==> r.url == doc->Some_0.url && r.title
            == doc->Some_0.title,
        !describes(doc, result.doc_id) ==> r.url@.len() == 0 && r.title is None,
{
    let (url, title) = metadata_of(result.doc_id, doc);
    HybridSearchResult {
        doc_id: result.doc_id,
        url,
        title,
        chunk_text: result.chunk_text,
        snippet: result.snippet,
        rrf_score: result.rrf_score,
        method: result.method,
    }
}

/// The result of a vector search alone for one hit: the hit's chunk, its
/// similarity as the score, and what is known of its document.
pub fn vector_hit_result(hit: SearchResult, doc: Option<Document>) -> (r: HybridSearchResult)
    ensures
        r.doc_id == hit.doc_id,
        r.chunk_text == Some(hit.chunk_text),
        r.snippet is None,
        r.rrf_score == hit.similarity,
        r.method == SearchMethod::Vector,
        describes(doc, hit.doc_id) ==> r.url == doc->Some_0.url && r.title == doc->Some_0.title,
        !describes(doc, hit.doc_id) ==> r.url@.len() == 0 && r.title is None,
{
    let (url, title) = metadata_of(hit.doc_id, doc);
    HybridSearchResult {
        doc_id: hit.doc_id,
        url,
        title,
        chunk_text: Some(hit.chunk_text),
        snippet: None,
        rrf_score: hit.similarity,
        method: SearchMethod::Vector,
    }
}

/// The size of a BM25 score: the score without its sign.
pub open spec fn magnitude(score: i64) -> nat {
    if score < 0 {
        (-score) as nat
    } else {
        score as nat
    }
}

/// A BM25 score brought onto the scale of the other scores: one over one
/// plus the size of the score, in units of score, rounded down.
pub open spec fn normalized_bm25(score: i64) -> nat {
    (SCORE_SCALE as nat * SCORE_SCALE as nat) / (SCORE_SCALE as nat + magnitude(score))
}

/// A BM25 score brought onto the scale of the other scores.
pub fn normalize_bm25(score: i64) -> (n: u64)
    ensures
        n == normalized_bm25(score),
        n <= SCORE_SCALE,
{
    let size: u128 = if score < 0 {
        (-(score as i128)) as u128
    } else {
        score as u128
    };
    let num: u128 = 1000000000000000000;
    assert(num == SCORE_SCALE as nat * SCORE_SCALE as nat) by (nonlinear_arith)
        requires
            num == 1000000000000000000,
            SCORE_SCALE == 1000000000,
    ;
    let den: u128 = SCORE_SCALE as u128 + size;
    let q: u128 = num / den;
    proof {
        lemma_div_is_ordered_by_denominator(
            num as int,
            SCORE_SCALE as int,
            den as int,
        );
        assert(1000000000000000000int / 1000000000 == 1000000000) by (nonlinear_arith);
    }
    q as u64
}

/// The result of a keyword search alone for one hit: the hit's snippet, its
/// normalized BM25 score, and what is known of its document.
pub fn keyword_hit_result(hit: FtsSearchResult, doc: Option<Document>) -> (r:
    HybridSearchResult)
    ensures
        r.doc_id == hit.doc_id,
        r.chunk_text is None,
        r.snippet == Some(hit.content_snippet),
        r.rrf_score == normalized_bm25(hit.bm25_score),
        r.method == SearchMethod::Fts,
        describes(doc, hit.doc_id) ==> r.url == doc->Some_0.url && r.title == doc->Some_0.title,
        !describes(doc, hit.doc_id) ==> r.url@.len() == 0 && r.title is None,
{
    let (url, title) = metadata_of(hit.doc_id, doc);
    HybridSearchResult {
        doc_id: hit.doc_id,
        url,
        title,
        chunk_text: None,
        snippet: Some(hit.content_snippet),
        rrf_score: normalize_bm25(hit.bm25_score),
        method: SearchMethod::Fts,
    }
}

/// Agreement stands first: among the fused results of two searches, a
/// document that both searches found scores higher than, and stands before,
/// a document that only one search found, once and at a rank that is no
/// better than the better of the first document's two ranks. (The ranks of
/// the first document lie below `SCORE_SCALE - 60`, where a hit still adds
/// a whole unit of score.)
pub proof fn lemma_agreement_stands_first(
    keyword: Seq<FtsSearchResult>,
    vector: Seq<SearchResult>,
    out: Seq<HybridSearchResult>,
    both: int,
    keyword_rank: int,
    vector_rank: int,
    single: int,
    single_rank: int,
)
    requires
        forall|i: int| 0 <= i < out.len() ==> is_fused_result(#[trigger] out[i], keyword, vector),
        forall|a: int, b: int| 0 <= a <= b < out.len() ==> out[a].rrf_score >= out[b].rrf_score,
        0 <= both < out.len(),
        0 <= single < out.len(),
        0 <= keyword_rank < keyword.len(),
        keyword[keyword_rank].doc_id == out[both].doc_id,
        0 <= vector_rank < vector.len(),
        vector[vector_rank].doc_id == out[both].doc_id,
        keyword_rank + 60 < SCORE_SCALE,
        vector_rank + 60 < SCORE_SCALE,
        (stands_once(keyword_ids(keyword), out[single].doc_id, single_rank) && !vector_ids(
            vector,
        ).contains(out[single].doc_id)) || (stands_once(
            vector_ids(vector),
            out[single].doc_id,
            single_rank,
        ) && !keyword_ids(keyword).contains(out[single].doc_id)),
        single_rank >= keyword_rank || single_rank >= vector_rank,
    ensures
        out[both].rrf_score > out[single].rrf_score,
        both < single,
{
    assert(is_fused_result(out[both], keyword, vector));
    assert(is_fused_result(out[single], keyword, vector));
    lemma_agreement_wins(
        keyword_ids(keyword),
        vector_ids(vector),
        out[both].doc_id,
        keyword_rank,
        vector_rank,
        out[single].doc_id,
        single_rank,
    );
    if single <= both {
        assert(out[single].rrf_score >= out[both].rrf_score);
    }
}

} // verus!
