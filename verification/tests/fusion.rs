use palank_rag::fusion::{rrf_contribution, tally_hits, top_tallies, RRF_K, SCORE_SCALE};
use palank_rag::hybrid::{
    keyword_hit_result, metadata_of, normalize_bm25, over_fetch, rrf_merge, vector_hit_result,
    with_document, HybridStats, SearchMethod,
};
use palank_rag::store::{Document, FtsSearchResult, StoreStats};
use palank_rag::vector::{similarity_from_distance, SearchResult};

fn keyword_hit(doc_id: i64, snippet: &str) -> FtsSearchResult {
    FtsSearchResult {
        doc_id,
        title: None,
        content_snippet: snippet.to_string(),
        bm25_score: -1_500_000_000,
    }
}

fn vector_hit(doc_id: i64, chunk: &str) -> SearchResult {
    SearchResult {
        doc_id,
        chunk_index: 0,
        chunk_text: chunk.to_string(),
        similarity: 900_000_000,
    }
}

#[test]
fn test_search_method_equality() {
    assert_eq!(SearchMethod::Vector, SearchMethod::Vector);
    assert_ne!(SearchMethod::Vector, SearchMethod::Fts);
    assert_ne!(SearchMethod::Fts, SearchMethod::Hybrid);
}

#[test]
fn test_rrf_score_calculation() {
    const K: f32 = 60.0;
    assert_eq!(RRF_K as f32, K);

    let score_rank_1 = rrf_contribution(0) as f32 / SCORE_SCALE as f32;
    assert!((score_rank_1 - 0.0164).abs() < 0.001);
    assert!((score_rank_1 - 1.0 / (K + 0.0 + 1.0)).abs() < 0.000001);

    let score_rank_5 = rrf_contribution(4) as f32 / SCORE_SCALE as f32;
    assert!((score_rank_5 - 0.0154).abs() < 0.001);
    assert!((score_rank_5 - 1.0 / (K + 4.0 + 1.0)).abs() < 0.000001);

    assert!(score_rank_1 > score_rank_5);
}

#[test]
fn contribution_is_scale_over_k_plus_rank_plus_one() {
    assert_eq!(rrf_contribution(0), 1_000_000_000 / 61);
    assert_eq!(rrf_contribution(0), 16_393_442);
    assert_eq!(rrf_contribution(1), 1_000_000_000 / 62);
    assert_eq!(rrf_contribution(39), 10_000_000);
    assert_eq!(rrf_contribution(999_999_939), 1);
    assert_eq!(rrf_contribution(999_999_940), 0);
    assert_eq!(rrf_contribution(usize::MAX), 0);
}

#[test]
fn document_in_both_lists_outranks_documents_in_one() {
    // Keyword ranks [A, B, C], vector ranks [B, A, D].
    let (a, b, c, d) = (1i64, 2i64, 3i64, 4i64);
    let keyword = vec![keyword_hit(a, "ka"), keyword_hit(b, "kb"), keyword_hit(c, "kc")];
    let vector = vec![vector_hit(b, "vb"), vector_hit(a, "va"), vector_hit(d, "vd")];
    let out = rrf_merge(&keyword, &vector, 10);
    assert_eq!(out.len(), 4);
    let score = |id: i64| out.iter().find(|r| r.doc_id == id).unwrap().rrf_score;
    assert_eq!(score(a), 1_000_000_000 / 61 + 1_000_000_000 / 62);
    assert_eq!(score(b), 1_000_000_000 / 62 + 1_000_000_000 / 61);
    assert_eq!(score(c), 1_000_000_000 / 63);
    assert_eq!(score(d), 1_000_000_000 / 63);
    assert!(score(b) > score(c));
    assert!(score(b) > score(d));
    // Best first; among equal scores the document that appears first.
    let order: Vec<i64> = out.iter().map(|r| r.doc_id).collect();
    assert_eq!(order, vec![a, b, c, d]);
    let method = |id: i64| out.iter().find(|r| r.doc_id == id).unwrap().method;
    assert_eq!(method(a), SearchMethod::Hybrid);
    assert_eq!(method(b), SearchMethod::Hybrid);
    assert_eq!(method(c), SearchMethod::Fts);
    assert_eq!(method(d), SearchMethod::Vector);
    let first = &out[0];
    assert_eq!(first.snippet.as_deref(), Some("ka"));
    assert_eq!(first.chunk_text.as_deref(), Some("va"));
    assert_eq!(first.url, "");
    assert_eq!(first.title, None);
    let last = &out[3];
    assert_eq!(last.snippet, None);
    assert_eq!(last.chunk_text.as_deref(), Some("vd"));
}

#[test]
fn fusion_truncates_to_the_limit_and_keeps_the_best() {
    let keyword = vec![keyword_hit(1, "a"), keyword_hit(2, "b"), keyword_hit(3, "c")];
    let vector = vec![vector_hit(3, "x"), vector_hit(4, "y")];
    let out = rrf_merge(&keyword, &vector, 2);
    assert_eq!(out.len(), 2);
    assert_eq!(out[0].doc_id, 3);
    assert_eq!(out[0].rrf_score, 1_000_000_000 / 63 + 1_000_000_000 / 61);
    assert_eq!(out[1].doc_id, 1);
    assert_eq!(out[1].rrf_score, 1_000_000_000 / 61);
    assert!(rrf_merge(&keyword, &vector, 0).is_empty());
}

#[test]
fn fusion_of_empty_lists_is_empty() {
    let out = rrf_merge(&Vec::new(), &Vec::new(), 5);
    assert!(out.is_empty());
    let only_vector = rrf_merge(&Vec::new(), &vec![vector_hit(9, "z")], 5);
    assert_eq!(only_vector.len(), 1);
    assert_eq!(only_vector[0].method, SearchMethod::Vector);
    assert_eq!(only_vector[0].rrf_score, 16_393_442);
}

#[test]
fn repeated_chunks_of_one_document_add_up() {
    let vector = vec![vector_hit(7, "first"), vector_hit(8, "other"), vector_hit(7, "last")];
    let out = rrf_merge(&Vec::new(), &vector, 5);
    assert_eq!(out.len(), 2);
    assert_eq!(out[0].doc_id, 7);
    assert_eq!(out[0].rrf_score, 1_000_000_000 / 61 + 1_000_000_000 / 63);
    assert_eq!(out[0].chunk_text.as_deref(), Some("last"));
    assert_eq!(out[1].doc_id, 8);
}

#[test]
fn tallies_keep_ranks_and_first_appearance_order() {
    let tallies = tally_hits(&vec![5, 6, 5], &vec![6, 9]);
    let ids: Vec<i64> = tallies.iter().map(|t| t.doc_id).collect();
    assert_eq!(ids, vec![5, 6, 9]);
    assert_eq!(tallies[0].keyword_rank, Some(2));
    assert_eq!(tallies[0].vector_rank, None);
    assert_eq!(tallies[0].score, 1_000_000_000 / 61 + 1_000_000_000 / 63);
    assert_eq!(tallies[1].keyword_rank, Some(1));
    assert_eq!(tallies[1].vector_rank, Some(0));
    assert_eq!(tallies[2].vector_rank, Some(1));
    let top = top_tallies(&tallies, 1);
    assert_eq!(top.len(), 1);
    assert_eq!(top[0].doc_id, 6);
}

#[test]
fn over_fetch_doubles_and_saturates() {
    assert_eq!(over_fetch(0), 0);
    assert_eq!(over_fetch(5), 10);
    assert_eq!(over_fetch(usize::MAX / 2), usize::MAX - 1);
    assert_eq!(over_fetch(usize::MAX / 2 + 1), usize::MAX);
    assert_eq!(over_fetch(usize::MAX), usize::MAX);
}

#[test]
fn metadata_falls_back_to_empty_for_unknown_documents() {
    let fused = rrf_merge(&vec![keyword_hit(1, "s")], &Vec::new(), 1).remove(0);
    let doc = Document {
        id: 1,
        url: "https://example.com/a".to_string(),
        title: Some("A".to_string()),
        content: "text".to_string(),
        framework: None,
        created_at: 0,
    };
    let known = with_document(fused.clone(), Some(doc));
    assert_eq!(known.url, "https://example.com/a");
    assert_eq!(known.title.as_deref(), Some("A"));
    assert_eq!(known.rrf_score, fused.rrf_score);
    assert_eq!(known.snippet.as_deref(), Some("s"));
    let unknown = with_document(fused, None);
    assert_eq!(unknown.url, "");
    assert_eq!(unknown.title, None);
}

#[test]
fn single_method_results_report_native_scores() {
    let v = vector_hit_result(vector_hit(3, "chunk"), None);
    assert_eq!(v.method, SearchMethod::Vector);
    assert_eq!(v.rrf_score, 900_000_000);
    assert_eq!(v.chunk_text.as_deref(), Some("chunk"));
    assert_eq!(v.snippet, None);
    let k = keyword_hit_result(keyword_hit(3, "snip"), None);
    assert_eq!(k.method, SearchMethod::Fts);
    // 1 / (1 + |-1.5|) = 0.4
    assert_eq!(k.rrf_score, 400_000_000);
    assert_eq!(k.snippet.as_deref(), Some("snip"));
    assert_eq!(k.chunk_text, None);
}

#[test]
fn bm25_normalisation_ignores_the_sign() {
    assert_eq!(normalize_bm25(0), 1_000_000_000);
    assert_eq!(normalize_bm25(1_000_000_000), 500_000_000);
    assert_eq!(normalize_bm25(-1_000_000_000), 500_000_000);
    assert_eq!(normalize_bm25(-3_000_000_000), 250_000_000);
    assert_eq!(normalize_bm25(i64::MIN), normalize_bm25(i64::MAX) );
    assert!(normalize_bm25(i64::MIN) <= 1);
}

#[test]
fn similarity_is_one_over_one_plus_distance() {
    assert_eq!(similarity_from_distance(0), 1_000_000_000);
    assert_eq!(similarity_from_distance(1_000_000_000), 500_000_000);
    assert_eq!(similarity_from_distance(3_000_000_000), 250_000_000);
    assert_eq!(similarity_from_distance(u64::MAX), 0);
}

#[test]
fn stats_combine_both_indexes() {
    let store = StoreStats {
        document_count: 3,
        total_content_bytes: 1200,
        db_path: "/tmp/k.db".to_string(),
    };
    let stats = HybridStats::from_parts(&store, 17);
    assert_eq!(stats.document_count, 3);
    assert_eq!(stats.vector_count, 17);
    assert_eq!(stats.total_content_bytes, 1200);
}

#[test]
fn metadata_of_another_document_is_not_attached() {
    let other = Document {
        id: 2,
        url: "https://example.com/other".to_string(),
        title: Some("Other".to_string()),
        content: String::new(),
        framework: None,
        created_at: 0,
    };
    assert_eq!(metadata_of(1, Some(other.clone())), (String::new(), None));
    assert_eq!(
        metadata_of(2, Some(other.clone())),
        ("https://example.com/other".to_string(), Some("Other".to_string()))
    );
    assert_eq!(metadata_of(2, None), (String::new(), None));
    let fused = rrf_merge(&vec![keyword_hit(1, "s")], &Vec::new(), 1).remove(0);
    let wrong = with_document(fused, Some(other.clone()));
    assert_eq!(wrong.url, "");
    assert_eq!(wrong.title, None);
    let v = vector_hit_result(vector_hit(1, "c"), Some(other.clone()));
    assert_eq!(v.url, "");
    let k = keyword_hit_result(keyword_hit(2, "s"), Some(other));
    assert_eq!(k.url, "https://example.com/other");
    assert_eq!(k.title.as_deref(), Some("Other"));
}

#[test]
fn documents_named_once_score_one_contribution_for_each_list() {
    let keyword: Vec<_> = (0..50).map(|i| keyword_hit(i, "k")).collect();
    let vector: Vec<_> = (40..90).map(|i| vector_hit(i, "v")).collect();
    let out = rrf_merge(&keyword, &vector, 100);
    assert_eq!(out.len(), 90);
    for r in &out {
        let k = keyword.iter().position(|h| h.doc_id == r.doc_id);
        let v = vector.iter().position(|h| h.doc_id == r.doc_id);
        let expected = k.map_or(0, |rank| 1_000_000_000 / (61 + rank as u64))
            + v.map_or(0, |rank| 1_000_000_000 / (61 + rank as u64));
        assert_eq!(r.rrf_score, expected);
        assert!(r.rrf_score > 0);
        assert!(r.rrf_score <= 2 * 16_393_442);
    }
    // A document of both lists stands before each document of one list that
    // stands there at no better a rank.
    let place = |id: i64| out.iter().position(|r| r.doc_id == id).unwrap();
    // Document 40 stands at rank 40 of the keyword list and at rank 0 of
    // the vector list.
    assert!(place(40) < place(60));
    assert!(place(40) < place(5));
    assert!(place(40) < place(0));
    for w in out.windows(2) {
        assert!(w[0].rrf_score >= w[1].rrf_score);
    }
}
