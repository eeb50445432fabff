use palank_rag::chunker::{ChunkConfig, Chunker, MarkdownChunker};
use palank_rag::hybrid::{keyword_hit_result, rrf_merge, vector_hit_result, with_document, over_fetch, SearchMethod, HybridSearchResult};
use palank_rag::ingest::{
    delete_step, DeleteAction, DeleteEvent, IngestAction, IngestEvent, IngestFailure, Ingestion,
};
use palank_rag::store::{escape_fts5_query, Document, FtsSearchResult, NewDocument};
use palank_rag::vector::{SearchResult, VectorEntry};

/// A keyword index in memory: a document matches a query when it holds every
/// word of the escaped query.
struct MemoryKeywordIndex {
    docs: Vec<Document>,
    next_id: i64,
}

impl MemoryKeywordIndex {
    fn new() -> Self {
        MemoryKeywordIndex { docs: Vec::new(), next_id: 1 }
    }

    fn upsert(&mut self, doc: &NewDocument) -> i64 {
        self.docs.retain(|d| d.url != doc.url);
        let id = self.next_id;
        self.next_id += 1;
        self.docs.push(Document {
            id,
            url: doc.url.clone(),
            title: doc.title.clone(),
            content: doc.content.clone(),
            framework: doc.framework.clone(),
            created_at: 0,
        });
        id
    }

    fn get(&self, id: i64) -> Option<Document> {
        self.docs.iter().find(|d| d.id == id).cloned()
    }

    fn delete(&mut self, id: i64) -> bool {
        let before = self.docs.len();
        self.docs.retain(|d| d.id != id);
        self.docs.len() < before
    }

    fn search(&self, query: &str, limit: usize) -> Vec<FtsSearchResult> {
        let escaped = escape_fts5_query(query).to_lowercase();
        if escaped.is_empty() {
            return Vec::new();
        }
        self.docs
            .iter()
            .filter(|d| {
                let content = d.content.to_lowercase();
                escaped.split(' ').all(|w| content.contains(w))
            })
            .take(limit)
            .map(|d| FtsSearchResult {
                doc_id: d.id,
                title: d.title.clone(),
                content_snippet: d.content.chars().take(32).collect(),
                bm25_score: -1_000_000_000,
            })
            .collect()
    }
}

/// An embedding in memory: how often each of a few letters occurs.
fn embed(text: &str) -> Vec<u32> {
    let mut v = vec![0u32; 26];
    for c in text.chars() {
        if c.is_ascii_alphabetic() {
            v[(c.to_ascii_lowercase() as u8 - b'a') as usize] += 1;
        }
    }
    v
}

fn distance(a: &[u32], b: &[u32]) -> u64 {
    a.iter()
        .zip(b.iter())
        .map(|(x, y)| (*x as i64 - *y as i64).unsigned_abs().pow(2))
        .sum()
}

struct MemoryVectorIndex {
    entries: Vec<VectorEntry<Vec<u32>>>,
}

impl MemoryVectorIndex {
    fn search(&self, query: &[u32], limit: usize) -> Vec<SearchResult> {
        let mut scored: Vec<(u64, &VectorEntry<Vec<u32>>)> = self
            .entries
            .iter()
            .map(|e| (distance(&e.embedding, query), e))
            .filter(|(d, _)| *d < 40)
            .collect();
        scored.sort_by_key(|(d, _)| *d);
        scored
            .into_iter()
            .take(limit)
            .map(|(d, e)| SearchResult {
                doc_id: e.doc_id,
                chunk_index: e.chunk_index,
                chunk_text: e.chunk_text.clone(),
                similarity: palank_rag::vector::similarity_from_distance(d * 1_000_000_000),
            })
            .collect()
    }

    fn delete_by_doc(&mut self, doc_id: i64) -> usize {
        let before = self.entries.len();
        self.entries.retain(|e| e.doc_id != doc_id);
        before - self.entries.len()
    }
}

struct Retriever {
    keyword: MemoryKeywordIndex,
    vector: MemoryVectorIndex,
    chunker: MarkdownChunker,
    embed_calls: usize,
    fail_embedding_at: Option<usize>,
}

impl Retriever {
    fn new() -> Self {
        Retriever {
            keyword: MemoryKeywordIndex::new(),
            vector: MemoryVectorIndex { entries: Vec::new() },
            chunker: MarkdownChunker::new(ChunkConfig {
                min_characters: 10,
                max_characters: 60,
                overlap_characters: 0,
            }),
            embed_calls: 0,
            fail_embedding_at: None,
        }
    }

    fn add_document(&mut self, doc: NewDocument) -> Result<i64, IngestFailure<String>> {
        let mut ingestion: Ingestion<Vec<u32>> = Ingestion::new(doc.content.clone());
        let mut event = IngestEvent::Stored(self.keyword.upsert(&doc));
        loop {
            let (next, action) = ingestion.step(&self.chunker, event);
            ingestion = next;
            event = match action {
                IngestAction::Embed { chunk_index, text } => {
                    self.embed_calls += 1;
                    if self.fail_embedding_at == Some(chunk_index) {
                        IngestEvent::Failed("quota".to_string())
                    } else {
                        IngestEvent::Embedded(embed(&text))
                    }
                }
                IngestAction::InsertBatch(entries) => {
                    self.vector.entries.extend(entries);
                    IngestEvent::Inserted
                }
                IngestAction::Done(id) => return Ok(id),
                IngestAction::Failed(failure) => return Err(failure),
            };
        }
    }

    fn delete_document(&mut self, doc_id: i64) -> bool {
        let mut event: DeleteEvent<String> = DeleteEvent::Begin;
        loop {
            event = match delete_step(doc_id, event) {
                DeleteAction::DeleteVectors(id) => {
                    DeleteEvent::VectorsDeleted(self.vector.delete_by_doc(id))
                }
                DeleteAction::DeleteRow(id) => DeleteEvent::RowDeleted(self.keyword.delete(id)),
                DeleteAction::Done(existed) => return existed,
                DeleteAction::Failed(e) => panic!("unexpected failure {}", e),
            };
        }
    }

    fn search(&self, query: &str, limit: usize) -> Vec<HybridSearchResult> {
        let keyword = self.keyword.search(query, over_fetch(limit));
        let vector = self.vector.search(&embed(query), over_fetch(limit));
        rrf_merge(&keyword, &vector, limit)
            .into_iter()
            .map(|r| {
                let doc = self.keyword.get(r.doc_id);
                with_document(r, doc)
            })
            .collect()
    }

    fn search_vector(&self, query: &str, limit: usize) -> Vec<HybridSearchResult> {
        self.vector
            .search(&embed(query), limit)
            .into_iter()
            .map(|hit| {
                let doc = self.keyword.get(hit.doc_id);
                vector_hit_result(hit, doc)
            })
            .collect()
    }

    fn search_fts(&self, query: &str, limit: usize) -> Vec<HybridSearchResult> {
        self.keyword
            .search(query, limit)
            .into_iter()
            .map(|hit| {
                let doc = self.keyword.get(hit.doc_id);
                keyword_hit_result(hit, doc)
            })
            .collect()
    }
}

fn document(url: &str, content: &str) -> NewDocument {
    NewDocument {
        url: url.to_string(),
        title: Some(format!("Title of {}", url)),
        content: content.to_string(),
        framework: None,
    }
}

#[test]
fn added_document_is_found_by_a_distinctive_phrase() {
    let mut retriever = Retriever::new();
    let id = retriever
        .add_document(document("https://a", "zyzzyva quokka jamboree"))
        .unwrap();
    retriever
        .add_document(document("https://b", "ordinary text about nothing much"))
        .unwrap();
    let results = retriever.search("zyzzyva quokka jamboree", 5);
    let hit = results.iter().find(|r| r.doc_id == id).expect("the document is among the results");
    assert!(matches!(
        hit.method,
        SearchMethod::Vector | SearchMethod::Fts | SearchMethod::Hybrid
    ));
    assert_eq!(hit.method, SearchMethod::Hybrid);
    assert_eq!(hit.url, "https://a");
    assert_eq!(hit.title.as_deref(), Some("Title of https://a"));
    assert_eq!(results[0].doc_id, id);
}

#[test]
fn deleted_document_is_found_by_neither_search() {
    let mut retriever = Retriever::new();
    let gone = retriever
        .add_document(document("https://gone", "zyzzyva quokka jamboree"))
        .unwrap();
    let kept = retriever
        .add_document(document("https://kept", "bumblebee waffle window"))
        .unwrap();
    assert_eq!(retriever.search_vector("zyzzyva quokka jamboree", 5).len(), 1);
    assert_eq!(retriever.search_fts("zyzzyva", 5).len(), 1);

    assert!(retriever.delete_document(gone));

    assert!(retriever.search_vector("zyzzyva quokka jamboree", 5).is_empty());
    assert!(retriever.search_fts("zyzzyva", 5).is_empty());
    let still = retriever.search_vector("bumblebee waffle window", 5);
    assert_eq!(still.len(), 1);
    assert_eq!(still[0].doc_id, kept);
    assert_eq!(retriever.search_fts("waffle", 5)[0].doc_id, kept);
    // Deleting a document that is not there reports so.
    assert!(!retriever.delete_document(gone));
    assert!(!retriever.delete_document(999));
}

#[test]
fn document_without_text_gets_no_vectors() {
    let mut retriever = Retriever::new();
    let id = retriever.add_document(document("https://empty", "  \n ")).unwrap();
    assert!(id > 0);
    assert_eq!(retriever.embed_calls, 0);
    assert!(retriever.vector.entries.is_empty());
    assert!(retriever.keyword.get(id).is_some());
}

#[test]
fn chunks_are_embedded_in_order_and_stored_as_one_batch() {
    let mut retriever = Retriever::new();
    let content = "# One\nalpha alpha alpha\n\n# Two\nbeta beta beta\n\n# Three\ngamma gamma";
    let chunks = retriever.chunker.chunk(content);
    assert_eq!(chunks.len(), 3);
    let id = retriever.add_document(document("https://three", content)).unwrap();
    assert_eq!(retriever.embed_calls, 3);
    let entries = &retriever.vector.entries;
    assert_eq!(entries.len(), 3);
    for (i, entry) in entries.iter().enumerate() {
        assert_eq!(entry.doc_id, id);
        assert_eq!(entry.chunk_index, i as i32);
        assert_eq!(entry.chunk_text, chunks[i]);
        assert_eq!(entry.embedding, embed(&chunks[i]));
    }
}

#[test]
fn failed_embedding_ends_the_ingestion_without_vectors() {
    let mut retriever = Retriever::new();
    retriever.fail_embedding_at = Some(1);
    let content = "# One\nalpha alpha alpha\n\n# Two\nbeta beta beta\n\n# Three\ngamma gamma";
    let result = retriever.add_document(document("https://fails", content));
    assert_eq!(
        result,
        Err(IngestFailure::Embed { chunk_index: 1, cause: "quota".to_string() })
    );
    assert_eq!(retriever.embed_calls, 2);
    assert!(retriever.vector.entries.is_empty());
    // The document itself stays in the keyword index.
    assert_eq!(retriever.keyword.docs.len(), 1);
}

#[test]
fn failures_of_the_indexes_are_reported_with_their_stage() {
    let chunker = MarkdownChunker::with_defaults();
    let ingestion: Ingestion<u8> = Ingestion::new("text".to_string());
    let (_, action) = ingestion.step(&chunker, IngestEvent::Failed("disk full".to_string()));
    match action {
        IngestAction::Failed(f) => assert_eq!(f, IngestFailure::Store("disk full".to_string())),
        _ => panic!("expected a failure"),
    }

    let ingestion: Ingestion<u8> = Ingestion::new("text".to_string());
    let (ingestion, action) = ingestion.step(&chunker, IngestEvent::<u8, String>::Stored(5));
    match action {
        IngestAction::Embed { chunk_index, text } => {
            assert_eq!(chunk_index, 0);
            assert_eq!(text, "text");
        }
        _ => panic!("expected a chunk to embed"),
    }
    let (ingestion, action) = ingestion.step(&chunker, IngestEvent::<u8, String>::Embedded(9));
    match action {
        IngestAction::InsertBatch(batch) => {
            assert_eq!(batch.len(), 1);
            assert_eq!(batch[0].doc_id, 5);
            assert_eq!(batch[0].embedding, 9);
        }
        _ => panic!("expected the batch"),
    }
    let (_, action) = ingestion.step(&chunker, IngestEvent::Failed("no space".to_string()));
    match action {
        IngestAction::Failed(f) => assert_eq!(f, IngestFailure::Insert("no space".to_string())),
        _ => panic!("expected a failure"),
    }
}

#[test]
fn events_out_of_turn_end_the_ingestion() {
    let chunker = MarkdownChunker::with_defaults();
    let ingestion: Ingestion<u8> = Ingestion::new("text".to_string());
    let (ingestion, action) = ingestion.step(&chunker, IngestEvent::<u8, String>::Inserted);
    match action {
        IngestAction::Failed(f) => assert_eq!(f, IngestFailure::OutOfTurn),
        _ => panic!("expected a failure"),
    }
    // Once finished, every event is out of turn.
    let (_, action) = ingestion.step(&chunker, IngestEvent::<u8, String>::Stored(1));
    match action {
        IngestAction::Failed(f) => assert_eq!(f, IngestFailure::OutOfTurn),
        _ => panic!("expected a failure"),
    }
}

#[test]
fn deletion_removes_vectors_before_the_row() {
    assert_eq!(delete_step::<String>(4, DeleteEvent::Begin), DeleteAction::DeleteVectors(4));
    assert_eq!(
        delete_step::<String>(4, DeleteEvent::VectorsDeleted(0)),
        DeleteAction::DeleteRow(4)
    );
    assert_eq!(
        delete_step::<String>(4, DeleteEvent::VectorsDeleted(12)),
        DeleteAction::DeleteRow(4)
    );
    assert_eq!(delete_step::<String>(4, DeleteEvent::RowDeleted(true)), DeleteAction::Done(true));
    assert_eq!(
        delete_step::<String>(4, DeleteEvent::RowDeleted(false)),
        DeleteAction::Done(false)
    );
    assert_eq!(
        delete_step(4, DeleteEvent::Failed("locked".to_string())),
        DeleteAction::Failed("locked".to_string())
    );
}
