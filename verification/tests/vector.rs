use palank_rag::vector::{chunk_text, VectorEntry, EMBEDDING_DIMENSION};

#[test]
fn test_chunk_text() {
    let text = "a b c d e f g h i j";
    let chunks = chunk_text(text, 4, 1);

    assert_eq!(chunks.len(), 3);
    assert_eq!(chunks[0], "a b c d");
    assert_eq!(chunks[1], "d e f g");
    assert_eq!(chunks[2], "g h i j");
}

#[test]
fn test_chunk_text_empty() {
    let chunks = chunk_text("", 4, 1);
    assert!(chunks.is_empty());
}

#[test]
fn test_chunk_text_small() {
    let text = "a b c";
    let chunks = chunk_text(text, 4, 1);
    assert_eq!(chunks.len(), 1);
    assert_eq!(chunks[0], "a b c");
}

#[test]
fn test_chunk_text_no_overlap() {
    let text = "a b c d e f g h";
    let chunks = chunk_text(text, 4, 0);

    assert_eq!(chunks.len(), 2);
    assert_eq!(chunks[0], "a b c d");
    assert_eq!(chunks[1], "e f g h");
}

#[test]
fn short_text_is_kept_as_it_is() {
    assert_eq!(chunk_text("  a \n b  ", 2, 0), vec!["  a \n b  "]);
    assert!(chunk_text(" \n\t", 4, 1).is_empty());
    // With fewer words than a chunk holds, the overlap does not matter.
    assert_eq!(chunk_text("a b", 2, 5), vec!["a b"]);
}

#[test]
fn long_text_is_cut_into_joined_words() {
    assert_eq!(
        chunk_text(" a\tb \n c   d  e ", 2, 1),
        vec!["a b", "b c", "c d", "d e"]
    );
    assert_eq!(chunk_text("a b c", 2, 0), vec!["a b", "c"]);
    assert_eq!(chunk_text("a b c", 1, 0), vec!["a", "b", "c"]);
}

#[test]
fn vector_entries_hold_any_embedding() {
    let entry = VectorEntry {
        doc_id: 4,
        chunk_index: 2,
        chunk_text: "chunk".to_string(),
        embedding: vec![0.5f32; EMBEDDING_DIMENSION as usize],
    };
    assert_eq!(entry.embedding.len(), 768);
    assert_eq!(entry.clone().chunk_index, 2);
}
