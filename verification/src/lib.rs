//! Hybrid retrieval over a personal knowledge base: a markdown-aware text
//! chunker, the pacing and retry rules of an embedding client, and the fusion
//! of keyword and vector search results by reciprocal rank.
//!
//! The library decides and computes; it reads no file and makes no call over
//! the network. Its callers hand it what they have read, and do what it
//! answers.
pub mod chunk_laws;
pub mod chunker;
pub mod cli;
pub mod collector;
pub mod embedding;
pub mod extractor;
pub mod fusion;
pub mod hybrid;
pub mod image;
pub mod ingest;
pub mod pdf;
pub mod scraper;
pub mod store;
pub mod text;
pub mod vector;

pub use chunker::{default_chunker, markdown_chunker, ChunkConfig, Chunker, MarkdownChunker};
pub use embedding::{get_api_key, has_api_key, GeminiEmbedding};
pub use hybrid::{HybridSearchResult, HybridStats, SearchMethod};
pub use scraper::ScrapedContent;
pub use store::{Document, FtsSearchResult, NewDocument, StoreStats};
pub use vector::{chunk_text, SearchResult, VectorEntry, EMBEDDING_DIMENSION};
