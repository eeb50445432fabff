//! Ingestion and deletion of a document, step by step.
//!
//! The writes to the two indexes and the calls to the embedding service are
//! made by the caller. This module tells which comes next: it is told how
//! each of them ended, and answers what to do then.
use crate::chunker::Chunker;
use crate::text::texts;
use crate::vector::VectorEntry;
use vstd::prelude::*;

verus! {

/// Where an ingestion stands.
#[derive(Debug, Clone, Copy, PartialEq, Eq, Structural)]
pub enum IngestPhase {
    /// The document is being stored in the keyword index.
    Storing,
    /// A chunk of the document is being embedded.
    Embedding,
    /// The vectors of the document are being stored in the vector index.
    Inserting,
    /// The ingestion has ended.
    Finished,
}

/// Why an ingestion failed. `E` is the error of the index or of the
/// embedding service.
#[derive(Debug, Clone, PartialEq)]
pub enum IngestFailure<E> {
    /// The keyword index did not store the document.
    Store(E),
    /// The chunk of this number was not embedded.
    Embed { chunk_index: usize, cause: E },
    /// The vector index did not store the vectors.
    Insert(E),
    /// The document has more chunks, namely this many, than a chunk index
    /// can count.
    TooManyChunks(usize),
    /// The ingestion was told of something that it had not asked for.
    OutOfTurn,
}

/// What an ingestion is told. `V` is an embedding.
#[derive(Debug, Clone, PartialEq)]
pub enum IngestEvent<V, E> {
    /// The keyword index has stored the document under this identity.
    Stored(i64),
    /// The chunk asked for has this embedding.
    Embedded(V),
    /// The vector index has stored the vectors.
    Inserted,
    /// What was asked for has failed.
    Failed(E),
}

/// What an ingestion asks for next, or how it has ended.
#[derive(Debug, Clone)]
pub enum IngestAction<V, E> {
    /// Embed the chunk of this number, which has this text.
    Embed { chunk_index: usize, text: String },
    /// Store these vectors in the vector index, as one batch.
    InsertBatch(Vec<VectorEntry<V>>),
    /// The document is ingested; this is its identity.
    Done(i64),
    /// The ingestion has failed.
    Failed(IngestFailure<E>),
}

/// The ingestion of one document. It begins with the storing of the
/// document in the keyword index, which the caller does first.
pub struct Ingestion<V> {
    phase: IngestPhase,
    doc_id: i64,
    content: String,
    chunks: Vec<String>,
    entries: Vec<VectorEntry<V>>,
}

/// The most chunks that one document can have.
pub const MAX_CHUNKS: usize = 2147483647;

impl<V> Ingestion<V> {
    /// Where the ingestion stands.
    pub closed spec fn phase(&self) -> IngestPhase {
        self.phase
    }

    /// The identity of the document, once it is stored.
    pub closed spec fn doc_id(&self) -> i64 {
        self.doc_id
    }

    /// The text of the document.
    pub closed spec fn content(&self) -> Seq<char> {
        self.content@
    }

    /// The chunks of the document, once it is stored.
    pub closed spec fn chunks(&self) -> Seq<Seq<char>> {
        texts(self.chunks@)
    }

    /// The vectors gathered so far, one for each chunk that is embedded.
    pub closed spec fn entries(&self) -> Seq<VectorEntry<V>> {
        self.entries@
    }

    /// What holds of every ingestion: while chunks are embedded, the vectors
    /// gathered are those of the first chunks, in order, each with its
    /// number, its text and the identity of the document, and at least one
    /// chunk is still to be embedded.
    #[verifier::type_invariant]
    pub closed spec fn wf(&self) -> bool {
        &&& self.phase == IngestPhase::Storing ==> self.entries@.len() == 0
        &&& self.phase == IngestPhase::Embedding ==> {
            &&& self.entries@.len() < self.chunks@.len() <= MAX_CHUNKS
            &&& forall|i: int|
                0 <= i < self.entries@.len() ==> is_entry_of(
                    #[trigger] self.entries@[i],
                    self.doc_id,
                    i,
                    self.chunks@[i]@,
                )
        }
    }

    /// The ingestion of a document with this text, before anything is done.
    pub fn new(content: String) -> (r: Self)
        ensures
            r.wf(),
            r.phase() == IngestPhase::Storing,
            r.content() == content@,
            r.entries().len() == 0,
    {
        Ingestion {
            phase: IngestPhase::Storing,
            doc_id: 0,
            content,
            chunks: Vec::new(),
            entries: Vec::new(),
        }
    }

    /// What comes next, after what the ingestion asked for last has ended
    /// as `event` tells.
    ///
    /// Once the document is stored, it is cut into chunks by `chunker`. A
    /// document without chunks is done. Else the chunks are embedded one by
    /// one, in order; when the last one is, the vectors are stored as one
    /// batch, and then the document is done. The first failure ends the
    /// ingestion, and so does an event that was not asked for.
    pub fn step<C: Chunker + ?Sized, E>(self, chunker: &C, event: IngestEvent<V, E>) -> (r: (
        Self,
        IngestAction<V, E>,
    ))
        ensures
            self.wf(),
            r.0.wf(),
            r.0.content() == self.content(),
            match (self.phase(), event) {
                (IngestPhase::Storing, IngestEvent::Stored(id)) => {
                    let cs = chunker.chunks(self.content());
                    if cs.len() == 0 {
                        r.1 == IngestAction::<V, E>::Done(id) && r.0.phase()
                            == IngestPhase::Finished
                    } else if cs.len() > MAX_CHUNKS {
                        r.1 == IngestAction::<V, E>::Failed(
                            IngestFailure::TooManyChunks(cs.len() as usize),
                        ) && r.0.phase() == IngestPhase::Finished
                    } else {
                        &&& r.1 is Embed
                        &&& r.1->Embed_chunk_index == 0
                        &&& r.1->Embed_text@ == cs[0]
                        &&& r.0.phase() == IngestPhase::Embedding
                        &&& r.0.doc_id() == id
                        &&& r.0.chunks() == cs
                        &&& r.0.entries().len() == 0
                    }
                },
                (IngestPhase::Embedding, IngestEvent::Embedded(v)) => {
                    let n = self.entries().len() as int;
                    let gathered = if r.1 is InsertBatch {
                        r.1->InsertBatch_0@
                    } else {
                        r.0.entries()
                    };
                    &&& r.0.doc_id() == self.doc_id()
                    &&& r.0.chunks() == self.chunks()
                    &&& gathered.len() == n + 1
                    &&& gathered.take(n) == self.entries()
                    &&& is_entry_of(gathered[n], self.doc_id(), n, self.chunks()[n])
                    &&& gathered[n].embedding == v
                    &&& if n + 1 < self.chunks().len() {
                        &&& r.1 is Embed
                        &&& r.1->Embed_chunk_index == n + 1
                        &&& r.1->Embed_text@ == self.chunks()[n + 1]
                        &&& r.0.phase() == IngestPhase::Embedding
                    } else {
                        &&& r.1 is InsertBatch
                        &&& r.0.phase() == IngestPhase::Inserting
                    }
                },
                (IngestPhase::Inserting, IngestEvent::Inserted) => {
                    r.1 == IngestAction::<V, E>::Done(self.doc_id()) && r.0.phase()
                        == IngestPhase::Finished
                },
                (IngestPhase::Storing, IngestEvent::Failed(e)) => {
                    r.1 == IngestAction::<V, E>::Failed(IngestFailure::Store(e)) && r.0.phase()
                        == IngestPhase::Finished
                },
                (IngestPhase::Embedding, IngestEvent::Failed(e)) => {
                    r.1 == IngestAction::<V, E>::Failed(
                        IngestFailure::Embed {
                            chunk_index: self.entries().len() as usize,
                            cause: e,
                        },
                    ) && r.0.phase() == IngestPhase::Finished
                },
                (IngestPhase::Inserting, IngestEvent::Failed(e)) => {
                    r.1 == IngestAction::<V, E>::Failed(IngestFailure::Insert(e)) && r.0.phase()
                        == IngestPhase::Finished
                },
                _ => {
                    r.1 == IngestAction::<V, E>::Failed(IngestFailure::OutOfTurn) && r.0.phase()
                        == IngestPhase::Finished
                },
            },
    {
        proof {
            use_type_invariant(&self);
        }
        let Ingestion { phase, doc_id, content, chunks, entries } = self;
        match (phase, event) {
            (IngestPhase::Storing, IngestEvent::Stored(id)) => {
                let cut = chunker.chunk(content.as_str());
                if cut.len() == 0 {
                    let done = Ingestion {
                        phase: IngestPhase::Finished,
                        doc_id: id,
                        content,
                        chunks: cut,
                        entries,
                    };
                    return (done, IngestAction::Done(id));
                }
                if cut.len() > MAX_CHUNKS {
                    let n = cut.len();
                    let done = Ingestion {
                        phase: IngestPhase::Finished,
                        doc_id: id,
                        content,
                        chunks: cut,
                        entries,
                    };
                    return (done, IngestAction::Failed(IngestFailure::TooManyChunks(n)));
                }
                let first = cut[0].clone();
                let next = Ingestion {
                    phase: IngestPhase::Embedding,
                    doc_id: id,
                    content,
                    chunks: cut,
                    entries,
                };
                (next, IngestAction::Embed { chunk_index: 0, text: first })
            },
            (IngestPhase::Embedding, IngestEvent::Embedded(v)) => {
                let mut gathered = entries;
                let n = gathered.len();
                let ghost before = gathered@;
                let entry = VectorEntry {
                    doc_id,
                    chunk_index: n as i32,
                    chunk_text: chunks[n].clone(),
                    embedding: v,
                };
                gathered.push(entry);
                proof {
                    assert(gathered@.take(n as int) =~= before);
                }
                if n + 1 < chunks.len() {
                    let text = chunks[n + 1].clone();
                    let next = Ingestion {
                        phase: IngestPhase::Embedding,
                        doc_id,
                        content,
                        chunks,
                        entries: gathered,
                    };
                    (next, IngestAction::Embed { chunk_index: n + 1, text })
                } else {
                    let next = Ingestion {
                        phase: IngestPhase::Inserting,
                        doc_id,
                        content,
                        chunks,
                        entries: Vec::new(),
                    };
                    (next, IngestAction::InsertBatch(gathered))
                }
            },
            (IngestPhase::Inserting, IngestEvent::Inserted) => {
                let done = Ingestion {
                    phase: IngestPhase::Finished,
                    doc_id,
                    content,
                    chunks,
                    entries,
                };
                (done, IngestAction::Done(doc_id))
            },
            (IngestPhase::Storing, IngestEvent::Failed(e)) => {
                let done = Ingestion {
                    phase: IngestPhase::Finished,
                    doc_id,
                    content,
                    chunks,
                    entries,
                };
                (done, IngestAction::Failed(IngestFailure::Store(e)))
            },
            (IngestPhase::Embedding, IngestEvent::Failed(e)) => {
                let n = entries.len();
                let done = Ingestion {
                    phase: IngestPhase::Finished,
                    doc_id,
                    content,
                    chunks,
                    entries,
                };
                (done, IngestAction::Failed(IngestFailure::Embed { chunk_index: n, cause: e }))
            },
            (IngestPhase::Inserting, IngestEvent::Failed(e)) => {
                let done = Ingestion {
                    phase: IngestPhase::Finished,
                    doc_id,
                    content,
                    chunks,
                    entries,
                };
                (done, IngestAction::Failed(IngestFailure::Insert(e)))
            },
            _ => {
                let done = Ingestion {
                    phase: IngestPhase::Finished,
                    doc_id,
                    content,
                    chunks,
                    entries,
                };
                (done, IngestAction::Failed(IngestFailure::OutOfTurn))
            },
        }
    }
}

/// Whether `entry` is the vector entry of the chunk number `index` of the
/// document `doc_id`, which has the text `text`.
pub open spec fn is_entry_of<V>(entry: VectorEntry<V>, doc_id: i64, index: int, text: Seq<char>) -> bool {
    &&& entry.doc_id == doc_id
    &&& entry.chunk_index == index
    &&& entry.chunk_text@ == text
}

/// What the deletion of a document is told.
#[derive(Debug, Clone, PartialEq)]
pub enum DeleteEvent<E> {
    /// The deletion begins.
    Begin,
    /// The vector index has deleted this many vectors of the document.
    VectorsDeleted(usize),
    /// The keyword index has deleted the document, if it held it.
    RowDeleted(bool),
    /// What was asked for has failed.
    Failed(E),
}

/// What the deletion of a document asks for next, or how it has ended.
#[derive(Debug, Clone, PartialEq)]
pub enum DeleteAction<E> {
    /// Delete the vectors of the document from the vector index.
    DeleteVectors(i64),
    /// Delete the document from the keyword index.
    DeleteRow(i64),
    /// The deletion is done; the keyword index held the document, or not.
    Done(bool),
    /// The deletion has failed.
    Failed(E),
}

/// What comes next in the deletion of the document `doc_id`: first its
/// vectors are deleted, then its row, so that no vector outlives its
/// document in the keyword index; the answer of the keyword index is the
/// result, and a failure ends the deletion.
pub fn delete_step<E>(doc_id: i64, event: DeleteEvent<E>) -> (action: DeleteAction<E>)
    ensures
        action == match event {
            DeleteEvent::Begin => DeleteAction::DeleteVectors(doc_id),
            DeleteEvent::VectorsDeleted(_) => DeleteAction::DeleteRow(doc_id),
            DeleteEvent::RowDeleted(existed) => DeleteAction::Done(existed),
            DeleteEvent::Failed(e) => DeleteAction::Failed(e),
        },
{
    match event {
        DeleteEvent::Begin => DeleteAction::DeleteVectors(doc_id),
        DeleteEvent::VectorsDeleted(_) => DeleteAction::DeleteRow(doc_id),
        DeleteEvent::RowDeleted(existed) => DeleteAction::Done(existed),
        DeleteEvent::Failed(e) => DeleteAction::Failed(e),
    }
}

} // verus!
