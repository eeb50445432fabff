//! What the vector index stores and returns, and the cutting of a text into
//! chunks of a fixed number of words.
use crate::fusion::SCORE_SCALE;
use crate::text::{
    copy_chars, join_range, join_with, lemma_views_push, split_words, texts, to_chars,
    to_strings, views, words,
};
use vstd::arithmetic::div_mod::lemma_div_is_ordered_by_denominator;
use vstd::prelude::*;

verus! {

/// The dimension of the embeddings that the vector index holds.
pub const EMBEDDING_DIMENSION: i32 = 768;

/// One chunk of a document with its embedding, as it is stored. `V` is the
/// embedding.
#[derive(Debug, Clone)]
pub struct VectorEntry<V> {
    /// The document that the chunk belongs to.
    pub doc_id: i64,
    /// The place of the chunk in its document, counted from 0.
    pub chunk_index: i32,
    /// The text of the chunk.
    pub chunk_text: String,
    /// The embedding of the chunk.
    pub embedding: V,
}

/// One hit of a vector search.
#[derive(Debug, Clone)]
pub struct SearchResult {
    /// The document that the chunk belongs to.
    pub doc_id: i64,
    /// The place of the chunk in its document, counted from 0.
    pub chunk_index: i32,
    /// The text of the chunk.
    pub chunk_text: String,
    /// How close the chunk is to the query, from 0 to `SCORE_SCALE`, in
    /// units of score.
    pub similarity: u64,
}

/// The similarity, in units of score, of a chunk at the distance
/// `distance` from the query, itself in units of score: one over one plus
/// the distance.
pub open spec fn similarity_of(distance: nat) -> nat {
    (SCORE_SCALE as nat * SCORE_SCALE as nat) / (SCORE_SCALE as nat + distance)
}

/// The similarity of a chunk at the distance `distance` from the query.
pub fn similarity_from_distance(distance: u64) -> (s: u64)
    ensures
        s == similarity_of(distance as nat),
        s <= SCORE_SCALE,
{
    let num: u128 = 1000000000000000000;
    assert(num == SCORE_SCALE as nat * SCORE_SCALE as nat) by (nonlinear_arith)
        requires
            num == 1000000000000000000,
            SCORE_SCALE == 1000000000,
    ;
    let den: u128 = SCORE_SCALE as u128 + distance as u128;
    let q: u128 = num / den;
    proof {
        lemma_div_is_ordered_by_denominator(
            num as int,
            SCORE_SCALE as int,
            den as int,
        );
        assert(1000000000000000000int / 1000000000 == 1000000000) by (nonlinear_arith);
    }
    q as u64
}

/// The space between two words of a chunk.
pub open spec fn space() -> Seq<char> {
    seq![' ']
}

/// The chunks of `size` words each, from the word number `start` on, each
/// chunk beginning `size - overlap` words after the one before it; the
/// chunk that reaches the last word is the last one.
pub open spec fn word_chunks(ws: Seq<Seq<char>>, start: int, size: int, overlap: int) -> Seq<
    Seq<char>,
>
    decreases ws.len() - start,
{
    if start < 0 || start >= ws.len() || overlap < 0 || overlap >= size {
        Seq::empty()
    } else {
        let end = if start + size < ws.len() {
            start + size
        } else {
            ws.len() as int
        };
        let rest = if end >= ws.len() {
            Seq::empty()
        } else {
            word_chunks(ws, start + size - overlap, size, overlap)
        };
        seq![join_with(ws.subrange(start, end), space())] + rest
    }
}

/// The chunks of a text of at most `size` words each: none for a text
/// without words, the text itself where it has at most `size` words, and
/// else its words in chunks of `size`, joined by single spaces, each chunk
/// sharing its first `overlap` words with the chunk before it.
pub open spec fn text_chunks(text: Seq<char>, size: int, overlap: int) -> Seq<Seq<char>> {
    let ws = words(text);
    if ws.len() == 0 {
        Seq::empty()
    } else if ws.len() <= size {
        seq![text]
    } else {
        word_chunks(ws, 0, size, overlap)
    }
}

/// Cuts a text into chunks of `chunk_size` words, of which each shares
/// `overlap` words with the one before it. Where the text has more words
/// than one chunk holds, `overlap` has to be less than `chunk_size`.
pub fn chunk_text(text: &str, chunk_size: usize, overlap: usize) -> (out: Vec<String>)
    requires
        words(text@).len() > chunk_size ==> overlap < chunk_size,
    ensures
        texts(out@) == text_chunks(text@, chunk_size as int, overlap as int),
{
    let chars = to_chars(text);
    let ws = split_words(&chars);
    let mut chunks: Vec<Vec<char>> = Vec::new();
    if ws.len() == 0 {
        let out = to_strings(&chunks);
        proof {
            assert(texts(out@) =~= Seq::<Seq<char>>::empty());
        }
        return out;
    }
    if ws.len() <= chunk_size {
        let whole = copy_chars(&chars);
        proof {
            lemma_views_push(chunks@, whole);
        }
        chunks.push(whole);
        let out = to_strings(&chunks);
        proof {
            assert(texts(out@) =~= seq![text@]);
        }
        return out;
    }
    let mut sep: Vec<char> = Vec::new();
    sep.push(' ');
    proof {
        assert(sep@ =~= space());
        assert(views(chunks@) =~= Seq::<Seq<char>>::empty());
    }
    let mut start: usize = 0;
    let ghost all = views(ws@);
    let ghost size = chunk_size as int;
    let ghost lap = overlap as int;
    loop
        invariant_except_break
            start < ws.len(),
            overlap < chunk_size,
            all == views(ws@),
            size == chunk_size as int,
            lap == overlap as int,
            sep@ == space(),
            word_chunks(all, 0, size, lap) == views(chunks@) + word_chunks(
                all,
                start as int,
                size,
                lap,
            ),
        ensures
            views(chunks@) == word_chunks(all, 0, size, lap),
        decreases ws.len() - start,
    {
        let ghost before = views(chunks@);
        let end: usize = if ws.len() - start > chunk_size {
            start + chunk_size
        } else {
            ws.len()
        };
        let chunk = join_range(&ws, start, end, &sep);
        proof {
            lemma_views_push(chunks@, chunk);
        }
        chunks.push(chunk);
        if end >= ws.len() {
            proof {
                assert(before + (seq![chunk@] + Seq::<Seq<char>>::empty()) =~= before.push(
                    chunk@,
                ));
            }
            break;
        }
        proof {
            assert(before + (seq![chunk@] + word_chunks(all, start + size - lap, size, lap))
                =~= before.push(chunk@) + word_chunks(all, start + size - lap, size, lap));
        }
        start = start + (chunk_size - overlap);
    }
    to_strings(&chunks)
}

} // verus!
