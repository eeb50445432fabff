//! What the keyword index stores and returns, and the queries that it is
//! asked.
use crate::text::{char_is_whitespace, is_whitespace, to_chars, to_string};
use vstd::prelude::*;

verus! {

/// A document as it is stored.
#[derive(Debug, Clone)]
pub struct Document {
    /// The identity that the keyword index gave the document.
    pub id: i64,
    /// Where the document comes from; no two documents share it.
    pub url: String,
    /// The title of the document.
    pub title: Option<String>,
    /// The text of the document.
    pub content: String,
    /// The framework that the document is about.
    pub framework: Option<String>,
    /// When the document was stored, in seconds since the Unix epoch.
    pub created_at: i64,
}

/// A document that is to be stored.
#[derive(Debug, Clone)]
pub struct NewDocument {
    /// Where the document comes from.
    pub url: String,
    /// The title of the document.
    pub title: Option<String>,
    /// The text of the document.
    pub content: String,
    /// The framework that the document is about.
    pub framework: Option<String>,
}

/// One hit of a keyword search.
#[derive(Debug, Clone)]
pub struct FtsSearchResult {
    /// The document.
    pub doc_id: i64,
    /// The title of the document.
    pub title: Option<String>,
    /// The place in the document that matched.
    pub content_snippet: String,
    /// The BM25 score of the hit, in units of score; it may be negative.
    pub bm25_score: i64,
}

/// How much the keyword index holds.
#[derive(Debug, Clone)]
pub struct StoreStats {
    /// The number of documents.
    pub document_count: usize,
    /// The size of their texts, in bytes.
    pub total_content_bytes: usize,
    /// Where the index lies.
    pub db_path: String,
}

/// Whether `c` is a letter or a digit, as `char::is_alphanumeric` of the
/// standard library tells.
pub uninterp spec fn is_alphanumeric(c: char) -> bool;

/// `char::is_alphanumeric` of the standard library: whether the character
/// is alphabetic or numeric by its Unicode properties. Its answer is named
/// `is_alphanumeric`.
pub assume_specification[ char::is_alphanumeric ](c: char) -> (r: bool)
    ensures
        r == is_alphanumeric(c),
;

/// Whether a character of a query is kept: letters, digits, `_` and `-`.
pub open spec fn is_query_char(c: char) -> bool {
    is_alphanumeric(c) || c == '_' || c == '-'
}

/// What reading a query has made of it so far: the text that is kept, and
/// whether whitespace was read since the last character that was kept.
pub struct QueryScan {
    pub out: Seq<char>,
    pub gap: bool,
}

/// The reading after one more character, of which `keep` tells whether it
/// is kept. Whitespace ends a word. A character that is kept joins the
/// text, after a single space where whitespace was read since the last one.
/// Every other character is dropped.
pub open spec fn scan_query_char(st: QueryScan, c: char, keep: bool) -> QueryScan {
    if is_whitespace(c) {
        QueryScan { out: st.out, gap: true }
    } else if keep {
        QueryScan {
            out: if st.gap && st.out.len() > 0 {
                st.out.push(' ').push(c)
            } else {
                st.out.push(c)
            },
            gap: false,
        }
    } else {
        st
    }
}

/// The reading of the first `n` characters of a query.
pub open spec fn scan_query(query: Seq<char>, keep: Seq<bool>, n: int) -> QueryScan
    decreases n,
{
    if n <= 0 {
        QueryScan { out: Seq::empty(), gap: false }
    } else {
        scan_query_char(scan_query(query, keep, n - 1), query[n - 1], keep[n - 1])
    }
}

/// The query as the keyword index is asked it: its words, each without the
/// characters that are not kept, the words that this leaves empty left out,
/// joined by single spaces. `keep` tells of each character whether it is
/// kept.
pub open spec fn escaped_query(query: Seq<char>, keep: Seq<bool>) -> Seq<char> {
    scan_query(query, keep, query.len() as int).out
}

/// Of each character of a query whether it is kept.
pub open spec fn query_flags(query: Seq<char>) -> Seq<bool> {
    Seq::new(query.len(), |i: int| is_query_char(query[i]))
}

/// Of each character of a query whether it is kept.
pub fn flag_query_chars(query: &Vec<char>) -> (keep: Vec<bool>)
    ensures
        keep@ == query_flags(query@),
{
    let mut keep: Vec<bool> = Vec::new();
    let mut i: usize = 0;
    while i < query.len()
        invariant
            i <= query.len(),
            keep.len() == i,
            forall|j: int| 0 <= j < i ==> keep@[j] == is_query_char(query@[j]),
        decreases query.len() - i,
    {
        let c = query[i];
        keep.push(c.is_alphanumeric() || c == '_' || c == '-');
        i += 1;
    }
    assert(keep@ =~= query_flags(query@));
    keep
}

/// The query as the keyword index is asked it, where `keep` tells of each
/// character whether it is kept.
pub fn escape_query_chars(query: &Vec<char>, keep: &Vec<bool>) -> (out: Vec<char>)
    requires
        keep.len() == query.len(),
    ensures
        out@ == escaped_query(query@, keep@),
{
    let mut out: Vec<char> = Vec::new();
    let mut gap = false;
    let mut i: usize = 0;
    while i < query.len()
        invariant
            i <= query.len(),
            keep.len() == query.len(),
            out@ == scan_query(query@, keep@, i as int).out,
            gap == scan_query(query@, keep@, i as int).gap,
        decreases query.len() - i,
    {
        let c = query[i];
        if char_is_whitespace(c) {
            gap = true;
        } else if keep[i] {
            if gap && out.len() > 0 {
                out.push(' ');
            }
            out.push(c);
            gap = false;
        }
        i += 1;
    }
    out
}

/// The query as the keyword index is asked it: only letters, digits, `_`
/// and `-` are kept, and the words are joined by single spaces.
pub fn escape_fts5_query(query: &str) -> (out: String)
    ensures
        out@ == escaped_query(query@, query_flags(query@)),
{
    let chars = to_chars(query);
    let keep = flag_query_chars(&chars);
    to_string(&escape_query_chars(&chars, &keep))
}

} // verus!
