//! What is kept of a web page: its title and its text.
use crate::text::{
    blank, is_blank, join_range, join_with, split_words, texts, to_char_vecs, to_chars,
    to_string, trim, trim_pieces, trimmed, trimmed_nonempty, views, words,
};
use vstd::prelude::*;
use vstd::utf8::encode_utf8;

verus! {

/// What was scraped from a web page.
#[derive(Debug, Clone)]
pub struct ScrapedContent {
    /// The title of the page.
    pub title: Option<String>,
    /// The text of the page, without markup.
    pub content: String,
    /// The address of the page.
    pub url: String,
}

/// A single space.
pub open spec fn single_space() -> Seq<char> {
    seq![' ']
}

/// The text of an element, given the texts of its text nodes: the words of
/// all the nodes, in order, joined by single spaces.
pub open spec fn element_text(nodes: Seq<Seq<char>>) -> Seq<char> {
    join_with(words(join_with(trimmed_nonempty(nodes), single_space())), single_space())
}

/// The text of an element, given the texts of its text nodes.
pub fn extract_text(nodes: &Vec<String>) -> (out: String)
    ensures
        out@ == element_text(texts(nodes@)),
{
    let pieces = trim_pieces(&to_char_vecs(nodes));
    let mut sep: Vec<char> = Vec::new();
    sep.push(' ');
    proof {
        assert(sep@ =~= single_space());
        assert(views(pieces@).subrange(0, pieces.len() as int) =~= views(pieces@));
    }
    let joined = join_range(&pieces, 0, pieces.len(), &sep);
    let ws = split_words(&joined);
    proof {
        assert(views(ws@).subrange(0, ws.len() as int) =~= views(ws@));
    }
    to_string(&join_range(&ws, 0, ws.len(), &sep))
}

/// The title of a page, given the text of its `title` element and that of
/// its first heading, where it has them: the first of the two that holds
/// more than whitespace, trimmed.
pub fn choose_title(title: Option<&str>, heading: Option<&str>) -> (r: Option<String>)
    ensures
        match (title, heading) {
            (Some(t), _) if !is_blank(t@) => r is Some && r->Some_0@ == trim(t@),
            (_, Some(h)) if !is_blank(h@) => r is Some && r->Some_0@ == trim(h@),
            _ => r is None,
        },
{
    if let Some(t) = title {
        let chars = to_chars(t);
        if !blank(&chars) {
            return Some(to_string(&trimmed(&chars)));
        }
    }
    if let Some(h) = heading {
        let chars = to_chars(h);
        if !blank(&chars) {
            return Some(to_string(&trimmed(&chars)));
        }
    }
    None
}

/// A text of a candidate element counts as the content of a page where it
/// has more bytes than this.
pub const MIN_CONTENT_BYTES: usize = 100;

/// The length of a text in bytes, as the machine counts it: the number of
/// bytes of its UTF-8 encoding.
pub open spec fn byte_length(text: Seq<char>) -> usize {
    encode_utf8(text).len() as usize
}

/// The index of the first candidate that is long enough to be the content,
/// or the number of candidates where none is.
pub open spec fn first_long_enough(candidates: Seq<Seq<char>>) -> int
    decreases candidates.len(),
{
    if candidates.len() == 0 || byte_length(candidates[0]) > MIN_CONTENT_BYTES {
        0
    } else {
        1 + first_long_enough(candidates.skip(1))
    }
}

/// The content of a page, given the texts of its candidate elements in
/// the order of preference, and the text of its body: the first candidate
/// of more than `MIN_CONTENT_BYTES` bytes, else the text of the body, else
/// nothing.
pub fn choose_content(candidates: &Vec<String>, body: Option<&str>) -> (out: String)
    ensures
        ({
            let k = first_long_enough(texts(candidates@));
            if 0 <= k < candidates.len() {
                out@ == candidates@[k]@
            } else {
                out@ == match body {
                    Some(b) => b@,
                    None => Seq::<char>::empty(),
                }
            }
        }),
{
    let mut i: usize = 0;
    let ghost all = texts(candidates@);
    proof {
        assert(all.skip(0) =~= all);
    }
    while i < candidates.len()
        invariant
            i <= candidates.len(),
            all == texts(candidates@),
            first_long_enough(all) == i + first_long_enough(all.skip(i as int)),
        decreases candidates.len() - i,
    {
        let candidate = candidates[i].as_str();
        proof {
            assert(all.skip(i as int)[0] == candidates@[i as int]@);
            assert(all.skip(i as int).skip(1) =~= all.skip(i + 1));
        }
        if candidate.len() > MIN_CONTENT_BYTES {
            return to_string(&to_chars(candidate));
        }
        i += 1;
    }
    match body {
        Some(b) => to_string(&to_chars(b)),
        None => String::new(),
    }
}

} // verus!
