//! The pages of the text of a PDF document.
use crate::text::{
    blank, is_blank, split_at_char, split_on_char, texts, to_char_vecs, to_chars, to_string,
    to_strings, trim_pieces, trimmed_nonempty,
};
use vstd::prelude::*;

verus! {

/// Whether the regular expression `pattern` matches somewhere in
/// `haystack`, as the crate `regex` decides it; `None` where `pattern` is
/// no regular expression that the crate accepts.
pub uninterp spec fn regex_matches(pattern: Seq<char>, haystack: Seq<char>) -> Option<bool>;

/// The parts of `haystack` between the matches of the regular expression
/// `pattern`, as the crate `regex` splits it; `None` where `pattern` is no
/// regular expression that the crate accepts.
pub uninterp spec fn regex_pieces(pattern: Seq<char>, haystack: Seq<char>) -> Option<
    Seq<Seq<char>>,
>;

/// The texts of optional pieces.
pub open spec fn opt_texts(pieces: Option<Vec<String>>) -> Option<Seq<Seq<char>>> {
    match pieces {
        Some(v) => Some(texts(v@)),
        None => None,
    }
}

/// `Regex::new` and `Regex::is_match` of the crate `regex`: compiles
/// `pattern` and tells whether it matches somewhere in `haystack`. The
/// answer depends on the two texts alone and is named `regex_matches`.
#[verifier::external_body]
fn regex_is_match(pattern: &str, haystack: &str) -> (r: Option<bool>)
    ensures
        r == regex_matches(pattern@, haystack@),
{
    match regex::Regex::new(pattern) {
        Ok(re) => Some(re.is_match(haystack)),
        Err(_) => None,
    }
}

/// `Regex::new` and `Regex::split` of the crate `regex`: compiles
/// `pattern` and hands out the parts of `haystack` that lie between its
/// matches, in order. The parts depend on the two texts alone and are named
/// `regex_pieces`.
#[verifier::external_body]
fn regex_split(pattern: &str, haystack: &str) -> (r: Option<Vec<String>>)
    ensures
        opt_texts(r) == regex_pieces(pattern@, haystack@),
{
    match regex::Regex::new(pattern) {
        Ok(re) => Some(re.split(haystack).map(|s| s.to_string()).collect()),
        Err(_) => None,
    }
}

/// The regular expression of a line that separates two pages: a run of `-`
/// or `=`, an optional `Page`, a number, and a run of `-` or `=` again.
pub open spec fn page_separator() -> Seq<char> {
    r"(?m)^[\s]*[-=]+[\s]*(?:Page[\s]*)?(\d+)[\s]*[-=]+[\s]*$"@
}

/// The regular expression of a line that separates two pages.
pub fn page_separator_pattern() -> (p: &'static str)
    ensures
        p@ == page_separator(),
{
    r"(?m)^[\s]*[-=]+[\s]*(?:Page[\s]*)?(\d+)[\s]*[-=]+[\s]*$"
}

/// The pages of a text that form feeds divide: its trimmed parts between
/// the form feeds, without the empty ones.
pub open spec fn pages_by_form_feed(text: Seq<char>) -> Seq<Seq<char>> {
    trimmed_nonempty(split_at_char(text, '\u{000C}'))
}

/// The pages of a text. Where form feeds divide it into more than one
/// page, these are the pages. Else, where the separator matches (`matched`)
/// and the parts between its matches (`pieces`), trimmed and without the
/// empty ones, are more than one, those are the pages. Else the text is one
/// page.
pub open spec fn chosen_pages(
    text: Seq<char>,
    matched: Option<bool>,
    pieces: Option<Seq<Seq<char>>>,
) -> Seq<Seq<char>> {
    if pages_by_form_feed(text).len() > 1 {
        pages_by_form_feed(text)
    } else if matched == Some(true) && pieces is Some && trimmed_nonempty(pieces->Some_0).len()
        > 1 {
        trimmed_nonempty(pieces->Some_0)
    } else {
        seq![text]
    }
}

/// The pages of a text, given whether the separator matches in it and the
/// parts between its matches.
pub fn choose_pages(text: &str, matched: Option<bool>, pieces: Option<Vec<String>>) -> (out: Vec<
    String,
>)
    ensures
        texts(out@) == chosen_pages(text@, matched, opt_texts(pieces)),
{
    let chars = to_chars(text);
    let by_form_feed = trim_pieces(&split_on_char(&chars, '\u{000C}'));
    if by_form_feed.len() > 1 {
        return to_strings(&by_form_feed);
    }
    if let Some(true) = matched {
        if let Some(parts) = pieces {
            let pages = trim_pieces(&to_char_vecs(&parts));
            if pages.len() > 1 {
                return to_strings(&pages);
            }
        }
    }
    let mut out: Vec<String> = Vec::new();
    out.push(to_string(&chars));
    proof {
        assert(texts(out@) =~= seq![text@]);
    }
    out
}

/// The pages of the text of a PDF document: divided by form feeds, or else
/// by separator lines, or else the text as one page.
pub fn split_pdf_pages(text: &str) -> (out: Vec<String>)
    ensures
        texts(out@) == chosen_pages(
            text@,
            regex_matches(page_separator(), text@),
            regex_pieces(page_separator(), text@),
        ),
{
    let matched = regex_is_match(page_separator_pattern(), text);
    let pieces = match matched {
        Some(true) => regex_split(page_separator_pattern(), text),
        _ => None,
    };
    choose_pages(text, matched, pieces)
}

/// The numbered pages of a text, given its pages: one empty page for a
/// blank text, and else the pages numbered from 1.
pub fn number_pages(text: &str, pages: Vec<String>) -> (out: Vec<(usize, String)>)
    ensures
        is_blank(text@) ==> out.len() == 1 && out@[0].0 == 1 && out@[0].1@.len() == 0,
        !is_blank(text@) ==> out.len() == pages.len() && forall|i: int|
            0 <= i < out.len() ==> (#[trigger] out@[i]).0 == i + 1 && out@[i].1 == pages@[i],
{
    let chars = to_chars(text);
    let mut out: Vec<(usize, String)> = Vec::new();
    if blank(&chars) {
        out.push((1, String::new()));
        return out;
    }
    let ghost all = pages@;
    let total = pages.len();
    for page in it: pages
        invariant
            it.seq() == all,
            all.len() == total,
            out.len() == it.index(),
            forall|i: int| 0 <= i < out.len() ==> (#[trigger] out@[i]).0 == i + 1 && out@[i].1 == all[i],
    {
        let n = out.len();
        assert(n < total);
        out.push((n + 1, page));
    }
    out
}

/// The numbered pages of the text of a PDF document.
pub fn extract_pages_from_text(text: &str) -> (out: Vec<(usize, String)>)
    ensures
        is_blank(text@) ==> out.len() == 1 && out@[0].0 == 1 && out@[0].1@.len() == 0,
        !is_blank(text@) ==> {
            let pages = chosen_pages(
                text@,
                regex_matches(page_separator(), text@),
                regex_pieces(page_separator(), text@),
            );
            out.len() == pages.len() && forall|i: int|
                0 <= i < out.len() ==> (#[trigger] out@[i]).0 == i + 1 && out@[i].1@ == pages[i]
        },
{
    let chars = to_chars(text);
    if blank(&chars) {
        let mut out: Vec<(usize, String)> = Vec::new();
        out.push((1, String::new()));
        return out;
    }
    let pages = split_pdf_pages(text);
    let out = number_pages(text, pages);
    out
}

/// How many characters a page is taken to have.
pub const CHARS_PER_PAGE: usize = 3000;

/// How many pages a text is taken to have: one for each `CHARS_PER_PAGE`
/// characters, and one at least.
pub fn estimate_page_count(text: &str) -> (n: usize)
    ensures
        n == if text@.len() / (CHARS_PER_PAGE as nat) >= 1 {
            text@.len() / (CHARS_PER_PAGE as nat)
        } else {
            1
        },
{
    let count = to_chars(text).len();
    let pages = count / CHARS_PER_PAGE;
    if pages >= 1 {
        pages
    } else {
        1
    }
}

} // verus!
