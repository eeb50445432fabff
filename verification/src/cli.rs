//! How results and documents are shown on the command line, and what the
//! commands make of their arguments.
use crate::collector::FileType;
use crate::hybrid::SearchMethod;
use crate::store::NewDocument;
use crate::text::{
    copy_range, decimal, digit, digit_char, push_decimal, push_str, to_chars, to_string, trim,
    trimmed,
};
use vstd::prelude::*;

verus! {

/// The text on one line: each line feed replaced by a space, each carriage
/// return left out.
pub open spec fn on_one_line(s: Seq<char>) -> Seq<char>
    decreases s.len(),
{
    if s.len() == 0 {
        Seq::empty()
    } else if s.last() == '\n' {
        on_one_line(s.drop_last()).push(' ')
    } else if s.last() == '\r' {
        on_one_line(s.drop_last())
    } else {
        on_one_line(s.drop_last()).push(s.last())
    }
}

/// The text as it is shown: on one line and trimmed, and cut after
/// `max_chars` characters, with `...` behind them, where it is longer.
pub open spec fn truncated(text: Seq<char>, max_chars: int) -> Seq<char> {
    let cleaned = trim(on_one_line(text));
    if cleaned.len() <= max_chars {
        cleaned
    } else {
        cleaned.take(max_chars) + seq!['.', '.', '.']
    }
}

/// The text as it is shown, in at most `max_chars` characters and an
/// ellipsis.
pub fn truncate_text(text: &str, max_chars: usize) -> (out: String)
    ensures
        out@ == truncated(text@, max_chars as int),
{
    let chars = to_chars(text);
    let mut line: Vec<char> = Vec::new();
    let mut i: usize = 0;
    proof {
        assert(chars@.take(0) =~= Seq::<char>::empty());
    }
    while i < chars.len()
        invariant
            i <= chars.len(),
            line@ == on_one_line(chars@.take(i as int)),
        decreases chars.len() - i,
    {
        proof {
            let upto = chars@.take(i + 1);
            assert(upto.drop_last() =~= chars@.take(i as int));
            assert(upto.last() == chars@[i as int]);
        }
        let c = chars[i];
        if c == '\n' {
            line.push(' ');
        } else if c != '\r' {
            line.push(c);
        }
        i += 1;
    }
    proof {
        assert(chars@.take(chars.len() as int) =~= chars@);
    }
    let cleaned = trimmed(&line);
    if cleaned.len() <= max_chars {
        to_string(&cleaned)
    } else {
        let mut out = copy_range(&cleaned, 0, max_chars);
        out.push('.');
        out.push('.');
        out.push('.');
        proof {
            assert(out@ =~= cleaned@.take(max_chars as int) + seq!['.', '.', '.']);
        }
        to_string(&out)
    }
}

/// The label of a type of file.
pub fn type_label(file_type: FileType) -> (label: &'static str)
    ensures
        label@ == match file_type {
            FileType::Text => "TXT"@,
            FileType::Image => "IMG"@,
            FileType::Pdf => "PDF"@,
        },
{
    match file_type {
        FileType::Text => "TXT",
        FileType::Image => "IMG",
        FileType::Pdf => "PDF",
    }
}

/// The label of a search method.
pub fn method_label(method: SearchMethod) -> (label: &'static str)
    ensures
        label@ == match method {
            SearchMethod::Vector => "VEC"@,
            SearchMethod::Fts => "FTS"@,
            SearchMethod::Hybrid => "HYB"@,
        },
{
    match method {
        SearchMethod::Vector => "VEC",
        SearchMethod::Fts => "FTS",
        SearchMethod::Hybrid => "HYB",
    }
}

/// The title of a piece of content of a file: the name of the file, with
/// the number of the page behind it where the piece is a page.
pub open spec fn content_title(file_name: Seq<char>, page: Option<usize>) -> Seq<char> {
    match page {
        Some(p) => file_name + " (Page "@ + decimal(p as nat) + ")"@,
        None => file_name,
    }
}

/// The document that is stored for one piece of content of a file: its
/// address is `file://` and the path, its title the name of the file with
/// the number of the page, if any.
pub fn file_document(
    path: &str,
    file_name: &str,
    page: Option<usize>,
    text: String,
    framework: Option<String>,
) -> (doc: NewDocument)
    ensures
        doc.url@ == "file://"@ + path@,
        doc.title is Some,
        doc.title->Some_0@ == content_title(file_name@, page),
        doc.content == text,
        doc.framework == framework,
{
    let mut url: Vec<char> = Vec::new();
    push_str(&mut url, "file://");
    push_str(&mut url, path);
    let mut title: Vec<char> = Vec::new();
    push_str(&mut title, file_name);
    if let Some(p) = page {
        push_str(&mut title, " (Page ");
        push_decimal(&mut title, p as u64);
        push_str(&mut title, ")");
    }
    proof {
        assert(url@ =~= "file://"@ + path@);
        assert(title@ =~= content_title(file_name@, page));
    }
    NewDocument {
        url: to_string(&url),
        title: Some(to_string(&title)),
        content: text,
        framework,
    }
}

/// The text of a page that was scraped, as it is stored: under a heading
/// with the title of the page, where it has one.
pub open spec fn scraped_text(title: Option<String>, content: Seq<char>) -> Seq<char> {
    match title {
        Some(t) => "# "@ + t@ + "\n\n"@ + content,
        None => content,
    }
}

/// Where the content of an ingestion comes from.
#[derive(Debug, Clone, PartialEq, Eq)]
pub enum IngestSource {
    /// From the page at this address.
    Url(String),
    /// From this text, given directly.
    Text(String),
}

/// Where the content of an ingestion comes from: the address where one is
/// given, else the text where one is given, else nothing.
pub fn ingest_source(url: Option<String>, text: Option<String>) -> (r: Option<IngestSource>)
    ensures
        r == match (url, text) {
            (Some(u), _) => Some(IngestSource::Url(u)),
            (None, Some(t)) => Some(IngestSource::Text(t)),
            (None, None) => None,
        },
{
    match (url, text) {
        (Some(u), _) => Some(IngestSource::Url(u)),
        (None, Some(t)) => Some(IngestSource::Text(t)),
        (None, None) => None,
    }
}

/// The document that is stored for a page that was scraped from `url`.
pub fn scraped_document(
    url: &str,
    title: Option<String>,
    content: &str,
    framework: Option<String>,
) -> (doc: NewDocument)
    ensures
        doc.url@ == url@,
        doc.title == title,
        doc.content@ == scraped_text(title, content@),
        doc.framework == framework,
{
    let mut text: Vec<char> = Vec::new();
    if let Some(t) = &title {
        push_str(&mut text, "# ");
        push_str(&mut text, t.as_str());
        push_str(&mut text, "\n\n");
    }
    push_str(&mut text, content);
    proof {
        assert(text@ =~= scraped_text(title, content@));
    }
    NewDocument { url: to_string(&to_chars(url)), title, content: to_string(&text), framework }
}

/// The document that is stored for a text that was given directly: its
/// address is `direct-input`, and it has no title.
pub fn direct_document(text: String, framework: Option<String>) -> (doc: NewDocument)
    ensures
        doc.url@ == "direct-input"@,
        doc.title is None,
        doc.content == text,
        doc.framework == framework,
{
    NewDocument {
        url: to_string(&to_chars("direct-input")),
        title: None,
        content: text,
        framework,
    }
}

/// The bytes of a kilobyte.
pub const KB: usize = 1024;

/// The bytes of a megabyte.
pub const MB: usize = 1048576;

/// `num / den` rounded to the nearest whole number, a tie to the even one.
pub open spec fn round_half_even(num: nat, den: nat) -> nat
    recommends
        den > 0,
{
    let q = num / den;
    let r = num % den;
    if 2 * r > den || (2 * r == den && q % 2 == 1) {
        q + 1
    } else {
        q
    }
}

/// The power of two by which a number below 2^64 is divided to have at most
/// 53 binary digits.
pub open spec fn double_scale(n: nat) -> nat {
    if n < 9007199254740992 {
        1
    } else if n < 18014398509481984 {
        2
    } else if n < 36028797018963968 {
        4
    } else if n < 72057594037927936 {
        8
    } else if n < 144115188075855872 {
        16
    } else if n < 288230376151711744 {
        32
    } else if n < 576460752303423488 {
        64
    } else if n < 1152921504606846976 {
        128
    } else if n < 2305843009213693952 {
        256
    } else if n < 4611686018427387904 {
        512
    } else if n < 9223372036854775808 {
        1024
    } else {
        2048
    }
}

/// The number of 53 binary digits that is nearest to `n`, a tie to the
/// even one: what a double-precision number holds of `n`.
pub open spec fn nearest_double(n: nat) -> nat {
    round_half_even(n, double_scale(n)) * double_scale(n)
}

/// A number of hundredths as a decimal numeral with two decimals.
pub open spec fn two_decimals(hundredths: nat) -> Seq<char> {
    decimal(hundredths / 100) + seq!['.', digit((hundredths / 10) % 10), digit(hundredths % 10)]
}

/// A size in bytes as it is shown: in megabytes from a megabyte on, in
/// kilobytes from a kilobyte on, each with two decimals, and else in
/// bytes. The decimals are rounded to the nearest, a tie to the even one;
/// of a size of more than 53 binary digits the nearest number of 53 such
/// digits is shown.
pub open spec fn formatted_bytes(bytes: nat) -> Seq<char> {
    if bytes >= MB {
        two_decimals(round_half_even(nearest_double(bytes) * 100, MB as nat)) + " MB"@
    } else if bytes >= KB {
        two_decimals(round_half_even(bytes * 100, KB as nat)) + " KB"@
    } else {
        decimal(bytes) + " B"@
    }
}

/// `num / den` rounded to the nearest whole number, a tie to the even one.
fn rounded_quotient(num: u128, den: u128) -> (q: u128)
    requires
        0 < den <= 1048576,
        num <= 0xffff_ffff_ffff_ffff_ffff,
    ensures
        q == round_half_even(num as nat, den as nat),
        q <= num / den + 1,
{
    let q: u128 = num / den;
    let r: u128 = num % den;
    if 2 * r > den || (2 * r == den && q % 2 == 1) {
        q + 1
    } else {
        q
    }
}

/// The power of two by which `n` is divided to have at most 53 binary
/// digits.
fn scale_for_double(n: u128) -> (d: u128)
    requires
        n <= 0xffff_ffff_ffff_ffff,
    ensures
        d == double_scale(n as nat),
        1 <= d <= 2048,
{
    if n < 9007199254740992 {
        1
    } else if n < 18014398509481984 {
        2
    } else if n < 36028797018963968 {
        4
    } else if n < 72057594037927936 {
        8
    } else if n < 144115188075855872 {
        16
    } else if n < 288230376151711744 {
        32
    } else if n < 576460752303423488 {
        64
    } else if n < 1152921504606846976 {
        128
    } else if n < 2305843009213693952 {
        256
    } else if n < 4611686018427387904 {
        512
    } else if n < 9223372036854775808 {
        1024
    } else {
        2048
    }
}

/// Appends a number of hundredths as a decimal numeral with two decimals.
fn push_two_decimals(out: &mut Vec<char>, hundredths: u64)
    ensures
        final(out)@ == old(out)@ + two_decimals(hundredths as nat),
{
    push_decimal(out, hundredths / 100);
    out.push('.');
    out.push(digit_char((hundredths / 10) % 10));
    out.push(digit_char(hundredths % 10));
    assert(out@ =~= old(out)@ + two_decimals(hundredths as nat));
}

/// A size in bytes as it is shown.
pub fn format_bytes(bytes: usize) -> (out: String)
    ensures
        out@ == formatted_bytes(bytes as nat),
{
    let mut out: Vec<char> = Vec::new();
    let n: u128 = bytes as u128;
    if bytes >= MB {
        let d = scale_for_double(n);
        let q = rounded_quotient(n, d);
        assert(q * d <= 0x1_0000_0000_0000_0800) by (nonlinear_arith)
            requires
                q <= n / d + 1,
                1 <= d <= 2048,
                n <= 0xffff_ffff_ffff_ffff,
        ;
        let m: u128 = q * d;
        let h = rounded_quotient(m * 100, 1048576);
        assert(h <= 0xffff_ffff_ffff_ffff);
        push_two_decimals(&mut out, h as u64);
        push_str(&mut out, " MB");
    } else if bytes >= KB {
        let h = rounded_quotient(n * 100, 1024);
        assert(h <= 0xffff_ffff);
        push_two_decimals(&mut out, h as u64);
        push_str(&mut out, " KB");
    } else {
        push_decimal(&mut out, bytes as u64);
        push_str(&mut out, " B");
    }
    proof {
        assert(out@ =~= formatted_bytes(bytes as nat));
    }
    to_string(&out)
}

} // verus!
