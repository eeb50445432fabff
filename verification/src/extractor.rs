//! What is read from a file: its text, its type, and what else is known of
//! it.
use crate::collector::FileType;
use crate::embedding::{get_api_key, key_is_set};
use crate::text::{to_chars, to_string};
use vstd::prelude::*;

verus! {

/// What else is known of a piece of content.
#[derive(Debug, Clone)]
pub struct ContentMetadata {
    /// The page of a PDF document that the content is, counted from 1.
    pub page_number: Option<usize>,
    /// The number of pages of the PDF document.
    pub total_pages: Option<usize>,
    /// How the text of an image was read.
    pub image_description: Option<String>,
}

impl Default for ContentMetadata {
    fn default() -> (r: Self)
        ensures
            r.page_number is None,
            r.total_pages is None,
            r.image_description is None,
    {
        ContentMetadata { page_number: None, total_pages: None, image_description: None }
    }
}

/// A piece of content that was read from a file.
#[derive(Debug, Clone)]
pub struct ExtractedContent {
    /// The text.
    pub text: String,
    /// The type of the file.
    pub source_type: FileType,
    /// What else is known.
    pub metadata: ContentMetadata,
}

/// Why nothing was read from a file.
#[derive(Debug, Clone, PartialEq, Eq)]
pub enum ExtractError {
    /// An image is to be read, and no API key is set.
    MissingApiKey,
    /// The image has an extension that is not supported; it is given in
    /// lower case.
    UnsupportedImageFormat(String),
    /// The image is too large to be encoded; it has this many bytes.
    ImageTooLarge(usize),
}

/// The reader of files.
pub struct ContentExtractor {
    api_key: Option<String>,
}

impl View for ContentExtractor {
    type V = Option<String>;

    closed spec fn view(&self) -> Option<String> {
        self.api_key
    }
}

impl ContentExtractor {
    /// A reader with this API key.
    pub fn new(api_key: Option<String>) -> (r: Self)
        ensures
            r@ == api_key,
    {
        ContentExtractor { api_key }
    }

    /// A reader with the API key found among the two candidates, if any:
    /// the first is the value of `GEMINI_API_KEY`, the second that of
    /// `GOOGLE_AI_API_KEY`.
    pub fn from_env(gemini: Option<String>, google: Option<String>) -> (r: Self)
        ensures
            r@ == if key_is_set(gemini) {
                gemini
            } else if key_is_set(google) {
                google
            } else {
                None
            },
    {
        let key = match get_api_key(gemini, google) {
            Ok(k) => Some(k),
            Err(_) => None,
        };
        ContentExtractor { api_key: key }
    }

    /// The API key with which an image is read; an image cannot be read
    /// without one.
    pub fn image_api_key(&self) -> (r: Result<&String, ExtractError>)
        ensures
            match self@ {
                Some(k) => r == Ok::<&String, ExtractError>(&k),
                None => r == Err::<&String, ExtractError>(ExtractError::MissingApiKey),
            },
    {
        match &self.api_key {
            Some(k) => Ok(k),
            None => Err(ExtractError::MissingApiKey),
        }
    }
}

/// The content of a text file: its text, as one piece.
pub fn text_content(text: String) -> (r: Vec<ExtractedContent>)
    ensures
        r.len() == 1,
        r@[0].text == text,
        r@[0].source_type == FileType::Text,
        r@[0].metadata.page_number is None,
        r@[0].metadata.total_pages is None,
        r@[0].metadata.image_description is None,
{
    let mut out: Vec<ExtractedContent> = Vec::new();
    out.push(
        ExtractedContent {
            text,
            source_type: FileType::Text,
            metadata: ContentMetadata::default(),
        },
    );
    out
}

/// The content of an image: the text that was read from it, as one piece,
/// with a note on how it was read.
pub fn image_content(text: String) -> (r: Vec<ExtractedContent>)
    ensures
        r.len() == 1,
        r@[0].text == text,
        r@[0].source_type == FileType::Image,
        r@[0].metadata.page_number is None,
        r@[0].metadata.total_pages is None,
        r@[0].metadata.image_description is Some,
        r@[0].metadata.image_description->Some_0@ == "Extracted via Gemini Vision"@,
{
    let mut out: Vec<ExtractedContent> = Vec::new();
    let note = to_string(&to_chars("Extracted via Gemini Vision"));
    out.push(
        ExtractedContent {
            text,
            source_type: FileType::Image,
            metadata: ContentMetadata {
                page_number: None,
                total_pages: None,
                image_description: Some(note),
            },
        },
    );
    out
}

/// The content of a PDF document: one piece for each page, in order, each
/// with the number of its page and the number of pages.
pub fn pdf_content(pages: Vec<(usize, String)>) -> (r: Vec<ExtractedContent>)
    ensures
        r.len() == pages.len(),
        forall|i: int|
            0 <= i < r.len() ==> {
                &&& (#[trigger] r@[i]).text == pages@[i].1
                &&& r@[i].source_type == FileType::Pdf
                &&& r@[i].metadata.page_number == Some(pages@[i].0)
                &&& r@[i].metadata.total_pages == Some(pages@.len() as usize)
                &&& r@[i].metadata.image_description is None
            },
{
    let total = pages.len();
    let mut out: Vec<ExtractedContent> = Vec::new();
    let ghost all = pages@;
    for page in it: pages
        invariant
            it.seq() == all,
            total == all.len(),
            out.len() == it.index(),
            forall|i: int|
                0 <= i < out.len() ==> {
                    &&& (#[trigger] out@[i]).text == all[i].1
                    &&& out@[i].source_type == FileType::Pdf
                    &&& out@[i].metadata.page_number == Some(all[i].0)
                    &&& out@[i].metadata.total_pages == Some(total)
                    &&& out@[i].metadata.image_description is None
                },
    {
        let (number, text) = page;
        out.push(
            ExtractedContent {
                text,
                source_type: FileType::Pdf,
                metadata: ContentMetadata {
                    page_number: Some(number),
                    total_pages: Some(total),
                    image_description: None,
                },
            },
        );
    }
    out
}

} // verus!
