use palank_rag::collector::FileType;
use palank_rag::extractor::{
    image_content, pdf_content, text_content, ContentExtractor, ContentMetadata, ExtractError,
};
use palank_rag::image::{get_mime_type, inline_image, mime_type_of_lowercase};
use palank_rag::pdf::{
    choose_pages, estimate_page_count, extract_pages_from_text, number_pages, split_pdf_pages,
};
use std::path::Path;

fn extension_of(path: &str) -> Option<String> {
    Path::new(path)
        .extension()
        .and_then(|e| e.to_str())
        .map(|e| e.to_string())
}

#[test]
fn test_get_mime_type() {
    assert_eq!(
        get_mime_type(extension_of("test.png").as_deref()).unwrap(),
        "image/png"
    );
    assert_eq!(
        get_mime_type(extension_of("test.jpg").as_deref()).unwrap(),
        "image/jpeg"
    );
    assert_eq!(
        get_mime_type(extension_of("test.JPEG").as_deref()).unwrap(),
        "image/jpeg"
    );
    assert!(get_mime_type(extension_of("test.exe").as_deref()).is_err());
}

#[test]
fn test_content_metadata_default() {
    let meta = ContentMetadata::default();
    assert!(meta.page_number.is_none());
    assert!(meta.total_pages.is_none());
}

#[test]
fn test_split_pdf_pages_with_formfeed() {
    let text = "Page 1 content\x0cPage 2 content\x0cPage 3 content";
    let pages = split_pdf_pages(text);
    assert_eq!(pages.len(), 3);
    assert_eq!(pages[0], "Page 1 content");
    assert_eq!(pages[1], "Page 2 content");
}

#[test]
fn test_split_pdf_pages_no_separator() {
    let text = "Just some text without page breaks";
    let pages = split_pdf_pages(text);
    assert_eq!(pages.len(), 1);
}

#[test]
fn test_estimate_page_count() {
    let short_text = "Hello world";
    assert_eq!(estimate_page_count(short_text), 1);

    let long_text = "a".repeat(6000);
    assert_eq!(estimate_page_count(&long_text), 2);
}

#[test]
fn page_count_counts_characters_not_bytes() {
    assert_eq!(estimate_page_count(""), 1);
    assert_eq!(estimate_page_count(&"가".repeat(2999)), 1);
    assert_eq!(estimate_page_count(&"가".repeat(3000)), 1);
    assert_eq!(estimate_page_count(&"가".repeat(9000)), 3);
}

#[test]
fn every_image_extension_has_its_mime_type() {
    assert_eq!(get_mime_type(Some("webp")).unwrap(), "image/webp");
    assert_eq!(get_mime_type(Some("GIF")).unwrap(), "image/gif");
    assert_eq!(get_mime_type(Some("bmp")).unwrap(), "image/bmp");
    assert_eq!(get_mime_type(Some("Jpg")).unwrap(), "image/jpeg");
    assert_eq!(
        get_mime_type(Some("TIFF")),
        Err(ExtractError::UnsupportedImageFormat("tiff".to_string()))
    );
    assert_eq!(
        get_mime_type(None),
        Err(ExtractError::UnsupportedImageFormat(String::new()))
    );
}

#[test]
fn lowercase_extensions_map_to_mime_types() {
    assert_eq!(mime_type_of_lowercase("png"), Some("image/png"));
    assert_eq!(mime_type_of_lowercase("jpeg"), Some("image/jpeg"));
    assert_eq!(mime_type_of_lowercase("PNG"), None);
    assert_eq!(mime_type_of_lowercase(""), None);
}

#[test]
fn images_are_sent_in_base64() {
    let image = inline_image(Some("PNG"), b"hello world~").unwrap();
    assert_eq!(image.mime_type, "image/png");
    assert_eq!(image.data, "aGVsbG8gd29ybGR+");
    assert_eq!(inline_image(Some("gif"), b"a").unwrap().data, "YQ==");
    assert_eq!(inline_image(Some("gif"), b"").unwrap().data, "");
    assert_eq!(
        inline_image(Some("svg"), b"abc"),
        Err(ExtractError::UnsupportedImageFormat("svg".to_string()))
    );
}

#[test]
fn pages_are_split_at_separator_lines() {
    let text = "first page\n--- Page 1 ---\nsecond page\n=== 2 ===\nthird page";
    let pages = split_pdf_pages(text);
    assert_eq!(pages, vec!["first page", "second page", "third page"]);
    // One separator at the very end leaves one page only: the text is kept whole.
    let single = "only page\n--- Page 1 ---\n";
    assert_eq!(split_pdf_pages(single), vec![single.to_string()]);
}

#[test]
fn form_feeds_win_over_separator_lines() {
    let text = "a\n--- 1 ---\nb\x0cc";
    assert_eq!(split_pdf_pages(text), vec!["a\n--- 1 ---\nb", "c"]);
    // Empty pages between form feeds are dropped.
    assert_eq!(split_pdf_pages("a\x0c \x0c\nb\n"), vec!["a", "b"]);
    assert_eq!(split_pdf_pages("a\x0c \x0c"), vec!["a\x0c \x0c"]);
}

#[test]
fn chosen_pages_follow_what_the_separator_found() {
    let parts = Some(vec![" a ".to_string(), "".to_string(), "b".to_string()]);
    assert_eq!(choose_pages("whole", Some(true), parts.clone()), vec!["a", "b"]);
    assert_eq!(choose_pages("whole", Some(false), parts.clone()), vec!["whole"]);
    assert_eq!(choose_pages("whole", None, parts), vec!["whole"]);
    assert_eq!(choose_pages("whole", Some(true), None), vec!["whole"]);
    assert_eq!(
        choose_pages("whole", Some(true), Some(vec!["a".to_string(), " ".to_string()])),
        vec!["whole"]
    );
    assert_eq!(
        choose_pages("x\x0cy", Some(true), Some(vec!["p".to_string(), "q".to_string()])),
        vec!["x", "y"]
    );
}

#[test]
fn pages_are_numbered_from_one() {
    let pages = extract_pages_from_text("one\x0ctwo\x0cthree");
    assert_eq!(
        pages,
        vec![
            (1, "one".to_string()),
            (2, "two".to_string()),
            (3, "three".to_string())
        ]
    );
    assert_eq!(extract_pages_from_text("  \n "), vec![(1, String::new())]);
    assert_eq!(extract_pages_from_text(""), vec![(1, String::new())]);
    assert_eq!(
        extract_pages_from_text(" plain "),
        vec![(1, " plain ".to_string())]
    );
    assert_eq!(
        number_pages("x", vec!["a".to_string(), "b".to_string()]),
        vec![(1, "a".to_string()), (2, "b".to_string())]
    );
}

#[test]
fn extractor_needs_a_key_for_images() {
    let without = ContentExtractor::new(None);
    assert_eq!(without.image_api_key(), Err(ExtractError::MissingApiKey));
    let with = ContentExtractor::new(Some("k".to_string()));
    assert_eq!(with.image_api_key(), Ok(&"k".to_string()));
    let from_env = ContentExtractor::from_env(Some(String::new()), Some("g".to_string()));
    assert_eq!(from_env.image_api_key(), Ok(&"g".to_string()));
    let no_env = ContentExtractor::from_env(None, None);
    assert_eq!(no_env.image_api_key(), Err(ExtractError::MissingApiKey));
}

#[test]
fn contents_carry_their_type_and_pages() {
    let text = text_content("hello".to_string());
    assert_eq!(text.len(), 1);
    assert_eq!(text[0].text, "hello");
    assert_eq!(text[0].source_type, FileType::Text);
    assert!(text[0].metadata.image_description.is_none());

    let image = image_content("seen".to_string());
    assert_eq!(image[0].source_type, FileType::Image);
    assert_eq!(
        image[0].metadata.image_description.as_deref(),
        Some("Extracted via Gemini Vision")
    );

    let pdf = pdf_content(vec![(1, "a".to_string()), (2, "b".to_string())]);
    assert_eq!(pdf.len(), 2);
    assert_eq!(pdf[1].text, "b");
    assert_eq!(pdf[1].source_type, FileType::Pdf);
    assert_eq!(pdf[1].metadata.page_number, Some(2));
    assert_eq!(pdf[1].metadata.total_pages, Some(2));
    assert!(pdf_content(Vec::new()).is_empty());
}
