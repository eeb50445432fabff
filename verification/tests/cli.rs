use palank_rag::cli::{
    direct_document, file_document, format_bytes, ingest_source, method_label, scraped_document,
    truncate_text, type_label, IngestSource,
};
use palank_rag::collector::FileType;
use palank_rag::hybrid::SearchMethod;

#[test]
fn test_truncate_text() {
    assert_eq!(truncate_text("hello", 10), "hello");
    assert_eq!(truncate_text("hello world", 5), "hello...");
    assert_eq!(truncate_text("hello\nworld", 20), "hello world");
}

#[test]
fn test_truncate_unicode() {
    let korean = "안녕하세요 세계";
    let truncated = truncate_text(korean, 5);
    assert_eq!(truncated, "안녕하세요...");
}

#[test]
fn truncation_cleans_before_it_cuts() {
    assert_eq!(truncate_text("  a\r\nb  ", 10), "a b");
    assert_eq!(truncate_text("\n\n", 3), "");
    assert_eq!(truncate_text("abc", 3), "abc");
    assert_eq!(truncate_text("abcd", 3), "abc...");
    assert_eq!(truncate_text("abcd", 0), "...");
    assert_eq!(truncate_text("", 0), "");
}

#[test]
fn labels_are_three_letters() {
    assert_eq!(type_label(FileType::Text), "TXT");
    assert_eq!(type_label(FileType::Image), "IMG");
    assert_eq!(type_label(FileType::Pdf), "PDF");
    assert_eq!(method_label(SearchMethod::Vector), "VEC");
    assert_eq!(method_label(SearchMethod::Fts), "FTS");
    assert_eq!(method_label(SearchMethod::Hybrid), "HYB");
}

#[test]
fn file_documents_carry_page_numbers_in_their_titles() {
    let doc = file_document(
        "/tmp/a.pdf",
        "a.pdf",
        Some(12),
        "page text".to_string(),
        Some("rust".to_string()),
    );
    assert_eq!(doc.url, "file:///tmp/a.pdf");
    assert_eq!(doc.title.as_deref(), Some("a.pdf (Page 12)"));
    assert_eq!(doc.content, "page text");
    assert_eq!(doc.framework.as_deref(), Some("rust"));
    let plain = file_document("/tmp/n.md", "n.md", None, "t".to_string(), None);
    assert_eq!(plain.title.as_deref(), Some("n.md"));
    assert_eq!(plain.framework, None);
}

#[test]
fn scraped_documents_open_with_their_title() {
    let doc = scraped_document(
        "https://example.com",
        Some("Example".to_string()),
        "Body text.",
        None,
    );
    assert_eq!(doc.url, "https://example.com");
    assert_eq!(doc.title.as_deref(), Some("Example"));
    assert_eq!(doc.content, "# Example\n\nBody text.");
    let untitled = scraped_document("https://example.com", None, "Body text.", None);
    assert_eq!(untitled.content, "Body text.");
    assert_eq!(untitled.title, None);
}

#[test]
fn direct_input_has_a_fixed_address() {
    let doc = direct_document("some text".to_string(), Some("vue".to_string()));
    assert_eq!(doc.url, "direct-input");
    assert_eq!(doc.title, None);
    assert_eq!(doc.content, "some text");
    assert_eq!(doc.framework.as_deref(), Some("vue"));
}

#[test]
fn url_wins_over_text_as_ingest_source() {
    assert_eq!(
        ingest_source(Some("u".to_string()), Some("t".to_string())),
        Some(IngestSource::Url("u".to_string()))
    );
    assert_eq!(
        ingest_source(None, Some("t".to_string())),
        Some(IngestSource::Text("t".to_string()))
    );
    assert_eq!(ingest_source(None, None), None);
}

fn with_floats(bytes: usize) -> String {
    const KB: usize = 1024;
    const MB: usize = KB * 1024;
    if bytes >= MB {
        format!("{:.2} MB", bytes as f64 / MB as f64)
    } else if bytes >= KB {
        format!("{:.2} KB", bytes as f64 / KB as f64)
    } else {
        format!("{} B", bytes)
    }
}

#[test]
fn test_format_bytes() {
    assert_eq!(format_bytes(500), "500 B");
    assert_eq!(format_bytes(1024), "1.00 KB");
    assert_eq!(format_bytes(1536), "1.50 KB");
    assert_eq!(format_bytes(1048576), "1.00 MB");
}

#[test]
fn sizes_round_to_the_nearest_hundredth_ties_to_even() {
    assert_eq!(format_bytes(0), "0 B");
    assert_eq!(format_bytes(1023), "1023 B");
    // 1152 / 1024 = 1.125 and 1408 / 1024 = 1.375 lie between two hundredths.
    assert_eq!(format_bytes(1152), "1.12 KB");
    assert_eq!(format_bytes(1408), "1.38 KB");
    assert_eq!(format_bytes(1048575), "1024.00 KB");
    assert_eq!(format_bytes(1048576 + 524288), "1.50 MB");
    assert_eq!(format_bytes(123456789), "117.74 MB");
}

#[test]
fn sizes_are_shown_as_floating_point_shows_them() {
    let mut samples: Vec<usize> = (0..5000).collect();
    for k in 0..64u32 {
        let p = 1usize << k;
        for delta in [0usize, 1, 2, 3, 127, 128, 129, 511, 512, 513, 1023, 1024, 1025] {
            samples.push(p.wrapping_add(delta));
            samples.push(p.wrapping_sub(delta));
            samples.push(p.wrapping_add(p / 2).wrapping_add(delta));
        }
    }
    let mut x: usize = 0x9E37_79B9_7F4A_7C15;
    for _ in 0..20000 {
        x ^= x << 13;
        x ^= x >> 7;
        x ^= x << 17;
        samples.push(x);
        samples.push(x >> 20);
        samples.push(x >> 40);
        samples.push((x >> 44) << 10 | 128);
    }
    samples.push(usize::MAX);
    samples.push(usize::MAX - 1024);
    for bytes in samples {
        assert_eq!(format_bytes(bytes), with_floats(bytes), "{}", bytes);
    }
}
