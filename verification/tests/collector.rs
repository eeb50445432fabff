use palank_rag::collector::{
    CollectedFile, CollectionStats, CollectorConfig, FileCollector, FileType,
};

fn file(path: &str, ext: Option<&str>, file_type: FileType, size: u64) -> CollectedFile {
    CollectedFile {
        path: path.to_string(),
        extension: ext.map(|e| e.to_string()),
        file_type,
        size,
        modified_at: None,
    }
}

#[test]
fn test_file_type_from_extension() {
    assert_eq!(FileType::from_extension("md"), Some(FileType::Text));
    assert_eq!(FileType::from_extension("rs"), Some(FileType::Text));
    assert_eq!(FileType::from_extension("png"), Some(FileType::Image));
    assert_eq!(FileType::from_extension("PDF"), Some(FileType::Pdf));
    assert_eq!(FileType::from_extension("exe"), None);
}

#[test]
fn test_collector_config_default() {
    let config = CollectorConfig::default();
    assert!(config.respect_gitignore);
    assert!(!config.include_hidden);
    assert_eq!(config.max_file_size, 10 * 1024 * 1024);
}

#[test]
fn every_listed_extension_has_its_type() {
    for ext in [
        "md", "txt", "rs", "ts", "tsx", "js", "jsx", "py", "json", "toml", "yaml", "yml", "html",
        "css", "scss", "go", "java", "c", "cpp", "h", "hpp", "sh", "bash", "zsh", "sql", "xml",
        "csv",
    ] {
        assert_eq!(FileType::from_lowercase_extension(ext), Some(FileType::Text));
    }
    for ext in ["png", "jpg", "jpeg", "webp", "gif", "bmp"] {
        assert_eq!(FileType::from_lowercase_extension(ext), Some(FileType::Image));
    }
    assert_eq!(FileType::from_lowercase_extension("pdf"), Some(FileType::Pdf));
    assert_eq!(FileType::from_lowercase_extension("PDF"), None);
    assert_eq!(FileType::from_lowercase_extension(""), None);
    assert_eq!(FileType::from_lowercase_extension("mdx"), None);
}

#[test]
fn extensions_are_matched_in_any_case() {
    assert_eq!(FileType::from_extension("Md"), Some(FileType::Text));
    assert_eq!(FileType::from_extension("JPEG"), Some(FileType::Image));
    assert_eq!(FileType::from_path(Some("TOML")), Some(FileType::Text));
    assert_eq!(FileType::from_path(Some("bin")), None);
    assert_eq!(FileType::from_path(None), None);
}

#[test]
fn only_regular_files_of_known_types_are_collected() {
    let f = CollectedFile::from_path(
        "/a/b.RS".to_string(),
        Some("RS".to_string()),
        true,
        42,
        Some(1_700_000_000),
    )
    .unwrap();
    assert_eq!(f.path, "/a/b.RS");
    assert_eq!(f.file_type, FileType::Text);
    assert_eq!(f.size, 42);
    assert_eq!(f.modified_at, Some(1_700_000_000));
    assert!(CollectedFile::from_path(
        "/a/dir.rs".to_string(),
        Some("rs".to_string()),
        false,
        0,
        None
    )
    .is_none());
    assert!(
        CollectedFile::from_path("/a/b.exe".to_string(), Some("exe".to_string()), true, 1, None)
            .is_none()
    );
    assert!(CollectedFile::from_path("/a/Makefile".to_string(), None, true, 1, None).is_none());
}

#[test]
fn collector_filters_by_size_type_and_extension() {
    let defaults = FileCollector::with_defaults();
    assert!(defaults.respect_gitignore());
    assert!(!defaults.include_hidden());
    assert!(defaults.should_include(&file("a.md", Some("md"), FileType::Text, 10)));
    assert!(defaults.should_include(&file("a.md", Some("md"), FileType::Text, 10 * 1024 * 1024)));
    assert!(!defaults.should_include(&file(
        "a.md",
        Some("md"),
        FileType::Text,
        10 * 1024 * 1024 + 1
    )));

    let unbounded = FileCollector::new(CollectorConfig {
        max_file_size: 0,
        ..CollectorConfig::default()
    });
    assert!(unbounded.should_include(&file("a.md", Some("md"), FileType::Text, u64::MAX)));

    let picky = FileCollector::new(CollectorConfig {
        skip_images: true,
        skip_pdfs: true,
        extensions: vec!["MD".to_string(), "rs".to_string()],
        ..CollectorConfig::default()
    });
    assert!(!picky.should_include(&file("a.png", Some("png"), FileType::Image, 1)));
    assert!(!picky.should_include(&file("a.pdf", Some("pdf"), FileType::Pdf, 1)));
    assert!(picky.should_include(&file("a.md", Some("md"), FileType::Text, 1)));
    assert!(picky.should_include(&file("a.RS", Some("RS"), FileType::Text, 1)));
    assert!(!picky.should_include(&file("a.txt", Some("txt"), FileType::Text, 1)));
    assert!(!picky.should_include(&file("README", None, FileType::Text, 1)));
}

#[test]
fn stats_count_files_by_type_and_add_their_sizes() {
    let files = vec![
        file("a.md", Some("md"), FileType::Text, 100),
        file("b.png", Some("png"), FileType::Image, 2000),
        file("c.pdf", Some("pdf"), FileType::Pdf, 30000),
        file("d.rs", Some("rs"), FileType::Text, 4),
    ];
    let stats = CollectionStats::from_files(&files);
    assert_eq!(stats.total_files, 4);
    assert_eq!(stats.text_files, 2);
    assert_eq!(stats.image_files, 1);
    assert_eq!(stats.pdf_files, 1);
    assert_eq!(stats.total_size, 32104);
    let none = CollectionStats::from_files(&[]);
    assert_eq!(none.total_files, 0);
    assert_eq!(none.total_size, 0);
}
