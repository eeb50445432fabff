//! Which files are collected for the knowledge base: the types of files by
//! their extensions, the filter of the collector, and the figures of a
//! collection.
use crate::text::{
    eq_ignore_ascii_case, equal_ignoring_ascii_case, lowercase, text_is, to_chars,
};
use vstd::prelude::*;

verus! {

/// The types of files that are collected.
#[derive(Debug, Clone, Copy, PartialEq, Eq, Structural)]
pub enum FileType {
    /// Text: markdown, code and the like.
    Text,
    /// An image, of which the text is read by a vision model.
    Image,
    /// A PDF document.
    Pdf,
}

/// Whether a lower-case extension is that of a text file.
pub open spec fn is_text_extension(e: Seq<char>) -> bool {
    e == "md"@
        || e == "txt"@
        || e == "rs"@
        || e == "ts"@
        || e == "tsx"@
        || e == "js"@
        || e == "jsx"@
        || e == "py"@
        || e == "json"@
        || e == "toml"@
        || e == "yaml"@
        || e == "yml"@
        || e == "html"@
        || e == "css"@
        || e == "scss"@
        || e == "go"@
        || e == "java"@
        || e == "c"@
        || e == "cpp"@
        || e == "h"@
        || e == "hpp"@
        || e == "sh"@
        || e == "bash"@
        || e == "zsh"@
        || e == "sql"@
        || e == "xml"@
        || e == "csv"@
}

/// Whether a lower-case extension is that of an image.
pub open spec fn is_image_extension(e: Seq<char>) -> bool {
    e == "png"@
        || e == "jpg"@
        || e == "jpeg"@
        || e == "webp"@
        || e == "gif"@
        || e == "bmp"@
}

/// The type of the files with the lower-case extension `e`.
pub open spec fn file_type_of(e: Seq<char>) -> Option<FileType> {
    if is_text_extension(e) {
        Some(FileType::Text)
    } else if is_image_extension(e) {
        Some(FileType::Image)
    } else if e == "pdf"@ {
        Some(FileType::Pdf)
    } else {
        None
    }
}

impl FileType {
    /// The type of the files with the extension `ext`, which is in lower
    /// case.
    pub fn from_lowercase_extension(ext: &str) -> (r: Option<Self>)
        ensures
            r == file_type_of(ext@),
    {
        let e = to_chars(ext);
        if text_is(&e, "md")
                || text_is(&e, "txt")
                || text_is(&e, "rs")
                || text_is(&e, "ts")
                || text_is(&e, "tsx")
                || text_is(&e, "js")
                || text_is(&e, "jsx")
                || text_is(&e, "py")
                || text_is(&e, "json")
                || text_is(&e, "toml")
                || text_is(&e, "yaml")
                || text_is(&e, "yml")
                || text_is(&e, "html")
                || text_is(&e, "css")
                || text_is(&e, "scss")
                || text_is(&e, "go")
                || text_is(&e, "java")
                || text_is(&e, "c")
                || text_is(&e, "cpp")
                || text_is(&e, "h")
                || text_is(&e, "hpp")
                || text_is(&e, "sh")
                || text_is(&e, "bash")
                || text_is(&e, "zsh")
                || text_is(&e, "sql")
                || text_is(&e, "xml")
                || text_is(&e, "csv") {
            Some(FileType::Text)
        } else if text_is(&e, "png")
                || text_is(&e, "jpg")
                || text_is(&e, "jpeg")
                || text_is(&e, "webp")
                || text_is(&e, "gif")
                || text_is(&e, "bmp") {
            Some(FileType::Image)
        } else if text_is(&e, "pdf") {
            Some(FileType::Pdf)
        } else {
            None
        }
    }

    /// The type of the files with the extension `ext`, in whatever case.
    pub fn from_extension(ext: &str) -> (r: Option<Self>)
        ensures
            r == file_type_of(lowercase(ext@)),
    {
        let lower = ext.to_lowercase();
        FileType::from_lowercase_extension(lower.as_str())
    }

    /// The type of a file by the extension of its path; a path without an
    /// extension has none.
    pub fn from_path(extension: Option<&str>) -> (r: Option<Self>)
        ensures
            r == match extension {
                Some(ext) => file_type_of(lowercase(ext@)),
                None => None,
            },
    {
        match extension {
            Some(ext) => FileType::from_extension(ext),
            None => None,
        }
    }
}

/// A file that is collected.
#[derive(Debug, Clone)]
pub struct CollectedFile {
    /// The absolute path of the file.
    pub path: String,
    /// The extension of the path.
    pub extension: Option<String>,
    /// The type of the file.
    pub file_type: FileType,
    /// The size of the file, in bytes.
    pub size: u64,
    /// When the file was last changed, in seconds since the Unix epoch.
    pub modified_at: Option<u64>,
}

impl CollectedFile {
    /// The collected file at `path`, of which the extension, whether it is
    /// a regular file, its size and its time of change are given: none
    /// where the extension is of no type that is collected, and none for
    /// what is no regular file.
    pub fn from_path(
        path: String,
        extension: Option<String>,
        is_file: bool,
        size: u64,
        modified_at: Option<u64>,
    ) -> (r: Option<Self>)
        ensures
            match extension {
                Some(ext) if is_file && file_type_of(lowercase(ext@)) is Some => {
                    &&& r is Some
                    &&& r->Some_0.path == path
                    &&& r->Some_0.extension == extension
                    &&& r->Some_0.file_type == file_type_of(lowercase(ext@))->Some_0
                    &&& r->Some_0.size == size
                    &&& r->Some_0.modified_at == modified_at
                },
                _ => r is None,
            },
    {
        let file_type = match &extension {
            Some(ext) => FileType::from_extension(ext.as_str()),
            None => None,
        };
        match file_type {
            Some(file_type) => {
                if is_file {
                    Some(CollectedFile { path, extension, file_type, size, modified_at })
                } else {
                    None
                }
            },
            None => None,
        }
    }
}

/// What the collector takes.
#[derive(Debug, Clone)]
pub struct CollectorConfig {
    /// Whether the ignore files of the directories are followed.
    pub respect_gitignore: bool,
    /// Whether hidden files are taken.
    pub include_hidden: bool,
    /// The size above which a file is left out, in bytes; 0 for no bound.
    pub max_file_size: u64,
    /// The extensions that are taken; all where this is empty.
    pub extensions: Vec<String>,
    /// Whether images are left out.
    pub skip_images: bool,
    /// Whether PDF documents are left out.
    pub skip_pdfs: bool,
}

impl Default for CollectorConfig {
    fn default() -> (r: Self)
        ensures
            r.respect_gitignore,
            !r.include_hidden,
            r.max_file_size == 10 * 1024 * 1024,
            r.extensions@.len() == 0,
            !r.skip_images,
            !r.skip_pdfs,
    {
        CollectorConfig {
            respect_gitignore: true,
            include_hidden: false,
            max_file_size: 10485760,
            extensions: Vec::new(),
            skip_images: false,
            skip_pdfs: false,
        }
    }
}

/// Whether one of the extensions `wanted` is `ext`, but for the case of
/// ASCII letters.
pub open spec fn extension_wanted(wanted: Seq<String>, ext: Seq<char>) -> bool {
    exists|i: int| 0 <= i < wanted.len() && equal_ignoring_ascii_case(#[trigger] wanted[i]@, ext)
}

/// Whether a collector with the bounds `config` takes `file`: the file is
/// not larger than the bound, where there is one; it is no image where
/// images are left out, and no PDF document where those are; and where
/// extensions are named, its extension is one of them.
pub open spec fn includes(config: CollectorConfig, file: CollectedFile) -> bool {
    &&& !(config.max_file_size > 0 && file.size > config.max_file_size)
    &&& !(config.skip_images && file.file_type == FileType::Image)
    &&& !(config.skip_pdfs && file.file_type == FileType::Pdf)
    &&& config.extensions@.len() > 0 ==> file.extension is Some && extension_wanted(
        config.extensions@,
        file.extension->Some_0@,
    )
}

/// The collector of files.
pub struct FileCollector {
    config: CollectorConfig,
}

impl View for FileCollector {
    type V = CollectorConfig;

    closed spec fn view(&self) -> CollectorConfig {
        self.config
    }
}

impl FileCollector {
    /// A collector with the given bounds.
    pub fn new(config: CollectorConfig) -> (r: Self)
        ensures
            r@ == config,
    {
        FileCollector { config }
    }

    /// A collector with the default bounds.
    pub fn with_defaults() -> (r: Self)
        ensures
            r@.respect_gitignore,
            !r@.include_hidden,
            r@.max_file_size == 10 * 1024 * 1024,
            r@.extensions@.len() == 0,
            !r@.skip_images,
            !r@.skip_pdfs,
    {
        FileCollector { config: CollectorConfig::default() }
    }

    /// Whether hidden files are walked.
    pub fn include_hidden(&self) -> (r: bool)
        ensures
            r == self@.include_hidden,
    {
        self.config.include_hidden
    }

    /// Whether the ignore files of the directories are followed.
    pub fn respect_gitignore(&self) -> (r: bool)
        ensures
            r == self@.respect_gitignore,
    {
        self.config.respect_gitignore
    }

    /// Whether the collector takes `file`.
    pub fn should_include(&self, file: &CollectedFile) -> (r: bool)
        ensures
            r == includes(self@, *file),
    {
        if self.config.max_file_size > 0 && file.size > self.config.max_file_size {
            return false;
        }
        if self.config.skip_images && matches!(file.file_type, FileType::Image) {
            return false;
        }
        if self.config.skip_pdfs && matches!(file.file_type, FileType::Pdf) {
            return false;
        }
        if self.config.extensions.len() > 0 {
            match &file.extension {
                Some(ext) => {
                    let e = to_chars(ext.as_str());
                    let mut i: usize = 0;
                    while i < self.config.extensions.len()
                        invariant
                            i <= self.config.extensions.len(),
                            e@ == ext@,
                            file.extension is Some,
                            file.extension->Some_0@ == ext@,
                            !(self.config.max_file_size > 0 && file.size
                                > self.config.max_file_size),
                            !(self.config.skip_images && file.file_type == FileType::Image),
                            !(self.config.skip_pdfs && file.file_type == FileType::Pdf),
                            forall|j: int|
                                0 <= j < i ==> !equal_ignoring_ascii_case(
                                    #[trigger] self.config.extensions@[j]@,
                                    ext@,
                                ),
                        decreases self.config.extensions.len() - i,
                    {
                        let w = to_chars(self.config.extensions[i].as_str());
                        if eq_ignore_ascii_case(&w, &e) {
                            assert(equal_ignoring_ascii_case(
                                self.config.extensions@[i as int]@,
                                ext@,
                            ));
                            assert(extension_wanted(self.config.extensions@, ext@));
                            return true;
                        }
                        i += 1;
                    }
                    return false;
                },
                None => {
                    return false;
                },
            }
        }
        true
    }
}

/// How many of the files are of the type `t`.
pub open spec fn count_of_type(files: Seq<CollectedFile>, t: FileType) -> nat
    decreases files.len(),
{
    if files.len() == 0 {
        0
    } else {
        count_of_type(files.drop_last(), t) + if files.last().file_type == t {
            1nat
        } else {
            0nat
        }
    }
}

/// The size of the files in all.
pub open spec fn size_of_all(files: Seq<CollectedFile>) -> nat
    decreases files.len(),
{
    if files.len() == 0 {
        0
    } else {
        size_of_all(files.drop_last()) + files.last().size as nat
    }
}

/// The figures of a collection.
#[derive(Debug, Default)]
pub struct CollectionStats {
    /// The number of files.
    pub total_files: usize,
    /// The number of text files.
    pub text_files: usize,
    /// The number of images.
    pub image_files: usize,
    /// The number of PDF documents.
    pub pdf_files: usize,
    /// The size of the files in all, in bytes.
    pub total_size: u64,
}

proof fn lemma_count_bound(files: Seq<CollectedFile>, t: FileType)
    ensures
        count_of_type(files, t) <= files.len(),
    decreases files.len(),
{
    if files.len() > 0 {
        lemma_count_bound(files.drop_last(), t);
    }
}

proof fn lemma_size_grows(files: Seq<CollectedFile>, n: int)
    requires
        0 <= n <= files.len(),
    ensures
        size_of_all(files.take(n)) <= size_of_all(files),
    decreases files.len() - n,
{
    if n < files.len() {
        lemma_size_grows(files, n + 1);
        assert(files.take(n + 1).drop_last() =~= files.take(n));
    } else {
        assert(files.take(n) =~= files);
    }
}

impl CollectionStats {
    /// The figures of the given files. Their sizes in all fit the machine's
    /// widest count.
    pub fn from_files(files: &[CollectedFile]) -> (r: Self)
        requires
            size_of_all(files@) <= u64::MAX,
        ensures
            r.total_files == files@.len(),
            r.text_files == count_of_type(files@, FileType::Text),
            r.image_files == count_of_type(files@, FileType::Image),
            r.pdf_files == count_of_type(files@, FileType::Pdf),
            r.total_size == size_of_all(files@),
    {
        let mut stats = CollectionStats {
            total_files: 0,
            text_files: 0,
            image_files: 0,
            pdf_files: 0,
            total_size: 0,
        };
        let mut i: usize = 0;
        proof {
            assert(files@.take(0) =~= Seq::<CollectedFile>::empty());
        }
        while i < files.len()
            invariant
                i <= files.len(),
                size_of_all(files@) <= u64::MAX,
                stats.total_files == i,
                stats.text_files == count_of_type(files@.take(i as int), FileType::Text),
                stats.image_files == count_of_type(files@.take(i as int), FileType::Image),
                stats.pdf_files == count_of_type(files@.take(i as int), FileType::Pdf),
                stats.total_size == size_of_all(files@.take(i as int)),
            decreases files.len() - i,
        {
            proof {
                let upto = files@.take(i + 1);
                assert(upto.drop_last() =~= files@.take(i as int));
                assert(upto.last() == files@[i as int]);
                lemma_size_grows(files@, i + 1);
                lemma_count_bound(files@.take(i as int), FileType::Text);
                lemma_count_bound(files@.take(i as int), FileType::Image);
                lemma_count_bound(files@.take(i as int), FileType::Pdf);
            }
            stats.total_files = stats.total_files + 1;
            stats.total_size = stats.total_size + files[i].size;
            match files[i].file_type {
                FileType::Text => {
                    stats.text_files = stats.text_files + 1;
                },
                FileType::Image => {
                    stats.image_files = stats.image_files + 1;
                },
                FileType::Pdf => {
                    stats.pdf_files = stats.pdf_files + 1;
                },
            }
            i += 1;
        }
        proof {
            assert(files@.take(files.len() as int) =~= files@);
        }
        stats
    }
}

} // verus!
