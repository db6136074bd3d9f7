//! Core data shared by the scanner, the analyzer and the views.
//!
//! Paths are held as text (Windows syntax, see `winpath`), and times as
//! nanoseconds since the Unix epoch.

use vstd::prelude::*;

use crate::winpath::{display_name, display_name_spec};

verus! {

/// Whether two string slices hold the same characters.
pub(crate) fn str_eq(a: &str, b: &str) -> (r: bool)
    ensures
        r == (a@ == b@),
{
    let ca = crate::text::chars_of(a);
    let cb = crate::text::chars_of(b);
    crate::text::chars_eq(ca.as_slice(), cb.as_slice())
}

/// Metadata captured for a single file during a scan.
#[derive(Clone, Debug)]
pub struct FileMetadata {
    pub path: String,
    pub size: u64,
    /// Lower-cased extension without the dot (empty if none).
    pub extension: String,
    /// Last modification, in nanoseconds from the Unix epoch (negative
    /// before it).
    pub modified: Option<i128>,
    /// Last access, in nanoseconds from the Unix epoch (negative before it).
    pub accessed: Option<i128>,
}

impl FileMetadata {
    /// The file name (last path component), or the whole path when it has none.
    pub fn name(&self) -> (r: String)
        ensures
            r@ == display_name_spec(self.path@),
    {
        display_name(self.path.as_str())
    }

    /// The coarse category of the file's extension.
    pub fn category(&self) -> (c: Category)
        ensures
            c == category_of(self.extension@),
    {
        Category::of(self.extension.as_str())
    }
}

/// Capacity info for the disk being analyzed.
#[derive(Clone, Debug)]
pub struct DiskInfo {
    pub mount: String,
    pub total: u64,
    pub available: u64,
}

pub open spec fn used_spec(total: u64, available: u64) -> u64 {
    if total >= available {
        (total - available) as u64
    } else {
        0
    }
}

impl DiskInfo {
    /// Bytes in use: total minus available, never below zero.
    pub fn used(&self) -> (u: u64)
        ensures
            u == used_spec(self.total, self.available),
            u <= self.total,
    {
        self.total.saturating_sub(self.available)
    }
}

/// Coarse file categories used by the quick filters.
#[derive(Clone, Copy, Debug, PartialEq, Eq, Structural)]
pub enum Category {
    Images,
    Video,
    Audio,
    Documents,
    Archives,
    System,
    Other,
}

pub open spec fn is_image_ext(e: Seq<char>) -> bool {
    e == "jpg"@ || e == "jpeg"@ || e == "png"@ || e == "gif"@ || e == "bmp"@ || e == "webp"@
        || e == "tiff"@ || e == "heic"@ || e == "svg"@
}

pub open spec fn is_video_ext(e: Seq<char>) -> bool {
    e == "mp4"@ || e == "mkv"@ || e == "avi"@ || e == "mov"@ || e == "wmv"@ || e == "flv"@
        || e == "webm"@ || e == "m4v"@
}

pub open spec fn is_audio_ext(e: Seq<char>) -> bool {
    e == "mp3"@ || e == "wav"@ || e == "flac"@ || e == "aac"@ || e == "ogg"@ || e == "m4a"@
        || e == "wma"@
}

pub open spec fn is_document_ext(e: Seq<char>) -> bool {
    e == "pdf"@ || e == "doc"@ || e == "docx"@ || e == "xls"@ || e == "xlsx"@ || e == "ppt"@
        || e == "pptx"@ || e == "txt"@ || e == "md"@ || e == "csv"@ || e == "rtf"@ || e == "odt"@
}

pub open spec fn is_archive_ext(e: Seq<char>) -> bool {
    e == "zip"@ || e == "rar"@ || e == "7z"@ || e == "tar"@ || e == "gz"@ || e == "bz2"@
        || e == "xz"@ || e == "iso"@
}

pub open spec fn is_system_ext(e: Seq<char>) -> bool {
    e == "sys"@ || e == "dll"@ || e == "exe"@ || e == "msi"@ || e == "cab"@ || e == "drv"@
        || e == "tmp"@ || e == "log"@
}

/// The category of a (lower-case) extension; the first matching list wins.
pub open spec fn category_of(e: Seq<char>) -> Category {
    if is_image_ext(e) {
        Category::Images
    } else if is_video_ext(e) {
        Category::Video
    } else if is_audio_ext(e) {
        Category::Audio
    } else if is_document_ext(e) {
        Category::Documents
    } else if is_archive_ext(e) {
        Category::Archives
    } else if is_system_ext(e) {
        Category::System
    } else {
        Category::Other
    }
}

/// The extensions the Images filter lists, character by character.
pub open spec fn listed_image(e: Seq<char>) -> bool {
    e == seq!['j', 'p', 'g']
        || e == seq!['j', 'p', 'e', 'g']
        || e == seq!['p', 'n', 'g']
        || e == seq!['g', 'i', 'f']
        || e == seq!['b', 'm', 'p']
        || e == seq!['w', 'e', 'b', 'p']
        || e == seq!['t', 'i', 'f', 'f']
        || e == seq!['h', 'e', 'i', 'c']
        || e == seq!['s', 'v', 'g']
}

/// The extensions the Video filter lists, character by character.
pub open spec fn listed_video(e: Seq<char>) -> bool {
    e == seq!['m', 'p', '4']
        || e == seq!['m', 'k', 'v']
        || e == seq!['a', 'v', 'i']
        || e == seq!['m', 'o', 'v']
        || e == seq!['w', 'm', 'v']
        || e == seq!['f', 'l', 'v']
        || e == seq!['w', 'e', 'b', 'm']
        || e == seq!['m', '4', 'v']
}

/// The extensions the Audio filter lists, character by character.
pub open spec fn listed_audio(e: Seq<char>) -> bool {
    e == seq!['m', 'p', '3']
        || e == seq!['w', 'a', 'v']
        || e == seq!['f', 'l', 'a', 'c']
        || e == seq!['a', 'a', 'c']
        || e == seq!['o', 'g', 'g']
        || e == seq!['m', '4', 'a']
        || e == seq!['w', 'm', 'a']
}

/// The extensions the Documents filter lists, character by character.
pub open spec fn listed_document(e: Seq<char>) -> bool {
    e == seq!['p', 'd', 'f']
        || e == seq!['d', 'o', 'c']
        || e == seq!['d', 'o', 'c', 'x']
        || e == seq!['x', 'l', 's']
        || e == seq!['x', 'l', 's', 'x']
        || e == seq!['p', 'p', 't']
        || e == seq!['p', 'p', 't', 'x']
        || e == seq!['t', 'x', 't']
        || e == seq!['m', 'd']
        || e == seq!['c', 's', 'v']
        || e == seq!['r', 't', 'f']
        || e == seq!['o', 'd', 't']
}

/// The extensions the Archives filter lists, character by character.
pub open spec fn listed_archive(e: Seq<char>) -> bool {
    e == seq!['z', 'i', 'p']
        || e == seq!['r', 'a', 'r']
        || e == seq!['7', 'z']
        || e == seq!['t', 'a', 'r']
        || e == seq!['g', 'z']
        || e == seq!['b', 'z', '2']
        || e == seq!['x', 'z']
        || e == seq!['i', 's', 'o']
}

/// The extensions the System filter lists, character by character.
pub open spec fn listed_system(e: Seq<char>) -> bool {
    e == seq!['s', 'y', 's']
        || e == seq!['d', 'l', 'l']
        || e == seq!['e', 'x', 'e']
        || e == seq!['m', 's', 'i']
        || e == seq!['c', 'a', 'b']
        || e == seq!['d', 'r', 'v']
        || e == seq!['t', 'm', 'p']
        || e == seq!['l', 'o', 'g']
}

/// Each category holds exactly the extensions its filter documents, and every
/// other extension is `Other`.
pub proof fn law_category_lists(e: Seq<char>)
    ensures
        (category_of(e) == Category::Images) == listed_image(e),
        (category_of(e) == Category::Video) == listed_video(e),
        (category_of(e) == Category::Audio) == listed_audio(e),
        (category_of(e) == Category::Documents) == listed_document(e),
        (category_of(e) == Category::Archives) == listed_archive(e),
        (category_of(e) == Category::System) == listed_system(e),
        (category_of(e) == Category::Other) == !(listed_image(e) || listed_video(e) || listed_audio(e)
            || listed_document(e) || listed_archive(e) || listed_system(e)),
{
    reveal_strlit("jpg");
    assert("jpg"@ =~= seq!['j', 'p', 'g']);
    reveal_strlit("jpeg");
    assert("jpeg"@ =~= seq!['j', 'p', 'e', 'g']);
    reveal_strlit("png");
    assert("png"@ =~= seq!['p', 'n', 'g']);
    reveal_strlit("gif");
    assert("gif"@ =~= seq!['g', 'i', 'f']);
    reveal_strlit("bmp");
    assert("bmp"@ =~= seq!['b', 'm', 'p']);
    reveal_strlit("webp");
    assert("webp"@ =~= seq!['w', 'e', 'b', 'p']);
    reveal_strlit("tiff");
    assert("tiff"@ =~= seq!['t', 'i', 'f', 'f']);
    reveal_strlit("heic");
    assert("heic"@ =~= seq!['h', 'e', 'i', 'c']);
    reveal_strlit("svg");
    assert("svg"@ =~= seq!['s', 'v', 'g']);
    reveal_strlit("mp4");
    assert("mp4"@ =~= seq!['m', 'p', '4']);
    reveal_strlit("mkv");
    assert("mkv"@ =~= seq!['m', 'k', 'v']);
    reveal_strlit("avi");
    assert("avi"@ =~= seq!['a', 'v', 'i']);
    reveal_strlit("mov");
    assert("mov"@ =~= seq!['m', 'o', 'v']);
    reveal_strlit("wmv");
    assert("wmv"@ =~= seq!['w', 'm', 'v']);
    reveal_strlit("flv");
    assert("flv"@ =~= seq!['f', 'l', 'v']);
    reveal_strlit("webm");
    assert("webm"@ =~= seq!['w', 'e', 'b', 'm']);
    reveal_strlit("m4v");
    assert("m4v"@ =~= seq!['m', '4', 'v']);
    reveal_strlit("mp3");
    assert("mp3"@ =~= seq!['m', 'p', '3']);
    reveal_strlit("wav");
    assert("wav"@ =~= seq!['w', 'a', 'v']);
    reveal_strlit("flac");
    assert("flac"@ =~= seq!['f', 'l', 'a', 'c']);
    reveal_strlit("aac");
    assert("aac"@ =~= seq!['a', 'a', 'c']);
    reveal_strlit("ogg");
    assert("ogg"@ =~= seq!['o', 'g', 'g']);
    reveal_strlit("m4a");
    assert("m4a"@ =~= seq!['m', '4', 'a']);
    reveal_strlit("wma");
    assert("wma"@ =~= seq!['w', 'm', 'a']);
    reveal_strlit("pdf");
    assert("pdf"@ =~= seq!['p', 'd', 'f']);
    reveal_strlit("doc");
    assert("doc"@ =~= seq!['d', 'o', 'c']);
    reveal_strlit("docx");
    assert("docx"@ =~= seq!['d', 'o', 'c', 'x']);
    reveal_strlit("xls");
    assert("xls"@ =~= seq!['x', 'l', 's']);
    reveal_strlit("xlsx");
    assert("xlsx"@ =~= seq!['x', 'l', 's', 'x']);
    reveal_strlit("ppt");
    assert("ppt"@ =~= seq!['p', 'p', 't']);
    reveal_strlit("pptx");
    assert("pptx"@ =~= seq!['p', 'p', 't', 'x']);
    reveal_strlit("txt");
    assert("txt"@ =~= seq!['t', 'x', 't']);
    reveal_strlit("md");
    assert("md"@ =~= seq!['m', 'd']);
    reveal_strlit("csv");
    assert("csv"@ =~= seq!['c', 's', 'v']);
    reveal_strlit("rtf");
    assert("rtf"@ =~= seq!['r', 't', 'f']);
    reveal_strlit("odt");
    assert("odt"@ =~= seq!['o', 'd', 't']);
    reveal_strlit("zip");
    assert("zip"@ =~= seq!['z', 'i', 'p']);
    reveal_strlit("rar");
    assert("rar"@ =~= seq!['r', 'a', 'r']);
    reveal_strlit("7z");
    assert("7z"@ =~= seq!['7', 'z']);
    reveal_strlit("tar");
    assert("tar"@ =~= seq!['t', 'a', 'r']);
    reveal_strlit("gz");
    assert("gz"@ =~= seq!['g', 'z']);
    reveal_strlit("bz2");
    assert("bz2"@ =~= seq!['b', 'z', '2']);
    reveal_strlit("xz");
    assert("xz"@ =~= seq!['x', 'z']);
    reveal_strlit("iso");
    assert("iso"@ =~= seq!['i', 's', 'o']);
    reveal_strlit("sys");
    assert("sys"@ =~= seq!['s', 'y', 's']);
    reveal_strlit("dll");
    assert("dll"@ =~= seq!['d', 'l', 'l']);
    reveal_strlit("exe");
    assert("exe"@ =~= seq!['e', 'x', 'e']);
    reveal_strlit("msi");
    assert("msi"@ =~= seq!['m', 's', 'i']);
    reveal_strlit("cab");
    assert("cab"@ =~= seq!['c', 'a', 'b']);
    reveal_strlit("drv");
    assert("drv"@ =~= seq!['d', 'r', 'v']);
    reveal_strlit("tmp");
    assert("tmp"@ =~= seq!['t', 'm', 'p']);
    reveal_strlit("log");
    assert("log"@ =~= seq!['l', 'o', 'g']);
}

pub open spec fn label_spec(c: Category) -> Seq<char> {
    match c {
        Category::Images => "Images"@,
        Category::Video => "Video"@,
        Category::Audio => "Audio"@,
        Category::Documents => "Documents"@,
        Category::Archives => "Archives"@,
        Category::System => "System"@,
        Category::Other => "Other"@,
    }
}

impl Category {
    /// The category of an extension.
    pub fn of(ext: &str) -> (c: Category)
        ensures
            c == category_of(ext@),
    {
        if str_eq(ext, "jpg") || str_eq(ext, "jpeg") || str_eq(ext, "png") || str_eq(ext, "gif")
            || str_eq(ext, "bmp") || str_eq(ext, "webp") || str_eq(ext, "tiff") || str_eq(
            ext,
            "heic",
        ) || str_eq(ext, "svg") {
            Category::Images
        } else if str_eq(ext, "mp4") || str_eq(ext, "mkv") || str_eq(ext, "avi") || str_eq(
            ext,
            "mov",
        ) || str_eq(ext, "wmv") || str_eq(ext, "flv") || str_eq(ext, "webm") || str_eq(
            ext,
            "m4v",
        ) {
            Category::Video
        } else if str_eq(ext, "mp3") || str_eq(ext, "wav") || str_eq(ext, "flac") || str_eq(
            ext,
            "aac",
        ) || str_eq(ext, "ogg") || str_eq(ext, "m4a") || str_eq(ext, "wma") {
            Category::Audio
        } else if str_eq(ext, "pdf") || str_eq(ext, "doc") || str_eq(ext, "docx") || str_eq(
            ext,
            "xls",
        ) || str_eq(ext, "xlsx") || str_eq(ext, "ppt") || str_eq(ext, "pptx") || str_eq(
            ext,
            "txt",
        ) || str_eq(ext, "md") || str_eq(ext, "csv") || str_eq(ext, "rtf") || str_eq(ext, "odt") {
            Category::Documents
        } else if str_eq(ext, "zip") || str_eq(ext, "rar") || str_eq(ext, "7z") || str_eq(
            ext,
            "tar",
        ) || str_eq(ext, "gz") || str_eq(ext, "bz2") || str_eq(ext, "xz") || str_eq(ext, "iso") {
            Category::Archives
        } else if str_eq(ext, "sys") || str_eq(ext, "dll") || str_eq(ext, "exe") || str_eq(
            ext,
            "msi",
        ) || str_eq(ext, "cab") || str_eq(ext, "drv") || str_eq(ext, "tmp") || str_eq(ext, "log") {
            Category::System
        } else {
            Category::Other
        }
    }

    /// Every category, in the order the filter panel lists them.
    pub const ALL: [Category; 7] = [
        Category::Images,
        Category::Video,
        Category::Audio,
        Category::Documents,
        Category::Archives,
        Category::System,
        Category::Other,
    ];

    /// The display label of the category.
    pub fn label(&self) -> (s: &'static str)
        ensures
            s@ == label_spec(*self),
    {
        match self {
            Category::Images => "Images",
            Category::Video => "Video",
            Category::Audio => "Audio",
            Category::Documents => "Documents",
            Category::Archives => "Archives",
            Category::System => "System",
            Category::Other => "Other",
        }
    }
}

/// Column the file table is sorted by.
#[derive(Clone, Copy, Debug, PartialEq, Eq, Structural)]
pub enum SortKey {
    Name,
    Size,
    Modified,
}

/// Active filtering state, set by the side panel.
#[derive(Clone, Copy, Debug)]
pub struct FilterState {
    /// Minimum size in bytes (0 = no minimum).
    pub min_size: u64,
    /// `None` = all categories.
    pub category: Option<Category>,
    /// Keep only files last modified more than this many days ago. `None` = no age filter.
    pub min_age_days: Option<u64>,
    /// When set, keep only the N largest files after the other filters.
    pub top_n: Option<usize>,
}

pub open spec fn is_default_filter(f: FilterState) -> bool {
    f.min_size == 0 && f.category is None && f.min_age_days is None && f.top_n is None
}

impl Default for FilterState {
    fn default() -> (f: FilterState)
        ensures
            is_default_filter(f),
    {
        FilterState { min_size: 0, category: None, min_age_days: None, top_n: None }
    }
}

/// Messages streamed from the background scan to the application.
#[derive(Debug)]
pub enum ScanMessage {
    Progress { scanned: usize, bytes: u64 },
    Error(String),
    Done(Vec<FileMetadata>),
}

/// A set of files with identical content.
#[derive(Clone, Debug)]
pub struct DuplicateGroup {
    /// Size of each copy in bytes.
    pub size: u64,
    /// Lower-case hex of the content digest.
    pub hash: String,
    /// Indices of the copies in the scanned file list.
    pub members: Vec<usize>,
}

/// Bytes that deleting all but one copy would free: `size * (copies - 1)`,
/// capped at `u64::MAX`.
pub open spec fn wasted_spec(size: u64, copies: nat) -> u64 {
    if copies == 0 {
        0
    } else if size * (copies - 1) <= u64::MAX {
        (size * (copies - 1)) as u64
    } else {
        u64::MAX
    }
}

/// Deleting all but one of `copies` copies of `size` bytes frees
/// `size * (copies - 1)` bytes, capped at `u64::MAX`; one copy or none frees
/// nothing, and more copies never free less.
pub proof fn law_wasted(size: u64, copies: nat, more: nat)
    ensures
        copies <= 1 ==> wasted_spec(size, copies) == 0,
        copies >= 1 && size * (copies - 1) <= u64::MAX ==> wasted_spec(size, copies) == size * (
        copies - 1),
        copies >= 1 && size * (copies - 1) > u64::MAX ==> wasted_spec(size, copies) == u64::MAX,
        copies <= more ==> wasted_spec(size, copies) <= wasted_spec(size, more),
{
    if copies == 1 {
        assert(size * (copies - 1) == 0) by (nonlinear_arith)
            requires
                copies == 1,
        ;
    }
    if copies >= 1 && copies <= more {
        assert(size * (copies - 1) <= size * (more - 1)) by (nonlinear_arith)
            requires
                1 <= copies <= more,
        ;
    }
}

impl DuplicateGroup {
    /// Reclaimable bytes of this set.
    pub fn wasted(&self) -> (w: u64)
        ensures
            w == wasted_spec(self.size, self.members@.len()),
    {
        let n = self.members.len();
        if n == 0 {
            return 0;
        }
        let extra = (n - 1) as u64;
        match self.size.checked_mul(extra) {
            Some(w) => w,
            None => u64::MAX,
        }
    }
}

/// Messages streamed from the background duplicate finder.
#[derive(Debug)]
pub enum DupMessage {
    Progress { hashed: usize, total: usize },
    Error(String),
    Done(Vec<DuplicateGroup>),
}

/// Preferences kept between runs.
#[derive(Clone, Debug)]
pub struct Settings {
    pub last_root: Option<String>,
    pub sort_key: Option<SortKey>,
    pub sort_asc: bool,
    pub filter: FilterState,
    pub show_log: bool,
}

} // verus!
