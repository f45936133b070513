//! What a pane leaf is currently rendering.
//!
//! Each pane leaf shows one `PaneContent` variant. The content type is
//! detected from the file's extension when the file is opened.

use vstd::prelude::*;
use crate::language::lower_extension;
use crate::language::lower_extension_chars;
use crate::text::chars_eq;

verus! {

broadcast use vstd::string::group_string_axioms;

/// What a pane leaf is currently rendering.
#[derive(Debug, Clone, PartialEq, Eq)]
pub enum PaneContent {
    /// Syntax-highlighted code editor — the default.
    CodeEditor { path: String },
    /// Visual image preview.
    ImageViewer { path: String },
    /// Rendered Markdown preview.
    MarkdownPreview { path: String },
    /// PDF page viewer.
    PdfViewer { path: String },
    /// Side-by-side or inline diff view.
    DiffViewer { left: DiffSource, right: DiffSource },
    /// Color picker overlay, rendered on top of a code editor.
    ColorPickerOverlay { path: String },
    /// Nothing open yet.
    Empty,
}

/// One side of a diff view.
#[derive(Debug, Clone, PartialEq, Eq)]
pub enum DiffSource {
    /// A file on disk.
    File(String),
    /// A git revision of a file (e.g. "HEAD", "HEAD~1", a commit SHA).
    GitRevision { path: String, rev: String },
    /// The current unsaved buffer content.
    Buffer(String),
}

/// The renderer a path is opened with.
#[derive(Debug, Clone, Copy, PartialEq, Eq, Structural)]
pub enum ContentKind {
    CodeEditor,
    ImageViewer,
    MarkdownPreview,
    PdfViewer,
    DiffViewer,
    ColorPickerOverlay,
    Empty,
}

pub open spec fn kind_of(c: PaneContent) -> ContentKind {
    match c {
        PaneContent::CodeEditor { .. } => ContentKind::CodeEditor,
        PaneContent::ImageViewer { .. } => ContentKind::ImageViewer,
        PaneContent::MarkdownPreview { .. } => ContentKind::MarkdownPreview,
        PaneContent::PdfViewer { .. } => ContentKind::PdfViewer,
        PaneContent::DiffViewer { .. } => ContentKind::DiffViewer,
        PaneContent::ColorPickerOverlay { .. } => ContentKind::ColorPickerOverlay,
        PaneContent::Empty => ContentKind::Empty,
    }
}

pub open spec fn diff_source_path(d: DiffSource) -> Seq<char> {
    match d {
        DiffSource::File(p) => p@,
        DiffSource::GitRevision { path, .. } => path@,
        DiffSource::Buffer(p) => p@,
    }
}

/// The primary path of a content value.
pub open spec fn content_path(c: PaneContent) -> Option<Seq<char>> {
    match c {
        PaneContent::CodeEditor { path } => Some(path@),
        PaneContent::ImageViewer { path } => Some(path@),
        PaneContent::MarkdownPreview { path } => Some(path@),
        PaneContent::PdfViewer { path } => Some(path@),
        PaneContent::ColorPickerOverlay { path } => Some(path@),
        PaneContent::DiffViewer { left, .. } => Some(diff_source_path(left)),
        PaneContent::Empty => None,
    }
}

pub open spec fn is_image_extension(e: Seq<char>) -> bool {
    e == "png"@ || e == "jpg"@ || e == "jpeg"@ || e == "gif"@ || e == "webp"@ || e == "bmp"@
        || e == "ico"@ || e == "tiff"@
}

pub open spec fn is_markdown_extension(e: Seq<char>) -> bool {
    e == "md"@ || e == "markdown"@
}

/// Whether a content value is a Markdown preview, or a code editor on a
/// file whose extension is `md` or `markdown` in any ASCII case.
pub open spec fn markdown_related(c: PaneContent) -> bool {
    match c {
        PaneContent::MarkdownPreview { .. } => true,
        PaneContent::CodeEditor { path } => is_markdown_extension(lower_extension(path@)),
        _ => false,
    }
}

/// The renderer chosen for a lower-cased extension.
pub open spec fn detect_kind(e: Seq<char>, markdown_preview_default: bool) -> ContentKind {
    if is_image_extension(e) {
        ContentKind::ImageViewer
    } else if e == "pdf"@ {
        ContentKind::PdfViewer
    } else if is_markdown_extension(e) && markdown_preview_default {
        ContentKind::MarkdownPreview
    } else {
        ContentKind::CodeEditor
    }
}

pub open spec fn tab_prefix_of(k: ContentKind) -> Seq<char> {
    match k {
        ContentKind::ImageViewer => "🖼 "@,
        ContentKind::MarkdownPreview => "[md] "@,
        ContentKind::PdfViewer => "[pdf] "@,
        ContentKind::DiffViewer => "[diff] "@,
        _ => ""@,
    }
}

fn ext_is(e: &[char], lit: &str) -> (r: bool)
    ensures
        r == (e@ == lit@),
{
    let l = crate::text::str_chars(lit);
    chars_eq(e, l.as_slice())
}

fn copy_string(s: &String) -> (r: String)
    ensures
        r@ == s@,
{
    s.clone()
}

impl DiffSource {
    /// The file path this diff source refers to.
    pub fn path(&self) -> (r: &String)
        ensures
            r@ == diff_source_path(*self),
    {
        match self {
            DiffSource::File(p) => p,
            DiffSource::GitRevision { path, .. } => path,
            DiffSource::Buffer(p) => p,
        }
    }
}

impl PaneContent {
    /// Picks the renderer for `path` from its extension alone.
    pub fn detect_from_path(path: &String, markdown_preview_default: bool) -> (r: Self)
        ensures
            content_path(r) == Some(path@),
            kind_of(r) == detect_kind(lower_extension(path@), markdown_preview_default),
    {
        let e = lower_extension_chars(path.as_str());
        let e = e.as_slice();
        let p = copy_string(path);
        if ext_is(e, "png") || ext_is(e, "jpg") || ext_is(e, "jpeg") || ext_is(e, "gif") || ext_is(
            e,
            "webp",
        ) || ext_is(e, "bmp") || ext_is(e, "ico") || ext_is(e, "tiff") {
            PaneContent::ImageViewer { path: p }
        } else if ext_is(e, "pdf") {
            PaneContent::PdfViewer { path: p }
        } else if (ext_is(e, "md") || ext_is(e, "markdown")) && markdown_preview_default {
            PaneContent::MarkdownPreview { path: p }
        } else {
            PaneContent::CodeEditor { path: p }
        }
    }

    /// The primary path associated with this content, if any.
    pub fn path(&self) -> (r: Option<&String>)
        ensures
            match r {
                Some(p) => content_path(*self) == Some(p@),
                None => content_path(*self) is None,
            },
    {
        match self {
            PaneContent::CodeEditor { path }
            | PaneContent::ImageViewer { path }
            | PaneContent::MarkdownPreview { path }
            | PaneContent::PdfViewer { path }
            | PaneContent::ColorPickerOverlay { path } => Some(path),
            PaneContent::DiffViewer { left, .. } => Some(left.path()),
            PaneContent::Empty => None,
        }
    }

    /// Short tab prefix label for the content type.
    pub fn tab_prefix(&self) -> (r: &'static str)
        ensures
            r@ == tab_prefix_of(kind_of(*self)),
    {
        match self {
            PaneContent::CodeEditor { .. } => "",
            PaneContent::ImageViewer { .. } => "🖼 ",
            PaneContent::MarkdownPreview { .. } => "[md] ",
            PaneContent::PdfViewer { .. } => "[pdf] ",
            PaneContent::DiffViewer { .. } => "[diff] ",
            PaneContent::ColorPickerOverlay { .. } => "",
            PaneContent::Empty => "",
        }
    }

    /// True when the pane is showing a code editor.
    pub fn is_code_editor(&self) -> (r: bool)
        ensures
            r == (kind_of(*self) == ContentKind::CodeEditor || kind_of(*self)
                == ContentKind::ColorPickerOverlay),
    {
        matches!(self, PaneContent::CodeEditor { .. } | PaneContent::ColorPickerOverlay { .. })
    }

    /// True when a markdown toggle button should be shown.
    pub fn is_markdown_related(&self) -> (r: bool)
        ensures
            r == markdown_related(*self),
    {
        match self {
            PaneContent::MarkdownPreview { .. } => true,
            PaneContent::CodeEditor { path } => {
                let e = lower_extension_chars(path.as_str());
                ext_is(e.as_slice(), "md") || ext_is(e.as_slice(), "markdown")
            },
            _ => false,
        }
    }
}

/// Whatever `detect_from_path(p, b)` picks, the markdown toggle is shown
/// exactly when `p` has the extension `md` or `markdown`, in any ASCII case,
/// whether or not Markdown files open as previews.
pub proof fn lemma_detected_markdown_related(r: PaneContent, p: Seq<char>, b: bool)
    requires
        content_path(r) == Some(p),
        kind_of(r) == detect_kind(lower_extension(p), b),
    ensures
        markdown_related(r) == is_markdown_extension(lower_extension(p)),
{
    reveal_strlit("md");
    reveal_strlit("markdown");
    reveal_strlit("pdf");
    reveal_strlit("png");
    reveal_strlit("jpg");
    reveal_strlit("jpeg");
    reveal_strlit("gif");
    reveal_strlit("webp");
    reveal_strlit("bmp");
    reveal_strlit("ico");
    reveal_strlit("tiff");
    let e = lower_extension(p);
    assert("md"@.len() == 2 && "markdown"@.len() == 8 && "pdf"@.len() == 3 && "png"@.len() == 3
        && "jpg"@.len() == 3 && "jpeg"@.len() == 4 && "gif"@.len() == 3 && "webp"@.len() == 4
        && "bmp"@.len() == 3 && "ico"@.len() == 3 && "tiff"@.len() == 4);
    if is_markdown_extension(e) {
        assert(!is_image_extension(e));
        assert(e != "pdf"@);
    }
    match r {
        PaneContent::CodeEditor { path } => {
            assert(path@ == p);
        },
        _ => {},
    }
}

/// Whether the first bytes of a file hold a NUL byte (then it is binary).
pub fn is_binary(first_bytes: &[u8]) -> (r: bool)
    ensures
        r == first_bytes@.contains(0u8),
{
    let mut i: usize = 0;
    while i < first_bytes.len()
        invariant
            i <= first_bytes.len(),
            forall|j: int| 0 <= j < i ==> first_bytes@[j] != 0u8,
        decreases first_bytes.len() - i,
    {
        if first_bytes[i] == 0 {
            return true;
        }
        i = i + 1;
    }
    false
}

} // verus!
