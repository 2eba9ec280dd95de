//! Generating previews: a small image, a short text, or the finding that there is none.
//!
//! The kind of a file decides how it is previewed. Reading the content and rendering vector
//! images, documents and videos is up to whoever calls; what is made of it is decided here.

use vstd::prelude::*;

use crate::preview::raster::{generate_image, image_preview};
use crate::preview::text::{generate_text, text_preview};
use crate::state::{Preview, PreviewView};

pub mod laws;
pub mod raster;
pub mod text;

verus! {

/// The longest edge of an image preview, in pixels.
pub const MAX_IMAGE_EDGE: u32 = 96;

/// How many bytes of content are decoded at most. Larger content has no image preview.
pub const MAX_IMAGE_SOURCE_BYTES: usize = 33554432;

/// How many bytes of content a text preview shows at most.
pub const MAX_TEXT_BYTES: usize = 2048;

/// What kind of file some content is, by the name of the file.
#[derive(Debug, Clone, Copy, PartialEq, Eq, Structural)]
pub enum FileKind {
    Image,
    Svg,
    Pdf,
    Video,
    Text,
    Markdown,
    Other,
}

/// What has to be had of some content before its preview can be decided.
#[derive(Debug, Clone, Copy, PartialEq, Eq, Structural)]
pub enum Needs {
    /// Its first bytes, this many at most.
    Bytes { limit: usize },
    /// Its first bytes, this many at most, and a rendering of them as an image.
    BytesAndRendering { limit: usize },
    /// Its first bytes, this many at most, which show that the source can be read, and a
    /// rendering of the source as an image.
    SourceRendering { limit: usize },
    Nothing,
}

/// What has to be had of content of this kind.
pub fn needs_of(kind: FileKind) -> (r: Needs)
    ensures
        r == match kind {
            FileKind::Image => (Needs::Bytes { limit: MAX_IMAGE_SOURCE_BYTES }),
            FileKind::Svg => (Needs::BytesAndRendering { limit: MAX_IMAGE_SOURCE_BYTES }),
            FileKind::Pdf => (Needs::BytesAndRendering { limit: MAX_IMAGE_SOURCE_BYTES }),
            FileKind::Video => (Needs::SourceRendering { limit: 1 }),
            FileKind::Text => (Needs::Bytes { limit: MAX_TEXT_BYTES }),
            FileKind::Markdown => (Needs::Bytes { limit: MAX_TEXT_BYTES }),
            FileKind::Other => Needs::Nothing,
        },
{
    match kind {
        FileKind::Image => Needs::Bytes { limit: MAX_IMAGE_SOURCE_BYTES },
        FileKind::Svg => Needs::BytesAndRendering { limit: MAX_IMAGE_SOURCE_BYTES },
        FileKind::Pdf => Needs::BytesAndRendering { limit: MAX_IMAGE_SOURCE_BYTES },
        FileKind::Video => Needs::SourceRendering { limit: 1 },
        FileKind::Text => Needs::Bytes { limit: MAX_TEXT_BYTES },
        FileKind::Markdown => Needs::Bytes { limit: MAX_TEXT_BYTES },
        FileKind::Other => Needs::Nothing,
    }
}

/// The first bytes of some, `max_len` at most.
pub open spec fn leading(bytes: Seq<u8>, max_len: int) -> Seq<u8> {
    if bytes.len() <= max_len {
        bytes
    } else {
        bytes.take(max_len)
    }
}

/// The first bytes of content in memory, `max_len` at most.
pub fn read_leading(bytes: &Vec<u8>, max_len: usize) -> (r: Vec<u8>)
    ensures
        r@ == leading(bytes@, max_len as int),
{
    let end: usize = if bytes.len() <= max_len {
        bytes.len()
    } else {
        max_len
    };
    let mut r: Vec<u8> = Vec::new();
    r.extend_from_slice(vstd::slice::slice_subrange(bytes.as_slice(), 0, end));
    assert(r@ =~= leading(bytes@, max_len as int));
    r
}

/// The rendering, or the finding that there is none.
pub open spec fn rendered_or_absent(rendering: Option<Preview>) -> PreviewView {
    match rendering {
        Some(preview) => preview@,
        None => PreviewView::Absent,
    }
}

/// The preview is what this kind of content is previewed as, given what was read and rendered of
/// it. Content that could not be read has none this time, which is no finding.
pub open spec fn is_preview_of(
    preview: Option<Preview>,
    kind: FileKind,
    read: Option<&Vec<u8>>,
    rendering: Option<Preview>,
) -> bool {
    match (kind, read) {
        (FileKind::Other, _) => preview matches Some(preview) && preview@ == PreviewView::Absent,
        (_, None) => preview is None,
        (FileKind::Svg | FileKind::Pdf | FileKind::Video, Some(_)) => preview matches Some(preview)
            && preview@ == rendered_or_absent(rendering),
        (FileKind::Image, Some(bytes)) => preview matches Some(preview) && image_preview(
            bytes@,
            preview@,
        ),
        (FileKind::Text | FileKind::Markdown, Some(bytes)) => preview matches Some(preview)
            && preview@ == text_preview(bytes@),
    }
}

/// Generates a preview of content of this kind, given its first bytes, or `None` if they could
/// not be read, and its rendering as an image, or `None` if it has none.
pub fn generate(kind: FileKind, read: Option<&Vec<u8>>, rendering: Option<Preview>) -> (r: Option<
    Preview,
>)
    ensures
        is_preview_of(r, kind, read, rendering),
{
    if kind == FileKind::Other {
        return Some(Preview::Absent);
    }
    let bytes = match read {
        Some(bytes) => bytes,
        None => return None,
    };
    match kind {
        FileKind::Svg => Some(or_absent(rendering)),
        FileKind::Pdf => Some(or_absent(rendering)),
        FileKind::Video => Some(or_absent(rendering)),
        FileKind::Image => Some(or_absent(generate_image(bytes))),
        _ => Some(generate_text(bytes)),
    }
}

/// The rendering, or the finding that there is none.
fn or_absent(rendering: Option<Preview>) -> (r: Preview)
    ensures
        r@ == rendered_or_absent(rendering),
{
    match rendering {
        Some(preview) => preview,
        None => Preview::Absent,
    }
}

} // verus!
