//! What a preview shows, said of the content: a text is shown as it is but for its control
//! characters, an ordinary image is shown, and the kind of a file decides which.

use vstd::prelude::*;
use vstd::utf8::{
    decode_utf8, encode_utf8, encode_utf8_decode_utf8, encode_utf8_valid_utf8, valid_utf8,
};

use crate::preview::raster::{
    block_edge, image_preview, image_size, is_preview_of_image, may_decode_to, stored_form,
    stored_orientation, turn_of, upright, ImageForm,
};
use crate::preview::text::{
    is_shown, lemma_valid_prefix, sanitized, text_preview, valid_prefix,
};
use crate::preview::{
    is_preview_of, leading, FileKind, MAX_IMAGE_EDGE, MAX_IMAGE_SOURCE_BYTES, MAX_TEXT_BYTES,
};
use crate::seqs::{lemma_filter_all, lemma_filter_concat, lemma_filter_one};
use crate::state::{Preview, PreviewView};

verus! {

/// Short content that is text through and through is shown, sanitized, to its end.
proof fn lemma_short_text(bytes: Seq<u8>)
    requires
        valid_utf8(bytes),
        bytes.len() <= MAX_TEXT_BYTES,
    ensures
        text_preview(bytes) == PreviewView::Text(sanitized(decode_utf8(bytes))),
{
    assert(leading(bytes, MAX_TEXT_BYTES as int) == bytes);
    assert(bytes.take(bytes.len() as int) =~= bytes);
    assert(valid_prefix(bytes, bytes.len() as int) =~= bytes);
}

/// Which characters are shown, by their code points.
proof fn lemma_shown(c: char)
    ensures
        ({
            let code = c as u32;
            is_shown(c) == (code == 0x09 || code == 0x0a || code == 0x0d || 0x20 <= code <= 0x7e
                || 0xa0 <= code)
        }),
{
    let code = c as u32;
    assert(c == '\t' <==> code == 0x09);
    assert(c == '\n' <==> code == 0x0a);
    assert(c == '\r' <==> code == 0x0d);
}

/// A text that fits in a preview, and in which no character is a control character but line breaks
/// and tabs, is shown as it is, every character of it, in whatever script it is written.
pub proof fn law_plain_text_is_shown_as_it_is(bytes: Seq<u8>)
    requires
        valid_utf8(bytes),
        bytes.len() <= MAX_TEXT_BYTES,
        forall|i: int|
            0 <= i < decode_utf8(bytes).len() ==> {
                let code = (#[trigger] decode_utf8(bytes)[i]) as u32;
                code == 0x09 || code == 0x0a || code == 0x0d || 0x20 <= code <= 0x7e || 0xa0
                    <= code
            },
    ensures
        text_preview(bytes) == PreviewView::Text(decode_utf8(bytes)),
{
    lemma_short_text(bytes);
    let text = decode_utf8(bytes);
    let p = |c: char| is_shown(c);
    assert forall|i: int| 0 <= i < text.len() implies p(#[trigger] text[i]) by {
        lemma_shown(text[i]);
    }
    lemma_filter_all(text, p);
}

/// A control character is left out, unless it breaks a line or is a tab, and every other character
/// is kept.
pub proof fn law_character_is_shown_or_left_out(c: char)
    ensures
        ({
            let code = c as u32;
            let left_out = (code <= 0x1f && code != 0x09 && code != 0x0a && code != 0x0d) || 0x7f
                <= code <= 0x9f;
            text_preview(encode_utf8(seq![c])) == PreviewView::Text(
                if left_out {
                    Seq::empty()
                } else {
                    seq![c]
                },
            )
        }),
{
    let text = seq![c];
    let bytes = encode_utf8(text);
    encode_utf8_valid_utf8(text);
    encode_utf8_decode_utf8(text);
    assert(bytes.len() <= 4) by {
        assert(text.drop_first() =~= Seq::<char>::empty());
        assert(encode_utf8(text.drop_first()).len() == 0);
        assert(text[0] == c);
    }
    lemma_short_text(bytes);
    lemma_filter_one(c, |c: char| is_shown(c));
    lemma_shown(c);
}

/// A text is shown part by part: what is shown of it is what is shown of its parts.
pub proof fn law_text_is_shown_part_by_part(a: Seq<char>, b: Seq<char>)
    requires
        encode_utf8(a + b).len() <= MAX_TEXT_BYTES,
        encode_utf8(a).len() <= MAX_TEXT_BYTES,
        encode_utf8(b).len() <= MAX_TEXT_BYTES,
    ensures
        ({
            let first = text_preview(encode_utf8(a));
            let second = text_preview(encode_utf8(b));
            &&& first is Text && second is Text
            &&& text_preview(encode_utf8(a + b)) == PreviewView::Text(
                first->Text_0 + second->Text_0,
            )
        }),
{
    encode_utf8_valid_utf8(a);
    encode_utf8_valid_utf8(b);
    encode_utf8_valid_utf8(a + b);
    encode_utf8_decode_utf8(a);
    encode_utf8_decode_utf8(b);
    encode_utf8_decode_utf8(a + b);
    lemma_short_text(encode_utf8(a));
    lemma_short_text(encode_utf8(b));
    lemma_short_text(encode_utf8(a + b));
    lemma_filter_concat(a, b, |c: char| is_shown(c));
}

/// Content is shown as far as a preview goes: what comes after its first bytes makes no difference,
/// and of those the longest start that is text is shown.
pub proof fn law_longest_start_that_is_text_is_shown(bytes: Seq<u8>, n: int)
    requires
        0 <= n <= bytes.len(),
        n <= MAX_TEXT_BYTES,
        valid_utf8(bytes.take(n)),
        forall|m: int|
            n < m <= bytes.len() && m <= MAX_TEXT_BYTES ==> !valid_utf8(#[trigger] bytes.take(m)),
    ensures
        text_preview(bytes) == text_preview(bytes.take(n)),
{
    let window = leading(bytes, MAX_TEXT_BYTES as int);
    assert(window.take(n) =~= bytes.take(n));
    assert forall|k: int| n < k <= window.len() implies !valid_utf8(#[trigger] window.take(k)) by {
        assert(window.take(k) =~= bytes.take(k));
    }
    lemma_valid_prefix(window, window.len() as int, n);
    lemma_short_text(bytes.take(n));
}

/// Text and markdown are previewed as text. Content that could not be read has no preview this
/// time, and content of no special kind has none ever, whether it was read or not.
pub proof fn law_kind_decides_the_preview(
    preview: Option<Preview>,
    kind: FileKind,
    read: Option<&Vec<u8>>,
    rendering: Option<Preview>,
)
    requires
        is_preview_of(preview, kind, read, rendering),
    ensures
        kind == FileKind::Other ==> preview is Some && preview->Some_0@ == PreviewView::Absent,
        kind != FileKind::Other ==> (preview is Some <==> read is Some),
        (kind == FileKind::Text || kind == FileKind::Markdown) && read is Some
            ==> preview->Some_0@ == text_preview(read->Some_0@) && preview->Some_0@ is Text,
        (kind == FileKind::Svg || kind == FileKind::Pdf || kind == FileKind::Video) && read is Some
            && rendering is Some ==> preview->Some_0@ == rendering->Some_0@,
        (kind == FileKind::Svg || kind == FileKind::Pdf || kind == FileKind::Video) && read is Some
            && rendering is None ==> preview->Some_0@ == PreviewView::Absent,
        kind == FileKind::Image && read is Some ==> preview->Some_0@ is Image
            || preview->Some_0@ == PreviewView::Absent,
{
}

/// An ordinary image is shown: one of at most 4096 pixels either way with samples of 8 bits, in
/// content of a size that is decoded, gives an image that fits in the square of a preview and that
/// decodes to just the size it is said to have.
pub proof fn law_ordinary_image_is_shown(
    preview: Option<Preview>,
    bytes: &Vec<u8>,
    rendering: Option<Preview>,
)
    requires
        is_preview_of(preview, FileKind::Image, Some(bytes), rendering),
        bytes@.len() <= MAX_IMAGE_SOURCE_BYTES,
        stored_form(bytes@) is Some,
        0 < stored_form(bytes@)->Some_0.width <= 4096,
        0 < stored_form(bytes@)->Some_0.height <= 4096,
        stored_form(bytes@)->Some_0.pixel_bytes == stored_form(bytes@)->Some_0.channels,
    ensures
        preview matches Some(Preview::Image { bytes: png, width, height }) && image_size(png@)
            == Some((width, height)) && 1 <= width <= MAX_IMAGE_EDGE && 1 <= height
            <= MAX_IMAGE_EDGE,
{
    let form = stored_form(bytes@)->Some_0;
    let shown = preview->Some_0@;
    let orientation = turn_of(stored_orientation(bytes@));
    let image = choose|image: image::DynamicImage| #[trigger]
        may_decode_to(bytes@, image) && crate::preview::raster::image_form(image) == form
            && is_preview_of_image(image, orientation, shown);
    let standing = crate::preview::raster::upright(form, orientation);
    let longest = crate::preview::raster::longer(standing.width, standing.height);
    let across = block_edge(standing.width, longest, MAX_IMAGE_EDGE);
    let down = block_edge(standing.height, longest, MAX_IMAGE_EDGE);
    lemma_block_edge(standing.width, longest);
    lemma_block_edge(standing.height, longest);
    assert(across * down <= 0x100_0000) by (nonlinear_arith)
        requires
            0 <= across <= 4096,
            0 <= down <= 4096,
    ;
}

proof fn lemma_block_edge(length: u32, longest: u32)
    requires
        0 < length <= longest,
    ensures
        0 <= block_edge(length, longest, MAX_IMAGE_EDGE) <= length,
{
    let scaled = length * MAX_IMAGE_EDGE / longest as int;
    let least = if scaled < 1 {
        1
    } else {
        scaled
    };
    assert(length as int / least >= 0) by (nonlinear_arith)
        requires
            least >= 1,
    ;
}

/// Content that is no image, or too large to be decoded, has no image preview.
pub proof fn law_no_image_has_no_preview(bytes: Seq<u8>, preview: PreviewView)
    requires
        image_preview(bytes, preview),
        stored_form(bytes) is None || bytes.len() > MAX_IMAGE_SOURCE_BYTES,
    ensures
        preview == PreviewView::Absent,
{
}

/// An image that is to be turned by a quarter has its sides swapped when it is upright, and any other
/// keeps them.
pub proof fn law_quarter_turn_swaps_the_sides(form: ImageForm, orientation: u8)
    ensures
        orientation == 5 || orientation == 6 || orientation == 7 || orientation == 8 ==> upright(
            form,
            orientation,
        ).width == form.height && upright(form, orientation).height == form.width,
        orientation == 1 || orientation == 2 || orientation == 3 || orientation == 4 ==> upright(
            form,
            orientation,
        ) == form,
        upright(form, orientation).channels == form.channels,
        upright(form, orientation).pixel_bytes == form.pixel_bytes,
{
}

} // verus!
