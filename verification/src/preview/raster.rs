//! Image previews: content decoded, turned upright, scaled down and written as PNG.

use image::metadata::Orientation;
use image::{DynamicImage, ImageDecoder, ImageReader};
use vstd::prelude::*;

use crate::preview::{MAX_IMAGE_EDGE, MAX_IMAGE_SOURCE_BYTES};
use crate::state::{Preview, PreviewView};

verus! {

/// A decoded image of the `image` crate.
#[verifier::external_type_specification]
#[verifier::external_body]
pub struct ExDynamicImage(image::DynamicImage);

/// The size of an image in pixels, and how it keeps a pixel: in how many bytes, and of how many
/// samples.
#[derive(Debug, Clone, Copy, PartialEq, Eq, Structural)]
pub struct ImageForm {
    pub width: u32,
    pub height: u32,
    pub pixel_bytes: u8,
    pub channels: u8,
}

/// The form of a decoded image.
pub uninterp spec fn image_form(image: DynamicImage) -> ImageForm;

/// The form in which an image is stored; `None` for bytes that are no image.
pub uninterp spec fn stored_form(bytes: Seq<u8>) -> Option<ImageForm>;

/// How a stored image is to be turned, as the Exif number of an orientation; `None` where that
/// cannot be read.
pub uninterp spec fn stored_orientation(bytes: Seq<u8>) -> Option<u8>;

/// Decoding these bytes may give this image. Which pixels a lossy format comes to may differ with
/// the instruction set that the decoder uses.
pub uninterp spec fn may_decode_to(bytes: Seq<u8>, image: DynamicImage) -> bool;

/// An image turned by the orientation with this Exif number.
pub uninterp spec fn turned(image: DynamicImage, orientation: u8) -> DynamicImage;

/// An image scaled to fit in a square with this edge.
pub uninterp spec fn shrunk(image: DynamicImage, edge: u32) -> DynamicImage;

/// Writing this image as PNG may give these bytes. How well they are packed may differ with the
/// instruction set that the compressor uses.
pub uninterp spec fn may_be_written_as(image: DynamicImage, png: Seq<u8>) -> bool;

/// The width and height of an image; `None` for bytes that are no image.
pub uninterp spec fn image_size(bytes: Seq<u8>) -> Option<(u32, u32)>;

/// The orientation with this Exif number turns by a quarter, one way or the other.
pub open spec fn is_quarter_turn(orientation: u8) -> bool {
    5 <= orientation <= 8
}

/// A form with its width and height exchanged if the orientation turns by a quarter.
pub open spec fn upright(form: ImageForm, orientation: u8) -> ImageForm {
    if is_quarter_turn(orientation) {
        ImageForm { width: form.height, height: form.width, ..form }
    } else {
        form
    }
}

/// The whole number nearest to `a / b`, but at least 1. Halfway between two, it may be either.
pub open spec fn is_nearest(n: int, a: int, b: int) -> bool {
    if 2 * a < b {
        n == 1
    } else {
        n >= 1 && 2 * a - b <= 2 * n * b <= 2 * a + b
    }
}

/// The longer of two edges.
pub open spec fn longer(a: u32, b: u32) -> u32 {
    if a > b {
        a
    } else {
        b
    }
}

/// The size fits in a square with this edge, and is that of an image of this width and height
/// scaled until its longer edge is as long as that of the square.
pub open spec fn fits(size: (u32, u32), width: u32, height: u32, edge: u32) -> bool {
    &&& 1 <= size.0 <= edge
    &&& 1 <= size.1 <= edge
    &&& width > 0 && height > 0 ==> is_nearest(
        size.0 as int,
        width * edge,
        longer(width, height) as int,
    ) && is_nearest(size.1 as int, height * edge, longer(width, height) as int)
}

/// How many pixels of an image are averaged into one at most, along an edge of `length` pixels
/// that is scaled to `edge / longest` of its length. Positions are computed with 24 significant
/// bits, so long edges are allowed some more.
pub open spec fn block_edge(length: u32, longest: u32, edge: u32) -> int {
    let scaled = length * edge / longest as int;
    let least = if scaled < 1 {
        1
    } else {
        scaled
    };
    let most = length as int / least + length as int / 0x10_0000 + 3;
    if most < length {
        most
    } else {
        length as int
    }
}

/// How many samples of an image can be summed up: sums of 8-bit and 16-bit samples are kept in
/// 32 bits, others as floating point numbers, and the samples are counted in 32 bits.
pub open spec fn most_summed(form: ImageForm) -> int {
    if form.pixel_bytes == form.channels {
        0x100_0000
    } else if form.pixel_bytes == 2 * form.channels {
        0x1_0000
    } else {
        0xffff_ffff
    }
}

/// The pixels of an image can be averaged down to a square with this edge without a sum running
/// over.
pub open spec fn sums_fit(form: ImageForm, edge: u32) -> bool {
    form.width == 0 || form.height == 0 || block_edge(
        form.width,
        longer(form.width, form.height),
        edge,
    ) * block_edge(form.height, longer(form.width, form.height), edge) <= most_summed(form)
}

/// The samples of an image have 8 or 16 bits, as those of a PNG do.
pub open spec fn has_png_samples(form: ImageForm) -> bool {
    form.pixel_bytes == form.channels || form.pixel_bytes == 2 * form.channels
}

/// Opens a decoder with `image::ImageReader`, asks it for the orientation with
/// `image::ImageDecoder::orientation`, and decodes with `image::DynamicImage::from_decoder`.
/// Whether the bytes are an image, its form and its orientation depend on the bytes alone. An
/// orientation that cannot be read is told apart from an image that cannot be decoded. Which
/// pixels the image has is left unsaid.
#[verifier::external_body]
fn decode(bytes: &[u8]) -> (r: Option<(DynamicImage, Option<u8>)>)
    ensures
        match r {
            Some((image, orientation)) => may_decode_to(bytes@, image) && stored_form(bytes@)
                == Some(image_form(image)) && orientation == stored_orientation(bytes@) && (
            orientation matches Some(number) ==> 1 <= number <= 8),
            None => stored_form(bytes@) is None,
        },
{
    let reader = ImageReader::new(std::io::Cursor::new(bytes)).with_guessed_format().ok()?;
    let mut decoder = reader.into_decoder().ok()?;
    let orientation = match decoder.orientation() {
        Ok(orientation) => Some(orientation.to_exif()),
        Err(_) => None,
    };
    let image = DynamicImage::from_decoder(decoder).ok()?;
    Some((image, orientation))
}

/// Reads the width, the height and the `image::ColorType` of a decoded image.
#[verifier::external_body]
fn form_of(image: &DynamicImage) -> (r: ImageForm)
    ensures
        r == image_form(*image),
{
    ImageForm {
        width: image.width(),
        height: image.height(),
        pixel_bytes: image.color().bytes_per_pixel(),
        channels: image.color().channel_count(),
    }
}

/// Calls `image::DynamicImage::apply_orientation`: the image is turned or mirrored. Width and
/// height change places in the four orientations that turn by a quarter, and stay in the others.
#[verifier::external_body]
fn turn(image: &mut DynamicImage, orientation: u8)
    requires
        1 <= orientation <= 8,
    ensures
        *final(image) == turned(*old(image), orientation),
        image_form(*final(image)) == upright(image_form(*old(image)), orientation),
{
    if let Some(orientation) = Orientation::from_exif(orientation) {
        image.apply_orientation(orientation);
    }
}

/// Calls `image::DynamicImage::thumbnail`, which averages blocks of pixels: the size keeps the
/// ratio of the edges as nearly as whole pixels can, and pixels are kept as they were. Images of
/// which the sum over a block could run over are left out.
#[verifier::external_body]
fn shrink(image: &DynamicImage, edge: u32) -> (r: DynamicImage)
    requires
        0 < edge <= MAX_IMAGE_EDGE,
        sums_fit(image_form(*image), edge),
    ensures
        r == shrunk(*image, edge),
        image_form(r).pixel_bytes == image_form(*image).pixel_bytes,
        image_form(r).channels == image_form(*image).channels,
        fits(
            (image_form(r).width, image_form(r).height),
            image_form(*image).width,
            image_form(*image).height,
            edge,
        ),
{
    image.thumbnail(edge, edge)
}

/// Calls `image::DynamicImage::write_to` for PNG into memory: it succeeds for images with samples
/// of 8 or 16 bits and for no others, and the PNG decodes to an image of the same size.
#[verifier::external_body]
fn write_png(image: &DynamicImage) -> (r: Option<Vec<u8>>)
    requires
        0 < image_form(*image).width <= MAX_IMAGE_EDGE,
        0 < image_form(*image).height <= MAX_IMAGE_EDGE,
    ensures
        r is Some == has_png_samples(image_form(*image)),
        r matches Some(png) ==> may_be_written_as(*image, png@) && image_size(png@) == Some(
            (image_form(*image).width, image_form(*image).height),
        ),
{
    let mut png = Vec::new();
    image.write_to(&mut std::io::Cursor::new(&mut png), image::ImageFormat::Png).ok()?;
    Some(png)
}

/// Decodes an image with `image::ImageReader::decode`: its width and height.
#[verifier::external_body]
fn decoded_size(bytes: &[u8]) -> (r: Option<(u32, u32)>)
    ensures
        r == image_size(bytes@),
{
    let reader = ImageReader::new(std::io::Cursor::new(bytes)).with_guessed_format().ok()?;
    let decoded = reader.decode().ok()?;
    Some((decoded.width(), decoded.height()))
}

/// How to turn an image upright: as it says, or not at all where what it says cannot be read.
pub open spec fn turn_of(orientation: Option<u8>) -> u8 {
    match orientation {
        Some(number) => number,
        None => 1,
    }
}

/// How to turn an image upright, given the orientation that was read from it. An orientation that
/// cannot be read does not lose the image.
pub fn orientation_to_apply(orientation: Option<u8>) -> (r: u8)
    ensures
        r == turn_of(orientation),
{
    match orientation {
        Some(number) => number,
        None => 1,
    }
}

fn longer_of(a: u32, b: u32) -> (r: u32)
    ensures
        r == longer(a, b),
{
    if a > b {
        a
    } else {
        b
    }
}

fn block_edge_of(length: u32, longest: u32, edge: u32) -> (r: u64)
    requires
        longest > 0,
        edge <= MAX_IMAGE_EDGE,
    ensures
        r == block_edge(length, longest, edge),
        r <= length,
{
    assert(length * edge <= length * MAX_IMAGE_EDGE) by (nonlinear_arith)
        requires
            edge <= MAX_IMAGE_EDGE,
    ;
    let scaled: u64 = length as u64 * edge as u64 / longest as u64;
    let least: u64 = if scaled < 1 {
        1
    } else {
        scaled
    };
    assert(length as u64 / least <= length) by (nonlinear_arith)
        requires
            least >= 1,
    ;
    let most: u64 = length as u64 / least + length as u64 / 0x10_0000 + 3;
    if most < length as u64 {
        most
    } else {
        length as u64
    }
}

/// Whether the pixels of an image can be averaged down to a square with this edge.
pub fn can_shrink(form: ImageForm, edge: u32) -> (r: bool)
    requires
        edge <= MAX_IMAGE_EDGE,
    ensures
        r == sums_fit(form, edge),
{
    if form.width == 0 || form.height == 0 {
        return true;
    }
    let longest: u32 = longer_of(form.width, form.height);
    let across: u64 = block_edge_of(form.width, longest, edge);
    let down: u64 = block_edge_of(form.height, longest, edge);
    assert(across * down <= 0xffff_ffff * 0xffff_ffff) by (nonlinear_arith)
        requires
            across <= 0xffff_ffff,
            down <= 0xffff_ffff,
    ;
    let most: u64 = if form.pixel_bytes == form.channels {
        0x100_0000
    } else if form.pixel_bytes as u32 == 2 * form.channels as u32 {
        0x1_0000
    } else {
        0xffff_ffff
    };
    across * down <= most
}

/// The preview is the image preview of a decoded image that is to be turned like this: none if it
/// cannot be scaled down or written, else a PNG of the image turned upright and scaled to fit.
pub open spec fn is_preview_of_image(
    image: DynamicImage,
    orientation: u8,
    preview: PreviewView,
) -> bool {
    let form = upright(image_form(image), orientation);
    let small = shrunk(turned(image, orientation), MAX_IMAGE_EDGE);
    if !sums_fit(form, MAX_IMAGE_EDGE) || !has_png_samples(form) {
        preview == PreviewView::Absent
    } else {
        &&& preview matches PreviewView::Image { bytes: png, width, height }
        &&& may_be_written_as(small, png)
        &&& image_size(png) == Some((width, height))
        &&& width == image_form(small).width
        &&& height == image_form(small).height
        &&& fits((width, height), form.width, form.height, MAX_IMAGE_EDGE)
    }
}

/// The preview is an image preview of this content: none where the content is too large or no
/// image, else that of the decoded image, turned as the content says.
pub open spec fn image_preview(bytes: Seq<u8>, preview: PreviewView) -> bool {
    if bytes.len() > MAX_IMAGE_SOURCE_BYTES {
        preview == PreviewView::Absent
    } else {
        match stored_form(bytes) {
            Some(form) => exists|image: DynamicImage|
                #[trigger] may_decode_to(bytes, image) && image_form(image) == form
                    && is_preview_of_image(image, turn_of(stored_orientation(bytes)), preview),
            None => preview == PreviewView::Absent,
        }
    }
}

/// The preview of a thumbnail, if there is one.
pub fn preview_of_thumbnail(thumbnail: Option<(Vec<u8>, u32, u32)>) -> (r: Option<Preview>)
    ensures
        r == match thumbnail {
            Some((bytes, width, height)) => Some((Preview::Image { bytes, width, height })),
            None => None,
        },
{
    match thumbnail {
        Some((bytes, width, height)) => Some(Preview::Image { bytes, width, height }),
        None => None,
    }
}

/// A small image of some content; `None` where the content is too large to decode or to scale
/// down, no image, or an image that no PNG can hold.
pub fn generate_image(bytes: &Vec<u8>) -> (r: Option<Preview>)
    ensures
        image_preview(
            bytes@,
            match r {
                Some(preview) => preview@,
                None => PreviewView::Absent,
            },
        ),
        r matches Some(preview) ==> preview is Image,
{
    if bytes.len() > MAX_IMAGE_SOURCE_BYTES {
        return None;
    }
    let (mut image, orientation) = match decode(bytes.as_slice()) {
        Some(decoded) => decoded,
        None => return None,
    };
    let ghost stored = image;
    turn(&mut image, orientation_to_apply(orientation));
    if !can_shrink(form_of(&image), MAX_IMAGE_EDGE) {
        assert(is_preview_of_image(
            stored,
            turn_of(stored_orientation(bytes@)),
            PreviewView::Absent,
        ));
        return None;
    }
    let small = shrink(&image, MAX_IMAGE_EDGE);
    let form = form_of(&small);
    let thumbnail = match write_png(&small) {
        Some(png) => Some((png, form.width, form.height)),
        None => None,
    };
    let preview = preview_of_thumbnail(thumbnail);
    assert(is_preview_of_image(
        stored,
        turn_of(stored_orientation(bytes@)),
        match preview {
            Some(preview) => preview@,
            None => PreviewView::Absent,
        },
    ));
    preview
}

/// The preview of an image is as large as fits: its longer edge, once it is turned upright, has the
/// length of the longest edge of a preview. So an image that is stored on its side, and says so,
/// is shown upright, and one whose orientation cannot be read is shown as it is stored.
pub proof fn law_preview_stands_upright(bytes: Seq<u8>, png: Seq<u8>, width: u32, height: u32)
    requires
        image_preview(bytes, (PreviewView::Image { bytes: png, width, height })),
        stored_form(bytes)->Some_0.width > 0,
        stored_form(bytes)->Some_0.height > 0,
    ensures
        ({
            let form = stored_form(bytes)->Some_0;
            let on_side = stored_orientation(bytes) matches Some(number) && is_quarter_turn(number);
            let (across, down) = if on_side {
                (form.height, form.width)
            } else {
                (form.width, form.height)
            };
            &&& across >= down ==> width == MAX_IMAGE_EDGE && height <= width
            &&& down >= across ==> height == MAX_IMAGE_EDGE && width <= height
        }),
{
    let form = stored_form(bytes)->Some_0;
    let standing = upright(form, turn_of(stored_orientation(bytes)));
    let longest = longer(standing.width, standing.height) as int;
    let edge = MAX_IMAGE_EDGE as int;
    assert forall|n: int, whole: int|
        whole == longest * edge && #[trigger] is_nearest(n, whole, longest) implies n == edge by {
        assert(n == edge) by (nonlinear_arith)
            requires
                longest > 0,
                edge > 0,
                2 * (longest * edge) >= longest,
                2 * (longest * edge) - longest <= 2 * n * longest <= 2 * (longest * edge)
                    + longest,
        ;
    }
}

/// Whether content of this size may be rendered at all.
pub fn may_render(size: usize) -> (r: bool)
    ensures
        r == (size <= MAX_IMAGE_SOURCE_BYTES),
{
    size <= MAX_IMAGE_SOURCE_BYTES
}

/// The preview of an image that a renderer gave, if its size could be had.
pub fn preview_of_size(output: Vec<u8>, size: Option<(u32, u32)>) -> (r: Option<Preview>)
    ensures
        r == match size {
            Some((width, height)) => Some((Preview::Image { bytes: output, width, height })),
            None => None,
        },
{
    match size {
        Some((width, height)) => Some(Preview::Image { bytes: output, width, height }),
        None => None,
    }
}

/// The preview that a renderer gave as an image of its own: what it wrote, if it succeeded,
/// wrote anything, and wrote an image.
pub fn preview_of_rendering(success: bool, output: Vec<u8>) -> (r: Option<Preview>)
    ensures
        r == if !success || output@.len() == 0 {
            None
        } else {
            match image_size(output@) {
                Some((width, height)) => Some((Preview::Image { bytes: output, width, height })),
                None => None,
            }
        },
{
    if !success || output.len() == 0 {
        return None;
    }
    let size = decoded_size(output.as_slice());
    preview_of_size(output, size)
}

} // verus!
