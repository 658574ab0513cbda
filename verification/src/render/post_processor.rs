//! The resolve pass and the way its result comes back to the host.

use vstd::prelude::*;
use vstd::arithmetic::div_mod::lemma_fundamental_div_mod_converse;
use crate::config::{Config, Size};
use crate::render::{
    align, align_spec, lemma_align_is_least, lemma_align_is_multiple, renderable, tile_grid,
    tiles_over, working_dimensions, working_size, Dispatch, RenderContext, TextureDesc,
    TextureFormat, MAX_WIDTH, ROW_PITCH,
};

verus! {

/// An 8-bit RGBA image, held as the `image` crate holds it.
#[verifier::external_body]
pub struct RgbaImage {
    inner: image::RgbaImage,
}

/// The bytes that an image holds, row by row and four to a pixel.
pub uninterp spec fn image_bytes(image: RgbaImage) -> Seq<u8>;

/// Width and height of an image in pixels.
pub uninterp spec fn image_size(image: RgbaImage) -> (u32, u32);

/// Calls `image::ImageBuffer::from_raw` for 8-bit RGBA pixels.
///
/// Trusted: the image is made exactly when the bytes suffice for
/// `width * height` pixels of four bytes, and it then holds the bytes and
/// the dimensions it was given. The outside function multiplies the width
/// by four in `usize` first, so the length of a row must fit there.
#[verifier::external_body]
fn rgba_from_raw(width: u32, height: u32, bytes: Vec<u8>) -> (image: Option<RgbaImage>)
    requires
        4 * width <= usize::MAX,
    ensures
        image is Some <==> 4 * width * height <= bytes@.len(),
        image matches Some(made) ==> image_bytes(made) == bytes@ && image_size(made) == (
            width,
            height,
        ),
{
    match image::RgbaImage::from_raw(width, height, bytes) {
        Some(inner) => Some(RgbaImage { inner }),
        None => None,
    }
}

/// Calls `image::ImageBuffer::dimensions`.
///
/// Trusted: it hands out the width and the height that the image holds.
#[verifier::external_body]
fn rgba_dimensions(image: &RgbaImage) -> (size: (u32, u32))
    ensures
        size == image_size(*image),
{
    image.inner.dimensions()
}

/// Calls `image::ImageBuffer::into_raw`.
///
/// Trusted: it hands out the bytes that the image holds.
#[verifier::external_body]
fn rgba_into_raw(image: RgbaImage) -> (bytes: Vec<u8>)
    ensures
        bytes@ == image_bytes(image),
{
    image.inner.into_raw()
}

impl RgbaImage {
    /// Width and height of the image in pixels.
    pub fn dimensions(&self) -> (size: (u32, u32))
        ensures
            size == image_size(*self),
    {
        rgba_dimensions(self)
    }

    /// The bytes of the image, row by row and four to a pixel.
    pub fn into_raw(self) -> (bytes: Vec<u8>)
        ensures
            bytes@ == image_bytes(self),
    {
        rgba_into_raw(self)
    }
}

/// The displayable image for an output of `size`: four bytes per texel,
/// padded to whole tiles; written as a storage image, sampled by the copy
/// to the screen and read back through a buffer.
pub open spec fn postprocess_target_desc(size: Size) -> TextureDesc {
    TextureDesc {
        width: working_size(size).width,
        height: working_size(size).height,
        format: TextureFormat::Rgba8Unorm,
        storage_binding: true,
        copy_src: true,
        texture_binding: true,
    }
}

/// How the picture lies in the buffer that it is copied to for reading
/// back: `rows` rows, each starting `bytes_per_row` after the one before.
#[derive(Clone, Copy, Debug, PartialEq, Eq, Structural)]
pub struct ReadbackLayout {
    /// Row length in pixels, padding included.
    pub padded_width: u32,
    pub bytes_per_row: u32,
    pub rows: u32,
    /// Length of the whole buffer in bytes.
    pub size: u64,
}

/// The layout by which an output of `size` is read back: rows are padded
/// to the row pitch, the picture is cropped to its logical size.
pub open spec fn readback_layout(size: Size) -> ReadbackLayout {
    let padded_width = align_spec(size.width as int, ROW_PITCH as int);
    ReadbackLayout {
        padded_width: padded_width as u32,
        bytes_per_row: (padded_width * 4) as u32,
        rows: size.height,
        size: (padded_width * 4 * size.height) as u64,
    }
}

/// The rows of `mapped` without what pads them: `rows` rows of `row_bytes`
/// bytes, where row number `r` starts at `r * stride` in `mapped`.
pub open spec fn unpadded(mapped: Seq<u8>, row_bytes: int, rows: int, stride: int) -> Seq<u8> {
    Seq::new(
        (row_bytes * rows) as nat,
        |k: int| mapped[(k / row_bytes) * stride + k % row_bytes],
    )
}

/// Copies the rows out of a buffer in which each row is followed by
/// padding up to `stride` bytes.
pub fn strip_row_padding(mapped: &Vec<u8>, row_bytes: usize, rows: usize, stride: usize) -> (pixels:
    Vec<u8>)
    requires
        row_bytes <= stride,
        stride * rows <= mapped@.len(),
    ensures
        pixels@ == unpadded(mapped@, row_bytes as int, rows as int, stride as int),
        pixels@.len() == row_bytes * rows,
{
    let available = mapped.len();
    let mut pixels: Vec<u8> = Vec::new();
    let mut row: usize = 0;
    while row < rows
        invariant
            row <= rows,
            row_bytes <= stride,
            stride * rows <= available == mapped@.len(),
            pixels@.len() == row * row_bytes,
            forall|k: int|
                0 <= k < pixels@.len() ==> #[trigger] pixels@[k] == mapped@[(k / (row_bytes as int))
                    * stride + k % (row_bytes as int)],
        decreases rows - row,
    {
        assert(0 <= row * stride && row * stride + stride <= stride * rows) by (nonlinear_arith)
            requires
                0 <= row < rows,
                0 <= stride,
        ;
        let row_start = row * stride;
        let mut column: usize = 0;
        while column < row_bytes
            invariant
                column <= row_bytes <= stride,
                row < rows,
                row_start == row * stride,
                row_start + stride <= available == mapped@.len(),
                pixels@.len() == row * row_bytes + column,
                forall|k: int|
                    0 <= k < pixels@.len() ==> #[trigger] pixels@[k] == mapped@[(k / (
                    row_bytes as int)) * stride + k % (row_bytes as int)],
            decreases row_bytes - column,
        {
            proof {
                lemma_fundamental_div_mod_converse(
                    row * row_bytes + column,
                    row_bytes as int,
                    row as int,
                    column as int,
                );
            }
            pixels.push(mapped[row_start + column]);
            column += 1;
        }
        assert((row + 1) * row_bytes == row * row_bytes + row_bytes) by (nonlinear_arith);
        row += 1;
    }
    assert(row * row_bytes == row_bytes * rows) by (nonlinear_arith)
        requires
            row == rows,
    ;
    assert(pixels@ =~= unpadded(mapped@, row_bytes as int, rows as int, stride as int));
    pixels
}

/// The plan of the resolve pass.
pub struct PostProcessor {
    size: Size,
    padded: Size,
}

impl PostProcessor {
    #[verifier::type_invariant]
    spec fn padded_to_tiles(self) -> bool {
        renderable(self.size) && self.padded == working_size(self.size)
    }

    /// The logical output size that the pass was set up for.
    pub closed spec fn size(self) -> Size {
        self.size
    }

    /// Sets the pass up for `config` and registers its target in `context`.
    /// The trace pass must have registered the accumulation target, which
    /// this pass reads.
    pub fn new(context: &mut RenderContext, config: &Config) -> (post: PostProcessor)
        requires
            renderable(config.size),
            old(context).rt_render_target is Some,
        ensures
            post.size() == config.size,
            final(context).rt_render_target == old(context).rt_render_target,
            final(context).postprocess_target == Some(postprocess_target_desc(config.size)),
    {
        let post = PostProcessor { size: config.size, padded: working_dimensions(&config.size) };
        context.postprocess_target = Some(post.target());
        post
    }

    /// The texture that the pass writes.
    pub fn target(&self) -> (desc: TextureDesc)
        ensures
            desc == postprocess_target_desc(self.size()),
    {
        proof {
            use_type_invariant(self);
        }
        TextureDesc {
            width: self.padded.width,
            height: self.padded.height,
            format: TextureFormat::Rgba8Unorm,
            storage_binding: true,
            copy_src: true,
            texture_binding: true,
        }
    }

    /// The one dispatch of the pass: a workgroup for every tile of the
    /// padded image.
    pub fn post_process(&self) -> (grid: Dispatch)
        ensures
            grid == tile_grid(working_size(self.size())),
    {
        proof {
            use_type_invariant(self);
        }
        tiles_over(&self.padded)
    }

    /// How the picture is to be copied into a buffer for reading back.
    pub fn readback(&self) -> (layout: ReadbackLayout)
        ensures
            layout == readback_layout(self.size()),
            layout.bytes_per_row == 4 * layout.padded_width,
            layout.size == layout.bytes_per_row * layout.rows,
            self.size().width <= layout.padded_width,
    {
        proof {
            use_type_invariant(self);
            lemma_align_is_multiple(self.size.width as int, ROW_PITCH as int);
            lemma_align_is_least(self.size.width as int, ROW_PITCH as int, MAX_WIDTH as int);
        }
        let padded_width = align(self.size.width, ROW_PITCH);
        let bytes_per_row = padded_width * 4;
        assert(bytes_per_row * self.size.height <= u64::MAX) by (nonlinear_arith)
            requires
                bytes_per_row <= u32::MAX,
                self.size.height <= u32::MAX,
        ;
        ReadbackLayout {
            padded_width,
            bytes_per_row,
            rows: self.size.height,
            size: bytes_per_row as u64 * self.size.height as u64,
        }
    }

    /// Makes the picture out of the bytes read back from the device.
    ///
    /// `mapped` is the buffer that the picture was copied to by the layout
    /// of `readback`. The result has the logical size of the output, and
    /// none of its bytes comes from the padding of a row. Where `mapped`
    /// is shorter than the layout says there is no picture.
    pub fn retrieve_result(&self, mapped: &Vec<u8>) -> (image: Option<RgbaImage>)
        ensures
            image is Some <==> mapped@.len() >= readback_layout(self.size()).size,
            image matches Some(picture) ==> {
                &&& image_size(picture) == (self.size().width, self.size().height)
                &&& image_bytes(picture) == unpadded(
                    mapped@,
                    4 * self.size().width,
                    self.size().height as int,
                    readback_layout(self.size()).bytes_per_row as int,
                )
                &&& image_bytes(picture).len() == 4 * self.size().width * self.size().height
            },
    {
        proof {
            use_type_invariant(self);
        }
        let layout = self.readback();
        if (mapped.len() as u64) < layout.size {
            return None;
        }
        let row_bytes = 4 * self.size.width as usize;
        let rows = self.size.height as usize;
        let pixels = strip_row_padding(mapped, row_bytes, rows, layout.bytes_per_row as usize);
        assert(row_bytes * rows == 4 * self.size.width * self.size.height) by (nonlinear_arith)
            requires
                row_bytes == 4 * self.size.width,
                rows == self.size.height,
        ;
        rgba_from_raw(self.size.width, self.size.height, pixels)
    }
}

} // verus!
