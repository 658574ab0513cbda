//! Sizing rules and pass sequencing of the render pipeline.

use vstd::prelude::*;
use crate::config::Size;

pub mod copy_to_screen;
pub mod orchestrator;
pub mod post_processor;
pub mod render_context;
pub mod renderer;

pub use copy_to_screen::CopyToScreen;
pub use orchestrator::Orchestrator;
pub use post_processor::PostProcessor;
pub use render_context::RenderContext;
pub use renderer::Renderer;

verus! {

/// Edge length of the square compute workgroup tile, in pixels.
pub const TILE: u32 = 16;

/// Rows of a texture that is copied to a buffer start at multiples of this
/// many pixels.
pub const ROW_PITCH: u32 = 64;

/// The widest output whose padded rows still have a 32-bit length in bytes.
pub const MAX_WIDTH: u32 = 0x3fff_ffc0;

/// The tallest output whose padded height still fits 32 bits.
pub const MAX_HEIGHT: u32 = 0xffff_fff0;

/// The texel formats that the passes exchange.
#[derive(Clone, Copy, Debug, PartialEq, Eq, Structural)]
pub enum TextureFormat {
    /// Four 32-bit floats: the accumulation target.
    Rgba32Float,
    /// Four normalised bytes: the displayable image.
    Rgba8Unorm,
}

/// What a pass needs to know of a texture to create or to bind it.
#[derive(Clone, Copy, Debug, PartialEq, Eq, Structural)]
pub struct TextureDesc {
    pub width: u32,
    pub height: u32,
    pub format: TextureFormat,
    /// Bound as a storage image.
    pub storage_binding: bool,
    /// Source of a copy to a buffer.
    pub copy_src: bool,
    /// Bound as a sampled texture.
    pub texture_binding: bool,
}

/// The grid of workgroups of one compute dispatch.
#[derive(Clone, Copy, Debug, PartialEq, Eq, Structural)]
pub struct Dispatch {
    pub x: u32,
    pub y: u32,
    pub z: u32,
}

/// One draw call without vertex buffers.
#[derive(Clone, Copy, Debug, PartialEq, Eq, Structural)]
pub struct Draw {
    pub vertices: u32,
    pub instances: u32,
}

/// Whether an output of this size can be rendered: its padded dimensions
/// and the byte length of a padded row fit 32 bits.
pub open spec fn renderable(size: Size) -> bool {
    size.width <= MAX_WIDTH && size.height <= MAX_HEIGHT
}

/// The dimensions of the intermediate images for an output of `size`: each
/// axis rounded up to whole tiles.
pub open spec fn working_size(size: Size) -> Size {
    Size {
        width: align_spec(size.width as int, TILE as int) as u32,
        height: align_spec(size.height as int, TILE as int) as u32,
    }
}

/// The grid that covers an image of `size` with one workgroup per tile.
pub open spec fn tile_grid(size: Size) -> Dispatch {
    Dispatch { x: size.width / TILE, y: size.height / TILE, z: 1 }
}

/// The quotient of a non-negative `num` by a positive `den`, rounded up.
pub open spec fn div_ceil_spec(num: int, den: int) -> int {
    if num == 0 {
        0
    } else {
        (num - 1) / den + 1
    }
}

/// The smallest multiple of `align_to` that is at least `num`.
pub open spec fn align_spec(num: int, align_to: int) -> int {
    div_ceil_spec(num, align_to) * align_to
}

/// Calls `divrem::DivCeil::div_ceil` on two `u32`.
///
/// Trusted: the quotient is rounded up. The divisor must not be zero, since
/// the outside function divides by it.
#[verifier::external_body]
fn div_ceil(num: u32, den: u32) -> (q: u32)
    requires
        den != 0,
    ensures
        q == div_ceil_spec(num as int, den as int),
{
    divrem::DivCeil::div_ceil(num, den)
}

/// `align_spec(num, align_to)` is a multiple of `align_to`, at least `num`,
/// and less than one step above it.
pub proof fn lemma_align_is_multiple(num: int, align_to: int)
    requires
        0 <= num,
        0 < align_to,
    ensures
        align_spec(num, align_to) % align_to == 0,
        num <= align_spec(num, align_to) < num + align_to,
{
    let q = div_ceil_spec(num, align_to);
    vstd::arithmetic::div_mod::lemma_mod_multiples_basic(q, align_to);
    if num > 0 {
        vstd::arithmetic::div_mod::lemma_fundamental_div_mod(num - 1, align_to);
        vstd::arithmetic::div_mod::lemma_mod_bound(num - 1, align_to);
        let k = (num - 1) / align_to;
        assert((k + 1) * align_to == k * align_to + align_to) by (nonlinear_arith);
        assert(align_to * k == k * align_to) by (nonlinear_arith);
    } else {
        assert(0 * align_to == 0);
    }
}

/// No multiple of `align_to` that is at least `num` lies below
/// `align_spec(num, align_to)`.
pub proof fn lemma_align_is_least(num: int, align_to: int, m: int)
    requires
        0 <= num,
        0 < align_to,
        m % align_to == 0,
        num <= m,
    ensures
        align_spec(num, align_to) <= m,
{
    let q = div_ceil_spec(num, align_to);
    lemma_align_is_multiple(num, align_to);
    vstd::arithmetic::div_mod::lemma_fundamental_div_mod(m, align_to);
    let j = m / align_to;
    if j < q {
        assert(align_to * j <= q * align_to - align_to) by (nonlinear_arith)
            requires
                j <= q - 1,
                0 < align_to,
        ;
    } else {
        assert(q * align_to <= align_to * j) by (nonlinear_arith)
            requires
                q <= j,
                0 < align_to,
        ;
    }
}

/// Rounds `num` up to the next multiple of `align_to`.
pub fn align(num: u32, align_to: u32) -> (aligned: u32)
    requires
        align_to != 0,
        align_spec(num as int, align_to as int) <= u32::MAX,
    ensures
        aligned == align_spec(num as int, align_to as int),
        aligned % align_to == 0,
        num <= aligned < num + align_to,
{
    proof {
        lemma_align_is_multiple(num as int, align_to as int);
    }
    div_ceil(num, align_to) * align_to
}

/// Whether an output of `size` can be rendered.
pub fn is_renderable(size: &Size) -> (ok: bool)
    ensures
        ok == renderable(*size),
{
    size.width <= MAX_WIDTH && size.height <= MAX_HEIGHT
}

/// The working dimensions of a renderable output are, along each axis, the
/// least multiple of the tile size that is not below what was asked for.
/// They fit 32 bits, and the tile grid covers them exactly.
pub proof fn lemma_working_size(size: Size)
    requires
        renderable(size),
    ensures
        working_size(size).width == align_spec(size.width as int, TILE as int),
        working_size(size).height == align_spec(size.height as int, TILE as int),
        working_size(size).width % TILE == 0,
        working_size(size).height % TILE == 0,
        size.width <= working_size(size).width < size.width + TILE,
        size.height <= working_size(size).height < size.height + TILE,
        tile_grid(working_size(size)).x * TILE == working_size(size).width,
        tile_grid(working_size(size)).y * TILE == working_size(size).height,
{
    lemma_align_is_multiple(size.width as int, TILE as int);
    lemma_align_is_multiple(size.height as int, TILE as int);
    lemma_align_is_least(size.width as int, TILE as int, MAX_WIDTH as int);
    lemma_align_is_least(size.height as int, TILE as int, MAX_HEIGHT as int);
}

/// No multiple of the tile size between the requested and the working
/// dimension is smaller than the working dimension.
pub proof fn lemma_working_size_is_least(size: Size, width: int, height: int)
    requires
        renderable(size),
        width % (TILE as int) == 0,
        height % (TILE as int) == 0,
        size.width <= width,
        size.height <= height,
    ensures
        working_size(size).width <= width,
        working_size(size).height <= height,
{
    lemma_working_size(size);
    lemma_align_is_least(size.width as int, TILE as int, width);
    lemma_align_is_least(size.height as int, TILE as int, height);
}

/// Rounds both dimensions of `size` up to whole tiles.
pub fn working_dimensions(size: &Size) -> (padded: Size)
    requires
        renderable(*size),
    ensures
        padded == working_size(*size),
{
    proof {
        lemma_working_size(*size);
    }
    Size { width: align(size.width, TILE), height: align(size.height, TILE) }
}

/// The grid that covers an image of `size` with one workgroup per tile.
pub fn tiles_over(size: &Size) -> (grid: Dispatch)
    ensures
        grid == tile_grid(*size),
{
    Dispatch { x: size.width / TILE, y: size.height / TILE, z: 1 }
}

} // verus!
