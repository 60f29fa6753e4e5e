//! What is handed to the GPU: strip instances, render passes, the renderer's
//! configuration and the size of the alpha texture.

use vstd::prelude::*;
use crate::tile::TILE_HEIGHT;

verus! {

/// Dimensions of the rendering target.
#[derive(Debug, PartialEq, Eq, Clone, Copy, Structural)]
pub struct RenderSize {
    /// Width of the rendering target.
    pub width: u32,
    /// Height of the rendering target.
    pub height: u32,
}

/// Configuration that the shaders read.
#[derive(Debug, PartialEq, Eq, Clone, Copy, Structural)]
pub struct Config {
    /// Width of the rendering target.
    pub width: u32,
    /// Height of the rendering target.
    pub height: u32,
    /// Height of a strip.
    pub strip_height: u32,
    /// Number of trailing zeros of the alpha texture's width: its base-2
    /// logarithm where the width is a power of two.
    pub alphas_tex_width_bits: u32,
}

impl Config {
    /// The configuration for a target of `render_size` and an alpha texture
    /// that is `max_texture_dimension_2d` texels wide.
    pub fn new(render_size: &RenderSize, max_texture_dimension_2d: u32) -> (config: Config)
        ensures
            config == (Config {
                width: render_size.width,
                height: render_size.height,
                strip_height: TILE_HEIGHT as u32,
                alphas_tex_width_bits: vstd::std_specs::bits::u32_trailing_zeros(
                    max_texture_dimension_2d,
                ),
            }),
    {
        Config {
            width: render_size.width,
            height: render_size.height,
            strip_height: TILE_HEIGHT as u32,
            alphas_tex_width_bits: max_texture_dimension_2d.trailing_zeros(),
        }
    }
}

/// A strip instance as the GPU draws it.
#[derive(Debug, PartialEq, Eq, Clone, Copy, Structural)]
pub struct GpuStrip {
    /// X coordinate of the strip.
    pub x: u16,
    /// Y coordinate of the strip.
    pub y: u16,
    /// Width of the strip.
    pub width: u16,
    /// Width of the part that is covered through the alpha texture.
    pub dense_width: u16,
    /// Column of the alpha texture where the strip's coverage begins; each
    /// column holds `TILE_HEIGHT` values.
    pub col: u32,
    /// Premultiplied colour of a fill; for a strip that samples a clip slot,
    /// the index of that slot.
    pub rgba: u32,
}

/// Number of bytes of a strip instance on the wire.
pub const GPU_STRIP_BYTES: usize = 16;

/// The two bytes of `value`, low byte first.
pub open spec fn le_bytes_u16(value: u16) -> Seq<u8> {
    seq![(value % 256) as u8, (value / 256) as u8]
}

/// The four bytes of `value`, low byte first.
pub open spec fn le_bytes_u32(value: u32) -> Seq<u8> {
    seq![
        (value % 256) as u8,
        (value / 256 % 256) as u8,
        (value / 65536 % 256) as u8,
        (value / 16777216) as u8,
    ]
}

impl GpuStrip {
    /// The instance on the wire: the six fields in order, each little-endian,
    /// without padding.
    pub open spec fn wire_bytes(self) -> Seq<u8> {
        le_bytes_u16(self.x) + le_bytes_u16(self.y) + le_bytes_u16(self.width) + le_bytes_u16(
            self.dense_width,
        ) + le_bytes_u32(self.col) + le_bytes_u32(self.rgba)
    }

    /// Encodes the instance for the wire.
    pub fn to_bytes(&self) -> (bytes: [u8; 16])
        ensures
            bytes@ == self.wire_bytes(),
    {
        let bytes: [u8; 16] = [
            (self.x % 256) as u8,
            (self.x / 256) as u8,
            (self.y % 256) as u8,
            (self.y / 256) as u8,
            (self.width % 256) as u8,
            (self.width / 256) as u8,
            (self.dense_width % 256) as u8,
            (self.dense_width / 256) as u8,
            (self.col % 256) as u8,
            (self.col / 256 % 256) as u8,
            (self.col / 65536 % 256) as u8,
            (self.col / 16777216) as u8,
            (self.rgba % 256) as u8,
            (self.rgba / 256 % 256) as u8,
            (self.rgba / 65536 % 256) as u8,
            (self.rgba / 16777216) as u8,
        ];
        assert(bytes@ =~= self.wire_bytes());
        bytes
    }
}

/// What a render pass does to its target before drawing.
#[derive(Debug, PartialEq, Eq, Clone, Copy, Structural)]
pub enum LoadOp {
    /// Keeps what the target holds.
    Load,
    /// Clears the whole target to transparent.
    Clear,
}

/// One operation for the renderer to carry out, in the order given.
#[derive(Debug)]
pub enum RenderPass {
    /// Clears the given slots of clip texture `texture_ix`.
    ClearSlots { texture_ix: usize, slots: Vec<u32> },
    /// Draws the strips into target `target_ix`: clip texture 0 or 1, or the
    /// final target 2.
    DrawStrips { target_ix: usize, strips: Vec<GpuStrip>, load: LoadOp },
}

/// What a render pass says.
pub enum PassView {
    ClearSlots { texture_ix: usize, slots: Seq<u32> },
    DrawStrips { target_ix: usize, strips: Seq<GpuStrip>, load: LoadOp },
}

impl View for RenderPass {
    type V = PassView;

    open spec fn view(&self) -> PassView {
        match *self {
            RenderPass::ClearSlots { texture_ix, slots } => PassView::ClearSlots {
                texture_ix,
                slots: slots@,
            },
            RenderPass::DrawStrips { target_ix, strips, load } => PassView::DrawStrips {
                target_ix,
                strips: strips@,
                load,
            },
        }
    }
}

/// What a list of render passes says.
pub open spec fn pass_views(passes: Seq<RenderPass>) -> Seq<PassView> {
    passes.map_values(|pass: RenderPass| pass@)
}

/// Number of coverage bytes that one texel of the alpha texture holds.
pub const ALPHAS_PER_TEXEL: u32 = 16;

/// Rows that an alpha texture of `width` texels needs for `alpha_len` bytes.
pub open spec fn alpha_rows(alpha_len: int, width: int) -> int {
    (alpha_len + width * ALPHAS_PER_TEXEL - 1) / (width * ALPHAS_PER_TEXEL)
}

/// What to do with the alpha texture before a frame.
#[derive(Debug, PartialEq, Eq, Clone, Copy, Structural)]
pub enum AlphaTexturePlan {
    /// The texture is large enough.
    Keep,
    /// A texture of full width and the given height replaces it.
    Grow { height: u32 },
}

/// Why the alpha buffer cannot be uploaded.
#[derive(Debug, PartialEq, Eq, Clone, Copy, Structural)]
pub enum AlphaTextureError {
    /// The device offers no texture width.
    NoTextureWidth,
    /// The alpha buffer is larger than 32 bits can count.
    AlphaOverflow,
    /// The texture would be taller than the device allows.
    TextureTooTall,
}

/// The plan that `plan_alpha_texture` returns.
pub open spec fn alpha_texture_plan(
    alpha_len: int,
    max_texture_dimension_2d: u32,
    current_width: u32,
    current_height: u32,
) -> Result<AlphaTexturePlan, AlphaTextureError> {
    let rows = alpha_rows(alpha_len, max_texture_dimension_2d as int);
    if max_texture_dimension_2d == 0 {
        Err(AlphaTextureError::NoTextureWidth)
    } else if alpha_len > u32::MAX {
        Err(AlphaTextureError::AlphaOverflow)
    } else if max_texture_dimension_2d * rows <= current_width * current_height {
        Ok(AlphaTexturePlan::Keep)
    } else if rows > max_texture_dimension_2d {
        Err(AlphaTextureError::TextureTooTall)
    } else {
        Ok(AlphaTexturePlan::Grow { height: rows as u32 })
    }
}

/// Decides whether the alpha texture, now `current_width` by `current_height`
/// texels, holds `alpha_len` coverage bytes at 16 bytes a texel, and how tall a
/// texture of width `max_texture_dimension_2d` has to be if it does not.
pub fn plan_alpha_texture(
    alpha_len: usize,
    max_texture_dimension_2d: u32,
    current_width: u32,
    current_height: u32,
) -> (plan: Result<AlphaTexturePlan, AlphaTextureError>)
    ensures
        plan == alpha_texture_plan(
            alpha_len as int,
            max_texture_dimension_2d,
            current_width,
            current_height,
        ),
        plan matches Ok(AlphaTexturePlan::Grow { height }) ==> alpha_len
            <= max_texture_dimension_2d * height * ALPHAS_PER_TEXEL,
        plan matches Ok(AlphaTexturePlan::Keep) ==> alpha_len <= current_width * current_height
            * ALPHAS_PER_TEXEL,
{
    if max_texture_dimension_2d == 0 {
        return Err(AlphaTextureError::NoTextureWidth);
    }
    if alpha_len > u32::MAX as usize {
        return Err(AlphaTextureError::AlphaOverflow);
    }
    let row_bytes: u64 = max_texture_dimension_2d as u64 * ALPHAS_PER_TEXEL as u64;
    let rows: u64 = (alpha_len as u64 + row_bytes - 1) / row_bytes;
    proof {
        let len = alpha_len as int;
        let rb = row_bytes as int;
        assert(rows == alpha_rows(len, max_texture_dimension_2d as int));
        assert(rows * rb >= len && rows <= len) by (nonlinear_arith)
            requires
                rows == (len + rb - 1) / rb,
                rb >= 16,
                len >= 0,
        ;
        assert(max_texture_dimension_2d * rows * ALPHAS_PER_TEXEL == rows * rb)
            by (nonlinear_arith)
            requires
                rb == max_texture_dimension_2d * ALPHAS_PER_TEXEL,
        ;
        assert(max_texture_dimension_2d * rows <= 0xFFFF_FFFF * 0xFFFF_FFFF) by (nonlinear_arith)
            requires
                0 <= rows <= 0xFFFF_FFFF,
                0 <= max_texture_dimension_2d <= 0xFFFF_FFFF,
        ;
        assert(current_width * current_height <= 0xFFFF_FFFF * 0xFFFF_FFFF) by (nonlinear_arith)
            requires
                0 <= current_width <= 0xFFFF_FFFF,
                0 <= current_height <= 0xFFFF_FFFF,
        ;
    }
    let required_texels: u64 = max_texture_dimension_2d as u64 * rows;
    let current_texels: u64 = current_width as u64 * current_height as u64;
    if required_texels <= current_texels {
        assert(alpha_len <= current_width * current_height * ALPHAS_PER_TEXEL) by (nonlinear_arith)
            requires
                alpha_len <= max_texture_dimension_2d * rows * ALPHAS_PER_TEXEL,
                max_texture_dimension_2d * rows <= current_width * current_height,
        ;
        Ok(AlphaTexturePlan::Keep)
    } else if rows > max_texture_dimension_2d as u64 {
        Err(AlphaTextureError::TextureTooTall)
    } else {
        Ok(AlphaTexturePlan::Grow { height: rows as u32 })
    }
}

/// Where an upload of `required_size` bytes goes.
#[derive(Debug, PartialEq, Eq, Clone, Copy, Structural)]
pub enum BufferChoice {
    /// Behind what the current buffer holds.
    Current,
    /// To the start of the pooled buffer with the given index, which changes
    /// places with the current one.
    Pooled { index: usize },
    /// To the start of a new buffer of the given size; the current one joins
    /// the pool.
    Fresh { size: u64 },
}

/// Size that a buffer has to have to replace a current buffer of
/// `current_size` bytes for an upload of `required_size` bytes: room for the
/// upload, and at least twice the current size.
pub open spec fn needed_size(required_size: u64, current_size: u64) -> int {
    if required_size >= 2 * current_size {
        required_size as int
    } else {
        2 * current_size
    }
}

/// The choice that `choose_buffer` makes.
pub open spec fn buffer_choice(
    current_offset: u64,
    required_size: u64,
    current_size: u64,
    pool_sizes: Seq<u64>,
    choice: BufferChoice,
) -> bool {
    let needed = needed_size(required_size, current_size);
    match choice {
        BufferChoice::Current => current_offset + required_size <= current_size,
        BufferChoice::Pooled { index } => {
            &&& current_offset + required_size > current_size
            &&& index < pool_sizes.len()
            &&& pool_sizes[index as int] >= needed
            &&& forall|j: int| 0 <= j < index ==> pool_sizes[j] < needed
        },
        BufferChoice::Fresh { size } => {
            &&& current_offset + required_size > current_size
            &&& size == needed
            &&& forall|j: int| 0 <= j < pool_sizes.len() ==> pool_sizes[j] < needed
        },
    }
}

/// Decides where an upload of `required_size` bytes goes: behind the
/// `current_offset` bytes that the current buffer of `current_size` bytes holds
/// if it fits there, else into the first pooled buffer that is large enough,
/// else into a new one.
pub fn choose_buffer(
    current_offset: u64,
    required_size: u64,
    current_size: u64,
    pool_sizes: &Vec<u64>,
) -> (choice: BufferChoice)
    requires
        current_offset + required_size <= u64::MAX,
        2 * current_size <= u64::MAX,
    ensures
        buffer_choice(current_offset, required_size, current_size, pool_sizes@, choice),
{
    if current_offset + required_size <= current_size {
        return BufferChoice::Current;
    }
    let doubled: u64 = current_size * 2;
    let needed: u64 = if required_size >= doubled {
        required_size
    } else {
        doubled
    };
    let mut index: usize = 0;
    while index < pool_sizes.len()
        invariant
            0 <= index <= pool_sizes.len(),
            needed == needed_size(required_size, current_size),
            current_offset + required_size > current_size,
            forall|j: int| 0 <= j < index ==> pool_sizes@[j] < needed,
        decreases pool_sizes.len() - index,
    {
        if pool_sizes[index] >= needed {
            return BufferChoice::Pooled { index };
        }
        index += 1;
    }
    BufferChoice::Fresh { size: needed }
}

} // verus!
