//! Uploads from memory into textures.

use vstd::prelude::*;

use crate::backend::renderer::geometry::{Point, Rectangle, Size};
use crate::backend::renderer::region;
use crate::backend::renderer::vulkan::commands::{
    image_barrier, Command, ImageBarrier, ImageLayout, ImageState, ACCESS_SHADER_READ,
    ACCESS_TRANSFER_WRITE, STAGE_FRAGMENT_SHADER, STAGE_TRANSFER,
};
use crate::backend::renderer::vulkan::device::CleanupItem;
use crate::backend::renderer::vulkan::error::VulkanError;
use crate::backend::renderer::vulkan::formats::{
    bytes_per_pixel, get_format_mapping, supports_mem, Extent, FormatTable, Fourcc,
    MEM_TEXTURE_USAGE, OFFSCREEN_USAGE,
};
use crate::backend::renderer::vulkan::texture::{VulkanTexture, VulkanTextureMapping};
use crate::backend::renderer::vulkan::transfer::{ImageRequest, OwnedBuffer};
use crate::backend::renderer::vulkan::{commands, formats, texture};

verus! {

/// Where a row of a region starts in the data.
pub open spec fn row_offset(region: Rectangle, stride: int, bpp: int, row: int) -> int {
    ((region.loc.y + row) * stride + region.loc.x) * bpp
}

/// Whether the data holds all rows of a region. `stride` is the distance of two rows, in pixels.
pub open spec fn holds_region(len: int, region: Rectangle, stride: int, bpp: int) -> bool {
    &&& region.loc.x >= 0 && region.loc.y >= 0 && region.size.w >= 0 && region.size.h >= 0
    &&& stride >= 0 && 0 < bpp <= 8
    &&& region.size.h > 0 ==> row_offset(region, stride, bpp, region.size.h - 1) + region.size.w
        * bpp <= len
}

/// The first rows of a region, one after the other without gaps.
pub open spec fn packed(
    data: Seq<u8>,
    region: Rectangle,
    stride: int,
    bpp: int,
    rows: int,
) -> Seq<u8>
    decreases rows,
{
    if rows <= 0 {
        Seq::empty()
    } else {
        let offset = row_offset(region, stride, bpp, rows - 1);
        packed(data, region, stride, bpp, rows - 1) + data.subrange(
            offset,
            offset + region.size.w * bpp,
        )
    }
}

/// Every row of a region that the data holds lies in the data.
proof fn lemma_row_in_data(len: int, region: Rectangle, stride: int, bpp: int, row: int)
    requires
        holds_region(len, region, stride, bpp),
        0 <= row < region.size.h,
    ensures
        0 <= (region.loc.y + row) * stride,
        0 <= row_offset(region, stride, bpp, row),
        row_offset(region, stride, bpp, row) + region.size.w * bpp <= len,
        region.size.w * bpp >= 0,
{
    let y = region.loc.y as int;
    let x = region.loc.x as int;
    let w = region.size.w as int;
    let last = region.size.h - 1;
    assert(0 <= (y + row) * stride <= (y + last) * stride) by (nonlinear_arith)
        requires
            0 <= y + row <= y + last,
            stride >= 0,
    ;
    let a = (y + row) * stride + x;
    let b = (y + last) * stride + x;
    assert(0 <= a * bpp <= b * bpp) by (nonlinear_arith)
        requires
            0 <= a <= b,
            bpp > 0,
    ;
    assert(w * bpp >= 0) by (nonlinear_arith)
        requires
            w >= 0,
            bpp > 0,
    ;
}

/// Copies the rows of a region, tightly packed.
pub fn pack_rows(data: &[u8], stride_pixels: i32, region: Rectangle, bpp: usize) -> (out: Vec<u8>)
    requires
        holds_region(data@.len() as int, region, stride_pixels as int, bpp as int),
    ensures
        out@ == packed(
            data@,
            region,
            stride_pixels as int,
            bpp as int,
            region.size.h as int,
        ),
{
    let len: usize = data.len();
    let ghost stride = stride_pixels as int;
    let ghost b = bpp as int;
    let mut out: Vec<u8> = Vec::new();
    let mut row: i32 = 0;
    while row < region.size.h
        invariant
            0 <= row <= region.size.h,
            len == data@.len(),
            stride == stride_pixels,
            b == bpp,
            holds_region(data@.len() as int, region, stride, b),
            out@ == packed(data@, region, stride, b, row as int),
        decreases region.size.h - row,
    {
        proof {
            lemma_row_in_data(data@.len() as int, region, stride, b, row as int);
            let y = (region.loc.y + row) as int;
            assert(y * stride <= 0xffff_ffff * 0x7fff_ffff) by (nonlinear_arith)
                requires
                    0 <= y <= 0xffff_ffff,
                    0 <= stride <= 0x7fff_ffff,
            ;
        }
        let pixels: u64 = (region.loc.y as u64 + row as u64) * stride_pixels as u64
            + region.loc.x as u64;
        assert(pixels * bpp == row_offset(region, stride, b, row as int));
        assert(pixels * bpp <= len);
        assert(region.size.w * bpp <= len);
        let offset: usize = (pixels * bpp as u64) as usize;
        let row_bytes: usize = (region.size.w as u64 * bpp as u64) as usize;
        let ghost before = out@;
        let mut k: usize = 0;
        assert(out@ =~= before + data@.subrange(offset as int, offset as int));
        while k < row_bytes
            invariant
                k <= row_bytes,
                offset + row_bytes <= len,
                len == data@.len(),
                out@ == before + data@.subrange(offset as int, offset + k),
            decreases row_bytes - k,
        {
            out.push(data[offset + k]);
            assert(out@ =~= before + data@.subrange(offset as int, offset + k + 1));
            k = k + 1;
        }
        row = row + 1;
    }
    out
}

/// An upload into a texture.
#[derive(Debug)]
pub struct UploadPlan {
    /// The contents of the staging buffer.
    pub bytes: Vec<u8>,
    pub image: u64,
    pub region: Rectangle,
    pub old_layout: ImageLayout,
}

/// The commands of an upload: the image is made writable, filled, and made readable for
/// shaders.
pub open spec fn upload_commands(
    buffer: u64,
    image: u64,
    region: Rectangle,
    old_layout: ImageLayout,
) -> Seq<Command> {
    seq![
        Command::Barrier(
            ImageBarrier {
                image,
                old_layout,
                new_layout: ImageLayout::TransferDstOptimal,
                src_stage: STAGE_FRAGMENT_SHADER,
                src_access: ACCESS_SHADER_READ,
                dst_stage: STAGE_TRANSFER,
                dst_access: ACCESS_TRANSFER_WRITE,
                src_family: 0,
                dst_family: 0,
            },
        ),
        Command::CopyBufferToImage {
            buffer,
            image,
            layout: ImageLayout::TransferDstOptimal,
            region,
        },
        Command::Barrier(
            ImageBarrier {
                image,
                old_layout: ImageLayout::TransferDstOptimal,
                new_layout: ImageLayout::ShaderReadOnlyOptimal,
                src_stage: STAGE_TRANSFER,
                src_access: ACCESS_TRANSFER_WRITE,
                dst_stage: STAGE_FRAGMENT_SHADER,
                dst_access: ACCESS_SHADER_READ,
                src_family: 0,
                dst_family: 0,
            },
        ),
    ]
}

/// Plans the upload of `data` into `region` of a texture. Rows of the data are
/// `data_stride_pixels` apart. The contents of the texture are kept unless this is its first
/// upload.
pub fn upload_memory(
    texture: &VulkanTexture,
    data: &[u8],
    data_stride_pixels: i32,
    region: Rectangle,
    first_upload: bool,
) -> (r: Result<UploadPlan, VulkanError>)
    requires
        formats::pixel_bytes(texture.format) matches Some(bpp) ==> holds_region(
            data@.len() as int,
            region,
            data_stride_pixels as int,
            bpp as int,
        ),
    ensures
        match formats::pixel_bytes(texture.format) {
            None => r == Err::<UploadPlan, VulkanError>(
                VulkanError::UnsupportedFormat(texture.format),
            ),
            Some(bpp) => r matches Ok(plan) && plan.bytes@ == packed(
                data@,
                region,
                data_stride_pixels as int,
                bpp as int,
                region.size.h as int,
            ) && plan.image == texture.image && plan.region == region && plan.old_layout == if first_upload {
                ImageLayout::Undefined
            } else {
                texture.layout
            },
        },
{
    let bpp: usize = match bytes_per_pixel(texture.format) {
        Some(bpp) => bpp,
        None => return Err(VulkanError::UnsupportedFormat(texture.format)),
    };
    let bytes = pack_rows(data, data_stride_pixels, region, bpp);
    let old_layout = if first_upload {
        ImageLayout::Undefined
    } else {
        texture.layout
    };
    Ok(UploadPlan { bytes, image: texture.image, region, old_layout })
}

impl UploadPlan {
    /// The commands that move the contents of the staging buffer into the texture.
    pub fn commands(&self, buffer: u64) -> (commands: Vec<Command>)
        ensures
            commands@ == upload_commands(buffer, self.image, self.region, self.old_layout),
    {
        let mut commands: Vec<Command> = Vec::new();
        commands.push(
            Command::Barrier(
                image_barrier(
                    self.image,
                    self.old_layout,
                    ImageLayout::TransferDstOptimal,
                    STAGE_FRAGMENT_SHADER,
                    ACCESS_SHADER_READ,
                    STAGE_TRANSFER,
                    ACCESS_TRANSFER_WRITE,
                ),
            ),
        );
        commands.push(
            Command::CopyBufferToImage {
                buffer,
                image: self.image,
                layout: ImageLayout::TransferDstOptimal,
                region: self.region,
            },
        );
        commands.push(
            Command::Barrier(
                image_barrier(
                    self.image,
                    ImageLayout::TransferDstOptimal,
                    ImageLayout::ShaderReadOnlyOptimal,
                    STAGE_TRANSFER,
                    ACCESS_TRANSFER_WRITE,
                    STAGE_FRAGMENT_SHADER,
                    ACCESS_SHADER_READ,
                ),
            ),
        );
        assert(commands@ =~= upload_commands(buffer, self.image, self.region, self.old_layout));
        commands
    }

    /// What can be destroyed once the upload completed: the staging buffer.
    pub fn cleanup(&self, buffer: OwnedBuffer) -> (items: Vec<CleanupItem>)
        ensures
            items@ == seq![CleanupItem::Buffer(buffer.buffer), CleanupItem::Memory(buffer.memory)],
    {
        let items = vec![CleanupItem::Buffer(buffer.buffer), CleanupItem::Memory(buffer.memory)];
        assert(items@ =~= seq![
            CleanupItem::Buffer(buffer.buffer),
            CleanupItem::Memory(buffer.memory),
        ]);
        items
    }
}

impl VulkanTexture {
    /// Takes note of a submitted upload.
    pub fn uploaded(&mut self, point: u64)
        ensures
            *final(self) == (VulkanTexture {
                layout: ImageLayout::ShaderReadOnlyOptimal,
                last_use: texture::later_point(old(self).last_use, point),
                ..*old(self)
            }),
    {
        self.layout = ImageLayout::ShaderReadOnlyOptimal;
        self.mark_used(point);
    }
}

/// The commands of an upload are valid one after the other and leave the texture readable for
/// shaders, which is what is tracked for it.
pub proof fn law_upload_leaves_texture_readable(
    images: Map<u64, ImageState>,
    buffer: u64,
    image: u64,
    region: Rectangle,
    old_layout: ImageLayout,
    queue_family: u32,
)
    requires
        images.dom().contains(image),
        !images[image].foreign,
        old_layout == ImageLayout::Undefined || old_layout == images[image].layout,
    ensures
        ({
            let after = commands::run(
                images,
                upload_commands(buffer, image, region, old_layout),
                queue_family,
            );
            &&& after is Some
            &&& after->0 == images.insert(
                image,
                ImageState { layout: ImageLayout::ShaderReadOnlyOptimal, foreign: false },
            )
        }),
{
    let list = upload_commands(buffer, image, region, old_layout);
    let none = Seq::<Command>::empty();
    let c1 = none.push(list[0]);
    let c2 = c1.push(list[1]);
    let c3 = c2.push(list[2]);
    assert(list =~= c3);
    commands::lemma_run_push(images, none, list[0], queue_family);
    commands::lemma_run_push(images, c1, list[1], queue_family);
    commands::lemma_run_push(images, c2, list[2], queue_family);
    assert(commands::run(images, c3, queue_family)->0 =~= images.insert(
        image,
        ImageState { layout: ImageLayout::ShaderReadOnlyOptimal, foreign: false },
    ));
}

/// The number of bytes of an image of the given size.
pub open spec fn image_bytes(size: Size, bpp: int) -> int {
    size.w * size.h * bpp
}

/// Whether an image of the given size has at most `len` bytes.
fn fits_in(size: Size, bpp: usize, len: usize) -> (fits: bool)
    requires
        size.w >= 0,
        size.h >= 0,
        bpp <= 8,
    ensures
        fits == (image_bytes(size, bpp as int) <= len),
{
    let (w, h) = (size.w as u128, size.h as u128);
    proof {
        assert(w * h <= 0x7fff_ffff * 0x7fff_ffff) by (nonlinear_arith)
            requires
                0 <= w <= 0x7fff_ffff,
                0 <= h <= 0x7fff_ffff,
        ;
        let wh = w * h;
        assert(wh * bpp <= 0x7fff_ffff * 0x7fff_ffff * 8) by (nonlinear_arith)
            requires
                0 <= wh <= 0x7fff_ffff * 0x7fff_ffff,
                0 <= bpp <= 8,
        ;
    }
    w * h * (bpp as u128) <= len as u128
}

/// Whether an image has a size, and is not larger than an extent.
pub open spec fn within_extent(size: Size, extent: Extent) -> bool {
    &&& size.w > 0 && size.h > 0
    &&& size.w <= extent.width && size.h <= extent.height
}

/// The error for importing memory as a texture, if there is one.
pub open spec fn import_error(
    table: Seq<formats::InfoModel>,
    len: int,
    format: Fourcc,
    size: Size,
) -> Option<VulkanError> {
    if !formats::is_mem_format(format) {
        Some(VulkanError::UnsupportedFormat(format))
    } else {
        match formats::info_for(table, format) {
            None => Some(VulkanError::UnsupportedFormat(format)),
            Some(info) => match info.optimal_max_extent {
                None => Some(VulkanError::UnsupportedFormat(format)),
                Some(extent) => if !within_extent(size, extent) || image_bytes(size, 4) > len {
                    Some(VulkanError::UnexpectedSize)
                } else {
                    None
                },
            },
        }
    }
}

/// Checks whether memory can be imported as a texture, and returns the image to create for it.
/// The whole image is then uploaded.
pub fn import_memory(
    table: &FormatTable,
    data: &[u8],
    format: Fourcc,
    size: Size,
    little_endian: bool,
) -> (r: Result<ImageRequest, VulkanError>)
    ensures
        match import_error(table@, data@.len() as int, format, size) {
            Some(error) => r == Err::<ImageRequest, VulkanError>(error),
            None => r matches Ok(request) && Some(request.mapping) == formats::mapping_of(
                format,
                little_endian,
            ) && request.size == size && request.usage == MEM_TEXTURE_USAGE && holds_region(
                data@.len() as int,
                Rectangle { loc: Point { x: 0, y: 0 }, size },
                size.w as int,
                4,
            ),
        },
{
    if !supports_mem(format) {
        return Err(VulkanError::UnsupportedFormat(format));
    }
    let mapping = match get_format_mapping(format, little_endian) {
        Some(mapping) => mapping,
        None => return Err(VulkanError::UnsupportedFormat(format)),
    };
    let info = match table.get(format) {
        Some(info) => info,
        None => return Err(VulkanError::UnsupportedFormat(format)),
    };
    let extent = match info.optimal_max_extent {
        Some(extent) => extent,
        None => return Err(VulkanError::UnsupportedFormat(format)),
    };
    if size.w <= 0 || size.h <= 0 || size.w as u32 > extent.width || size.h as u32 > extent.height {
        return Err(VulkanError::UnexpectedSize);
    }
    if !fits_in(size, 4, data.len()) {
        return Err(VulkanError::UnexpectedSize);
    }
    proof {
        lemma_whole_image_is_held(data@.len() as int, size, 4);
    }
    Ok(ImageRequest { mapping, size, usage: MEM_TEXTURE_USAGE })
}

/// Tightly packed data of sufficient length holds every region of an image.
proof fn lemma_image_holds(len: int, size: Size, region: Rectangle, bpp: int)
    requires
        region.lies_within(size),
        0 < bpp <= 8,
        image_bytes(size, bpp) <= len,
    ensures
        holds_region(len, region, size.w as int, bpp),
{
    let (w, h) = (size.w as int, size.h as int);
    let row = region.loc.y + region.size.h - 1;
    let x = region.loc.x as int;
    let rw = region.size.w as int;
    assert((row * w + x) * bpp + rw * bpp == (row * w + x + rw) * bpp) by (nonlinear_arith);
    assert(row * w + x + rw <= (row + 1) * w) by (nonlinear_arith)
        requires
            x + rw <= w,
    ;
    assert((row + 1) * w <= h * w) by (nonlinear_arith)
        requires
            row + 1 <= h,
            w >= 0,
    ;
    assert(h * w == w * h) by (nonlinear_arith);
    let end = row * w + x + rw;
    assert(end * bpp <= (w * h) * bpp) by (nonlinear_arith)
        requires
            end <= w * h,
            bpp > 0,
    ;
}

proof fn lemma_whole_image_is_held(len: int, size: Size, bpp: int)
    requires
        size.w > 0,
        size.h > 0,
        0 < bpp <= 8,
        image_bytes(size, bpp) <= len,
    ensures
        holds_region(len, Rectangle { loc: Point { x: 0, y: 0 }, size }, size.w as int, bpp),
{
    lemma_image_holds(len, size, Rectangle { loc: Point { x: 0, y: 0 }, size }, bpp);
}

/// The error for updating a texture from memory, if there is one.
pub open spec fn update_error(texture: VulkanTexture, len: int, region: Rectangle) -> Option<
    VulkanError,
> {
    if !texture.writable {
        Some(VulkanError::NotWritable)
    } else if !region.lies_within(texture.size) {
        Some(VulkanError::OutOfBounds)
    } else if image_bytes(texture.size, formats::pixel_bytes(texture.format)->0 as int) > len {
        Some(VulkanError::UnexpectedSize)
    } else {
        None
    }
}

/// Plans the update of a region of a texture from memory that holds the whole image.
pub fn update_memory(texture: &VulkanTexture, data: &[u8], region: Rectangle) -> (r: Result<
    UploadPlan,
    VulkanError,
>)
    requires
        formats::pixel_bytes(texture.format) is Some,
    ensures
        match update_error(*texture, data@.len() as int, region) {
            Some(error) => r == Err::<UploadPlan, VulkanError>(error),
            None => r matches Ok(plan) && plan.bytes@ == packed(
                data@,
                region,
                texture.size.w as int,
                formats::pixel_bytes(texture.format)->0 as int,
                region.size.h as int,
            ) && plan.image == texture.image && plan.region == region && plan.old_layout
                == texture.layout,
        },
{
    if !texture.writable {
        return Err(VulkanError::NotWritable);
    }
    if !region.is_within(texture.size) {
        return Err(VulkanError::OutOfBounds);
    }
    let bpp: usize = match bytes_per_pixel(texture.format) {
        Some(bpp) => bpp,
        None => return Err(VulkanError::UnsupportedFormat(texture.format)),
    };
    if !fits_in(texture.size, bpp, data.len()) {
        return Err(VulkanError::UnexpectedSize);
    }
    proof {
        lemma_image_holds(data@.len() as int, texture.size, region, bpp as int);
    }
    upload_memory(texture, data, texture.size.w, region, false)
}

/// The error for creating an offscreen buffer, if there is one.
pub open spec fn create_error(table: Seq<formats::InfoModel>, format: Fourcc, size: Size, little_endian: bool) -> Option<
    VulkanError,
> {
    match formats::info_for(table, format) {
        Some(info) => if formats::mapping_of(format, little_endian) is None || !info.optimal_render {
            Some(VulkanError::UnsupportedFormat(format))
        } else if size.w <= 0 || size.h <= 0 {
            Some(VulkanError::UnexpectedSize)
        } else {
            None
        },
        None => Some(VulkanError::UnsupportedFormat(format)),
    }
}

/// Checks whether an offscreen buffer can be created, and returns the image to create for it.
pub fn create_buffer(table: &FormatTable, format: Fourcc, size: Size, little_endian: bool) -> (r: Result<
    ImageRequest,
    VulkanError,
>)
    ensures
        match create_error(table@, format, size, little_endian) {
            Some(error) => r == Err::<ImageRequest, VulkanError>(error),
            None => r matches Ok(request) && Some(request.mapping) == formats::mapping_of(
                format,
                little_endian,
            ) && request.size == size && request.usage == OFFSCREEN_USAGE,
        },
{
    let mapping = match get_format_mapping(format, little_endian) {
        Some(mapping) => mapping,
        None => return Err(VulkanError::UnsupportedFormat(format)),
    };
    let info = match table.get(format) {
        Some(info) => info,
        None => return Err(VulkanError::UnsupportedFormat(format)),
    };
    if !info.optimal_render {
        return Err(VulkanError::UnsupportedFormat(format));
    }
    if size.w <= 0 || size.h <= 0 {
        return Err(VulkanError::UnexpectedSize);
    }
    Ok(ImageRequest { mapping, size, usage: OFFSCREEN_USAGE })
}

/// The contents of a shared memory buffer, as its client describes them.
#[derive(Debug, Clone, Copy, PartialEq, Eq, Structural)]
pub struct ShmBuffer {
    /// The wire value of the format.
    pub wire_format: u32,
    /// The format, if it is known.
    pub format: Option<Fourcc>,
    pub offset: i32,
    pub width: i32,
    pub height: i32,
    /// The distance of two rows, in bytes.
    pub stride: i32,
}

/// What is to be done with the contents of a shared memory buffer.
#[derive(Debug)]
pub enum ShmPlan {
    /// These regions of the existing texture are uploaded anew, in order.
    Update(Vec<Rectangle>),
    /// A new texture is created, and uploaded as a whole.
    Create(ImageRequest),
}

impl ShmBuffer {
    /// The whole buffer.
    pub open spec fn full(self) -> Rectangle {
        Rectangle {
            loc: Point { x: 0, y: 0 },
            size: Size { w: self.width, h: self.height },
        }
    }

    /// The error for importing the buffer, if there is one.
    pub open spec fn error(self) -> Option<VulkanError> {
        match self.format {
            Some(format) => if !formats::is_mem_format(format) {
                Some(VulkanError::UnsupportedWlPixelFormat(self.wire_format))
            } else if self.stride % 4 != 0 {
                Some(VulkanError::UnexpectedSize)
            } else {
                None
            },
            None => Some(VulkanError::UnsupportedWlPixelFormat(self.wire_format)),
        }
    }

    /// The buffer lies in a pool of `len` bytes.
    pub open spec fn lies_in(self, len: int) -> bool {
        &&& self.offset >= 0 && self.width > 0 && self.height > 0 && self.stride >= 0
        &&& self.offset + (self.height - 1) * self.stride + self.width * 4 <= len
    }
}

impl ShmBuffer {
    /// Whether the buffer lies in a pool of `len` bytes.
    pub fn is_inside(&self, len: usize) -> (inside: bool)
        ensures
            inside == self.lies_in(len as int),
    {
        if self.offset < 0 || self.width <= 0 || self.height <= 0 || self.stride < 0 {
            return false;
        }
        let rows: i128 = self.height as i128 - 1;
        let stride: i128 = self.stride as i128;
        assert(0 <= rows * stride <= 0x7fff_ffff * 0x7fff_ffff) by (nonlinear_arith)
            requires
                0 <= rows <= 0x7fff_ffff,
                0 <= stride <= 0x7fff_ffff,
        ;
        self.offset as i128 + rows * stride + self.width as i128 * 4 <= len as i128
    }

    /// The distance of two rows of a buffer that can be imported, in pixels.
    pub fn stride_pixels(&self) -> (pixels: i32)
        requires
            self.stride >= 0,
        ensures
            pixels == self.stride as int / 4,
    {
        self.stride / 4
    }
}

/// The parts of some rectangles that lie within another one, leaving out those that do not
/// overlap it.
pub open spec fn clipped(rects: Seq<Rectangle>, parts: Seq<Rectangle>, full: Rectangle) -> bool
    decreases rects.len(),
{
    if rects.len() == 0 {
        parts.len() == 0
    } else if exists|x: int, y: int| #[trigger] rects.last().has(x, y) && full.has(x, y) {
        &&& parts.len() > 0
        &&& clipped(rects.drop_last(), parts.drop_last(), full)
        &&& forall|x: int, y: int| #[trigger]
            parts.last().has(x, y) <==> rects.last().has(x, y) && full.has(x, y)
    } else {
        clipped(rects.drop_last(), parts, full)
    }
}

/// Plans the import of a shared memory buffer. `existing` is the size of the texture that was
/// created for the surface before, if there is one: if it fits, only the damage is uploaded.
pub fn import_shm_buffer(
    buffer: &ShmBuffer,
    existing: Option<Size>,
    damage: &[Rectangle],
    little_endian: bool,
) -> (r: Result<ShmPlan, VulkanError>)
    ensures
        match buffer.error() {
            Some(error) => r == Err::<ShmPlan, VulkanError>(error),
            None => if existing == Some(buffer.full().size) {
                r matches Ok(ShmPlan::Update(regions)) && (if damage@.len() == 0 {
                    regions@ == seq![buffer.full()]
                } else {
                    clipped(damage@, regions@, buffer.full()) && forall|i: int|
                        0 <= i < regions@.len() ==> (#[trigger] regions@[i]).lies_within(
                            buffer.full().size,
                        )
                })
            } else {
                r matches Ok(ShmPlan::Create(request)) && Some(request.mapping)
                    == formats::mapping_of(buffer.format->0, little_endian) && request.size
                    == buffer.full().size && request.usage == MEM_TEXTURE_USAGE
            },
        },
{
    let format = match buffer.format {
        Some(format) => format,
        None => return Err(VulkanError::UnsupportedWlPixelFormat(buffer.wire_format)),
    };
    if !supports_mem(format) {
        return Err(VulkanError::UnsupportedWlPixelFormat(buffer.wire_format));
    }
    // Formats that can be imported from memory have 4 bytes per pixel.
    let (stride_rest, size) = (
        buffer.stride as i64 % 4,
        Size { w: buffer.width, h: buffer.height },
    );
    if stride_rest != 0 {
        return Err(VulkanError::UnexpectedSize);
    }
    let full = Rectangle::from_size(size);
    let reuse: bool = match existing {
        Some(existing) => existing == size,
        None => false,
    };
    if reuse {
        let mut regions: Vec<Rectangle> = Vec::new();
        if damage.len() == 0 {
            regions.push(full);
            assert(regions@ =~= seq![full]);
            return Ok(ShmPlan::Update(regions));
        }
        let mut i: usize = 0;
        assert(damage@.take(0) =~= Seq::<Rectangle>::empty());
        while i < damage.len()
            invariant
                i <= damage@.len(),
                full == buffer.full(),
                clipped(damage@.take(i as int), regions@, full),
                forall|k: int|
                    0 <= k < regions@.len() ==> (#[trigger] regions@[k]).lies_within(full.size),
            decreases damage@.len() - i,
        {
            let rect = damage[i];
            proof {
                assert(damage@.take(i + 1).drop_last() =~= damage@.take(i as int));
                assert(damage@.take(i + 1).last() == rect);
            }
            let ghost before = regions@;
            match rect.intersection(&full) {
                Some(part) => {
                    regions.push(part);
                    proof {
                        assert(regions@.drop_last() =~= before);
                        assert(part.has(part.loc.x as int, part.loc.y as int));
                        assert(rect.has(part.loc.x as int, part.loc.y as int));
                        assert(part.has(
                            part.loc.x + part.size.w - 1,
                            part.loc.y + part.size.h - 1,
                        ));
                        assert(full.has(part.loc.x as int, part.loc.y as int));
                        assert(full.has(
                            part.loc.x + part.size.w - 1,
                            part.loc.y + part.size.h - 1,
                        ));
                        assert(part.lies_within(full.size));
                    }
                },
                None => {},
            }
            i = i + 1;
        }
        assert(damage@.take(i as int) =~= damage@);
        return Ok(ShmPlan::Update(regions));
    }
    let mapping = match get_format_mapping(format, little_endian) {
        Some(mapping) => mapping,
        None => return Err(VulkanError::UnsupportedFormat(format)),
    };
    Ok(ShmPlan::Create(ImageRequest { mapping, size, usage: MEM_TEXTURE_USAGE }))
}

/// The data of a shared memory buffer holds every region of it: uploads stay in the pool.
pub proof fn law_shm_uploads_stay_in_the_pool(buffer: ShmBuffer, len: int, region: Rectangle)
    requires
        buffer.error() is None,
        buffer.lies_in(len),
        region.lies_within(buffer.full().size),
    ensures
        holds_region(len - buffer.offset, region, buffer.stride as int / 4, 4),
{
    let pixels = buffer.stride as int / 4;
    let row = region.loc.y + region.size.h - 1;
    let x = region.loc.x as int;
    let rw = region.size.w as int;
    let stride = buffer.stride as int;
    assert(stride == pixels * 4);
    assert((row * pixels + x) * 4 == row * (pixels * 4) + x * 4) by (nonlinear_arith);
    assert(row * stride <= (buffer.height - 1) * stride) by (nonlinear_arith)
        requires
            row <= buffer.height - 1,
            stride >= 0,
    ;
}

impl VulkanTextureMapping {
    /// The number of bytes that are mapped.
    pub fn len(&self) -> (len: usize)
        requires
            formats::pixel_bytes(self.format) is Some,
            self.size.w >= 0,
            self.size.h >= 0,
            self.byte_count() <= usize::MAX,
        ensures
            len == self.byte_count(),
    {
        let bpp: usize = match bytes_per_pixel(self.format) {
            Some(bpp) => bpp,
            None => 0,
        };
        proof {
            let (w, h, b) = (self.size.w as int, self.size.h as int, bpp as int);
            assert(0 <= w * h <= w * h * b) by (nonlinear_arith)
                requires
                    w >= 0,
                    h >= 0,
                    b >= 1,
            ;
        }
        self.size.w as usize * self.size.h as usize * bpp
    }
}

/// An upload writes the staging buffer, once, to exactly the region that its bytes are for, at its
/// location and in its size, and concerns no image but the texture.
pub proof fn law_upload_writes_the_region(
    buffer: u64,
    image: u64,
    region: Rectangle,
    old_layout: ImageLayout,
)
    ensures
        ({
            let list = upload_commands(buffer, image, region, old_layout);
            &&& list.len() == 3
            &&& list[0] matches Command::Barrier(barrier) && {
                &&& barrier.image == image
                &&& barrier.src_stage == STAGE_FRAGMENT_SHADER && barrier.src_access
                    == ACCESS_SHADER_READ
                &&& barrier.dst_stage == STAGE_TRANSFER && barrier.dst_access == ACCESS_TRANSFER_WRITE
            }
            &&& list[1] matches Command::CopyBufferToImage {
                buffer: from,
                image: to,
                region: written,
                layout,
            } && {
                &&& from == buffer
                &&& to == image
                &&& written.loc.x == region.loc.x && written.loc.y == region.loc.y
                &&& written.size.w == region.size.w && written.size.h == region.size.h
            }
            &&& list[2] matches Command::Barrier(barrier) && {
                &&& barrier.image == image
                &&& barrier.src_stage == STAGE_TRANSFER && barrier.src_access == ACCESS_TRANSFER_WRITE
                &&& barrier.dst_stage == STAGE_FRAGMENT_SHADER && barrier.dst_access
                    == ACCESS_SHADER_READ
            }
        }),
{
}

/// The bytes of an upload are those of the region, row by row and without gaps: each byte of the
/// given row of the region is the one at that place of the image that the data holds.
pub proof fn law_packed_bytes_are_those_of_the_region(
    data: Seq<u8>,
    region: Rectangle,
    stride: int,
    bpp: int,
    rows: int,
    row: int,
    k: int,
)
    requires
        holds_region(data.len() as int, region, stride, bpp),
        0 <= row < rows <= region.size.h,
        0 <= k < region.size.w * bpp,
    ensures
        packed(data, region, stride, bpp, rows).len() == rows * (region.size.w * bpp),
        packed(data, region, stride, bpp, rows)[row * (region.size.w * bpp) + k] == data[((
        region.loc.y + row) * stride + region.loc.x) * bpp + k],
    decreases rows,
{
    let width = region.size.w * bpp;
    let fewer = packed(data, region, stride, bpp, rows - 1);
    let offset = row_offset(region, stride, bpp, rows - 1);
    let last = row_offset(region, stride, bpp, region.size.h - 1);
    lemma_rows_in_order(region, stride, bpp, rows - 1);
    assert(width >= 0) by (nonlinear_arith)
        requires
            width == region.size.w * bpp,
            region.size.w >= 0,
            bpp > 0,
    ;
    assert(0 <= offset <= last);
    assert(offset + width <= data.len());
    if rows > 1 {
        let before = if row < rows - 1 {
            row
        } else {
            0
        };
        law_packed_bytes_are_those_of_the_region(data, region, stride, bpp, rows - 1, before, k);
    } else {
        assert(fewer.len() == 0);
    }
    assert(fewer.len() == (rows - 1) * width) by {
        if rows == 1 {
            assert((rows - 1) * width == 0) by (nonlinear_arith)
                requires
                    rows == 1,
            ;
        }
    }
    assert((rows - 1) * width + width == rows * width) by (nonlinear_arith);
    if row == rows - 1 {
        assert(row * width == fewer.len());
    } else {
        assert(row * width + k < (rows - 1) * width) by (nonlinear_arith)
            requires
                row < rows - 1,
                0 <= k < width,
        ;
        assert(row * width >= 0) by (nonlinear_arith)
            requires
                row >= 0,
                width >= 0,
        ;
    }
}

proof fn lemma_rows_in_order(region: Rectangle, stride: int, bpp: int, row: int)
    requires
        region.loc.x >= 0,
        region.loc.y >= 0,
        stride >= 0,
        bpp > 0,
        0 <= row < region.size.h,
    ensures
        0 <= row_offset(region, stride, bpp, row) <= row_offset(
            region,
            stride,
            bpp,
            region.size.h - 1,
        ),
{
    let a = (region.loc.y + row) * stride;
    let b = (region.loc.y + region.size.h - 1) * stride;
    assert(0 <= a <= b) by (nonlinear_arith)
        requires
            a == (region.loc.y + row) * stride,
            b == (region.loc.y + region.size.h - 1) * stride,
            region.loc.y >= 0,
            stride >= 0,
            0 <= row <= region.size.h - 1,
    ;
    let x = region.loc.x as int;
    assert(0 <= (a + x) * bpp <= (b + x) * bpp) by (nonlinear_arith)
        requires
            0 <= a <= b,
            x >= 0,
            bpp > 0,
    ;
}

/// An update is refused exactly if the texture cannot be written, or else if the region is empty or
/// not inside of it, or else if the data is too short for the whole of the texture.
pub proof fn law_when_an_update_is_refused(
    texture: VulkanTexture,
    len: int,
    region: Rectangle,
    bytes: usize,
)
    requires
        formats::pixel_bytes(texture.format) == Some(bytes),
    ensures
        ({
            let inside = 0 <= region.loc.x && 0 <= region.loc.y && 0 < region.size.w && 0
                < region.size.h && region.loc.x + region.size.w <= texture.size.w && region.loc.y
                + region.size.h <= texture.size.h;
            let fits = texture.size.w * texture.size.h * bytes <= len;
            let error = update_error(texture, len, region);
            &&& !texture.writable <==> error == Some(VulkanError::NotWritable)
            &&& texture.writable && !inside <==> error == Some(VulkanError::OutOfBounds)
            &&& texture.writable && inside && !fits <==> error == Some(VulkanError::UnexpectedSize)
            &&& texture.writable && inside && fits <==> error is None
        }),
{
}

/// An import from memory is refused exactly if the format is not one of those for memory or cannot
/// be sampled on the device, or else if the image is empty, too large for the device, or larger
/// than the data.
pub proof fn law_when_an_import_is_refused(
    table: Seq<formats::InfoModel>,
    len: int,
    format: Fourcc,
    size: Size,
)
    ensures
        ({
            let known = formats::is_mem_format(format) && (formats::info_for(
                table,
                format,
            ) matches Some(info) && info.optimal_max_extent is Some);
            let extent = formats::info_for(table, format)->0.optimal_max_extent->0;
            let fits = 0 < size.w <= extent.width && 0 < size.h <= extent.height && size.w * size.h * 4
                <= len;
            let error = import_error(table, len, format, size);
            &&& !known <==> error == Some(VulkanError::UnsupportedFormat(format))
            &&& known && !fits <==> error == Some(VulkanError::UnexpectedSize)
            &&& known && fits <==> error is None
        }),
{
}

/// A buffer for rendering is refused exactly if the device cannot render to the format, or else if
/// it would be empty.
pub proof fn law_when_a_buffer_is_refused(
    table: Seq<formats::InfoModel>,
    format: Fourcc,
    size: Size,
    little_endian: bool,
)
    ensures
        ({
            let known = formats::mapping_of(format, little_endian) is Some && (formats::info_for(
                table,
                format,
            ) matches Some(info) && info.optimal_render);
            let error = create_error(table, format, size, little_endian);
            &&& !known <==> error == Some(VulkanError::UnsupportedFormat(format))
            &&& known && (size.w <= 0 || size.h <= 0) <==> error == Some(VulkanError::UnexpectedSize)
            &&& known && size.w > 0 && size.h > 0 <==> error is None
        }),
{
}

/// A shared-memory buffer is refused exactly if its format is not one of those for memory, or else
/// if its stride is not a whole number of pixels.
pub proof fn law_when_a_shm_buffer_is_refused(buffer: ShmBuffer)
    ensures
        ({
            let known = buffer.format matches Some(format) && formats::is_mem_format(format);
            &&& !known <==> buffer.error() == Some(
                VulkanError::UnsupportedWlPixelFormat(buffer.wire_format),
            )
            &&& known && buffer.stride % 4 != 0 <==> buffer.error() == Some(VulkanError::UnexpectedSize)
            &&& known && buffer.stride % 4 == 0 <==> buffer.error() is None
            &&& buffer.full().loc.x == 0 && buffer.full().loc.y == 0
            &&& buffer.full().size.w == buffer.width && buffer.full().size.h == buffer.height
        }),
{
}

/// The regions that are uploaded for damage are the damage inside of the buffer: a point of the
/// buffer is uploaded as often as it is damaged, and no point outside is.
pub proof fn law_clipped_damage_is_the_damage_inside(
    rects: Seq<Rectangle>,
    parts: Seq<Rectangle>,
    full: Rectangle,
    x: int,
    y: int,
)
    requires
        clipped(rects, parts, full),
    ensures
        region::cover(parts, x, y) == if full.has(x, y) {
            region::cover(rects, x, y)
        } else {
            0
        },
    decreases rects.len(),
{
    if rects.len() > 0 {
        let rect = rects.last();
        if exists|x: int, y: int| #[trigger] rect.has(x, y) && full.has(x, y) {
            law_clipped_damage_is_the_damage_inside(
                rects.drop_last(),
                parts.drop_last(),
                full,
                x,
                y,
            );
            assert(parts.last().has(x, y) <==> rect.has(x, y) && full.has(x, y));
        } else {
            law_clipped_damage_is_the_damage_inside(rects.drop_last(), parts, full, x, y);
            assert(!(rect.has(x, y) && full.has(x, y)));
        }
    }
}

} // verus!
