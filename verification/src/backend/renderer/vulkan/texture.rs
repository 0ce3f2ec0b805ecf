//! Texture and render target types.

use vstd::prelude::*;

use crate::backend::renderer::geometry;
use crate::backend::renderer::geometry::{as_unsigned, Size};
use crate::backend::renderer::vulkan::commands::{ImageLayout, TextureFilter, TransferState};
use crate::backend::renderer::vulkan::device::CleanupItem;
use crate::backend::renderer::vulkan::formats::{Fourcc, VkFormat};
use crate::backend::renderer::vulkan::formats;

verus! {

/// A descriptor set, and the pool it comes from.
#[derive(Debug, Clone, Copy, PartialEq, Eq, Structural)]
pub struct PooledSet {
    pub pool: u64,
    pub set: u64,
}

/// The filters of a sampler.
#[derive(Debug, Clone, Copy, PartialEq, Eq, Structural)]
pub struct Filters {
    pub downscale: TextureFilter,
    pub upscale: TextureFilter,
}

/// A texture.
#[derive(Debug)]
pub struct VulkanTexture {
    /// The image of the texture.
    pub image: u64,
    /// The view through which the image is sampled.
    pub view: u64,
    /// The memory of the image.
    pub memories: Vec<u64>,
    pub format: Fourcc,
    pub vk_format: VkFormat,
    pub size: Size,
    pub has_alpha: bool,
    pub y_inverted: bool,
    /// Whether the image was imported from a dmabuf and is owned by a foreign queue.
    pub dmabuf_imported: bool,
    /// Whether the contents may be updated from memory.
    pub writable: bool,
    /// Current image layout. Unused for dmabuf imports, which stay in the general layout under
    /// foreign-queue ownership.
    pub layout: ImageLayout,
    /// Timeline point of the last submitted use.
    pub last_use: u64,
    /// Cached descriptor sets per filter combination: linear and nearest downscaling, each with
    /// linear and nearest upscaling.
    pub descriptor_sets: [Option<PooledSet>; 4],
}

/// The place of a filter combination in the cache of a texture.
pub open spec fn filter_index(filters: Filters) -> int {
    match (filters.downscale, filters.upscale) {
        (TextureFilter::Linear, TextureFilter::Linear) => 0,
        (TextureFilter::Linear, TextureFilter::Nearest) => 1,
        (TextureFilter::Nearest, TextureFilter::Linear) => 2,
        (TextureFilter::Nearest, TextureFilter::Nearest) => 3,
    }
}

fn index_of(filters: Filters) -> (i: usize)
    ensures
        i == filter_index(filters),
        i < 4,
{
    match (filters.downscale, filters.upscale) {
        (TextureFilter::Linear, TextureFilter::Linear) => 0,
        (TextureFilter::Linear, TextureFilter::Nearest) => 1,
        (TextureFilter::Nearest, TextureFilter::Linear) => 2,
        (TextureFilter::Nearest, TextureFilter::Nearest) => 3,
    }
}

/// The larger of two points.
pub open spec fn later_point(a: u64, b: u64) -> u64 {
    if a < b {
        b
    } else {
        a
    }
}

/// What is to be destroyed with some cached descriptor sets.
pub open spec fn set_items(sets: Seq<Option<PooledSet>>) -> Seq<CleanupItem>
    decreases sets.len(),
{
    if sets.len() == 0 {
        Seq::empty()
    } else {
        let before = set_items(sets.drop_last());
        match sets.last() {
            Some(set) => before.push(CleanupItem::DescriptorSet(set.pool, set.set)),
            None => before,
        }
    }
}

/// What is to be destroyed with an image: its view, the image and its memory.
pub open spec fn image_items(view: u64, image: u64, memories: Seq<u64>) -> Seq<CleanupItem> {
    seq![CleanupItem::ImageView(view), CleanupItem::Image(image)] + memories.map_values(
        |m: u64| CleanupItem::Memory(m),
    )
}

fn collect_image_items(view: u64, image: u64, memories: &Vec<u64>) -> (items: Vec<CleanupItem>)
    ensures
        items@ == image_items(view, image, memories@),
{
    let ghost first = seq![CleanupItem::ImageView(view), CleanupItem::Image(image)];
    let ghost rest = memories@.map_values(|m: u64| CleanupItem::Memory(m));
    let mut items: Vec<CleanupItem> = Vec::new();
    items.push(CleanupItem::ImageView(view));
    items.push(CleanupItem::Image(image));
    let mut i: usize = 0;
    assert(items@ =~= first + rest.take(0));
    while i < memories.len()
        invariant
            i <= memories@.len(),
            rest == memories@.map_values(|m: u64| CleanupItem::Memory(m)),
            items@ == first + rest.take(i as int),
        decreases memories@.len() - i,
    {
        items.push(CleanupItem::Memory(memories[i]));
        assert(items@ =~= first + rest.take(i + 1));
        i = i + 1;
    }
    assert(rest.take(i as int) =~= rest);
    items
}

impl VulkanTexture {
    /// Image of this texture.
    pub fn image(&self) -> (image: u64)
        ensures
            image == self.image,
    {
        self.image
    }

    /// The width of the texture.
    pub fn width(&self) -> (width: u32)
        ensures
            width == geometry::unsigned(self.size.w),
    {
        as_unsigned(self.size.w)
    }

    /// The height of the texture.
    pub fn height(&self) -> (height: u32)
        ensures
            height == geometry::unsigned(self.size.h),
    {
        as_unsigned(self.size.h)
    }

    /// Whether the texture is upside down.
    pub fn is_y_inverted(&self) -> (inverted: bool)
        ensures
            inverted == self.y_inverted,
    {
        self.y_inverted
    }

    /// Takes note of a submission that uses the texture.
    pub fn mark_used(&mut self, point: u64)
        ensures
            *final(self) == (VulkanTexture {
                last_use: later_point(old(self).last_use, point),
                ..*old(self)
            }),
    {
        if self.last_use < point {
            self.last_use = point;
        }
    }

    /// The cached descriptor set for sampling with these filters.
    pub fn descriptor_set(&self, filters: Filters) -> (set: Option<PooledSet>)
        ensures
            set == self.descriptor_sets@[filter_index(filters)],
    {
        self.descriptor_sets[index_of(filters)]
    }

    /// Caches the descriptor set for sampling with these filters.
    pub fn cache_descriptor_set(&mut self, filters: Filters, set: PooledSet)
        ensures
            final(self).descriptor_sets@ == old(self).descriptor_sets@.update(
                filter_index(filters),
                Some(set),
            ),
            *final(self) == (VulkanTexture {
                descriptor_sets: final(self).descriptor_sets,
                ..*old(self)
            }),
    {
        self.descriptor_sets[index_of(filters)] = Some(set);
    }

    /// What is to be destroyed when the texture is dropped, once its last use completed: the
    /// view, the image, its memory and the cached descriptor sets.
    pub fn cleanup(&self) -> (items: Vec<CleanupItem>)
        ensures
            items@ == image_items(self.view, self.image, self.memories@) + set_items(
                self.descriptor_sets@,
            ),
    {
        let mut items = collect_image_items(self.view, self.image, &self.memories);
        let ghost first = items@;
        let ghost sets = self.descriptor_sets@;
        let mut i: usize = 0;
        assert(sets.take(0) =~= Seq::<Option<PooledSet>>::empty());
        assert(items@ =~= first + set_items(sets.take(0)));
        while i < 4
            invariant
                i <= 4,
                sets == self.descriptor_sets@,
                items@ == first + set_items(sets.take(i as int)),
            decreases 4 - i,
        {
            let ghost so_far = set_items(sets.take(i as int));
            proof {
                assert(sets.take(i + 1).drop_last() =~= sets.take(i as int));
                assert(sets.take(i + 1).last() == sets[i as int]);
            }
            if let Some(set) = self.descriptor_sets[i] {
                items.push(CleanupItem::DescriptorSet(set.pool, set.set));
                assert(items@ =~= first + so_far.push(
                    CleanupItem::DescriptorSet(set.pool, set.set),
                ));
            }
            i = i + 1;
        }
        assert(sets.take(i as int) =~= sets);
        items
    }
}

/// A render buffer created for a bound dmabuf.
#[derive(Debug)]
pub struct RenderBuffer {
    pub image: u64,
    pub view: u64,
    pub memories: Vec<u64>,
    pub format: Fourcc,
    pub vk_format: VkFormat,
    pub size: Size,
    /// Whether the image was transitioned away from its first layout at least once.
    pub transitioned: bool,
    /// Timeline point of the last submitted use.
    pub last_use: u64,
}

impl RenderBuffer {
    /// Takes note of a submission that uses the buffer.
    pub fn mark_used(&mut self, point: u64)
        ensures
            *final(self) == (RenderBuffer {
                last_use: later_point(old(self).last_use, point),
                ..*old(self)
            }),
    {
        if self.last_use < point {
            self.last_use = point;
        }
    }

    /// What is to be destroyed when the buffer is dropped, once its last use completed.
    pub fn cleanup(&self) -> (items: Vec<CleanupItem>)
        ensures
            items@ == image_items(self.view, self.image, self.memories@),
    {
        collect_image_items(self.view, self.image, &self.memories)
    }
}

/// A framebuffer target.
#[derive(Debug)]
pub enum VulkanTarget {
    /// Rendering into a bound dmabuf.
    Dmabuf(RenderBuffer),
    /// Rendering into an offscreen texture.
    Texture(VulkanTexture),
}

impl VulkanTarget {
    /// The image that is rendered into.
    pub open spec fn target_image(self) -> u64 {
        match self {
            VulkanTarget::Dmabuf(buffer) => buffer.image,
            VulkanTarget::Texture(texture) => texture.image,
        }
    }

    /// The size of the target.
    pub open spec fn target_size(self) -> Size {
        match self {
            VulkanTarget::Dmabuf(buffer) => buffer.size,
            VulkanTarget::Texture(texture) => texture.size,
        }
    }

    /// The format of the target.
    pub open spec fn target_format(self) -> VkFormat {
        match self {
            VulkanTarget::Dmabuf(buffer) => buffer.vk_format,
            VulkanTarget::Texture(texture) => texture.vk_format,
        }
    }

    /// How the target is brought into a transfer-capable state: dmabufs are owned by a foreign
    /// queue and stay in the general layout.
    pub open spec fn transfer(self) -> TransferState {
        match self {
            VulkanTarget::Dmabuf(_) => TransferState {
                foreign: true,
                layout: ImageLayout::General,
            },
            VulkanTarget::Texture(texture) => TransferState {
                foreign: false,
                layout: texture.layout,
            },
        }
    }

    /// The layout the target is kept in while rendering.
    pub open spec fn layout_while_rendering(self) -> ImageLayout {
        match self {
            VulkanTarget::Dmabuf(_) => ImageLayout::General,
            VulkanTarget::Texture(_) => ImageLayout::ColorAttachmentOptimal,
        }
    }

    /// The image that is rendered into.
    pub fn image(&self) -> (image: u64)
        ensures
            image == self.target_image(),
    {
        match self {
            VulkanTarget::Dmabuf(buffer) => buffer.image,
            VulkanTarget::Texture(texture) => texture.image,
        }
    }

    /// The view that is rendered into.
    pub fn view(&self) -> (view: u64)
        ensures
            view == match self {
                VulkanTarget::Dmabuf(buffer) => buffer.view,
                VulkanTarget::Texture(texture) => texture.view,
            },
    {
        match self {
            VulkanTarget::Dmabuf(buffer) => buffer.view,
            VulkanTarget::Texture(texture) => texture.view,
        }
    }

    /// The Vulkan format of the target.
    pub fn vk_format(&self) -> (format: VkFormat)
        ensures
            format == self.target_format(),
    {
        match self {
            VulkanTarget::Dmabuf(buffer) => buffer.vk_format,
            VulkanTarget::Texture(texture) => texture.vk_format,
        }
    }

    /// The size of the target.
    pub fn size(&self) -> (size: Size)
        ensures
            size == self.target_size(),
    {
        match self {
            VulkanTarget::Dmabuf(buffer) => buffer.size,
            VulkanTarget::Texture(texture) => texture.size,
        }
    }

    /// The FourCC format of the target.
    pub fn format(&self) -> (format: Fourcc)
        ensures
            format == match self {
                VulkanTarget::Dmabuf(buffer) => buffer.format,
                VulkanTarget::Texture(texture) => texture.format,
            },
    {
        match self {
            VulkanTarget::Dmabuf(buffer) => buffer.format,
            VulkanTarget::Texture(texture) => texture.format,
        }
    }

    /// The image layout the target is kept in while rendering.
    pub fn render_layout(&self) -> (layout: ImageLayout)
        ensures
            layout == self.layout_while_rendering(),
    {
        match self {
            VulkanTarget::Dmabuf(_) => ImageLayout::General,
            VulkanTarget::Texture(_) => ImageLayout::ColorAttachmentOptimal,
        }
    }

    /// How the target is brought into a transfer-capable state.
    pub fn transfer_state(&self) -> (state: TransferState)
        ensures
            state == self.transfer(),
    {
        match self {
            VulkanTarget::Dmabuf(_) => TransferState {
                foreign: true,
                layout: ImageLayout::General,
            },
            VulkanTarget::Texture(texture) => TransferState {
                foreign: false,
                layout: texture.layout,
            },
        }
    }

    /// The target after a submission that uses it.
    pub open spec fn used(self, point: u64) -> VulkanTarget {
        match self {
            VulkanTarget::Dmabuf(buffer) => VulkanTarget::Dmabuf(
                RenderBuffer { last_use: later_point(buffer.last_use, point), ..buffer },
            ),
            VulkanTarget::Texture(texture) => VulkanTarget::Texture(
                VulkanTexture { last_use: later_point(texture.last_use, point), ..texture },
            ),
        }
    }

    /// The width of the target.
    pub fn width(&self) -> (width: u32)
        ensures
            width == geometry::unsigned(self.target_size().w),
    {
        as_unsigned(self.size().w)
    }

    /// The height of the target.
    pub fn height(&self) -> (height: u32)
        ensures
            height == geometry::unsigned(self.target_size().h),
    {
        as_unsigned(self.size().h)
    }

    /// Takes note of a submission that uses the target.
    pub fn mark_used(&mut self, point: u64)
        ensures
            *final(self) == old(self).used(point),
    {
        match self {
            VulkanTarget::Dmabuf(buffer) => buffer.mark_used(point),
            VulkanTarget::Texture(texture) => texture.mark_used(point),
        }
    }

    /// The target after something was blitted into it: an offscreen texture without contents
    /// now has some, in the layout of the transfer.
    pub open spec fn written(self) -> VulkanTarget {
        match self {
            VulkanTarget::Texture(texture) if texture.layout == ImageLayout::Undefined => {
                VulkanTarget::Texture(
                    VulkanTexture { layout: ImageLayout::TransferDstOptimal, ..texture },
                )
            },
            _ => self,
        }
    }

    /// Takes note that something was blitted into the target.
    pub fn mark_written(&mut self)
        ensures
            *final(self) == old(self).written(),
    {
        match self {
            VulkanTarget::Texture(texture) => {
                if texture.layout == ImageLayout::Undefined {
                    texture.layout = ImageLayout::TransferDstOptimal;
                }
            },
            VulkanTarget::Dmabuf(_) => {},
        }
    }
}

/// The layout that is tracked for a target after it was blitted into is the one the blit leaves
/// it in.
pub proof fn law_written_layout_is_tracked(target: VulkanTarget)
    ensures
        target.written().transfer().layout == target.transfer().afterwards(true),
        target.written().transfer().foreign == target.transfer().foreign,
        target.written().target_image() == target.target_image(),
{
}

/// A texture mapping: a host-visible buffer that an image was copied into.
#[derive(Debug, Clone, Copy, PartialEq, Eq, Structural)]
pub struct VulkanTextureMapping {
    pub buffer: u64,
    pub memory: u64,
    pub format: Fourcc,
    pub size: Size,
    /// Timeline point of the copy; mapping contents are valid once reached.
    pub point: u64,
}

impl VulkanTextureMapping {
    /// What is to be destroyed when the mapping is dropped, once the copy completed.
    pub fn cleanup(&self) -> (items: Vec<CleanupItem>)
        ensures
            items@ == seq![CleanupItem::Buffer(self.buffer), CleanupItem::Memory(self.memory)],
    {
        let items = vec![CleanupItem::Buffer(self.buffer), CleanupItem::Memory(self.memory)];
        assert(items@ =~= seq![
            CleanupItem::Buffer(self.buffer),
            CleanupItem::Memory(self.memory),
        ]);
        items
    }

    /// The width of the mapped image.
    pub fn width(&self) -> (width: u32)
        ensures
            width == geometry::unsigned(self.size.w),
    {
        as_unsigned(self.size.w)
    }

    /// The height of the mapped image.
    pub fn height(&self) -> (height: u32)
        ensures
            height == geometry::unsigned(self.size.h),
    {
        as_unsigned(self.size.h)
    }

    /// The number of bytes that are mapped.
    pub open spec fn byte_count(self) -> int {
        self.size.w * self.size.h * match formats::pixel_bytes(
            self.format,
        ) {
            Some(bytes) => bytes as int,
            None => 0,
        }
    }
}

/// What a texture leaves behind is everything that it is made of, each object once: its view, its
/// image, each of its memories, and each of the descriptor sets that were made for it, with the
/// pool that it came from.
pub proof fn law_everything_is_left_behind(
    view: u64,
    image: u64,
    memories: Seq<u64>,
    sets: Seq<Option<PooledSet>>,
    more: Seq<Option<PooledSet>>,
    set: PooledSet,
)
    ensures
        image_items(view, image, memories).len() == memories.len() + 2,
        image_items(view, image, memories)[0] == CleanupItem::ImageView(view),
        image_items(view, image, memories)[1] == CleanupItem::Image(image),
        forall|i: int|
            0 <= i < memories.len() ==> image_items(view, image, memories)[i + 2]
                == CleanupItem::Memory(#[trigger] memories[i]),
        set_items(sets + more) == set_items(sets) + set_items(more),
        set_items(seq![Some(set)]) == seq![CleanupItem::DescriptorSet(set.pool, set.set)],
        set_items(seq![None]).len() == 0,
    decreases more.len(),
{
    let one = seq![Some(set)];
    assert(one.drop_last() =~= Seq::<Option<PooledSet>>::empty());
    assert(set_items(one.drop_last()) =~= Seq::<CleanupItem>::empty());
    assert(one.last() == Some(set));
    assert(set_items(one) =~= seq![CleanupItem::DescriptorSet(set.pool, set.set)]);
    let nothing = seq![None::<PooledSet>];
    assert(nothing.drop_last() =~= Seq::<Option<PooledSet>>::empty());
    assert(nothing.last() is None);
    assert(set_items(nothing.drop_last()).len() == 0);
    if more.len() == 0 {
        assert(sets + more =~= sets);
        assert(set_items(sets) + set_items(more) =~= set_items(sets));
    } else {
        law_everything_is_left_behind(view, image, memories, sets, more.drop_last(), set);
        assert((sets + more).drop_last() =~= sets + more.drop_last());
        assert((sets + more).last() == more.last());
        assert(set_items(sets + more) =~= set_items(sets) + set_items(more));
    }
}

/// A target is the buffer or the texture that it was made of. A buffer belongs to someone else
/// between frames and is then in the general layout; a texture stays in its own.
pub proof fn law_targets_are_what_they_are_made_of(buffer: RenderBuffer, texture: VulkanTexture)
    ensures
        ({
            let target = VulkanTarget::Dmabuf(buffer);
            &&& target.target_image() == buffer.image && target.target_size() == buffer.size
            &&& target.target_format() == buffer.vk_format
            &&& target.transfer().foreign && target.transfer().layout == ImageLayout::General
            &&& target.layout_while_rendering() == ImageLayout::General
        }),
        ({
            let target = VulkanTarget::Texture(texture);
            &&& target.target_image() == texture.image && target.target_size() == texture.size
            &&& target.target_format() == texture.vk_format
            &&& !target.transfer().foreign && target.transfer().layout == texture.layout
            &&& target.layout_while_rendering() == ImageLayout::ColorAttachmentOptimal
        }),
{
}

/// Two pairs of filters have the same place only if they are the same.
pub proof fn law_filters_have_their_own_place(a: Filters, b: Filters)
    ensures
        0 <= filter_index(a) < 4,
        filter_index(a) == filter_index(b) ==> a.downscale == b.downscale && a.upscale == b.upscale,
{
}

/// A mapping has as many bytes as it has pixels times the bytes of a pixel.
pub proof fn law_bytes_of_a_mapping(mapping: VulkanTextureMapping, bytes: usize)
    requires
        formats::pixel_bytes(mapping.format) == Some(bytes),
    ensures
        mapping.byte_count() == mapping.size.w * mapping.size.h * bytes,
{
}

} // verus!
