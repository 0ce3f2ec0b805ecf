//! Creation of images and buffers, and import of dmabufs.

use vstd::prelude::*;

use crate::backend::renderer::geometry;
use crate::backend::renderer::geometry::{as_unsigned, Size};
use crate::backend::renderer::vulkan::commands::ImageLayout;
use crate::backend::renderer::vulkan::device::{
    CleanupItem, MemoryTypes, MEMORY_DEVICE_LOCAL, MEMORY_HOST_VISIBLE_COHERENT,
};
use crate::backend::renderer::vulkan::error::VulkanError;
use crate::backend::renderer::vulkan::formats::{
    has_flags, Extent, FormatMapping, FormatTable, Fourcc, ModifierInfo, VkFormat,
    USAGE_COLOR_ATTACHMENT,
};
use crate::backend::renderer::vulkan::texture::{RenderBuffer, VulkanTexture};
use crate::backend::renderer::vulkan::{device, formats};

verus! {

/// A plane of a dmabuf.
#[derive(Debug, Clone, Copy, PartialEq, Eq, Structural)]
pub struct Plane {
    pub offset: u32,
    pub stride: u32,
}

/// A dmabuf.
#[derive(Debug)]
pub struct DmabufInfo {
    pub format: Fourcc,
    pub modifier: u64,
    pub size: Size,
    pub planes: Vec<Plane>,
    pub y_inverted: bool,
}

/// Where a plane lies in the memory of an image.
#[derive(Debug, Clone, Copy, PartialEq, Eq, Structural)]
pub struct PlaneLayout {
    pub offset: u64,
    pub row_pitch: u64,
}

/// An image that is to be created for a dmabuf.
#[derive(Debug)]
pub struct DmabufImage {
    pub mapping: FormatMapping,
    pub modifier: u64,
    pub size: Size,
    pub plane_layouts: Vec<PlaneLayout>,
    pub usage: u32,
}

/// The properties of a modifier, if it is listed: those of its first entry.
pub open spec fn modifier_for(modifiers: Seq<ModifierInfo>, modifier: u64) -> Option<ModifierInfo>
    decreases modifiers.len(),
{
    if modifiers.len() == 0 {
        None
    } else if modifiers.first().modifier == modifier {
        Some(modifiers.first())
    } else {
        modifier_for(modifiers.drop_first(), modifier)
    }
}

fn find_modifier(modifiers: &Vec<ModifierInfo>, modifier: u64) -> (info: Option<ModifierInfo>)
    ensures
        info == modifier_for(modifiers@, modifier),
{
    let mut i: usize = 0;
    assert(modifiers@.skip(0) =~= modifiers@);
    while i < modifiers.len()
        invariant
            i <= modifiers@.len(),
            modifier_for(modifiers@.skip(i as int), modifier) == modifier_for(modifiers@, modifier),
        decreases modifiers@.len() - i,
    {
        assert(modifiers@.skip(i as int).drop_first() =~= modifiers@.skip(i + 1));
        if modifiers[i].modifier == modifier {
            return Some(modifiers[i]);
        }
        i = i + 1;
    }
    None
}

/// Whether an image of the given size is larger than an extent.
pub open spec fn exceeds(size: Size, extent: Extent) -> bool {
    geometry::unsigned(size.w) > extent.width || geometry::unsigned(size.h) > extent.height
}

/// Whether a result is the import error with this reason.
pub open spec fn is_import_error(error: VulkanError, reason: Seq<char>) -> bool {
    error matches VulkanError::DmabufImport(text) && text@ == reason
}

/// Checks whether a dmabuf can be imported for the given usage, and describes the image to
/// create for it.
pub fn check_dmabuf(table: &FormatTable, dmabuf: &DmabufInfo, usage: u32) -> (r: Result<
    DmabufImage,
    VulkanError,
>)
    ensures
        match formats::info_for(table@, dmabuf.format) {
            None => r == Err::<DmabufImage, VulkanError>(
                VulkanError::UnsupportedFormat(dmabuf.format),
            ),
            Some(info) => match modifier_for(
                formats::modifiers_of(info, formats::contains_flags(usage, USAGE_COLOR_ATTACHMENT)),
                dmabuf.modifier,
            ) {
                None => r == Err::<DmabufImage, VulkanError>(
                    VulkanError::UnsupportedModifier(dmabuf.format),
                ),
                Some(modifier) => if exceeds(dmabuf.size, modifier.max_extent) {
                    r matches Err(e) && is_import_error(e, "dmabuf too large"@)
                } else if dmabuf.planes@.len() != modifier.plane_count {
                    r matches Err(e) && is_import_error(e, "unexpected plane count"@)
                } else {
                    r matches Ok(image) && image.mapping == info.mapping && image.modifier
                        == dmabuf.modifier && image.size == dmabuf.size && image.usage == usage
                        && image.plane_layouts@ == dmabuf.planes@.map_values(
                        |p: Plane|
                            PlaneLayout { offset: p.offset as u64, row_pitch: p.stride as u64 },
                    )
                },
            },
        },
{
    let info = match table.get(dmabuf.format) {
        Some(info) => info,
        None => return Err(VulkanError::UnsupportedFormat(dmabuf.format)),
    };
    let found = if has_flags(usage, USAGE_COLOR_ATTACHMENT) {
        find_modifier(&info.render_modifiers, dmabuf.modifier)
    } else {
        find_modifier(&info.texture_modifiers, dmabuf.modifier)
    };
    let modifier = match found {
        Some(modifier) => modifier,
        None => return Err(VulkanError::UnsupportedModifier(dmabuf.format)),
    };
    if as_unsigned(dmabuf.size.w) > modifier.max_extent.width || as_unsigned(dmabuf.size.h)
        > modifier.max_extent.height {
        return Err(VulkanError::DmabufImport("dmabuf too large"));
    }
    if dmabuf.planes.len() != modifier.plane_count as usize {
        return Err(VulkanError::DmabufImport("unexpected plane count"));
    }
    let ghost all = dmabuf.planes@.map_values(
        |p: Plane| PlaneLayout { offset: p.offset as u64, row_pitch: p.stride as u64 },
    );
    let mut plane_layouts: Vec<PlaneLayout> = Vec::new();
    let mut i: usize = 0;
    assert(plane_layouts@ =~= all.take(0));
    while i < dmabuf.planes.len()
        invariant
            i <= dmabuf.planes@.len(),
            all == dmabuf.planes@.map_values(
                |p: Plane| PlaneLayout { offset: p.offset as u64, row_pitch: p.stride as u64 },
            ),
            plane_layouts@ == all.take(i as int),
        decreases dmabuf.planes@.len() - i,
    {
        let plane = dmabuf.planes[i];
        plane_layouts.push(
            PlaneLayout { offset: plane.offset as u64, row_pitch: plane.stride as u64 },
        );
        assert(plane_layouts@ =~= all.take(i + 1));
        i = i + 1;
    }
    assert(all.take(i as int) =~= all);
    Ok(
        DmabufImage {
            mapping: info.mapping,
            modifier: dmabuf.modifier,
            size: dmabuf.size,
            plane_layouts,
            usage,
        },
    )
}

/// What is created.
#[derive(Debug, Clone, Copy, PartialEq, Eq, Structural)]
pub enum Recipe {
    /// An image with fresh memory, device-local if possible.
    Image,
    /// A buffer with host-visible memory, which is mapped.
    HostBuffer,
    /// An image with the memory of a dmabuf.
    ImportedImage,
}

/// How far the creation of an image or buffer has come.
#[derive(Debug, Clone, Copy, PartialEq, Eq, Structural)]
pub enum Stage {
    /// The image or buffer is being created.
    Creating,
    /// The file descriptor of the dmabuf is being duplicated.
    Duplicating,
    /// The memory types that the dmabuf can be imported as are being queried.
    Querying,
    /// The memory requirements are being queried; only these memory types are usable.
    Measuring(u32),
    /// The memory is being allocated.
    Allocating,
    /// The memory is being bound (and mapped).
    Binding,
    /// It is over.
    Over,
}

/// The creation of an image or buffer, with memory bound to it.
#[derive(Debug, Clone, Copy, PartialEq, Eq, Structural)]
pub struct Creation {
    recipe: Recipe,
    stage: Stage,
    object: Option<u64>,
    memory: Option<u64>,
}

/// What a [`Creation`] means.
pub struct CreationModel {
    pub recipe: Recipe,
    pub stage: Stage,
    pub object: Option<u64>,
    pub memory: Option<u64>,
}

/// What happened in the creation of an image or buffer.
#[derive(Debug, Clone, Copy, PartialEq, Eq, Structural)]
pub enum CreationEvent {
    /// A Vulkan call failed.
    Failed(i32),
    /// The image or buffer was created.
    Created(u64),
    /// The file descriptor was duplicated.
    Duplicated,
    /// The file descriptor could not be duplicated.
    DuplicationFailed,
    /// The dmabuf has no planes to take a file descriptor from.
    NoPlanes,
    /// The dmabuf can be imported as these memory types.
    Importable(u32),
    /// This much memory, of one of these types, is required.
    Requires(u64, u32),
    /// The memory was allocated.
    Allocated(u64),
    /// The memory was bound (and mapped).
    Bound,
}

/// What is to be done next in the creation of an image or buffer.
#[derive(Debug, PartialEq, Eq)]
pub enum CreationAction {
    /// Duplicate the file descriptor of the dmabuf.
    Duplicate,
    /// Query the memory types that the dmabuf can be imported as.
    QueryImport,
    /// Query the memory requirements.
    Measure,
    /// Allocate this much memory of this type.
    Allocate(u64, u32),
    /// Bind (and map) the memory.
    Bind,
    /// The image or buffer is complete.
    Done,
    /// Destroy these resources, in order, and report the error.
    Fail(Vec<CleanupItem>, VulkanError),
}

impl CreationModel {
    /// The image or buffer that exists.
    pub open spec fn object_item(self) -> CleanupItem {
        match self.recipe {
            Recipe::HostBuffer => CleanupItem::Buffer(self.object->0),
            _ => CleanupItem::Image(self.object->0),
        }
    }

    /// What exists, in the order in which it has to be destroyed.
    pub open spec fn existing(self) -> Seq<CleanupItem> {
        match (self.memory, self.object) {
            (Some(memory), _) => seq![CleanupItem::Memory(memory), self.object_item()],
            (None, Some(_)) => seq![self.object_item()],
            (None, None) => Seq::empty(),
        }
    }

    /// What exists is what the stage says.
    pub open spec fn well_formed(self) -> bool {
        match self.stage {
            Stage::Creating => self.object is None && self.memory is None,
            Stage::Duplicating | Stage::Querying | Stage::Measuring(_) | Stage::Allocating => {
                self.object is Some && self.memory is None
            },
            Stage::Binding => self.object is Some && self.memory is Some,
            Stage::Over => true,
        }
    }

    /// Whether an event can happen now.
    pub open spec fn expects(self, event: CreationEvent) -> bool {
        match event {
            CreationEvent::Failed(_) => !(self.stage is Duplicating) && !(self.stage is Measuring)
                && !(self.stage is Over),
            CreationEvent::Created(_) => self.stage is Creating,
            CreationEvent::Duplicated
            | CreationEvent::DuplicationFailed
            | CreationEvent::NoPlanes => self.stage is Duplicating,
            CreationEvent::Importable(_) => self.stage is Querying,
            CreationEvent::Requires(..) => self.stage is Measuring,
            CreationEvent::Allocated(_) => self.stage is Allocating,
            CreationEvent::Bound => self.stage is Binding,
        }
    }

    /// The stage after something went well.
    pub open spec fn next_stage(self, event: CreationEvent) -> Stage {
        match event {
            CreationEvent::Created(_) => if self.recipe is ImportedImage {
                Stage::Duplicating
            } else {
                Stage::Measuring(u32::MAX)
            },
            CreationEvent::Duplicated => Stage::Querying,
            CreationEvent::Importable(bits) => Stage::Measuring(bits),
            CreationEvent::Requires(..) => Stage::Allocating,
            CreationEvent::Allocated(_) => Stage::Binding,
            _ => Stage::Over,
        }
    }

    /// What exists after an event.
    pub open spec fn after(self, event: CreationEvent, stage: Stage) -> CreationModel {
        CreationModel {
            stage,
            object: match event {
                CreationEvent::Created(object) => Some(object),
                _ => self.object,
            },
            memory: match event {
                CreationEvent::Allocated(memory) => Some(memory),
                _ => self.memory,
            },
            ..self
        }
    }
}

/// Whether a memory type is the right one for what is created.
pub open spec fn is_chosen(recipe: Recipe, flags: Seq<u32>, index: int, type_bits: u32) -> bool {
    match recipe {
        Recipe::Image => {
            ||| device::is_first_suitable(flags, index, type_bits, MEMORY_DEVICE_LOCAL)
            ||| device::is_first_suitable(flags, index, type_bits, 0) && forall|k: int|
                0 <= k < flags.len() ==> !#[trigger] device::is_suitable(
                    flags,
                    k,
                    type_bits,
                    MEMORY_DEVICE_LOCAL,
                )
        },
        Recipe::HostBuffer => device::is_first_suitable(
            flags,
            index,
            type_bits,
            MEMORY_HOST_VISIBLE_COHERENT,
        ),
        Recipe::ImportedImage => device::is_first_suitable(flags, index, type_bits, 0),
    }
}

/// Whether no memory type is good enough for what is created.
pub open spec fn none_suitable(recipe: Recipe, flags: Seq<u32>, type_bits: u32) -> bool {
    let props = if recipe is HostBuffer {
        MEMORY_HOST_VISIBLE_COHERENT
    } else {
        0
    };
    forall|k: int|
        0 <= k < flags.len() ==> !#[trigger] device::is_suitable(flags, k, type_bits, props)
}

impl Creation {
    pub closed spec fn view(&self) -> CreationModel {
        CreationModel {
            recipe: self.recipe,
            stage: self.stage,
            object: self.object,
            memory: self.memory,
        }
    }

    /// Starts with the creation of the image or buffer itself.
    pub fn start(recipe: Recipe) -> (creation: Self)
        ensures
            creation@ == (CreationModel {
                recipe,
                stage: Stage::Creating,
                object: None,
                memory: None,
            }),
            creation@.well_formed(),
    {
        Creation { recipe, stage: Stage::Creating, object: None, memory: None }
    }

    /// The image or buffer, and its memory, once they are complete.
    pub fn result(&self) -> (result: (Option<u64>, Option<u64>))
        ensures
            result == (self@.object, self@.memory),
    {
        (self.object, self.memory)
    }

    /// Destroys what exists: the memory first.
    fn undo(&self) -> (items: Vec<CleanupItem>)
        requires
            self@.memory is Some ==> self@.object is Some,
        ensures
            items@ == self@.existing(),
    {
        let mut items: Vec<CleanupItem> = Vec::new();
        if let Some(memory) = self.memory {
            items.push(CleanupItem::Memory(memory));
        }
        if let Some(object) = self.object {
            match self.recipe {
                Recipe::HostBuffer => items.push(CleanupItem::Buffer(object)),
                _ => items.push(CleanupItem::Image(object)),
            }
        }
        assert(items@ =~= self@.existing());
        items
    }

    fn fail(&mut self, error: VulkanError) -> (action: CreationAction)
        requires
            old(self)@.well_formed(),
            !(old(self)@.stage is Over),
        ensures
            final(self)@ == (CreationModel { stage: Stage::Over, ..old(self)@ }),
            action matches CreationAction::Fail(items, e) && items@ == old(self)@.existing() && e
                == error,
    {
        let items = self.undo();
        self.stage = Stage::Over;
        CreationAction::Fail(items, error)
    }

    fn choose_memory(&self, types: &MemoryTypes, type_bits: u32) -> (index: Option<u32>)
        requires
            types.flags@.len() <= 32,
        ensures
            match index {
                Some(i) => is_chosen(self@.recipe, types.flags@, i as int, type_bits),
                None => none_suitable(self@.recipe, types.flags@, type_bits),
            },
    {
        match self.recipe {
            Recipe::Image => types.find_image_memory(type_bits),
            Recipe::HostBuffer => types.find_memory_type(type_bits, MEMORY_HOST_VISIBLE_COHERENT),
            Recipe::ImportedImage => types.find_memory_type(type_bits, 0),
        }
    }

    /// Takes note of an event, and says what is to be done next.
    pub fn step(&mut self, event: CreationEvent, types: &MemoryTypes) -> (action: CreationAction)
        requires
            old(self)@.well_formed(),
            old(self)@.expects(event),
            types.flags@.len() <= 32,
        ensures
            final(self)@.well_formed(),
            match event {
                CreationEvent::Failed(code) => {
                    &&& final(self)@ == old(self)@.after(event, Stage::Over)
                    &&& action matches CreationAction::Fail(items, e) && items@
                        == old(self)@.existing() && e == VulkanError::Vk(code)
                },
                CreationEvent::DuplicationFailed => {
                    &&& final(self)@ == old(self)@.after(event, Stage::Over)
                    &&& action matches CreationAction::Fail(items, e) && items@
                        == old(self)@.existing() && is_import_error(
                        e,
                        "failed to duplicate dmabuf fd"@,
                    )
                },
                CreationEvent::NoPlanes => {
                    &&& final(self)@ == old(self)@.after(event, Stage::Over)
                    &&& action matches CreationAction::Fail(items, e) && items@
                        == old(self)@.existing() && is_import_error(e, "dmabuf without planes"@)
                },
                CreationEvent::Requires(size, bits) => {
                    let type_bits = bits & old(self)@.stage->Measuring_0;
                    match action {
                        CreationAction::Allocate(amount, index) => {
                            &&& amount == size
                            &&& is_chosen(old(self)@.recipe, types.flags@, index as int, type_bits)
                            &&& final(self)@ == old(self)@.after(event, Stage::Allocating)
                        },
                        CreationAction::Fail(items, e) => {
                            &&& none_suitable(old(self)@.recipe, types.flags@, type_bits)
                            &&& e == VulkanError::NoMemoryType
                            &&& items@ == old(self)@.existing()
                            &&& final(self)@ == old(self)@.after(event, Stage::Over)
                        },
                        _ => false,
                    }
                },
                CreationEvent::Created(_) => {
                    &&& final(self)@ == old(self)@.after(event, old(self)@.next_stage(event))
                    &&& if old(self)@.recipe is ImportedImage {
                        action is Duplicate
                    } else {
                        action is Measure
                    }
                },
                CreationEvent::Duplicated => {
                    &&& final(self)@ == old(self)@.after(event, old(self)@.next_stage(event))
                    &&& action is QueryImport
                },
                CreationEvent::Importable(_) => {
                    &&& final(self)@ == old(self)@.after(event, old(self)@.next_stage(event))
                    &&& action is Measure
                },
                CreationEvent::Allocated(_) => {
                    &&& final(self)@ == old(self)@.after(event, old(self)@.next_stage(event))
                    &&& action is Bind
                },
                CreationEvent::Bound => {
                    &&& final(self)@ == old(self)@.after(event, Stage::Over)
                    &&& action is Done
                },
            },
    {
        match event {
            CreationEvent::Failed(code) => self.fail(VulkanError::Vk(code)),
            CreationEvent::DuplicationFailed => self.fail(
                VulkanError::DmabufImport("failed to duplicate dmabuf fd"),
            ),
            CreationEvent::NoPlanes => self.fail(
                VulkanError::DmabufImport("dmabuf without planes"),
            ),
            CreationEvent::Created(object) => {
                self.object = Some(object);
                if self.recipe == Recipe::ImportedImage {
                    self.stage = Stage::Duplicating;
                    CreationAction::Duplicate
                } else {
                    self.stage = Stage::Measuring(u32::MAX);
                    CreationAction::Measure
                }
            },
            CreationEvent::Duplicated => {
                self.stage = Stage::Querying;
                CreationAction::QueryImport
            },
            CreationEvent::Importable(bits) => {
                self.stage = Stage::Measuring(bits);
                CreationAction::Measure
            },
            CreationEvent::Requires(size, bits) => {
                let allowed: u32 = match self.stage {
                    Stage::Measuring(allowed) => allowed,
                    _ => 0,
                };
                match self.choose_memory(types, bits & allowed) {
                    Some(index) => {
                        self.stage = Stage::Allocating;
                        CreationAction::Allocate(size, index)
                    },
                    None => self.fail(VulkanError::NoMemoryType),
                }
            },
            CreationEvent::Allocated(memory) => {
                self.memory = Some(memory);
                self.stage = Stage::Binding;
                CreationAction::Bind
            },
            CreationEvent::Bound => {
                self.stage = Stage::Over;
                CreationAction::Done
            },
        }
    }
}

/// If fresh memory is measured for, every memory type counts.
pub proof fn law_fresh_memory_is_not_restricted(bits: u32)
    ensures
        bits & u32::MAX == bits,
{
    assert(bits & 0xffff_ffffu32 == bits) by (bit_vector);
}

/// A failing creation leaks nothing: whatever exists when a call fails, when there are no planes
/// or when no memory type is suitable, is what is destroyed.
pub proof fn law_failed_creation_leaks_nothing(creation: CreationModel, event: CreationEvent)
    requires
        creation.well_formed(),
        creation.expects(event),
        event is Failed || event is DuplicationFailed || event is NoPlanes || event is Requires,
    ensures
        creation.object matches Some(object) ==> creation.existing().contains(
            creation.object_item(),
        ),
        creation.memory matches Some(memory) ==> creation.existing().contains(
            CleanupItem::Memory(memory),
        ),
        creation.existing().len() == (if creation.object is Some {
            1int
        } else {
            0
        }) + (if creation.memory is Some {
            1int
        } else {
            0
        }),
{
    if creation.memory is Some {
        assert(creation.existing()[0] == CleanupItem::Memory(creation.memory->0));
        assert(creation.existing()[1] == creation.object_item());
    } else if creation.object is Some {
        assert(creation.existing()[0] == creation.object_item());
    }
}

/// How an image is seen through a view.
#[derive(Debug, Clone, Copy, PartialEq, Eq, Structural)]
pub struct ViewRecipe {
    pub image: u64,
    pub format: VkFormat,
    /// Whether alpha is one, whatever the image holds.
    pub opaque: bool,
}

/// The view of a new image. A texture without alpha channel is sampled with an alpha of one;
/// dmabufs are rendered into through a plain view, as nobody cares for that channel there.
pub fn view_of(image: u64, mapping: FormatMapping, sampled: bool) -> (view: ViewRecipe)
    ensures
        view == (ViewRecipe {
            image,
            format: mapping.vk,
            opaque: sampled && !mapping.has_alpha,
        }),
{
    ViewRecipe { image, format: mapping.vk, opaque: sampled && !mapping.has_alpha }
}

/// What is destroyed, in this order, if the view of an image cannot be created.
pub fn undo_image(image: u64, memories: &Vec<u64>) -> (items: Vec<CleanupItem>)
    ensures
        items@ == memories@.map_values(|m: u64| CleanupItem::Memory(m)).push(
            CleanupItem::Image(image),
        ),
{
    let ghost all = memories@.map_values(|m: u64| CleanupItem::Memory(m));
    let mut items: Vec<CleanupItem> = Vec::new();
    let mut i: usize = 0;
    assert(items@ =~= all.take(0));
    while i < memories.len()
        invariant
            i <= memories@.len(),
            all == memories@.map_values(|m: u64| CleanupItem::Memory(m)),
            items@ == all.take(i as int),
        decreases memories@.len() - i,
    {
        items.push(CleanupItem::Memory(memories[i]));
        assert(items@ =~= all.take(i + 1));
        i = i + 1;
    }
    assert(all.take(i as int) =~= all);
    items.push(CleanupItem::Image(image));
    items
}

/// A texture for an image that was created for uploads or for offscreen rendering. Only the
/// former can be updated from memory.
pub fn new_texture(
    image: u64,
    view: u64,
    memory: u64,
    mapping: FormatMapping,
    size: Size,
    y_inverted: bool,
    writable: bool,
) -> (texture: VulkanTexture)
    ensures
        texture.image == image && texture.view == view && texture.memories@ == seq![memory],
        texture.format == mapping.fourcc && texture.vk_format == mapping.vk && texture.has_alpha
            == mapping.has_alpha,
        texture.size == size && texture.y_inverted == y_inverted && texture.writable == writable,
        !texture.dmabuf_imported,
        texture.layout == ImageLayout::Undefined,
        texture.last_use == 0,
        forall|i: int| 0 <= i < 4 ==> #[trigger] texture.descriptor_sets@[i] is None,
{
    let memories = vec![memory];
    assert(memories@ =~= seq![memory]);
    let texture = VulkanTexture {
        image,
        view,
        memories,
        format: mapping.fourcc,
        vk_format: mapping.vk,
        size,
        has_alpha: mapping.has_alpha,
        y_inverted,
        dmabuf_imported: false,
        writable,
        layout: ImageLayout::Undefined,
        last_use: 0,
        descriptor_sets: [None, None, None, None],
    };
    texture
}

/// A texture for an imported dmabuf. It is owned by a foreign queue, in the general layout, and
/// cannot be updated from memory.
pub fn new_dmabuf_texture(
    image: u64,
    view: u64,
    memory: u64,
    mapping: FormatMapping,
    dmabuf: &DmabufInfo,
) -> (texture: VulkanTexture)
    ensures
        texture.image == image && texture.view == view && texture.memories@ == seq![memory],
        texture.format == dmabuf.format && texture.vk_format == mapping.vk && texture.has_alpha
            == mapping.has_alpha,
        texture.size == dmabuf.size && texture.y_inverted == dmabuf.y_inverted,
        texture.dmabuf_imported && !texture.writable,
        texture.layout == ImageLayout::General,
        texture.last_use == 0,
        forall|i: int| 0 <= i < 4 ==> #[trigger] texture.descriptor_sets@[i] is None,
{
    let memories = vec![memory];
    assert(memories@ =~= seq![memory]);
    let texture = VulkanTexture {
        image,
        view,
        memories,
        format: dmabuf.format,
        vk_format: mapping.vk,
        size: dmabuf.size,
        has_alpha: mapping.has_alpha,
        y_inverted: dmabuf.y_inverted,
        dmabuf_imported: true,
        writable: false,
        layout: ImageLayout::General,
        last_use: 0,
        descriptor_sets: [None, None, None, None],
    };
    texture
}

/// A render buffer for a bound dmabuf.
pub fn new_render_buffer(
    image: u64,
    view: u64,
    memory: u64,
    mapping: FormatMapping,
    dmabuf: &DmabufInfo,
) -> (buffer: RenderBuffer)
    ensures
        buffer.image == image && buffer.view == view && buffer.memories@ == seq![memory],
        buffer.format == dmabuf.format && buffer.vk_format == mapping.vk,
        buffer.size == dmabuf.size,
        !buffer.transitioned && buffer.last_use == 0,
{
    let memories = vec![memory];
    assert(memories@ =~= seq![memory]);
    RenderBuffer {
        image,
        view,
        memories,
        format: dmabuf.format,
        vk_format: mapping.vk,
        size: dmabuf.size,
        transitioned: false,
        last_use: 0,
    }
}

/// Checks whether a texture can be rendered into: imported dmabufs cannot.
pub fn bind_texture(texture: &VulkanTexture) -> (r: Result<(), VulkanError>)
    ensures
        if texture.dmabuf_imported {
            r matches Err(e) && is_import_error(e, "cannot render to imported dmabuf texture"@)
        } else {
            r is Ok
        },
{
    if texture.dmabuf_imported {
        Err(VulkanError::DmabufImport("cannot render to imported dmabuf texture"))
    } else {
        Ok(())
    }
}

/// What a modifier is checked against is what was found out about that very modifier first, and
/// nothing only if it is not supported.
pub proof fn law_modifier_is_that_of_the_buffer(modifiers: Seq<ModifierInfo>, modifier: u64)
    ensures
        match modifier_for(modifiers, modifier) {
            Some(info) => info.modifier == modifier && exists|i: int|
                0 <= i < modifiers.len() && #[trigger] modifiers[i] == info && forall|j: int|
                    0 <= j < i ==> (#[trigger] modifiers[j]).modifier != modifier,
            None => forall|i: int|
                0 <= i < modifiers.len() ==> (#[trigger] modifiers[i]).modifier != modifier,
        },
    decreases modifiers.len(),
{
    if modifiers.len() > 0 {
        let rest = modifiers.drop_first();
        assert(modifiers.first() == modifiers[0]);
        assert forall|i: int| 0 <= i < rest.len() implies #[trigger] rest[i] == modifiers[i + 1] by {}
        if modifiers[0].modifier != modifier {
            law_modifier_is_that_of_the_buffer(rest, modifier);
            match modifier_for(rest, modifier) {
                Some(info) => {
                    let i = choose|i: int|
                        0 <= i < rest.len() && #[trigger] rest[i] == info && forall|j: int|
                            0 <= j < i ==> (#[trigger] rest[j]).modifier != modifier;
                    assert(modifiers[i + 1] == info);
                    assert forall|j: int| 0 <= j < i + 1 implies (#[trigger] modifiers[j]).modifier
                        != modifier by {
                        if j > 0 {
                            assert(rest[j - 1] == modifiers[j]);
                        }
                    }
                },
                None => {
                    assert forall|i: int| 0 <= i < modifiers.len() implies (
                    #[trigger] modifiers[i]).modifier != modifier by {
                        if i > 0 {
                            assert(rest[i - 1] == modifiers[i]);
                        }
                    }
                },
            }
        }
    }
}

/// An image that is not negative in size is too large exactly if it is wider or higher than the
/// device allows.
pub proof fn law_too_large_images(size: Size, extent: Extent)
    requires
        size.w >= 0,
        size.h >= 0,
    ensures
        exceeds(size, extent) <==> size.w > extent.width || size.h > extent.height,
{
}

/// The creation of an image or buffer goes from one stage to the next and remembers what has been
/// created and allocated. Imported memory is restricted to the types that it can be imported as,
/// fresh memory is not.
pub proof fn law_creation_goes_on(creation: CreationModel, event: CreationEvent, stage: Stage)
    requires
        creation.well_formed(),
        creation.expects(event),
    ensures
        ({
            let after = creation.after(event, stage);
            &&& after.stage == stage && after.recipe == creation.recipe
            &&& event matches CreationEvent::Created(object) ==> after.object == Some(object)
            &&& !(event is Created) ==> after.object == creation.object
            &&& event matches CreationEvent::Allocated(memory) ==> after.memory == Some(memory)
            &&& !(event is Allocated) ==> after.memory == creation.memory
        }),
        event is Created && creation.recipe is ImportedImage ==> creation.next_stage(event)
            is Duplicating,
        event is Created && !(creation.recipe is ImportedImage) ==> creation.next_stage(event)
            == Stage::Measuring(u32::MAX),
        event is Duplicated ==> creation.next_stage(event) is Querying,
        event matches CreationEvent::Importable(bits) ==> creation.next_stage(event)
            == Stage::Measuring(bits),
        event is Requires ==> creation.next_stage(event) is Allocating,
        event is Allocated ==> creation.next_stage(event) is Binding,
{
}

/// What is undone is what exists, as what it is: memory before what it was for, and a buffer as a
/// buffer.
pub proof fn law_what_exists_is_undone(creation: CreationModel, object: u64, memory: u64)
    ensures
        creation.object is None && creation.memory is None ==> creation.existing().len() == 0,
        creation.object == Some(object) && creation.memory is None ==> creation.existing() == seq![
            if creation.recipe is HostBuffer {
                CleanupItem::Buffer(object)
            } else {
                CleanupItem::Image(object)
            },
        ],
        creation.object == Some(object) && creation.memory == Some(memory) ==> creation.existing()
            == seq![
            CleanupItem::Memory(memory),
            if creation.recipe is HostBuffer {
                CleanupItem::Buffer(object)
            } else {
                CleanupItem::Image(object)
            },
        ],
{
}

/// The memory that is chosen is of an allowed type and has what is needed: for a buffer that the
/// host writes, that the host can see it without flushing. An image gets memory of the device
/// where there is some.
pub proof fn law_chosen_memory_is_suitable(
    recipe: Recipe,
    flags: Seq<u32>,
    index: int,
    type_bits: u32,
    k: int,
)
    requires
        is_chosen(recipe, flags, index, type_bits),
        0 <= k < flags.len() <= 32,
    ensures
        0 <= index < flags.len(),
        type_bits & (1u32 << (index as u32)) != 0,
        recipe is HostBuffer ==> flags[index] & MEMORY_HOST_VISIBLE_COHERENT
            == MEMORY_HOST_VISIBLE_COHERENT,
        recipe is Image && type_bits & (1u32 << (k as u32)) != 0 && flags[k] & MEMORY_DEVICE_LOCAL
            == MEMORY_DEVICE_LOCAL ==> flags[index] & MEMORY_DEVICE_LOCAL == MEMORY_DEVICE_LOCAL,
        recipe is ImportedImage && k < index ==> type_bits & (1u32 << (k as u32)) == 0,
{
    device::law_suitable_memory(flags, k, type_bits, MEMORY_DEVICE_LOCAL);
    device::law_suitable_memory(flags, k, type_bits, 0);
    device::law_suitable_memory(flags, index, type_bits, MEMORY_DEVICE_LOCAL);
    device::law_suitable_memory(flags, index, type_bits, MEMORY_HOST_VISIBLE_COHERENT);
    device::law_suitable_memory(flags, index, type_bits, 0);
}

} // verus!
