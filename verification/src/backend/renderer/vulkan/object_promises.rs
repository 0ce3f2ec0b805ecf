//! What the objects of the renderer promise: how they are created, described, used and destroyed.

use vstd::prelude::*;
use vstd::std_specs::cmp::PartialEqSpec;

use crate::backend::renderer::geometry::{Rectangle, Size};
use crate::backend::renderer::vulkan::commands::{
    blit_regions, foreign_barrier, transfer_prepare, transfer_restore, Command, ImageBarrier,
    ImageLayout, TextureFilter, TransferState, ACCESS_TRANSFER_READ, ACCESS_TRANSFER_WRITE,
    QUEUE_FAMILY_FOREIGN, STAGE_TRANSFER,
};
use crate::backend::renderer::vulkan::custom::{
    texture_bindings_glsl, uniform_block_glsl, CustomUniformDecl, ProgramIds, ProgramLayout,
    VulkanPixelProgram,
};
use crate::backend::renderer::vulkan::device::{CleanupItem, CleanupQueue, MemoryTypes};
use crate::backend::renderer::vulkan::error::VulkanError;
use crate::backend::renderer::vulkan::fence::VulkanFence;
use crate::backend::renderer::vulkan::formats::{
    bytes_per_pixel, get_format_mapping, mem_formats, query_format_info, DrmFormat, FormatAnswer,
    FormatInfo, FormatMapping, FormatTable, Fourcc, VkFormat, RENDER_FEATURES, TEXTURE_FEATURES,
};
use crate::backend::renderer::vulkan::frame::{
    needed_pipelines, FinishedFrame, FrameSubmit, SubmittedFrame,
};
use crate::backend::renderer::vulkan::import::{Creation, CreationAction, CreationEvent, Recipe};
use crate::backend::renderer::vulkan::pipelines::{FixedObjects, PipelineKey};
use crate::backend::renderer::vulkan::queue::Submissions;
use crate::backend::renderer::vulkan::renderer::VulkanRenderer;
use crate::backend::renderer::vulkan::setup::{
    plan_device, BuiltInShader, DevicePlan, DeviceReport, ObjectRecipe, Setup, Teardown,
};
use crate::backend::renderer::vulkan::texture::{
    Filters, RenderBuffer, VulkanTarget, VulkanTexture, VulkanTextureMapping,
};
use crate::backend::renderer::vulkan::transfer::{CopyPlan, CopySource, OwnedBuffer};
use crate::backend::renderer::vulkan::upload::{ShmBuffer, UploadPlan};
use crate::backend::renderer::vulkan::{
    commands, custom, formats, frame, frame_blits, import, queue, setup, texture, transfer,
};

verus! {

/// An image or buffer is created step by step: what has been created and allocated is remembered,
/// what fails is undone, and memory is allocated in the size that is required.
pub proof fn law_creation_steps(
    creation: &mut Creation,
    event: CreationEvent,
    types: &MemoryTypes,
    action: CreationAction,
)
    requires
        call_ensures(Creation::step, (creation, event, types), action),
        old(creation)@.well_formed(),
        old(creation)@.expects(event),
    ensures
        final(creation)@.recipe == old(creation)@.recipe,
        event matches CreationEvent::Created(object) ==> final(creation)@.object == Some(object),
        !(event is Created) ==> final(creation)@.object == old(creation)@.object,
        event matches CreationEvent::Allocated(memory) ==> final(creation)@.memory == Some(memory),
        !(event is Allocated) ==> final(creation)@.memory == old(creation)@.memory,
        event is Created ==> (action is Duplicate <==> old(creation)@.recipe is ImportedImage),
        event is Created && !(old(creation)@.recipe is ImportedImage) ==> action is Measure,
        event is Duplicated ==> action is QueryImport,
        event is Importable ==> action is Measure,
        event matches CreationEvent::Requires(size, _) ==> (action matches CreationAction::Allocate(
            amount,
            _,
        ) && amount == size) || (action matches CreationAction::Fail(_, e) && e
            == VulkanError::NoMemoryType),
        event is Allocated ==> action is Bind,
        event is Bound ==> action is Done,
        event matches CreationEvent::Failed(code) ==> (action matches CreationAction::Fail(_, e) && e
            == VulkanError::Vk(code)),
        event is DuplicationFailed || event is NoPlanes ==> (action matches CreationAction::Fail(_, e)
            && e is DmabufImport),
        action matches CreationAction::Fail(items, _) ==> {
            &&& old(creation)@.object matches Some(object) ==> items@.contains(
                if old(creation)@.recipe is HostBuffer {
                    CleanupItem::Buffer(object)
                } else {
                    CleanupItem::Image(object)
                },
            )
            &&& old(creation)@.memory matches Some(memory) ==> items@.contains(
                CleanupItem::Memory(memory),
            )
            &&& old(creation)@.object is None ==> items@.len() == 0
        },
{
    let before = old(creation)@;
    import::law_creation_goes_on(before, event, final(creation)@.stage);
    if let CreationAction::Fail(items, _) = action {
        let object = match before.object {
            Some(object) => object,
            None => 0,
        };
        let memory = match before.memory {
            Some(memory) => memory,
            None => 0,
        };
        import::law_what_exists_is_undone(before, object, memory);
        if before.object is Some {
            if before.memory is Some {
                assert(items@[0] == CleanupItem::Memory(memory));
                assert(items@[1] == before.object_item());
            } else {
                assert(items@[0] == before.object_item());
            }
        }
    }
}

/// What is found out about a format is kept under its code, and the formats for buffers are those
/// codes with the modifiers that the device supports for the use.
pub proof fn law_format_tables(
    mapping: FormatMapping,
    answer: &FormatAnswer,
    info: FormatInfo,
    table: &FormatTable,
    fourcc: Fourcc,
    found: Option<&FormatInfo>,
    render: bool,
    listed: Vec<DrmFormat>,
    format: DrmFormat,
)
    requires
        call_ensures(query_format_info, (mapping, answer), info),
        call_ensures(FormatTable::get, (table, fourcc), found),
        call_ensures(FormatTable::dmabuf_formats, (table, render), listed),
    ensures
        info@.mapping == mapping,
        info@.texture_modifiers == formats::usable_modifiers(answer.modifiers@, false),
        info@.render_modifiers == formats::usable_modifiers(answer.modifiers@, true),
        info@.optimal_max_extent is Some ==> info@.optimal_max_extent == answer.optimal_texture_extent
            && answer.optimal_features & TEXTURE_FEATURES == TEXTURE_FEATURES,
        answer.optimal_features & TEXTURE_FEATURES == TEXTURE_FEATURES ==> info@.optimal_max_extent
            == answer.optimal_texture_extent,
        info@.optimal_render <==> answer.optimal_features & RENDER_FEATURES == RENDER_FEATURES
            && answer.optimal_offscreen_extent is Some,
        found matches Some(info) ==> info@.mapping.fourcc == fourcc && table@.contains(info@),
        found is None ==> forall|i: int|
            0 <= i < table@.len() ==> (#[trigger] table@[i]).mapping.fourcc != fourcc,
        listed@.no_duplicates(),
        listed@.contains(format) <==> exists|i: int, k: int|
            formats::supports_at(table@, render, format, i, k),
{
    formats::law_what_is_found_out(mapping, *answer);
    formats::law_info_is_that_of_the_format(table@, fourcc);
    formats::law_buffer_formats_are_supported(table@, render, format);
    if let Some(info) = found {
        let i = choose|i: int|
            0 <= i < table@.len() && #[trigger] table@[i] == info@ && forall|j: int|
                0 <= j < i ==> (#[trigger] table@[j]).mapping.fourcc != fourcc;
        assert(table@[i] == info@);
    }
}

/// A code is mapped to a format with its components and the bytes of its pixels. Codes and numbers
/// lead back to each other.
pub proof fn law_format_codes(
    fourcc: Fourcc,
    little_endian: bool,
    mapping: Option<FormatMapping>,
    bytes: Option<usize>,
    number: u32,
    back: Fourcc,
    memory: Vec<Fourcc>,
)
    requires
        call_ensures(get_format_mapping, (fourcc, little_endian), mapping),
        call_ensures(bytes_per_pixel, (fourcc,), bytes),
        call_ensures(Fourcc::code, (&fourcc,), number),
        call_ensures(Fourcc::from_code, (number,), back),
        call_ensures(mem_formats, (), memory),
    ensures
        mapping matches Some(m) ==> {
            &&& m.fourcc == fourcc
            &&& m.has_alpha <==> formats::is_translucent(fourcc)
            &&& formats::has_blue_lowest(m.vk) <==> formats::ends_in_blue(fourcc)
            &&& bytes == Some(formats::vk_bytes(m.vk))
        },
        back.number() == fourcc.number(),
        !(fourcc is Other) ==> back == fourcc,
        memory@.len() == 4,
        memory@.contains(Fourcc::Argb8888) && memory@.contains(Fourcc::Xrgb8888),
        memory@.contains(Fourcc::Abgr8888) && memory@.contains(Fourcc::Xbgr8888),
{
    formats::law_mappings(fourcc, little_endian);
    formats::law_components_match(fourcc, little_endian);
    if !(fourcc is Other) && back is Other {
        assert(fourcc.number() == back->Other_0);
    }
    assert(memory@[0] == Fourcc::Abgr8888 && memory@[1] == Fourcc::Xbgr8888);
    assert(memory@[2] == Fourcc::Argb8888 && memory@[3] == Fourcc::Xrgb8888);
}

/// The text of a uniform block has a line for each uniform between its first and its last line. The
/// text of the textures has a line for each texture.
pub proof fn law_shader_texts(
    decls: &Vec<CustomUniformDecl>,
    block: String,
    names: &[&str],
    bindings: String,
)
    requires
        call_ensures(uniform_block_glsl, (decls,), block),
        call_ensures(texture_bindings_glsl, (names,), bindings),
    ensures
        block@ == "layout(std140, set = 1, binding = 0) uniform NiriCustom {\n"@
            + custom::members_text(custom::models(decls@)) + "};\n"@,
        decls@.len() == 0 ==> block@ == "layout(std140, set = 1, binding = 0) uniform NiriCustom {\n"@
            + "};\n"@,
        bindings@ == custom::bindings_text(custom::texts(names@)),
        names@.len() == 0 ==> bindings@.len() == 0,
        names@.len() == 1 ==> bindings@ == "layout(set = 0, binding = "@ + "0"@
            + ") uniform sampler2D "@ + names@[0]@ + ";\n"@,
{
    if decls@.len() == 0 {
        assert(custom::members_text(custom::models(decls@)) =~= Seq::<char>::empty());
        assert(block@ =~= "layout(std140, set = 1, binding = 0) uniform NiriCustom {\n"@ + "};\n"@);
    }
    let texts = custom::texts(names@);
    if names@.len() == 1 {
        let none = Seq::<Seq<char>>::empty();
        assert(texts =~= none.push(names@[0]@));
        custom::law_one_binding_per_texture(none, names@[0]@);
        assert(custom::bindings_text(none) =~= Seq::<char>::empty());
        assert(bindings@ =~= "layout(set = 0, binding = "@ + "0"@ + ") uniform sampler2D "@
            + names@[0]@ + ";\n"@);
    }
}

/// Programs that are made one after the other have different ids. A program is its module, with its
/// layout, and leaves its module behind.
pub proof fn law_program_ids(
    ids: &mut ProgramIds,
    module: u64,
    layout: ProgramLayout,
    program: VulkanPixelProgram,
    left: (u64, Vec<CleanupItem>),
)
    requires
        call_ensures(ProgramIds::program, (ids, module, layout), program),
        call_ensures(VulkanPixelProgram::cleanup, (&program,), left),
    ensures
        program.module == module,
        program.layout == layout,
        program.id != final(ids)@,
        left.1@ == seq![CleanupItem::ShaderModule(module)],
{
}

/// The copy of a target or a texture is made of its own image, in its own format and layout and as
/// large as it is. What is mapped afterwards is the copied region.
pub proof fn law_copied_images(
    target: &VulkanTarget,
    texture: &VulkanTexture,
    fenced: bool,
    from_target: CopySource,
    from_texture: CopySource,
    plan: &CopyPlan,
    buffer: OwnedBuffer,
    point: u64,
    mapping: VulkanTextureMapping,
    undone: Vec<CleanupItem>,
    releases: bool,
)
    requires
        call_ensures(CopySource::from_target, (target, fenced), from_target),
        call_ensures(CopySource::from_texture, (texture, fenced), from_texture),
        call_ensures(CopyPlan::finish, (plan, buffer, point), mapping),
        call_ensures(CopyPlan::undo, (plan, buffer), undone),
        call_ensures(CopyPlan::releases_source, (plan,), releases),
    ensures
        from_target.image == target.target_image() && from_target.size == target.target_size(),
        from_target.vk_format == target.target_format() && from_target.fenced == fenced,
        from_target.foreign <==> target is Dmabuf,
        target is Dmabuf ==> from_target.layout == ImageLayout::General,
        from_texture.image == texture.image && from_texture.size == texture.size,
        from_texture.vk_format == texture.vk_format && from_texture.fenced == fenced,
        from_texture.foreign == texture.dmabuf_imported,
        texture.dmabuf_imported ==> from_texture.layout == ImageLayout::General,
        !texture.dmabuf_imported ==> from_texture.layout == texture.layout,
        mapping.buffer == buffer.buffer && mapping.memory == buffer.memory && mapping.point == point,
        mapping.format == plan@.format && mapping.size == plan@.region.size,
        undone@.contains(CleanupItem::Memory(buffer.memory)) && undone@.contains(
            CleanupItem::Buffer(buffer.buffer),
        ),
        undone@.len() == 2,
        releases == plan@.source.fenced,
{
    assert(undone@[0] == CleanupItem::Memory(buffer.memory));
    assert(undone@[1] == CleanupItem::Buffer(buffer.buffer));
}

/// After an upload a texture can be sampled, and is used until the point of the upload; the staging
/// buffer is destroyed.
pub proof fn law_after_an_upload(
    texture: &mut VulkanTexture,
    point: u64,
    plan: &UploadPlan,
    buffer: OwnedBuffer,
    items: Vec<CleanupItem>,
)
    requires
        call_ensures(VulkanTexture::uploaded, (texture, point), ()),
        call_ensures(UploadPlan::cleanup, (plan, buffer), items),
    ensures
        final(texture).layout == ImageLayout::ShaderReadOnlyOptimal,
        final(texture).last_use >= point && final(texture).last_use >= old(texture).last_use,
        final(texture).last_use == point || final(texture).last_use == old(texture).last_use,
        final(texture).image == old(texture).image && final(texture).size == old(texture).size,
        items@ == seq![CleanupItem::Buffer(buffer.buffer), CleanupItem::Memory(buffer.memory)],
{
}

/// A shared-memory buffer is inside of its pool exactly if its last row ends before the pool does.
pub proof fn law_shm_buffers(buffer: &ShmBuffer, len: usize, inside: bool, pixels: i32)
    requires
        call_ensures(ShmBuffer::is_inside, (buffer, len), inside),
        call_ensures(ShmBuffer::stride_pixels, (buffer,), pixels),
    ensures
        inside <==> buffer.offset >= 0 && buffer.width > 0 && buffer.height > 0 && buffer.stride >= 0
            && buffer.offset + (buffer.height - 1) * buffer.stride + buffer.width * 4 <= len,
        buffer.stride >= 0 && buffer.stride % 4 == 0 ==> 4 * pixels == buffer.stride,
{
}

/// A texture that is no longer needed leaves its view, its image, its memories and its descriptor
/// sets behind; a mapping leaves its buffer and its memory.
pub proof fn law_left_behind(
    texture: &VulkanTexture,
    items: Vec<CleanupItem>,
    buffer: &RenderBuffer,
    parts: Vec<CleanupItem>,
    mapping: &VulkanTextureMapping,
    mapped: Vec<CleanupItem>,
    i: int,
)
    requires
        call_ensures(VulkanTexture::cleanup, (texture,), items),
        call_ensures(RenderBuffer::cleanup, (buffer,), parts),
        call_ensures(VulkanTextureMapping::cleanup, (mapping,), mapped),
    ensures
        items@.len() >= texture.memories@.len() + 2,
        items@[0] == CleanupItem::ImageView(texture.view),
        items@[1] == CleanupItem::Image(texture.image),
        0 <= i < texture.memories@.len() ==> items@[i + 2] == CleanupItem::Memory(texture.memories@[i]),
        items@.skip(texture.memories@.len() as int + 2) == texture::set_items(texture.descriptor_sets@),
        parts@.len() == buffer.memories@.len() + 2,
        parts@[0] == CleanupItem::ImageView(buffer.view),
        parts@[1] == CleanupItem::Image(buffer.image),
        0 <= i < buffer.memories@.len() ==> parts@[i + 2] == CleanupItem::Memory(buffer.memories@[i]),
        mapped@ == seq![CleanupItem::Buffer(mapping.buffer), CleanupItem::Memory(mapping.memory)],
{
    assert(items@.skip(texture.memories@.len() as int + 2) =~= texture::set_items(texture.descriptor_sets@));
}

/// Use is recorded forward only.
pub proof fn law_mark_used(
    texture: &mut VulkanTexture,
    buffer: &mut RenderBuffer,
    target: &mut VulkanTarget,
    point: u64,
)
    requires
        call_ensures(VulkanTexture::mark_used, (texture, point), ()),
        call_ensures(RenderBuffer::mark_used, (buffer, point), ()),
        call_ensures(VulkanTarget::mark_used, (target, point), ()),
    ensures
        final(texture).last_use == (if old(texture).last_use < point {
            point
        } else {
            old(texture).last_use
        }),
        final(texture).image == old(texture).image && final(texture).layout == old(texture).layout,
        final(buffer).last_use == (if old(buffer).last_use < point {
            point
        } else {
            old(buffer).last_use
        }),
        final(buffer).image == old(buffer).image,
        final(target).used_until() >= point && final(target).used_until() >= old(target).used_until(),
        final(target).target_image() == old(target).target_image(),
        final(target).transfer() == old(target).transfer(),
{
    frame_blits::law_use_moves_forward(*old(target), point);
}

/// A transfer is preceded by one barrier that makes the image ready for it, and followed by one that
/// makes it ready for others, where that is needed.
pub proof fn law_transfer_barriers(
    before: &mut Vec<Command>,
    after: &mut Vec<Command>,
    queue_family: u32,
    image: u64,
    state: &TransferState,
    write: bool,
)
    requires
        call_ensures(transfer_prepare, (before, queue_family, image, state, write), ()),
        call_ensures(transfer_restore, (after, queue_family, image, state, write), ()),
    ensures
        final(before)@.len() == old(before)@.len() + 1,
        old(before)@.is_prefix_of(final(before)@),
        final(before)@.last() matches Command::Barrier(barrier) && barrier.image == image
            && barrier.new_layout == state.during(write) && barrier.dst_stage == STAGE_TRANSFER
            && barrier.dst_access == (if write {
            ACCESS_TRANSFER_WRITE
        } else {
            ACCESS_TRANSFER_READ
        }),
        old(after)@.is_prefix_of(final(after)@),
        final(after)@.len() <= old(after)@.len() + 1,
        final(after)@.len() > old(after)@.len() ==> (final(after)@.last() matches Command::Barrier(
            barrier,
        ) && barrier.image == image && barrier.old_layout == state.during(write)
            && barrier.new_layout == state.afterwards(write) && barrier.src_stage == STAGE_TRANSFER),
        final(after)@.len() == old(after)@.len() ==> !state.foreign && state.afterwards(write)
            == state.during(write),
{
    commands::law_transfers_are_ordered(queue_family, image, *state, write);
}

/// A blit is between the corners of its regions, and ownership moves in the direction that is asked
/// for.
pub proof fn law_blits_and_ownership(
    src_image: u64,
    src_layout: ImageLayout,
    src: Rectangle,
    dst_image: u64,
    dst_layout: ImageLayout,
    dst: Rectangle,
    filter: TextureFilter,
    command: Command,
    queue_family: u32,
    acquire: bool,
    stage: u64,
    access: u64,
    barrier: ImageBarrier,
)
    requires
        call_ensures(
            blit_regions,
            (src_image, src_layout, src, dst_image, dst_layout, dst, filter),
            command,
        ),
        call_ensures(
            foreign_barrier,
            (queue_family, acquire, src_image, src_layout, dst_layout, stage, access),
            barrier,
        ),
        src.is_bounded(),
        dst.is_bounded(),
    ensures
        command matches Command::Blit {
            src_image: s,
            src_layout: sl,
            src_from,
            src_to,
            dst_image: d,
            dst_layout: dl,
            dst_from,
            dst_to,
            filter: f,
        } && {
            &&& s == src_image && sl == src_layout && d == dst_image && dl == dst_layout && f == filter
            &&& src_from == src.loc && dst_from == dst.loc
            &&& src_to.x == src.loc.x + src.size.w && src_to.y == src.loc.y + src.size.h
            &&& dst_to.x == dst.loc.x + dst.size.w && dst_to.y == dst.loc.y + dst.size.h
        },
        barrier.image == src_image && barrier.old_layout == src_layout && barrier.new_layout
            == dst_layout,
        acquire ==> barrier.src_family == QUEUE_FAMILY_FOREIGN && barrier.dst_family == queue_family
            && barrier.dst_stage == stage && barrier.dst_access == access,
        !acquire ==> barrier.src_family == queue_family && barrier.dst_family == QUEUE_FAMILY_FOREIGN
            && barrier.src_stage == stage && barrier.src_access == access,
{
}

/// Before a frame's commands its images are taken over, each with one barrier, and the target last.
/// A format needs four pipelines: with and without a texture, blending and not.
pub proof fn law_acquire(
    end: &FinishedFrame,
    target: &mut VulkanTarget,
    queue_family: u32,
    list: Vec<Command>,
    format: VkFormat,
    keys: Vec<PipelineKey>,
    solid: bool,
    blend: bool,
    i: int,
)
    requires
        call_ensures(FinishedFrame::acquire, (end, target, queue_family), list),
        call_ensures(needed_pipelines, (format,), keys),
        0 <= i < end@.foreign.len(),
    ensures
        list@.len() == end@.foreign.len() + 1,
        list@[i] matches Command::Barrier(barrier) && barrier.image == end@.foreign[i]
            && barrier.src_family == QUEUE_FAMILY_FOREIGN && barrier.dst_family == queue_family,
        list@.last() matches Command::Barrier(barrier) && barrier.image == old(target).target_image(),
        final(target).target_image() == old(target).target_image(),
        *old(target) is Texture ==> *final(target) == *old(target),
        keys@.len() == 4,
        keys@.contains(PipelineKey::BuiltIn { format, solid, blend }),
{
    frame_blits::law_images_are_taken_over_and_given_back(
        end@.foreign,
        *old(target),
        end@.initial_layout,
        queue_family,
        i,
    );
    frame_blits::law_finishing_hands_over(arbitrary(), *old(target));
    let k: int = (if solid {
        2int
    } else {
        0
    }) + (if blend {
        1int
    } else {
        0
    });
    assert(keys@[k] == (PipelineKey::BuiltIn { format, solid, blend }));
}

/// A submitted frame is in flight, its target is used until its point, and its fence has that point.
pub proof fn law_frames_in_flight(
    submit: FrameSubmit,
    target: &mut VulkanTarget,
    submissions: &mut Submissions,
    cleanup: &mut CleanupQueue,
    done: SubmittedFrame,
)
    requires
        call_ensures(FrameSubmit::submitted, (submit, target, submissions, cleanup), done),
    ensures
        final(target).used_until() >= submit@.submit.point,
        final(target).target_image() == old(target).target_image(),
        done@.fence.point == submit@.submit.point,
        done@.used == submit@.used,
        final(submissions)@.point == submit@.submit.point,
        final(submissions)@.in_flight.contains_key(submit@.submit.point),
        final(submissions)@.in_flight[submit@.submit.point] == submit@.submit.command_buffers,
        old(cleanup)@.is_prefix_of(final(cleanup)@),
        final(cleanup)@.len() == old(cleanup)@.len() + submit@.submit.binary_waits.len(),
{
    frame_blits::law_use_moves_forward(*old(target), submit@.submit.point);
}

/// The fixed objects are made one after the other, and what comes next depends on what has been made
/// only where it is made of it. They are torn down, all of them, as what they are.
pub proof fn law_setup_and_teardown(
    setup_before: &mut Setup,
    object: u64,
    at: &Setup,
    recipe: Option<ObjectRecipe>,
    r: (u64, FixedObjects),
    items: Vec<Teardown>,
    k: int,
)
    requires
        call_ensures(Setup::created, (setup_before, object), ()),
        call_ensures(Setup::next_object, (at,), recipe),
        at@.len() == setup::OBJECT_COUNT,
        call_ensures(Setup::finish, (at,), r),
        call_ensures(FixedObjects::teardown, (&r.1,), items),
        at@.no_duplicates(),
        1 <= k < setup::OBJECT_COUNT,
    ensures
        final(setup_before)@ == old(setup_before)@.push(object),
        recipe is None,
        r.0 == at@[0],
        setup::was_made_with(
            at@,
            r.1.vertex_module,
            ObjectRecipe::Shader(BuiltInShader::Vertex),
        ),
        setup::was_made_with(
            at@,
            r.1.texture_module,
            ObjectRecipe::Shader(BuiltInShader::Texture),
        ),
        setup::was_made_with(at@, r.1.solid_module, ObjectRecipe::Shader(BuiltInShader::Solid)),
        exists|i: int| 0 <= i < items@.len() && setup::torn_down(#[trigger] items@[i]) == at@[k],
{
    setup::law_setup_is_complete(at@);
    setup::law_shaders_match(r.1, at@);
    setup::law_torn_down_once(r.1, at@);
    let objects = r.1.teardown_order().map_values(|t: Teardown| setup::torn_down(t));
    assert(objects.contains(at@[k]));
    let i = choose|i: int| 0 <= i < objects.len() && objects[i] == at@[k];
    assert(setup::torn_down(items@[i]) == at@[k]);
}

/// Semaphores are exchanged exactly as far as the device has the extension for it and says that it
/// can: exporting and importing are told apart.
pub proof fn law_semaphore_exchange(report: &DeviceReport, r: Result<DevicePlan, VulkanError>)
    requires
        call_ensures(plan_device, (report,), r),
    ensures
        r matches Ok(plan) ==> {
            let available = setup::names(report.extensions@).contains(
                "VK_KHR_external_semaphore_fd"@,
            );
            &&& plan.sync_fd_export <==> available && report.semaphore_features & 0x1u32 == 0x1u32
            &&& plan.sync_fd_import <==> available && report.semaphore_features & 0x2u32 == 0x2u32
            &&& available ==> setup::texts(plan.extensions@) == setup::needed_extensions().push(
                "VK_KHR_external_semaphore_fd"@,
            )
            &&& !available ==> setup::texts(plan.extensions@) == setup::needed_extensions()
        },
        setup::needed_extensions() == seq![
            "VK_EXT_image_drm_format_modifier"@,
            "VK_EXT_external_memory_dma_buf"@,
            "VK_EXT_queue_family_foreign"@,
            "VK_KHR_external_memory_fd"@,
        ],
{
}

/// Each setting of a renderer is the one that was set last, and setting it changes no other.
pub proof fn law_renderer_settings(
    down: &mut VulkanRenderer,
    up: &mut VulkanRenderer,
    flagged: &mut VulkanRenderer,
    filter: TextureFilter,
    flags: u32,
    asked: &VulkanRenderer,
    filters: Filters,
    debug: u32,
)
    requires
        call_ensures(VulkanRenderer::downscale_filter, (down, filter), ()),
        call_ensures(VulkanRenderer::upscale_filter, (up, filter), ()),
        call_ensures(VulkanRenderer::set_debug_flags, (flagged, flags), ()),
        call_ensures(VulkanRenderer::filters, (asked,), filters),
        call_ensures(VulkanRenderer::debug_flags, (asked,), debug),
    ensures
        final(down).filters.downscale == filter && final(down).filters.upscale == old(
            down
        ).filters.upscale,
        final(up).filters.upscale == filter && final(up).filters.downscale == old(up).filters.downscale,
        final(flagged).debug_flags == flags && final(flagged).filters == old(flagged).filters,
        final(down).debug_flags == old(down).debug_flags,
        filters == asked.filters && debug == asked.debug_flags,
{
}

/// The uses of images are those of the API: what is uploaded can be sampled and copied to, what is
/// converted into can be copied to and from.
pub proof fn law_uses_of_images()
    ensures
        formats::TEXTURE_USAGE == 0x4 && formats::USAGE_COLOR_ATTACHMENT == 0x10,
        formats::USAGE_TRANSFER_SRC == 0x1 && formats::USAGE_TRANSFER_DST == 0x2,
        formats::MEM_TEXTURE_USAGE == 0x7 && formats::RENDER_USAGE == 0x13,
        formats::OFFSCREEN_USAGE == 0x17 && transfer::CONVERT_USAGE == 0x3,
        setup::QUEUE_GRAPHICS == 0x1,
        setup::SEMAPHORE_EXPORTABLE == 0x1 && setup::SEMAPHORE_IMPORTABLE == 0x2,
{
}

/// Programs are the same exactly if they have the same id.
pub proof fn law_same_program(a: VulkanPixelProgram, b: VulkanPixelProgram)
    ensures
        a.eq_spec(&b) <==> a.id == b.id,
{
}

} // verus!
