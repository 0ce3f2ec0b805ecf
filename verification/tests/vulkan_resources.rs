//! Formats, memory, textures and transfers.

use std::collections::HashSet;

use ash::vk;
use smithay::backend::renderer::geometry::{as_unsigned, Point, Rectangle, Size};
use smithay::backend::renderer::vulkan::commands::{
    foreign_barrier, image_barrier, Command, ImageLayout, TextureFilter, ACCESS_COLOR_ATTACHMENT,
    ACCESS_COLOR_ATTACHMENT_WRITE, ACCESS_MEMORY, ACCESS_MEMORY_WRITE, ACCESS_NONE,
    ACCESS_SHADER_READ, ACCESS_TRANSFER, ACCESS_TRANSFER_READ, ACCESS_TRANSFER_WRITE,
    QUEUE_FAMILY_FOREIGN, STAGE_ALL_COMMANDS, STAGE_COLOR_ATTACHMENT_OUTPUT,
    STAGE_FRAGMENT_SHADER, STAGE_NONE, STAGE_TRANSFER,
};
use smithay::backend::renderer::vulkan::device::{
    completed_point, CleanupItem, CleanupQueue, MemoryTypes, MEMORY_DEVICE_LOCAL,
    MEMORY_HOST_VISIBLE_COHERENT,
};
use smithay::backend::renderer::vulkan::dmabuf_cache::DmabufCache;
use smithay::backend::renderer::vulkan::error::{
    SwapFailure, VulkanError, ERROR_DEVICE_LOST, ERROR_INITIALIZATION_FAILED,
};
use smithay::backend::renderer::vulkan::formats::{
    bytes_per_pixel, get_format_mapping, has_flags, known_formats, mem_formats, query_format_info,
    supports_mem, DrmFormat, Extent, FormatAnswer, FormatMapping, FormatTable, Fourcc,
    ModifierAnswer, ModifierInfo, VkFormat, MEM_TEXTURE_USAGE, OFFSCREEN_USAGE, RENDER_FEATURES,
    RENDER_USAGE, TEXTURE_FEATURES, TEXTURE_USAGE,
};
use smithay::backend::renderer::vulkan::import::{
    bind_texture, check_dmabuf, new_dmabuf_texture, new_render_buffer, new_texture, undo_image,
    view_of, Creation, CreationAction, CreationEvent, DmabufInfo, Plane, PlaneLayout, Recipe,
    ViewRecipe,
};
use smithay::backend::renderer::vulkan::texture::{
    Filters, PooledSet, VulkanTarget, VulkanTexture,
};
use smithay::backend::renderer::vulkan::transfer::{
    blit, blit_fences, blit_submitted, CopyPlan, CopySource, OwnedBuffer, OwnedImage,
};
use smithay::backend::renderer::vulkan::upload::{
    create_buffer, import_memory, import_shm_buffer, pack_rows, update_memory, upload_memory,
    ShmBuffer, ShmPlan,
};

fn rect(x: i32, y: i32, w: i32, h: i32) -> Rectangle {
    Rectangle { loc: Point { x, y }, size: Size { w, h } }
}

fn argb() -> FormatMapping {
    get_format_mapping(Fourcc::Argb8888, true).unwrap()
}

fn texture(image: u64, w: i32, h: i32) -> VulkanTexture {
    new_texture(image, image + 1, image + 2, argb(), Size { w, h }, false, true)
}

fn dmabuf(w: i32, h: i32) -> DmabufInfo {
    DmabufInfo {
        format: Fourcc::Argb8888,
        modifier: 7,
        size: Size { w, h },
        planes: vec![Plane { offset: 16, stride: 4096 }],
        y_inverted: true,
    }
}

fn render_buffer(image: u64, w: i32, h: i32) -> VulkanTarget {
    VulkanTarget::Dmabuf(new_render_buffer(image, image + 1, image + 2, argb(), &dmabuf(w, h)))
}

const CODES: [(Fourcc, drm_fourcc::DrmFourcc); 13] = [
    (Fourcc::Argb8888, drm_fourcc::DrmFourcc::Argb8888),
    (Fourcc::Xrgb8888, drm_fourcc::DrmFourcc::Xrgb8888),
    (Fourcc::Abgr8888, drm_fourcc::DrmFourcc::Abgr8888),
    (Fourcc::Xbgr8888, drm_fourcc::DrmFourcc::Xbgr8888),
    (Fourcc::Rgba8888, drm_fourcc::DrmFourcc::Rgba8888),
    (Fourcc::Rgbx8888, drm_fourcc::DrmFourcc::Rgbx8888),
    (Fourcc::Argb2101010, drm_fourcc::DrmFourcc::Argb2101010),
    (Fourcc::Xrgb2101010, drm_fourcc::DrmFourcc::Xrgb2101010),
    (Fourcc::Abgr2101010, drm_fourcc::DrmFourcc::Abgr2101010),
    (Fourcc::Xbgr2101010, drm_fourcc::DrmFourcc::Xbgr2101010),
    (Fourcc::Abgr16161616f, drm_fourcc::DrmFourcc::Abgr16161616f),
    (Fourcc::Xbgr16161616f, drm_fourcc::DrmFourcc::Xbgr16161616f),
    (Fourcc::Rgb565, drm_fourcc::DrmFourcc::Rgb565),
];

#[test]
fn fourcc_codes_are_those_of_the_kernel() {
    for (fourcc, drm) in CODES {
        assert_eq!(fourcc.code(), drm as u32, "{fourcc:?}");
        assert_eq!(Fourcc::from_code(drm as u32), fourcc);
    }
    assert_eq!(Fourcc::from_code(0x3231564e), Fourcc::Other(0x3231564e));
}

#[test]
fn vulkan_numbers_are_those_of_the_api() {
    assert_eq!(VkFormat::B8G8R8A8Unorm.raw(), vk::Format::B8G8R8A8_UNORM.as_raw());
    assert_eq!(VkFormat::R8G8B8A8Unorm.raw(), vk::Format::R8G8B8A8_UNORM.as_raw());
    assert_eq!(
        VkFormat::A8B8G8R8UnormPack32.raw(),
        vk::Format::A8B8G8R8_UNORM_PACK32.as_raw()
    );
    assert_eq!(
        VkFormat::A2R10G10B10UnormPack32.raw(),
        vk::Format::A2R10G10B10_UNORM_PACK32.as_raw()
    );
    assert_eq!(
        VkFormat::A2B10G10R10UnormPack32.raw(),
        vk::Format::A2B10G10R10_UNORM_PACK32.as_raw()
    );
    assert_eq!(
        VkFormat::R16G16B16A16Sfloat.raw(),
        vk::Format::R16G16B16A16_SFLOAT.as_raw()
    );
    assert_eq!(
        VkFormat::R5G6B5UnormPack16.raw(),
        vk::Format::R5G6B5_UNORM_PACK16.as_raw()
    );
    let layouts = [
        (ImageLayout::Undefined, vk::ImageLayout::UNDEFINED),
        (ImageLayout::General, vk::ImageLayout::GENERAL),
        (
            ImageLayout::ColorAttachmentOptimal,
            vk::ImageLayout::COLOR_ATTACHMENT_OPTIMAL,
        ),
        (
            ImageLayout::ShaderReadOnlyOptimal,
            vk::ImageLayout::SHADER_READ_ONLY_OPTIMAL,
        ),
        (ImageLayout::TransferSrcOptimal, vk::ImageLayout::TRANSFER_SRC_OPTIMAL),
        (ImageLayout::TransferDstOptimal, vk::ImageLayout::TRANSFER_DST_OPTIMAL),
        (ImageLayout::Preinitialized, vk::ImageLayout::PREINITIALIZED),
    ];
    for (layout, raw) in layouts {
        assert_eq!(layout.raw(), raw.as_raw());
    }
    assert_eq!(STAGE_NONE, vk::PipelineStageFlags2::NONE.as_raw());
    assert_eq!(
        STAGE_FRAGMENT_SHADER,
        vk::PipelineStageFlags2::FRAGMENT_SHADER.as_raw()
    );
    assert_eq!(
        STAGE_COLOR_ATTACHMENT_OUTPUT,
        vk::PipelineStageFlags2::COLOR_ATTACHMENT_OUTPUT.as_raw()
    );
    assert_eq!(STAGE_TRANSFER, vk::PipelineStageFlags2::TRANSFER.as_raw());
    assert_eq!(STAGE_ALL_COMMANDS, vk::PipelineStageFlags2::ALL_COMMANDS.as_raw());
    assert_eq!(ACCESS_NONE, vk::AccessFlags2::NONE.as_raw());
    assert_eq!(ACCESS_SHADER_READ, vk::AccessFlags2::SHADER_READ.as_raw());
    let write = vk::AccessFlags2::COLOR_ATTACHMENT_WRITE;
    assert_eq!(ACCESS_COLOR_ATTACHMENT_WRITE, write.as_raw());
    assert_eq!(
        ACCESS_COLOR_ATTACHMENT,
        (vk::AccessFlags2::COLOR_ATTACHMENT_READ | write).as_raw()
    );
    assert_eq!(ACCESS_TRANSFER_READ, vk::AccessFlags2::TRANSFER_READ.as_raw());
    assert_eq!(ACCESS_TRANSFER_WRITE, vk::AccessFlags2::TRANSFER_WRITE.as_raw());
    assert_eq!(ACCESS_TRANSFER, ACCESS_TRANSFER_READ | ACCESS_TRANSFER_WRITE);
    assert_eq!(ACCESS_MEMORY_WRITE, vk::AccessFlags2::MEMORY_WRITE.as_raw());
    assert_eq!(
        ACCESS_MEMORY,
        (vk::AccessFlags2::MEMORY_READ | vk::AccessFlags2::MEMORY_WRITE).as_raw()
    );
    assert_eq!(QUEUE_FAMILY_FOREIGN, vk::QUEUE_FAMILY_FOREIGN_EXT);
    let transfers = vk::ImageUsageFlags::TRANSFER_SRC | vk::ImageUsageFlags::TRANSFER_DST;
    assert_eq!(TEXTURE_USAGE, vk::ImageUsageFlags::SAMPLED.as_raw());
    assert_eq!(
        RENDER_USAGE,
        (vk::ImageUsageFlags::COLOR_ATTACHMENT | transfers).as_raw()
    );
    assert_eq!(
        MEM_TEXTURE_USAGE,
        (vk::ImageUsageFlags::SAMPLED | transfers).as_raw()
    );
    assert_eq!(OFFSCREEN_USAGE, RENDER_USAGE | TEXTURE_USAGE);
    assert_eq!(TEXTURE_FEATURES, vk::FormatFeatureFlags::SAMPLED_IMAGE.as_raw());
    assert_eq!(
        RENDER_FEATURES,
        vk::FormatFeatureFlags::COLOR_ATTACHMENT_BLEND.as_raw()
    );
    assert_eq!(
        MEMORY_DEVICE_LOCAL,
        vk::MemoryPropertyFlags::DEVICE_LOCAL.as_raw()
    );
    assert_eq!(
        MEMORY_HOST_VISIBLE_COHERENT,
        (vk::MemoryPropertyFlags::HOST_VISIBLE | vk::MemoryPropertyFlags::HOST_COHERENT).as_raw()
    );
    assert_eq!(ERROR_DEVICE_LOST, vk::Result::ERROR_DEVICE_LOST.as_raw());
    assert_eq!(
        ERROR_INITIALIZATION_FAILED,
        vk::Result::ERROR_INITIALIZATION_FAILED.as_raw()
    );
}

#[test]
fn formats_are_mapped() {
    let argb = argb();
    assert_eq!(argb.vk, VkFormat::B8G8R8A8Unorm);
    assert!(argb.has_alpha);
    let xbgr = get_format_mapping(Fourcc::Xbgr2101010, true).unwrap();
    assert_eq!(xbgr.vk, VkFormat::A2B10G10R10UnormPack32);
    assert!(!xbgr.has_alpha);
    assert_eq!(get_format_mapping(Fourcc::Other(5), true), None);
    for mapping in known_formats(true) {
        assert_eq!(get_format_mapping(mapping.fourcc, true), Some(mapping));
        assert!(bytes_per_pixel(mapping.fourcc).is_some());
    }
    assert_eq!(bytes_per_pixel(Fourcc::Argb8888), Some(4));
    assert_eq!(bytes_per_pixel(Fourcc::Abgr16161616f), Some(8));
    assert_eq!(bytes_per_pixel(Fourcc::Rgb565), Some(2));
    assert_eq!(bytes_per_pixel(Fourcc::Other(1)), None);
    for format in mem_formats() {
        assert!(supports_mem(format));
    }
    assert!(!supports_mem(Fourcc::Abgr16161616f));
}

fn answer() -> FormatAnswer {
    let extent = |side| Some(Extent { width: side, height: side });
    FormatAnswer {
        optimal_features: TEXTURE_FEATURES | RENDER_FEATURES,
        optimal_texture_extent: extent(1000),
        optimal_offscreen_extent: extent(900),
        modifiers: vec![
            ModifierAnswer {
                modifier: 7,
                plane_count: 1,
                features: TEXTURE_FEATURES | RENDER_FEATURES,
                texture_extent: extent(500),
                render_extent: extent(400),
            },
            ModifierAnswer {
                modifier: 8,
                plane_count: 2,
                features: TEXTURE_FEATURES,
                texture_extent: extent(300),
                render_extent: extent(300),
            },
            ModifierAnswer {
                modifier: 9,
                plane_count: 1,
                features: TEXTURE_FEATURES | RENDER_FEATURES,
                texture_extent: None,
                render_extent: None,
            },
        ],
    }
}

fn table() -> FormatTable {
    FormatTable::new(vec![query_format_info(argb(), &answer())])
}

#[test]
fn usable_modifiers_are_listed() {
    let info = query_format_info(argb(), &answer());
    let modifier = |modifier, plane_count, side| ModifierInfo {
        modifier,
        plane_count,
        max_extent: Extent { width: side, height: side },
    };
    assert_eq!(info.texture_modifiers, vec![modifier(7, 1, 500), modifier(8, 2, 300)]);
    assert_eq!(info.render_modifiers, vec![modifier(7, 1, 400)]);
    assert_eq!(info.optimal_max_extent, Some(Extent { width: 1000, height: 1000 }));
    assert!(info.optimal_render);
    let code = Fourcc::Argb8888;
    assert_eq!(
        table().dmabuf_formats(false),
        vec![DrmFormat { code, modifier: 7 }, DrmFormat { code, modifier: 8 }]
    );
    assert_eq!(table().dmabuf_formats(true), vec![DrmFormat { code, modifier: 7 }]);
    assert!(table().get(Fourcc::Rgb565).is_none());
    assert!(has_flags(3, 2) && !has_flags(1, 3));
}

#[test]
fn dmabufs_are_checked() {
    let image = check_dmabuf(&table(), &dmabuf(400, 400), RENDER_USAGE).unwrap();
    assert_eq!(image.plane_layouts, vec![PlaneLayout { offset: 16, row_pitch: 4096 }]);
    assert_eq!(image.usage, RENDER_USAGE);
    assert_eq!(
        check_dmabuf(&table(), &dmabuf(401, 1), RENDER_USAGE).unwrap_err(),
        VulkanError::DmabufImport("dmabuf too large")
    );
    // Sampling has another limit.
    assert!(check_dmabuf(&table(), &dmabuf(401, 1), TEXTURE_USAGE).is_ok());
    let mut other = dmabuf(1, 1);
    other.format = Fourcc::Rgb565;
    assert_eq!(
        check_dmabuf(&table(), &other, TEXTURE_USAGE).unwrap_err(),
        VulkanError::UnsupportedFormat(Fourcc::Rgb565)
    );
    let mut other = dmabuf(1, 1);
    other.modifier = 8;
    assert_eq!(
        check_dmabuf(&table(), &other, RENDER_USAGE).unwrap_err(),
        VulkanError::UnsupportedModifier(Fourcc::Argb8888)
    );
    assert_eq!(
        check_dmabuf(&table(), &other, TEXTURE_USAGE).unwrap_err(),
        VulkanError::DmabufImport("unexpected plane count")
    );
}

#[test]
fn images_are_created_step_by_step() {
    let types = MemoryTypes { flags: vec![0x6, 0x1, 0x7] };
    let mut creation = Creation::start(Recipe::Image);
    assert_eq!(creation.step(CreationEvent::Created(10), &types), CreationAction::Measure);
    assert_eq!(
        creation.step(CreationEvent::Requires(64, 0b111), &types),
        CreationAction::Allocate(64, 1)
    );
    assert_eq!(creation.step(CreationEvent::Allocated(11), &types), CreationAction::Bind);
    assert_eq!(creation.step(CreationEvent::Bound, &types), CreationAction::Done);
    assert_eq!(creation.result(), (Some(10), Some(11)));

    // Without device-local memory any other will do.
    let mut creation = Creation::start(Recipe::Image);
    creation.step(CreationEvent::Created(10), &types);
    assert_eq!(
        creation.step(CreationEvent::Requires(64, 0b001), &types),
        CreationAction::Allocate(64, 0)
    );
}

#[test]
fn failed_creations_leave_nothing_behind() {
    let types = MemoryTypes { flags: vec![0x1, 0x6] };
    let mut creation = Creation::start(Recipe::HostBuffer);
    creation.step(CreationEvent::Created(10), &types);
    assert_eq!(
        creation.step(CreationEvent::Requires(64, 0b01), &types),
        CreationAction::Fail(vec![CleanupItem::Buffer(10)], VulkanError::NoMemoryType)
    );
    let mut creation = Creation::start(Recipe::HostBuffer);
    creation.step(CreationEvent::Created(10), &types);
    assert_eq!(
        creation.step(CreationEvent::Requires(64, 0b11), &types),
        CreationAction::Allocate(64, 1)
    );
    creation.step(CreationEvent::Allocated(20), &types);
    assert_eq!(
        creation.step(CreationEvent::Failed(-2), &types),
        CreationAction::Fail(
            vec![CleanupItem::Memory(20), CleanupItem::Buffer(10)],
            VulkanError::Vk(-2)
        )
    );
    let mut creation = Creation::start(Recipe::ImportedImage);
    assert_eq!(creation.step(CreationEvent::Created(30), &types), CreationAction::Duplicate);
    assert_eq!(
        creation.step(CreationEvent::DuplicationFailed, &types),
        CreationAction::Fail(
            vec![CleanupItem::Image(30)],
            VulkanError::DmabufImport("failed to duplicate dmabuf fd")
        )
    );
    let mut creation = Creation::start(Recipe::ImportedImage);
    creation.step(CreationEvent::Created(30), &types);
    assert_eq!(
        creation.step(CreationEvent::NoPlanes, &types),
        CreationAction::Fail(
            vec![CleanupItem::Image(30)],
            VulkanError::DmabufImport("dmabuf without planes")
        )
    );
    let mut creation = Creation::start(Recipe::ImportedImage);
    creation.step(CreationEvent::Created(30), &types);
    assert_eq!(creation.step(CreationEvent::Duplicated, &types), CreationAction::QueryImport);
    assert_eq!(creation.step(CreationEvent::Importable(0b10), &types), CreationAction::Measure);
    // The memory has to suit both the image and the import.
    assert_eq!(
        creation.step(CreationEvent::Requires(8, 0b11), &types),
        CreationAction::Allocate(8, 1)
    );
    assert_eq!(
        undo_image(1, &vec![2, 3]),
        vec![CleanupItem::Memory(2), CleanupItem::Memory(3), CleanupItem::Image(1)]
    );
}

#[test]
fn textures_are_tracked() {
    let mut texture = texture(10, 4, 2);
    assert_eq!(texture.image(), 10);
    assert_eq!(texture.layout, ImageLayout::Undefined);
    texture.mark_used(5);
    texture.mark_used(3);
    assert_eq!(texture.last_use, 5);
    let filters = Filters { downscale: TextureFilter::Nearest, upscale: TextureFilter::Linear };
    assert_eq!(texture.descriptor_set(filters), None);
    texture.cache_descriptor_set(filters, PooledSet { pool: 1, set: 2 });
    assert_eq!(texture.descriptor_set(filters), Some(PooledSet { pool: 1, set: 2 }));
    assert_eq!(
        texture.cleanup(),
        vec![
            CleanupItem::ImageView(11),
            CleanupItem::Image(10),
            CleanupItem::Memory(12),
            CleanupItem::DescriptorSet(1, 2),
        ]
    );
    let imported = new_dmabuf_texture(20, 21, 22, argb(), &dmabuf(8, 8));
    assert!(imported.dmabuf_imported && imported.is_y_inverted() && !imported.writable);
    assert_eq!(
        bind_texture(&imported).unwrap_err(),
        VulkanError::DmabufImport("cannot render to imported dmabuf texture")
    );
    assert!(bind_texture(&texture).is_ok());
    let target = render_buffer(30, 8, 8);
    assert_eq!(target.image(), 30);
    assert_eq!(target.render_layout(), ImageLayout::General);
    assert_eq!(target.vk_format(), VkFormat::B8G8R8A8Unorm);
    assert_eq!((texture.width(), texture.height()), (4, 2));
    assert_eq!((target.width(), target.height()), (8, 8));
}

#[test]
fn views_hide_the_alpha_of_opaque_formats() {
    let opaque = get_format_mapping(Fourcc::Xrgb8888, true).unwrap();
    let hidden = ViewRecipe { image: 3, format: VkFormat::B8G8R8A8Unorm, opaque: true };
    assert_eq!(view_of(3, opaque, true), hidden);
    // Render targets are written through an identity view.
    assert_eq!(view_of(3, opaque, false), ViewRecipe { opaque: false, ..hidden });
    assert_eq!(view_of(3, argb(), true), ViewRecipe { opaque: false, ..hidden });
}

#[test]
fn sizes_are_taken_as_unsigned() {
    for value in [0, 1, i32::MAX, -1, i32::MIN] {
        assert_eq!(as_unsigned(value), value as u32);
    }
}

#[test]
fn cleanup_waits_for_the_timeline() {
    let mut queue = CleanupQueue::new();
    queue.defer_destroy(3, &vec![CleanupItem::Image(1), CleanupItem::Memory(2)]);
    queue.defer_destroy(1, &vec![CleanupItem::Buffer(3)]);
    queue.defer_destroy(0, &vec![CleanupItem::ShaderModule(4)]);
    assert_eq!(
        queue.process_cleanup(2),
        vec![CleanupItem::Buffer(3), CleanupItem::ShaderModule(4)]
    );
    assert_eq!(queue.process_cleanup(2), vec![]);
    assert_eq!(
        queue.process_cleanup(completed_point(None)),
        vec![CleanupItem::Image(1), CleanupItem::Memory(2)]
    );
    assert_eq!(completed_point(Some(4)), 4);
}

#[test]
fn errors_are_classified() {
    for fatal in [
        VulkanError::Vk(ERROR_DEVICE_LOST),
        VulkanError::Vk(ERROR_INITIALIZATION_FAILED),
        VulkanError::UnsupportedVersion(1, 3),
        VulkanError::MissingExtension("x"),
        VulkanError::NoGraphicsQueue,
        VulkanError::PipelineCreation,
    ] {
        assert_eq!(fatal.swap_failure(), SwapFailure::ContextLost);
    }
    for passing in [
        VulkanError::Vk(-1),
        VulkanError::NoMemoryType,
        VulkanError::OutOfBounds,
        VulkanError::ShaderCompile("x".to_string()),
    ] {
        assert_eq!(passing.swap_failure(), SwapFailure::TemporaryFailure);
    }
}

#[test]
fn barriers_change_layout_or_owner() {
    let plain = image_barrier(
        1,
        ImageLayout::Undefined,
        ImageLayout::General,
        STAGE_NONE,
        ACCESS_NONE,
        STAGE_TRANSFER,
        ACCESS_TRANSFER,
    );
    assert_eq!((plain.src_family, plain.dst_family), (0, 0));
    let acquire = foreign_barrier(
        3,
        true,
        1,
        ImageLayout::General,
        ImageLayout::General,
        STAGE_TRANSFER,
        ACCESS_TRANSFER_READ,
    );
    assert_eq!((acquire.src_family, acquire.dst_family), (QUEUE_FAMILY_FOREIGN, 3));
    assert_eq!((acquire.src_stage, acquire.dst_stage), (STAGE_NONE, STAGE_TRANSFER));
    let release = foreign_barrier(
        3,
        false,
        1,
        ImageLayout::General,
        ImageLayout::General,
        STAGE_TRANSFER,
        ACCESS_TRANSFER_READ,
    );
    assert_eq!((release.src_family, release.dst_family), (3, QUEUE_FAMILY_FOREIGN));
    assert_eq!((release.src_stage, release.dst_stage), (STAGE_TRANSFER, STAGE_NONE));
}

#[test]
fn rows_are_packed() {
    // Three rows of four pixels with one byte each.
    let data: Vec<u8> = (0..12).collect();
    assert_eq!(pack_rows(&data, 4, rect(1, 1, 2, 2), 1), vec![5, 6, 9, 10]);
    assert_eq!(pack_rows(&data, 2, rect(0, 0, 1, 3), 2), vec![0, 1, 4, 5, 8, 9]);
    assert_eq!(pack_rows(&data, 12, rect(0, 0, 12, 1), 1), data);
}

#[test]
fn uploads_leave_textures_readable() {
    let mut texture = texture(10, 2, 2);
    let data = [7u8; 16];
    let plan = upload_memory(&texture, &data, 2, rect(0, 0, 2, 2), true).unwrap();
    assert_eq!(plan.bytes, data);
    let commands = plan.commands(50);
    assert_eq!(commands.len(), 3);
    assert!(matches!(
        commands[0],
        Command::Barrier(b) if b.old_layout == ImageLayout::Undefined
            && b.new_layout == ImageLayout::TransferDstOptimal
    ));
    assert_eq!(
        commands[1],
        Command::CopyBufferToImage {
            buffer: 50,
            image: 10,
            layout: ImageLayout::TransferDstOptimal,
            region: rect(0, 0, 2, 2),
        }
    );
    assert!(matches!(
        commands[2],
        Command::Barrier(b) if b.new_layout == ImageLayout::ShaderReadOnlyOptimal
    ));
    assert_eq!(
        plan.cleanup(OwnedBuffer { buffer: 50, memory: 51 }),
        vec![CleanupItem::Buffer(50), CleanupItem::Memory(51)]
    );
    texture.uploaded(9);
    assert_eq!(texture.layout, ImageLayout::ShaderReadOnlyOptimal);
    assert_eq!(texture.last_use, 9);
}

#[test]
fn memory_is_imported_and_updated() {
    let size = Size { w: 2, h: 2 };
    let request = import_memory(&table(), &[0; 16], Fourcc::Argb8888, size, true).unwrap();
    assert_eq!((request.size, request.usage), (size, MEM_TEXTURE_USAGE));
    assert_eq!(
        import_memory(&table(), &[0; 15], Fourcc::Argb8888, size, true).unwrap_err(),
        VulkanError::UnexpectedSize
    );
    assert_eq!(
        import_memory(&table(), &[0; 16], Fourcc::Xrgb8888, size, true).unwrap_err(),
        VulkanError::UnsupportedFormat(Fourcc::Xrgb8888)
    );
    let huge = Size { w: 1001, h: 1 };
    assert_eq!(
        import_memory(&table(), &[0; 8000], Fourcc::Argb8888, huge, true).unwrap_err(),
        VulkanError::UnexpectedSize
    );

    let writable = texture(10, 2, 2);
    let mut data = [0u8; 16];
    data[12] = 1;
    let plan = update_memory(&writable, &data, rect(1, 1, 1, 1)).unwrap();
    assert_eq!(plan.bytes, vec![1, 0, 0, 0]);
    assert_eq!(
        update_memory(&writable, &data, rect(1, 1, 2, 1)).unwrap_err(),
        VulkanError::OutOfBounds
    );
    assert_eq!(
        update_memory(&writable, &data[..15], rect(0, 0, 1, 1)).unwrap_err(),
        VulkanError::UnexpectedSize
    );
    let read_only = new_texture(10, 11, 12, argb(), size, false, false);
    assert_eq!(
        update_memory(&read_only, &data, rect(0, 0, 1, 1)).unwrap_err(),
        VulkanError::NotWritable
    );
}

#[test]
fn offscreen_buffers_are_checked() {
    let request =
        create_buffer(&table(), Fourcc::Argb8888, Size { w: 3, h: 4 }, true).unwrap();
    assert_eq!(request.usage, OFFSCREEN_USAGE);
    assert_eq!(
        create_buffer(&table(), Fourcc::Argb8888, Size { w: 0, h: 4 }, true).unwrap_err(),
        VulkanError::UnexpectedSize
    );
    assert_eq!(
        create_buffer(&table(), Fourcc::Rgb565, Size { w: 3, h: 4 }, true).unwrap_err(),
        VulkanError::UnsupportedFormat(Fourcc::Rgb565)
    );
}

#[test]
fn shared_memory_is_imported() {
    let buffer = ShmBuffer {
        wire_format: 0,
        format: Some(Fourcc::Argb8888),
        offset: 8,
        width: 4,
        height: 3,
        stride: 20,
    };
    assert!(buffer.is_inside(8 + 2 * 20 + 16));
    assert!(!buffer.is_inside(8 + 2 * 20 + 15));
    assert_eq!(buffer.stride_pixels(), 5);
    match import_shm_buffer(&buffer, None, &[], true).unwrap() {
        ShmPlan::Create(request) => assert_eq!(request.size, Size { w: 4, h: 3 }),
        other => panic!("not created: {other:?}"),
    }
    let existing = Some(Size { w: 4, h: 3 });
    match import_shm_buffer(&buffer, existing, &[], true).unwrap() {
        ShmPlan::Update(regions) => assert_eq!(regions, vec![rect(0, 0, 4, 3)]),
        other => panic!("not updated: {other:?}"),
    }
    let damage = [rect(-1, -1, 2, 2), rect(10, 10, 1, 1), rect(2, 1, 9, 9)];
    match import_shm_buffer(&buffer, existing, &damage, true).unwrap() {
        ShmPlan::Update(regions) => {
            assert_eq!(regions, vec![rect(0, 0, 1, 1), rect(2, 1, 2, 2)])
        }
        other => panic!("not updated: {other:?}"),
    }
    let unknown = ShmBuffer { wire_format: 77, format: None, ..buffer };
    assert_eq!(
        import_shm_buffer(&unknown, None, &[], true).unwrap_err(),
        VulkanError::UnsupportedWlPixelFormat(77)
    );
    let uneven = ShmBuffer { stride: 18, ..buffer };
    assert_eq!(
        import_shm_buffer(&uneven, None, &[], true).unwrap_err(),
        VulkanError::UnexpectedSize
    );
}

#[test]
fn images_are_copied_to_memory() {
    let source = CopySource::from_texture(&texture(10, 8, 8), false);
    let plan = CopyPlan::new(source, rect(1, 2, 3, 4), Fourcc::Argb8888, true).unwrap();
    assert_eq!(plan.buffer_size(), 3 * 4 * 4);
    assert!(plan.temp_image().is_none());
    let buffer = OwnedBuffer { buffer: 60, memory: 61 };
    let mapping = plan.finish(buffer, 4);
    assert_eq!(mapping.len(), 48);
    assert_eq!(
        mapping.cleanup(),
        vec![CleanupItem::Buffer(60), CleanupItem::Memory(61)]
    );
    assert_eq!(
        CopyPlan::new(source, rect(1, 2, 8, 4), Fourcc::Argb8888, true).unwrap_err(),
        VulkanError::OutOfBounds
    );
    assert_eq!(
        CopyPlan::new(source, rect(1, 2, 3, 4), Fourcc::Other(3), true).unwrap_err(),
        VulkanError::UnsupportedFormat(Fourcc::Other(3))
    );

    // Another format is converted through a temporary image.
    let target = render_buffer(10, 8, 8);
    let source = CopySource::from_target(&target, true);
    let plan = CopyPlan::new(source, rect(1, 2, 3, 4), Fourcc::Abgr8888, true).unwrap();
    let request = plan.temp_image().unwrap();
    assert_eq!(request.size, Size { w: 3, h: 4 });
    let temp = OwnedImage { image: 70, memory: 71 };
    let submission = plan.submission(buffer, Some(temp), 2);
    assert_eq!(submission.commands.len(), 6);
    assert!(submission.acquire_source);
    assert_eq!(
        submission.commands[4],
        Command::CopyImageToBuffer {
            image: 70,
            layout: ImageLayout::TransferSrcOptimal,
            buffer: 60,
            region: rect(0, 0, 3, 4),
        }
    );
    assert!(submission.cleanup.contains(&CleanupItem::Image(70)));
    assert!(submission.cleanup.contains(&CleanupItem::Memory(71)));
}

#[test]
fn blits_restore_both_images() {
    let mut from = render_buffer(10, 8, 8);
    let mut to = VulkanTarget::Texture(texture(20, 8, 8));
    let filter = TextureFilter::Linear;
    let commands = blit(&from, &to, rect(0, 0, 8, 8), rect(0, 0, 4, 4), filter, 1).unwrap();
    // The destination had no contents: it stays in the layout of the transfer.
    assert_eq!(commands.len(), 4);
    assert!(matches!(
        commands[2],
        Command::Blit { src_image: 10, dst_image: 20, dst_to: Point { x: 4, y: 4 }, .. }
    ));
    assert!(matches!(
        commands[3],
        Command::Barrier(b) if b.image == 10 && b.dst_family == QUEUE_FAMILY_FOREIGN
    ));
    blit_submitted(&mut from, &mut to, 6);
    assert_eq!(to.transfer_state().layout, ImageLayout::TransferDstOptimal);
    assert_eq!(
        blit(&from, &from, rect(0, 0, 1, 1), rect(0, 0, 1, 1), filter, 1).unwrap_err(),
        VulkanError::BlitSameImage
    );
    assert_eq!(
        blit(&from, &to, rect(0, 0, 9, 1), rect(0, 0, 1, 1), filter, 1).unwrap_err(),
        VulkanError::OutOfBounds
    );
    let fences = blit_fences(true, false, true);
    assert!(fences.acquire_source && !fences.acquire_destination && fences.release);
    assert!(!blit_fences(true, true, false).release);
}

#[test]
fn dmabufs_are_remembered_while_they_exist() {
    let mut cache: DmabufCache<&str> = DmabufCache::new();
    cache.insert(1, "first");
    cache.insert(2, "second");
    cache.insert(1, "again");
    assert_eq!(cache.get(1), Some(&"first"));
    assert_eq!(cache.get(3), None);
    let alive: HashSet<u64> = [1, 3].into_iter().collect();
    cache.retain(&alive);
    assert_eq!(cache.get(1), Some(&"first"));
    assert_eq!(cache.get(2), None);
}
