//! Setting up a renderer, drawing frames and submitting them.

use smithay::backend::renderer::geometry::{Point, Rectangle, Size, Transform};
use smithay::backend::renderer::region::subtract_rects;
use smithay::backend::renderer::vulkan::color_params::{
    effective_params, params_block, ColorBlendParams,
};
use smithay::backend::renderer::vulkan::commands::{
    Command, Fill, ImageLayout, TextureFilter, QUEUE_FAMILY_FOREIGN,
};
use smithay::backend::renderer::vulkan::custom::{ProgramIds, ProgramLayout};
use smithay::backend::renderer::vulkan::device::{CleanupItem, CleanupQueue};
use smithay::backend::renderer::vulkan::draw::{draw_rects, split_damage, FULL_ALPHA};
use smithay::backend::renderer::vulkan::error::VulkanError;
use smithay::backend::renderer::vulkan::fence::{BinarySemaphore, ExportAction, VulkanFence};
use smithay::backend::renderer::vulkan::formats::{
    get_format_mapping, FormatMapping, FormatTable, Fourcc,
};
use smithay::backend::renderer::vulkan::frame::{needed_pipelines, VulkanFrame};
use smithay::backend::renderer::vulkan::import::{
    new_dmabuf_texture, new_render_buffer, new_texture, DmabufInfo,
};
use smithay::backend::renderer::vulkan::pipelines::{
    DescriptorPools, FixedObjects, PipelineCache, PipelineKey, PoolChoice, DESCRIPTOR_POOL_SIZE,
};
use smithay::backend::renderer::vulkan::queue::{
    FenceExport, ImplicitSync, QueueSignal, QueueWait, Submissions, SyncAccess, WaitAction,
    WaitEvent,
};
use smithay::backend::renderer::vulkan::renderer::VulkanRenderer;
use smithay::backend::renderer::vulkan::setup::{
    plan_device, BuiltInShader, DeviceReport, ObjectRecipe, Setup, Teardown, Version,
    OBJECT_COUNT,
};
use smithay::backend::renderer::vulkan::texture::{Filters, VulkanTarget, VulkanTexture};

fn rect(x: i32, y: i32, w: i32, h: i32) -> Rectangle {
    Rectangle { loc: Point { x, y }, size: Size { w, h } }
}

fn argb() -> FormatMapping {
    get_format_mapping(Fourcc::Argb8888, true).unwrap()
}

fn dmabuf() -> DmabufInfo {
    DmabufInfo {
        format: Fourcc::Argb8888,
        modifier: 0,
        size: Size { w: 100, h: 50 },
        planes: vec![],
        y_inverted: false,
    }
}

fn target(image: u64) -> VulkanTarget {
    VulkanTarget::Dmabuf(new_render_buffer(image, image + 1, image + 2, argb(), &dmabuf()))
}

fn offscreen(image: u64) -> VulkanTexture {
    new_texture(image, image + 1, image + 2, argb(), Size { w: 100, h: 50 }, false, false)
}

fn imported(image: u64) -> VulkanTexture {
    new_dmabuf_texture(image, image + 1, image + 2, argb(), &dmabuf())
}

fn report(extensions: &[&str]) -> DeviceReport {
    DeviceReport {
        api_version: Version { variant: 0, major: 1, minor: 3, patch: 0 },
        extensions: extensions.iter().map(|s| s.to_string()).collect(),
        semaphore_features: 0x3,
        queue_families: vec![0x4, 0x7, 0x1],
        uniform_alignment: 64,
    }
}

const NEEDED: [&str; 4] = [
    "VK_EXT_image_drm_format_modifier",
    "VK_EXT_external_memory_dma_buf",
    "VK_EXT_queue_family_foreign",
    "VK_KHR_external_memory_fd",
];

#[test]
fn needed_extensions_are_those_of_the_api() {
    let names = [
        ash::ext::image_drm_format_modifier::NAME,
        ash::ext::external_memory_dma_buf::NAME,
        ash::ext::queue_family_foreign::NAME,
        ash::khr::external_memory_fd::NAME,
    ];
    let names: Vec<&str> = names.iter().map(|name| name.to_str().unwrap()).collect();
    assert_eq!(VulkanRenderer::required_extensions(), names);
    assert_eq!(
        ash::khr::external_semaphore_fd::NAME.to_str().unwrap(),
        "VK_KHR_external_semaphore_fd"
    );
}

#[test]
fn devices_are_set_up() {
    let plan = plan_device(&report(&NEEDED)).unwrap();
    assert_eq!(plan.queue_family, 1);
    assert_eq!(plan.extensions, NEEDED);
    assert!(!plan.sync_fd_export && !plan.sync_fd_import && !plan.uses_sync_files());
    assert_eq!(plan.params_align, 64);

    let mut all = NEEDED.to_vec();
    all.push("VK_KHR_external_semaphore_fd");
    let plan = plan_device(&report(&all)).unwrap();
    assert_eq!(plan.extensions, all);
    assert!(plan.sync_fd_export && plan.sync_fd_import && plan.uses_sync_files());
    let mut import_only = report(&all);
    import_only.semaphore_features = 0x2;
    import_only.uniform_alignment = 1;
    let plan = plan_device(&import_only).unwrap();
    assert!(!plan.sync_fd_export && plan.sync_fd_import && plan.uses_sync_files());
    assert_eq!(plan.params_align, 4);
}

#[test]
fn unsuitable_devices_are_refused() {
    let mut old = report(&[]);
    old.api_version = Version { variant: 0, major: 1, minor: 2, patch: 999 };
    assert_eq!(plan_device(&old).unwrap_err(), VulkanError::UnsupportedVersion(1, 3));
    let mut new = report(&NEEDED);
    new.api_version = Version { variant: 0, major: 2, minor: 0, patch: 0 };
    assert!(plan_device(&new).is_ok());
    assert_eq!(
        plan_device(&report(&[NEEDED[0], NEEDED[3]])).unwrap_err(),
        VulkanError::MissingExtension("VK_EXT_external_memory_dma_buf")
    );
    let mut no_queue = report(&NEEDED);
    no_queue.queue_families = vec![0x2, 0x4];
    assert_eq!(plan_device(&no_queue).unwrap_err(), VulkanError::NoGraphicsQueue);
}

fn objects() -> (u64, FixedObjects) {
    let mut setup = Setup::new();
    let mut next = 100;
    while setup.next_object().is_some() {
        setup.created(next);
        next += 1;
    }
    setup.finish()
}

#[test]
fn objects_are_created_in_order() {
    let mut setup = Setup::new();
    let mut recipes = vec![];
    while let Some(recipe) = setup.next_object() {
        setup.created(100 + recipes.len() as u64);
        recipes.push(recipe);
    }
    assert_eq!(recipes.len(), OBJECT_COUNT);
    assert_eq!(recipes[0], ObjectRecipe::CommandPool);
    assert_eq!(recipes[2], ObjectRecipe::Shader(BuiltInShader::Texture));
    assert_eq!(recipes[4], ObjectRecipe::TextureLayout(1));
    assert_eq!(recipes[8], ObjectRecipe::PipelineLayout { textures: 106, params: 105 });
    assert_eq!(recipes[9], ObjectRecipe::PipelineLayout { textures: 104, params: 105 });
    assert_eq!(recipes[10], ObjectRecipe::PipelineLayout { textures: 107, params: 105 });
    assert_eq!(
        recipes[13],
        ObjectRecipe::Sampler {
            min: TextureFilter::Linear,
            mag: TextureFilter::Nearest,
            transparent_border: false,
        }
    );
    let (pool, objects) = setup.finish();
    assert_eq!(pool, 100);
    assert_eq!(objects.texture_layouts, [106, 104, 107]);
    let nearest = Filters { downscale: TextureFilter::Nearest, upscale: TextureFilter::Nearest };
    assert_eq!(objects.sampler(nearest), 115);
}

#[test]
fn objects_are_destroyed_once() {
    let (_, objects) = objects();
    let items = objects.teardown();
    assert_eq!(items.len(), OBJECT_COUNT - 1);
    let mut handles: Vec<u64> = items
        .iter()
        .map(|item| match item {
            Teardown::PipelineLayout(h)
            | Teardown::SetLayout(h)
            | Teardown::Sampler(h)
            | Teardown::Shader(h) => *h,
        })
        .collect();
    handles.sort();
    handles.dedup();
    assert_eq!(handles, (101..116).collect::<Vec<u64>>());
}

#[test]
fn renderers_start_with_defaults() {
    let plan = plan_device(&report(&NEEDED)).unwrap();
    let (pool, objects) = objects();
    let mut renderer = VulkanRenderer::new(&plan, FormatTable::new(vec![]), pool, objects);
    assert!(renderer.default_color_params().is_none());
    assert_eq!(renderer.filters().downscale, TextureFilter::Linear);
    renderer.downscale_filter(TextureFilter::Nearest);
    assert_eq!(renderer.filters().downscale, TextureFilter::Nearest);
    assert_eq!(renderer.filters().upscale, TextureFilter::Linear);
    renderer.upscale_filter(TextureFilter::Nearest);
    assert_eq!(renderer.filters().upscale, TextureFilter::Nearest);
    let params = ColorBlendParams { linear: 1, ..ColorBlendParams::default() };
    renderer.set_default_color_params(Some(params));
    assert_eq!(renderer.default_color_params().unwrap().linear, 1);
    assert_eq!(renderer.debug_flags(), 0);
    assert!(!renderer.tints_textures());
    renderer.set_debug_flags(1);
    assert_eq!(renderer.debug_flags(), 1);
    assert!(renderer.tints_textures());
    renderer.set_debug_flags(2);
    assert!(!renderer.tints_textures());
    assert_eq!(renderer.submissions.timeline_point(), 0);
    renderer.cleanup.defer_destroy(5, &vec![CleanupItem::Image(1)]);
    assert!(renderer.process_completed(Some(4)).items.is_empty());
    assert_eq!(renderer.process_completed(None).items, vec![CleanupItem::Image(1)]);
}

#[test]
fn parameters_of_a_draw_come_before_the_default_ones() {
    let own = ColorBlendParams { hdr_pq: 7, ..ColorBlendParams::default() };
    let default = ColorBlendParams { hdr_pq: 9, ..ColorBlendParams::default() };
    assert_eq!(effective_params(None, None), None);
    assert_eq!(effective_params(Some(own), None), Some(own));
    assert_eq!(effective_params(None, Some(default)), Some(default));
    assert_eq!(effective_params(Some(own), Some(default)), Some(own));
    assert_eq!(params_block(None), [0; 24]);
    assert_eq!(params_block(Some(own)), own.to_std140());
    assert_ne!(params_block(Some(own)), params_block(Some(default)));
}

#[test]
fn compiled_shaders_become_code() {
    let words = [0x0723_0203u32, 0x0001_0000, 42];
    let bytes: Vec<u8> = words.iter().flat_map(|w| w.to_le_bytes()).collect();
    let compiled = VulkanRenderer::compile_custom_pixel_shader(Ok(bytes));
    assert_eq!(compiled.unwrap(), words);
    let truncated = VulkanRenderer::compile_custom_pixel_shader(Ok(vec![3, 2]));
    assert_eq!(truncated.unwrap_err(), VulkanError::PipelineCreation);
    let failed = VulkanRenderer::compile_custom_pixel_shader(Err("no main".to_string()));
    assert_eq!(failed.unwrap_err(), VulkanError::ShaderCompile("no main".to_string()));
}

#[test]
fn pipelines_are_made_once() {
    let (_, objects) = objects();
    let format = argb().vk;
    let mut cache = PipelineCache::new();
    let key = PipelineKey::BuiltIn { format, solid: true, blend: false };
    assert_eq!(cache.get(key), None);
    assert_eq!(cache.created(key, None).unwrap_err(), VulkanError::PipelineCreation);
    assert_eq!(cache.get(key), None);
    assert_eq!(cache.created(key, Some(9)).unwrap(), 9);
    assert_eq!(cache.get(key), Some(9));
    assert_eq!(cache.get(PipelineKey::BuiltIn { format, solid: true, blend: true }), None);
    let custom = PipelineKey::Custom { program: 1, format, blend: false };
    cache.created(custom, Some(10)).unwrap();
    assert_eq!(cache.handles(), vec![9, 10]);

    let recipe = objects.pipeline(format, true, true);
    assert_eq!((recipe.vertex, recipe.fragment, recipe.layout), (101, 103, 109));
    let recipe = objects.pipeline(format, false, false);
    assert_eq!((recipe.fragment, recipe.blend), (102, false));
    let mut ids = ProgramIds::new();
    let layout = ProgramLayout::new(vec![], vec!["a".to_string(), "b".to_string()]).unwrap();
    let program = ids.program(55, layout);
    let recipe = objects.custom_pipeline(&program, format, true);
    assert_eq!((recipe.vertex, recipe.fragment, recipe.layout), (101, 55, 110));
}

#[test]
fn descriptor_sets_come_from_pools() {
    let mut pools = DescriptorPools::new();
    assert_eq!(pools.choose_pool(0), PoolChoice::Fresh);
    let first = pools.added(40, 41);
    assert_eq!((first.pool, first.set), (40, 41));
    for set in 1..DESCRIPTOR_POOL_SIZE {
        assert_eq!(pools.choose_pool(0), PoolChoice::Existing { place: 0, pool: 40 });
        assert_eq!(pools.allocated(0, 41 + set as u64).pool, 40);
    }
    assert_eq!(pools.choose_pool(0), PoolChoice::Fresh);
    pools.added(50, 51);
    assert_eq!(pools.choose_pool(0), PoolChoice::Existing { place: 1, pool: 50 });
    // If that one fails all the same, another pool is made.
    assert_eq!(pools.choose_pool(2), PoolChoice::Fresh);
    assert_eq!(pools.handles(), vec![40, 50]);
}

#[test]
fn descriptor_sets_hold_the_textures() {
    let (_, objects) = objects();
    let filters = Filters { downscale: TextureFilter::Nearest, upscale: TextureFilter::Linear };
    let (layout, image) = objects.texture_set(&offscreen(10), filters);
    assert_eq!(layout, 104);
    assert_eq!((image.binding, image.sampler, image.view), (0, 114, 11));
    assert_eq!(image.layout, ImageLayout::ShaderReadOnlyOptimal);
    let (layout, images) = objects.custom_texture_set(&vec![7, 8], false);
    assert_eq!(layout, 107);
    assert_eq!((images[1].binding, images[1].sampler, images[1].view), (1, 111, 8));
    let (layout, images) = objects.custom_texture_set(&vec![7], true);
    assert_eq!((layout, images[0].sampler), (104, 112));
}

#[test]
fn fences_are_exported_once() {
    let mut fence = VulkanFence { point: 4, binary: Some(BinarySemaphore::Unexported(8)) };
    assert!(fence.is_signaled(Some(4)) && !fence.is_signaled(Some(3)));
    assert!(fence.is_signaled(None));
    assert!(fence.is_exportable(true) && !fence.is_exportable(false));
    assert_eq!(fence.export(false), ExportAction::Refuse);
    assert_eq!(fence.export(true), ExportAction::Export(8));
    assert_eq!(fence.exported(Some(33)), ExportAction::Duplicate(33));
    assert_eq!(fence.export(true), ExportAction::Duplicate(33));
    assert_eq!(fence.cleanup(), (4, vec![CleanupItem::Semaphore(8)]));
    let mut failing = VulkanFence { point: 4, binary: Some(BinarySemaphore::Unexported(8)) };
    assert_eq!(failing.exported(None), ExportAction::Refuse);
    assert_eq!(failing.export(true), ExportAction::Refuse);
    assert_eq!(failing.cleanup(), (4, vec![CleanupItem::Semaphore(8)]));
    let plain = VulkanFence { point: 1, binary: None };
    assert!(!plain.is_exportable(true));
    assert_eq!(plain.export(true), ExportAction::Refuse);
    assert_eq!(plain.cleanup(), (1, vec![]));
}

#[test]
fn submissions_wait_and_signal() {
    let mut queue = Submissions::new();
    let mut cleanup = CleanupQueue::new();
    assert_eq!(queue.take_command_buffer(), None);
    assert_eq!(queue.add_command_buffers(vec![1, 2, 3, 4]), 4);
    assert_eq!(queue.take_command_buffer(), Some(3));
    let start = |reached, own_point| WaitEvent::Start { reached, own_point };
    assert_eq!(queue.handle_wait(start(true, None)), WaitAction::Done);
    assert_eq!(queue.handle_wait(start(false, Some(0))), WaitAction::Done);
    assert_eq!(queue.handle_wait(start(false, None)), WaitAction::Import);
    assert_eq!(queue.handle_wait(WaitEvent::Imported(Some(70))), WaitAction::Done);
    assert_eq!(queue.handle_wait(WaitEvent::Imported(None)), WaitAction::Block);
    assert_eq!(
        queue.handle_wait(WaitEvent::Waited { interrupted: true }),
        WaitAction::Fail(VulkanError::SyncInterrupted)
    );
    let submit = queue.submit(vec![3, 4], &vec![71], &vec![9], Some(80));
    assert_eq!(
        submit.waits,
        vec![
            QueueWait::Semaphore(70),
            QueueWait::Semaphore(71),
            QueueWait::Point(0),
            QueueWait::Point(9),
        ]
    );
    assert_eq!(submit.signals, vec![QueueSignal::Point(1), QueueSignal::Semaphore(80)]);
    assert_eq!(
        submit.refused(),
        vec![
            CleanupItem::Semaphore(80),
            CleanupItem::Semaphore(70),
            CleanupItem::Semaphore(71),
        ]
    );
    let fence = queue.submitted_one_shot(submit, &vec![CleanupItem::Buffer(5)], &mut cleanup);
    assert_eq!(fence.point, 1);
    assert_eq!(fence.binary, Some(BinarySemaphore::Unexported(80)));
    assert_eq!(queue.timeline_point(), 1);
    assert!(queue.cleanup(0).is_empty());
    assert_eq!(queue.cleanup(1), vec![3, 4]);
    assert_eq!(
        cleanup.process_cleanup(1),
        vec![
            CleanupItem::Semaphore(70),
            CleanupItem::Semaphore(71),
            CleanupItem::Buffer(5),
        ]
    );
    // The waits were consumed.
    let next = queue.submit(vec![], &vec![], &vec![], None);
    assert!(next.waits.is_empty());
    assert_eq!(next.signals, vec![QueueSignal::Point(2)]);
}

#[test]
fn completed_submissions_give_their_buffers_back() {
    let mut queue = Submissions::new();
    let mut cleanup = CleanupQueue::new();
    for buffer in 1..=4 {
        let submit = queue.submit(vec![buffer], &vec![], &vec![], None);
        queue.submitted(submit, &mut cleanup);
    }
    assert_eq!(queue.cleanup(2), vec![1, 2]);
    assert_eq!(queue.cleanup(2), Vec::<u64>::new());
    // The latest submission took the place of the first one.
    assert_eq!(queue.cleanup(u64::MAX), vec![4, 3]);
}

#[test]
fn implicit_fences_are_exchanged() {
    let mut sync = ImplicitSync::new(true);
    assert_eq!(sync.acquire(true), Some(SyncAccess { read: true, write: true }));
    assert_eq!(sync.acquire(false), Some(SyncAccess { read: true, write: false }));
    assert_eq!(sync.release(true), Some(SyncAccess { read: false, write: true }));
    assert_eq!(sync.release(false), Some(SyncAccess { read: true, write: false }));
    let mut waits = vec![];
    assert!(!sync.acquired(FenceExport::File(Some(5)), &mut waits));
    assert!(!sync.acquired(FenceExport::File(None), &mut waits));
    assert_eq!(waits, vec![5]);
    // A failure after it has worked once only blocks on that plane.
    assert!(sync.acquired(FenceExport::Failed, &mut waits));
    assert_eq!(sync.interop, Some(true));
    let mut sync = ImplicitSync::new(true);
    assert!(sync.acquired(FenceExport::Failed, &mut waits));
    assert_eq!(sync.interop, Some(false));
    assert_eq!(sync.acquire(true), None);
    assert_eq!(sync.release(true), None);
    assert_eq!(ImplicitSync::new(false).acquire(false), None);
}

fn covered(rects: &[Rectangle], x: i32, y: i32) -> usize {
    rects
        .iter()
        .filter(|r| {
            r.loc.x <= x && x < r.loc.x + r.size.w && r.loc.y <= y && y < r.loc.y + r.size.h
        })
        .count()
}

#[test]
fn regions_are_subtracted_pixel_by_pixel() {
    let rects = vec![rect(0, 0, 6, 6), rect(3, 3, 6, 6)];
    let others = vec![rect(2, 2, 3, 3), rect(-5, 5, 7, 1), rect(8, 8, 4, 4)];
    let rest = subtract_rects(&rects, &others);
    for x in -6..14 {
        for y in -6..14 {
            let expected = if covered(&others, x, y) > 0 { 0 } else { covered(&rects, x, y) };
            assert_eq!(covered(&rest, x, y), expected, "{x}, {y}");
        }
    }
    assert!(subtract_rects(&vec![rect(1, 1, 2, 2)], &vec![rect(0, 0, 9, 9)]).is_empty());
}

#[test]
fn damage_is_split_by_opacity() {
    let damage = vec![rect(0, 0, 4, 4)];
    let opaque = vec![rect(1, 1, 2, 2)];
    let split = split_damage(&damage, &opaque, true, FULL_ALPHA);
    for x in 0..4 {
        for y in 0..4 {
            let inner = covered(&opaque, x, y);
            assert_eq!(covered(&split.opaque, x, y), inner);
            assert_eq!(covered(&split.blended, x, y), 1 - inner);
        }
    }
    let split = split_damage(&damage, &opaque, false, FULL_ALPHA);
    assert_eq!((split.opaque, split.blended.len()), (damage.clone(), 0));
    let split = split_damage(&damage, &opaque, false, 0.5f32.to_bits());
    assert_eq!((split.blended, split.opaque.len()), (damage.clone(), 0));
    let split = split_damage(&damage, &vec![], true, FULL_ALPHA);
    assert_eq!((split.blended, split.opaque.len()), (damage, 0));
    assert_eq!(FULL_ALPHA, 1.0f32.to_bits());
}

#[test]
fn draws_are_clamped() {
    let mut commands = vec![];
    let rects = vec![rect(1, 1, 2, 2), rect(-3, 8, 5, 5), rect(10, 0, 3, 3), rect(2, 2, -1, 4)];
    let fill = Fill::Texture { alpha: 5, tinted: true };
    draw_rects(&mut commands, &rects, Size { w: 10, h: 10 }, Point { x: 100, y: 200 }, fill);
    assert_eq!(
        commands,
        vec![
            Command::Draw { rect: rect(101, 201, 2, 2), fill },
            // The location is moved into the area, the size is only cut at its end.
            Command::Draw { rect: rect(100, 208, 5, 2), fill },
        ]
    );
}

fn cache(target: &VulkanTarget) -> PipelineCache {
    let mut cache = PipelineCache::new();
    for (i, key) in needed_pipelines(target.vk_format()).into_iter().enumerate() {
        cache.created(key, Some(60 + i as u64)).unwrap();
    }
    cache
}

#[test]
fn frames_turn_sideways() {
    let target = target(10);
    let mut commands = vec![];
    let size = Size { w: 100, h: 50 };
    let frame = VulkanFrame::new(&target, size, Transform::Rotated90, &mut commands);
    assert_eq!(frame.output_size(), Size { w: 50, h: 100 });
    assert_eq!(frame.transformation(), Transform::Rotated90);
    assert_eq!(
        commands,
        vec![
            Command::SetArea(size),
            Command::BeginRendering { image: 10, layout: ImageLayout::General, size },
        ]
    );
    let frame = VulkanFrame::new(&target, size, Transform::Flipped180, &mut commands);
    assert_eq!(frame.output_size(), size);
}

#[test]
fn frames_take_over_and_give_back() {
    let mut target = target(10);
    let cache = cache(&target);
    let size = Size { w: 100, h: 50 };
    let mut commands = vec![];
    let mut frame = VulkanFrame::new(&target, size, Transform::Normal, &mut commands);
    commands.clear();

    let red = [FULL_ALPHA, 0, 0, FULL_ALPHA];
    frame.clear(&target, &cache, &vec![rect(0, 0, 100, 50)], red, &mut commands);
    let fill = Fill::Color(red);
    assert_eq!(
        commands,
        vec![Command::BindPipeline(62), Command::Draw { rect: rect(0, 0, 100, 50), fill }]
    );
    commands.clear();
    // The same pipeline is not bound again.
    let damage = vec![rect(0, 0, 5, 5)];
    frame.draw_solid(&target, &cache, rect(10, 10, 5, 5), &damage, red, &mut commands);
    assert_eq!(commands, vec![Command::Draw { rect: rect(10, 10, 5, 5), fill }]);
    commands.clear();
    let clear = [1, 2, 3, 0];
    frame.draw_solid(&target, &cache, rect(10, 10, 5, 5), &damage, clear, &mut commands);
    let fill = Fill::Color(clear);
    assert_eq!(
        commands,
        vec![Command::BindPipeline(63), Command::Draw { rect: rect(10, 10, 5, 5), fill }]
    );
    commands.clear();
    frame.draw_solid(&target, &cache, rect(10, 10, 5, 5), &vec![], clear, &mut commands);
    assert!(commands.is_empty());

    let texture = imported(20);
    assert!(!frame.use_texture(&texture, false, &vec![]));
    assert!(!frame.use_texture(&texture, true, &damage));
    assert!(frame.use_texture(&texture, false, &damage));
    assert!(frame.use_texture(&texture, false, &damage));
    assert!(frame.use_texture(&offscreen(30), false, &damage));
    let params = ColorBlendParams { tonemap: 1, ..ColorBlendParams::default() };
    frame.render_texture(
        &target,
        &cache,
        &texture,
        90,
        None,
        Some(params),
        rect(3, 4, 5, 5),
        &damage,
        &damage,
        FULL_ALPHA,
        true,
        &mut commands,
    );
    let fill = Fill::Texture { alpha: FULL_ALPHA, tinted: true };
    assert_eq!(
        commands,
        vec![
            Command::BindPipeline(60),
            Command::BindTexture { set: 90, image: 20, params: Some(params) },
            Command::Draw { rect: rect(0, 0, 5, 5), fill },
        ]
    );
    commands.clear();

    let end = frame.finish(&mut target, 1, &mut commands).unwrap();
    assert_eq!(commands.len(), 3);
    assert_eq!(commands[0], Command::EndRendering);
    assert!(matches!(
        commands[1],
        Command::Barrier(b) if b.image == 20 && b.dst_family == QUEUE_FAMILY_FOREIGN
            && b.old_layout == ImageLayout::ShaderReadOnlyOptimal
            && b.new_layout == ImageLayout::General
    ));
    assert!(matches!(
        commands[2],
        Command::Barrier(b) if b.image == 10 && b.dst_family == QUEUE_FAMILY_FOREIGN
    ));
    // A frame ends once.
    assert!(frame.finish(&mut target, 1, &mut commands).is_none());
    assert_eq!(commands.len(), 3);

    let first = end.acquire(&mut target, 1);
    assert_eq!(first.len(), 2);
    assert!(matches!(
        first[0],
        Command::Barrier(b) if b.image == 20 && b.src_family == QUEUE_FAMILY_FOREIGN
            && b.new_layout == ImageLayout::ShaderReadOnlyOptimal
    ));
    assert!(matches!(
        first[1],
        Command::Barrier(b) if b.image == 10 && b.old_layout == ImageLayout::Preinitialized
    ));
    // From now on the buffer has been used.
    let again = end.acquire(&mut target, 1);
    assert!(matches!(
        again[1],
        Command::Barrier(b) if b.old_layout == ImageLayout::General
    ));
}

#[test]
fn offscreen_targets_become_readable() {
    let mut target = VulkanTarget::Texture(offscreen(10));
    let mut commands = vec![];
    let size = Size { w: 100, h: 50 };
    let mut frame = VulkanFrame::new(&target, size, Transform::Normal, &mut commands);
    let end = frame.finish(&mut target, 0, &mut commands).unwrap();
    assert_eq!(target.transfer_state().layout, ImageLayout::ShaderReadOnlyOptimal);
    let acquire = end.acquire(&mut target, 0);
    assert!(matches!(
        acquire[0],
        Command::Barrier(b) if b.old_layout == ImageLayout::Undefined
            && b.new_layout == ImageLayout::ColorAttachmentOptimal
    ));
}

#[test]
fn frames_are_suspended_for_blits() {
    let target = target(10);
    let size = Size { w: 100, h: 50 };
    let mut commands = vec![];
    let mut frame = VulkanFrame::new(&target, size, Transform::Normal, &mut commands);
    commands.clear();
    let mut other = VulkanTarget::Texture(offscreen(20));
    let area = rect(0, 0, 10, 10);
    let fence = frame
        .blit_to(&target, &mut other, area, area, TextureFilter::Nearest, 1, 8, &mut commands)
        .unwrap();
    // The blit completes with the frame.
    assert_eq!(fence, VulkanFence { point: 8, binary: None });
    assert!(!fence.is_signaled(Some(7)));
    assert!(fence.is_signaled(Some(8)));
    assert_eq!(other.transfer_state().layout, ImageLayout::TransferDstOptimal);
    assert_eq!(commands.len(), 7);
    assert_eq!(commands[0], Command::EndRendering);
    assert!(matches!(
        commands[3],
        Command::Blit { src_image: 10, dst_image: 20, src_to: Point { x: 10, y: 10 }, .. }
    ));
    assert!(matches!(commands[5], Command::BeginRendering { image: 10, .. }));
    assert_eq!(commands[6], Command::SetArea(size));
    commands.clear();
    frame
        .blit_from(&target, &mut other, area, area, TextureFilter::Nearest, 1, 8, &mut commands)
        .unwrap();
    assert!(matches!(commands[3], Command::Blit { src_image: 20, dst_image: 10, .. }));
    commands.clear();
    let mut same = same_image();
    assert_eq!(
        frame
            .blit_to(&target, &mut same, area, area, TextureFilter::Nearest, 1, 8, &mut commands)
            .unwrap_err(),
        VulkanError::BlitSameImage
    );
    // Rectangles that reach beyond the coordinates do not matter then.
    let beyond = rect(i32::MAX, 0, 1, 1);
    assert_eq!(
        frame
            .blit_to(&target, &mut same, beyond, beyond, TextureFilter::Nearest, 1, 8, &mut commands)
            .unwrap_err(),
        VulkanError::BlitSameImage
    );
    assert!(commands.is_empty());
}

#[test]
fn frames_are_submitted_once() {
    let mut submissions = Submissions::new();
    let mut cleanup = CleanupQueue::new();
    let frame_buffer = submissions.add_command_buffers(vec![1, 2, 3, 4]);
    let mut target = VulkanTarget::Texture(offscreen(10));
    let size = Size { w: 100, h: 50 };
    let mut commands = vec![];
    let mut frame = VulkanFrame::new(&target, size, Transform::Normal, &mut commands);
    let mut drawn = VulkanTarget::Texture(offscreen(20));
    let mut blitted = VulkanTarget::Texture(offscreen(30));
    let mut unused = VulkanTarget::Texture(offscreen(40));
    let damage = vec![rect(0, 0, 5, 5)];
    assert!(frame.use_texture(&offscreen(20), false, &damage));
    let area = rect(0, 0, 10, 10);
    let point = submissions.next_point();
    let fence = frame
        .blit_from(&target, &mut blitted, area, area, TextureFilter::Linear, 1, point, &mut commands)
        .unwrap();

    let end = frame.finish(&mut target, 1, &mut commands).unwrap();
    let acquire_buffer = submissions.take_command_buffer().unwrap();
    end.acquire(&mut target, 1);
    let submit = end.submit(&mut submissions, acquire_buffer, frame_buffer, Some(70));
    assert_eq!(submit.queue_submit().command_buffers, vec![acquire_buffer, frame_buffer]);
    assert_eq!(
        submit.queue_submit().signals,
        vec![QueueSignal::Point(point), QueueSignal::Semaphore(70)]
    );
    let done = submit.submitted(&mut target, &mut submissions, &mut cleanup);
    assert_eq!(done.fence().point, point);
    assert_eq!(done.fence().point, fence.point);
    assert_eq!(done.fence().binary, Some(BinarySemaphore::Unexported(70)));
    assert_eq!(submissions.timeline_point(), point);

    for image in [&mut drawn, &mut blitted, &mut unused] {
        done.mark_used(image);
    }
    let last_uses = [&target, &drawn, &blitted, &unused].map(|image| match image {
        VulkanTarget::Texture(texture) => texture.last_use,
        VulkanTarget::Dmabuf(buffer) => buffer.last_use,
    });
    assert_eq!(last_uses, [point, point, point, 0]);
    assert_eq!(target.transfer_state().layout, ImageLayout::ShaderReadOnlyOptimal);

    // Nothing is submitted the second time.
    let recorded = commands.len();
    assert!(frame.finish(&mut target, 1, &mut commands).is_none());
    assert_eq!(commands.len(), recorded);
}

fn same_image() -> VulkanTarget {
    target(10)
}
