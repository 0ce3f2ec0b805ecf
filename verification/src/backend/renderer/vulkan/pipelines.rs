//! Pipelines, descriptor sets and samplers, and the caches for them.

use vstd::prelude::*;

use crate::backend::renderer::vulkan::commands::{ImageLayout, TextureFilter};
use crate::backend::renderer::vulkan::custom::{VulkanPixelProgram, MAX_CUSTOM_TEXTURES};
use crate::backend::renderer::vulkan::error::VulkanError;
use crate::backend::renderer::vulkan::formats::VkFormat;
use crate::backend::renderer::vulkan::texture;
use crate::backend::renderer::vulkan::texture::{Filters, PooledSet, VulkanTexture};

verus! {

/// Number of descriptor sets in a pool.
pub const DESCRIPTOR_POOL_SIZE: u32 = 256;

/// Number of uniform buffers in a descriptor pool.
pub const UNIFORM_POOL_SIZE: u32 = 64;

/// What identifies a pipeline.
#[derive(Debug, Clone, Copy, PartialEq, Eq, Structural)]
pub enum PipelineKey {
    /// A pipeline that draws a texture or a solid color.
    BuiltIn { format: VkFormat, solid: bool, blend: bool },
    /// A pipeline for the program with the given number.
    Custom { program: usize, format: VkFormat, blend: bool },
}

/// The pipelines that were created.
#[derive(Debug)]
pub struct PipelineCache {
    entries: Vec<(PipelineKey, u64)>,
}

/// The pipeline that is cached for a key.
pub open spec fn pipeline_for(entries: Seq<(PipelineKey, u64)>, key: PipelineKey) -> Option<u64>
    decreases entries.len(),
{
    if entries.len() == 0 {
        None
    } else if entries.last().0 == key {
        Some(entries.last().1)
    } else {
        pipeline_for(entries.drop_last(), key)
    }
}

impl PipelineCache {
    pub closed spec fn entries(&self) -> Seq<(PipelineKey, u64)> {
        self.entries@
    }

    /// The pipeline for a key.
    pub open spec fn pipeline(&self, key: PipelineKey) -> Option<u64> {
        pipeline_for(self.entries(), key)
    }

    /// No pipelines.
    pub fn new() -> (cache: Self)
        ensures
            forall|key: PipelineKey| #[trigger] cache.pipeline(key) is None,
    {
        PipelineCache { entries: Vec::new() }
    }

    /// Returns the pipeline for a key, if it was created before.
    pub fn get(&self, key: PipelineKey) -> (pipeline: Option<u64>)
        ensures
            pipeline == self.pipeline(key),
    {
        let ghost all = self.entries@;
        let mut i: usize = self.entries.len();
        assert(all.take(i as int) =~= all);
        while i > 0
            invariant
                i <= all.len(),
                all == self.entries@,
                pipeline_for(all.take(i as int), key) == pipeline_for(all, key),
            decreases i,
        {
            i = i - 1;
            assert(all.take(i + 1).drop_last() =~= all.take(i as int));
            if self.entries[i].0 == key {
                return Some(self.entries[i].1);
            }
        }
        None
    }

    /// Keeps the pipeline that was created for a key. `None` stands for one that could not be
    /// created: that is an error, and nothing is kept.
    pub fn created(&mut self, key: PipelineKey, pipeline: Option<u64>) -> (r: Result<
        u64,
        VulkanError,
    >)
        ensures
            match pipeline {
                Some(pipeline) => {
                    &&& r == Ok::<u64, VulkanError>(pipeline)
                    &&& final(self).pipeline(key) == Some(pipeline)
                    &&& forall|other: PipelineKey|
                        other != key ==> #[trigger] final(self).pipeline(other) == old(
                            self,
                        ).pipeline(other)
                },
                None => {
                    &&& r == Err::<u64, VulkanError>(VulkanError::PipelineCreation)
                    &&& *final(self) == *old(self)
                },
            },
    {
        match pipeline {
            Some(pipeline) => {
                let ghost before = self.entries@;
                self.entries.push((key, pipeline));
                assert(self.entries@.drop_last() =~= before);
                Ok(pipeline)
            },
            None => Err(VulkanError::PipelineCreation),
        }
    }
}

impl PipelineCache {
    /// The pipelines, to destroy them.
    pub fn handles(&self) -> (handles: Vec<u64>)
        ensures
            handles@ == self.entries().map_values(|e: (PipelineKey, u64)| e.1),
    {
        let mut handles: Vec<u64> = Vec::new();
        let mut i: usize = 0;
        while i < self.entries.len()
            invariant
                i <= self.entries@.len(),
                handles@.len() == i,
                forall|k: int| 0 <= k < i ==> #[trigger] handles@[k] == self.entries@[k].1,
            decreases self.entries@.len() - i,
        {
            handles.push(self.entries[i].1);
            i = i + 1;
        }
        assert(handles@ =~= self.entries().map_values(|e: (PipelineKey, u64)| e.1));
        handles
    }
}

/// How a pipeline is made.
#[derive(Debug, Clone, Copy, PartialEq, Eq, Structural)]
pub struct PipelineRecipe {
    pub vertex: u64,
    pub fragment: u64,
    pub layout: u64,
    pub format: VkFormat,
    /// Whether premultiplied colors are blended over the target.
    pub blend: bool,
}

/// The fixed objects of a renderer.
#[derive(Debug)]
pub struct FixedObjects {
    pub vertex_module: u64,
    pub texture_module: u64,
    pub solid_module: u64,
    /// Layouts of the texture descriptor sets, by the number of textures.
    pub texture_layouts: [u64; 3],
    pub params_layout: u64,
    /// Layouts of the pipelines, by the number of textures.
    pub pipeline_layouts: [u64; 3],
    /// Samplers, by the place of their filters.
    pub samplers: [u64; 4],
    /// Sampler for the textures of custom programs: linear, and transparent beyond the border.
    pub custom_sampler: u64,
}

/// A texture as a shader sees it.
#[derive(Debug, Clone, Copy, PartialEq, Eq, Structural)]
pub struct SampledImage {
    pub binding: u32,
    pub sampler: u64,
    pub view: u64,
    pub layout: ImageLayout,
}

/// The textures as a shader sees them, each at its place.
pub open spec fn sampled_images(views: Seq<u64>, sampler: u64) -> Seq<SampledImage> {
    Seq::new(
        views.len(),
        |i: int|
            SampledImage {
                binding: i as u32,
                sampler,
                view: views[i],
                layout: ImageLayout::ShaderReadOnlyOptimal,
            },
    )
}

impl FixedObjects {
    /// How to make the pipeline that draws a texture or a solid color.
    pub fn pipeline(&self, format: VkFormat, solid: bool, blend: bool) -> (recipe: PipelineRecipe)
        ensures
            recipe.vertex == self.vertex_module,
            recipe.fragment == if solid {
                self.solid_module
            } else {
                self.texture_module
            },
            recipe.layout == self.pipeline_layouts@[1],
            recipe.format == format,
            recipe.blend == blend,
    {
        PipelineRecipe {
            vertex: self.vertex_module,
            fragment: if solid {
                self.solid_module
            } else {
                self.texture_module
            },
            layout: self.pipeline_layouts[1],
            format,
            blend,
        }
    }

    /// How to make the pipeline of a program.
    pub fn custom_pipeline(&self, program: &VulkanPixelProgram, format: VkFormat, blend: bool) -> (recipe:
        PipelineRecipe)
        requires
            program.layout.wf(),
        ensures
            recipe.vertex == self.vertex_module,
            recipe.fragment == program.module,
            recipe.layout == self.pipeline_layouts@[program.layout.textures().len() as int],
            recipe.format == format,
            recipe.blend == blend,
    {
        PipelineRecipe {
            vertex: self.vertex_module,
            fragment: program.module,
            layout: self.pipeline_layouts[program.layout.texture_count()],
            format,
            blend,
        }
    }

    /// The sampler for a pair of filters.
    pub fn sampler(&self, filters: Filters) -> (sampler: u64)
        ensures
            sampler == self.samplers@[texture::filter_index(filters)],
    {
        match (filters.downscale, filters.upscale) {
            (TextureFilter::Linear, TextureFilter::Linear) => self.samplers[0],
            (TextureFilter::Linear, TextureFilter::Nearest) => self.samplers[1],
            (TextureFilter::Nearest, TextureFilter::Linear) => self.samplers[2],
            (TextureFilter::Nearest, TextureFilter::Nearest) => self.samplers[3],
        }
    }

    /// The layout of the set through which a single texture is drawn, and what the set is to
    /// hold for the given filters.
    ///
    /// Imported textures are moved to the readable layout by the barrier with which a frame
    /// acquires them; uploaded textures stay in that layout after the upload.
    pub fn texture_set(&self, image: &VulkanTexture, filters: Filters) -> (set: (
        u64,
        SampledImage,
    ))
        ensures
            set.0 == self.texture_layouts@[1],
            set.1 == (SampledImage {
                binding: 0,
                sampler: self.samplers@[texture::filter_index(filters)],
                view: image.view,
                layout: ImageLayout::ShaderReadOnlyOptimal,
            }),
    {
        (
            self.texture_layouts[1],
            SampledImage {
                binding: 0,
                sampler: self.sampler(filters),
                view: image.view,
                layout: ImageLayout::ShaderReadOnlyOptimal,
            },
        )
    }

    /// The layout of the set with the textures of a custom program, and what the set is to hold.
    /// Beyond their border the textures are transparent, or continue their edge.
    pub fn custom_texture_set(&self, views: &Vec<u64>, edge_clamp: bool) -> (set: (
        u64,
        Vec<SampledImage>,
    ))
        requires
            views@.len() <= MAX_CUSTOM_TEXTURES,
        ensures
            set.0 == self.texture_layouts@[views@.len() as int],
            set.1@ == sampled_images(
                views@,
                if edge_clamp {
                    self.samplers@[0]
                } else {
                    self.custom_sampler
                },
            ),
    {
        let sampler: u64 = if edge_clamp {
            self.samplers[0]
        } else {
            self.custom_sampler
        };
        let mut images: Vec<SampledImage> = Vec::new();
        let mut i: usize = 0;
        while i < views.len()
            invariant
                i <= views@.len() <= MAX_CUSTOM_TEXTURES,
                images@.len() == i,
                forall|k: int|
                    0 <= k < i ==> #[trigger] images@[k] == sampled_images(views@, sampler)[k],
            decreases views@.len() - i,
        {
            images.push(
                SampledImage {
                    binding: i as u32,
                    sampler,
                    view: views[i],
                    layout: ImageLayout::ShaderReadOnlyOptimal,
                },
            );
            i = i + 1;
        }
        assert(images@ =~= sampled_images(views@, sampler));
        (self.texture_layouts[views.len()], images)
    }
}

/// A descriptor pool, and how many sets are left in it.
#[derive(Debug, Clone, Copy, PartialEq, Eq, Structural)]
pub struct DescriptorPool {
    pub pool: u64,
    pub free: u32,
}

/// The descriptor pools of a renderer.
#[derive(Debug)]
pub struct DescriptorPools {
    pools: Vec<DescriptorPool>,
}

/// Where a descriptor set is to be allocated.
#[derive(Debug, Clone, Copy, PartialEq, Eq, Structural)]
pub enum PoolChoice {
    /// In the pool at the given place.
    Existing { place: usize, pool: u64 },
    /// In a new pool.
    Fresh,
}

/// The first pool at or behind a place that has sets left.
pub open spec fn next_pool(pools: Seq<DescriptorPool>, from: int) -> Option<int>
    decreases pools.len() - from,
{
    if from < 0 || from >= pools.len() {
        None
    } else if pools[from].free > 0 {
        Some(from)
    } else {
        next_pool(pools, from + 1)
    }
}

impl DescriptorPools {
    pub closed spec fn view(&self) -> Seq<DescriptorPool> {
        self.pools@
    }

    /// No pools.
    pub fn new() -> (pools: Self)
        ensures
            pools@ == Seq::<DescriptorPool>::empty(),
    {
        DescriptorPools { pools: Vec::new() }
    }

    /// Where to try to allocate a set. The pools before `from` were tried before.
    pub fn choose_pool(&self, from: usize) -> (choice: PoolChoice)
        ensures
            match next_pool(self@, from as int) {
                Some(place) => choice == (PoolChoice::Existing {
                    place: place as usize,
                    pool: self@[place].pool,
                }) && from <= place < self@.len() && self@[place].free > 0,
                None => choice is Fresh,
            },
    {
        let mut i: usize = from;
        while i < self.pools.len()
            invariant
                from <= i,
                next_pool(self@, i as int) == next_pool(self@, from as int),
            decreases self.pools@.len() - i,
        {
            if self.pools[i].free > 0 {
                return PoolChoice::Existing { place: i, pool: self.pools[i].pool };
            }
            i = i + 1;
        }
        PoolChoice::Fresh
    }

    /// Takes note of a set that was allocated in the pool at a place.
    pub fn allocated(&mut self, place: usize, set: u64) -> (pooled: PooledSet)
        requires
            place < old(self)@.len(),
            old(self)@[place as int].free > 0,
        ensures
            pooled == (PooledSet { pool: old(self)@[place as int].pool, set }),
            final(self)@ == old(self)@.update(
                place as int,
                DescriptorPool {
                    pool: old(self)@[place as int].pool,
                    free: (old(self)@[place as int].free - 1) as u32,
                },
            ),
    {
        let pool = self.pools[place];
        self.pools.set(place, DescriptorPool { pool: pool.pool, free: pool.free - 1 });
        PooledSet { pool: pool.pool, set }
    }

    /// Takes note of a new pool, and of the first set in it.
    pub fn added(&mut self, pool: u64, set: u64) -> (pooled: PooledSet)
        ensures
            pooled == (PooledSet { pool, set }),
            final(self)@ == old(self)@.push(
                DescriptorPool { pool, free: (DESCRIPTOR_POOL_SIZE - 1) as u32 },
            ),
    {
        self.pools.push(DescriptorPool { pool, free: DESCRIPTOR_POOL_SIZE - 1 });
        PooledSet { pool, set }
    }

    /// The pools, to destroy them.
    pub fn handles(&self) -> (handles: Vec<u64>)
        ensures
            handles@ == self@.map_values(|p: DescriptorPool| p.pool),
    {
        let mut handles: Vec<u64> = Vec::new();
        let mut i: usize = 0;
        while i < self.pools.len()
            invariant
                i <= self.pools@.len(),
                handles@.len() == i,
                forall|k: int| 0 <= k < i ==> #[trigger] handles@[k] == self.pools@[k].pool,
            decreases self.pools@.len() - i,
        {
            handles.push(self.pools[i].pool);
            i = i + 1;
        }
        assert(handles@ =~= self@.map_values(|p: DescriptorPool| p.pool));
        handles
    }
}

/// The images of a custom shader are bound in their order, each to the binding of its place, all
/// through the same sampler.
pub proof fn law_images_are_bound_in_order(views: Seq<u64>, sampler: u64, i: int)
    requires
        0 <= i < views.len() <= u32::MAX,
    ensures
        sampled_images(views, sampler).len() == views.len(),
        sampled_images(views, sampler)[i].binding == i,
        sampled_images(views, sampler)[i].view == views[i],
        sampled_images(views, sampler)[i].sampler == sampler,
        sampled_images(views, sampler)[i].layout == ImageLayout::ShaderReadOnlyOptimal,
{
}

/// The pool that is tried next is the first one from there on that has a set to give.
pub proof fn law_next_pool_has_room(pools: Seq<DescriptorPool>, from: int)
    requires
        0 <= from <= pools.len(),
    ensures
        match next_pool(pools, from) {
            Some(place) => {
                &&& from <= place < pools.len()
                &&& pools[place].free > 0
                &&& forall|k: int| from <= k < place ==> (#[trigger] pools[k]).free == 0
            },
            None => forall|k: int| from <= k < pools.len() ==> (#[trigger] pools[k]).free == 0,
        },
    decreases pools.len() - from,
{
    if from < pools.len() && pools[from].free == 0 {
        law_next_pool_has_room(pools, from + 1);
    }
}

/// A pipeline that is found was made for that very key, and none was made for it later.
pub proof fn law_pipelines_are_found_by_their_key(entries: Seq<(PipelineKey, u64)>, key: PipelineKey)
    ensures
        match pipeline_for(entries, key) {
            Some(pipeline) => exists|i: int|
                0 <= i < entries.len() && #[trigger] entries[i] == (key, pipeline) && forall|j: int|
                    i < j < entries.len() ==> (#[trigger] entries[j]).0 != key,
            None => forall|i: int| 0 <= i < entries.len() ==> (#[trigger] entries[i]).0 != key,
        },
    decreases entries.len(),
{
    if entries.len() > 0 {
        let rest = entries.drop_last();
        let n = entries.len() - 1;
        assert(entries.last() == entries[n]);
        assert forall|i: int| 0 <= i < n implies #[trigger] rest[i] == entries[i] by {}
        if entries[n].0 == key {
            assert(entries[n] == (key, entries[n].1));
        } else {
            law_pipelines_are_found_by_their_key(rest, key);
            match pipeline_for(rest, key) {
                Some(pipeline) => {
                    let i = choose|i: int|
                        0 <= i < rest.len() && #[trigger] rest[i] == (key, pipeline) && forall|j: int|
                            i < j < rest.len() ==> (#[trigger] rest[j]).0 != key;
                    assert(entries[i] == (key, pipeline));
                    assert forall|j: int| i < j < entries.len() implies (#[trigger] entries[j]).0
                        != key by {
                        if j < n {
                            assert(rest[j] == entries[j]);
                        }
                    }
                },
                None => {
                    assert forall|i: int| 0 <= i < entries.len() implies (#[trigger] entries[i]).0
                        != key by {
                        if i < n {
                            assert(rest[i] == entries[i]);
                        }
                    }
                },
            }
        }
    }
}

} // verus!
