//! Setting up a device for rendering: what it has to support, and the objects that every
//! renderer needs.

use vstd::prelude::*;

use crate::backend::renderer::vulkan::commands::TextureFilter;
use crate::backend::renderer::vulkan::error::VulkanError;
use crate::backend::renderer::vulkan::formats::has_flags;
use crate::backend::renderer::vulkan::formats;
use crate::backend::renderer::vulkan::pipelines::FixedObjects;
use crate::backend::renderer::vulkan::renderer::VulkanRenderer;
use crate::backend::renderer::vulkan::texture::Filters;
use crate::backend::renderer::vulkan::texture;
use crate::text::same_text;

verus! {

/// Queues that can draw.
pub const QUEUE_GRAPHICS: u32 = 0x1;

/// Semaphores can be exported.
pub const SEMAPHORE_EXPORTABLE: u32 = 0x1;

/// Semaphores can be imported.
pub const SEMAPHORE_IMPORTABLE: u32 = 0x2;

/// A version of the Vulkan API.
#[derive(Debug, Clone, Copy, PartialEq, Eq, Structural)]
pub struct Version {
    pub variant: u32,
    pub major: u32,
    pub minor: u32,
    pub patch: u32,
}

impl Version {
    /// Whether a version comes before another one.
    pub open spec fn precedes(self, other: Version) -> bool {
        ||| self.variant < other.variant
        ||| self.variant == other.variant && self.major < other.major
        ||| self.variant == other.variant && self.major == other.major && self.minor < other.minor
        ||| self.variant == other.variant && self.major == other.major && self.minor == other.minor
            && self.patch < other.patch
    }

    /// The version that a renderer needs.
    pub open spec fn needed() -> Version {
        Version { variant: 0, major: 1, minor: 3, patch: 0 }
    }

    /// Whether a renderer can work with this version.
    pub fn is_sufficient(&self) -> (sufficient: bool)
        ensures
            sufficient <==> !self.precedes(Version::needed()),
    {
        self.variant > 0 || self.major > 1 || (self.major == 1 && self.minor >= 3)
    }
}

/// The device extensions without which there is no rendering.
pub open spec fn needed_extensions() -> Seq<Seq<char>> {
    seq![
        "VK_EXT_image_drm_format_modifier"@,
        "VK_EXT_external_memory_dma_buf"@,
        "VK_EXT_queue_family_foreign"@,
        "VK_KHR_external_memory_fd"@,
    ]
}

/// The texts of a list.
pub open spec fn texts(list: Seq<&'static str>) -> Seq<Seq<char>> {
    list.map_values(|s: &'static str| s@)
}

/// The names of a list.
pub open spec fn names(list: Seq<String>) -> Seq<Seq<char>> {
    list.map_values(|s: String| s@)
}

/// What a device reports of itself.
#[derive(Debug)]
pub struct DeviceReport {
    pub api_version: Version,
    /// The extensions that the device has.
    pub extensions: Vec<String>,
    /// What can be done with semaphores in the form of sync files.
    pub semaphore_features: u32,
    /// What the families of queues are capable of.
    pub queue_families: Vec<u32>,
    /// The smallest alignment of uniform buffers.
    pub uniform_alignment: u64,
}

/// How a device is to be set up.
#[derive(Debug)]
pub struct DevicePlan {
    pub queue_family: u32,
    /// The extensions to enable.
    pub extensions: Vec<&'static str>,
    /// Whether semaphores can be exported as sync files.
    pub sync_fd_export: bool,
    /// Whether semaphores can be imported from sync files.
    pub sync_fd_import: bool,
    /// Minimum alignment for the offsets of parameter blocks.
    pub params_align: u32,
}

/// The first of some extensions that is not available.
pub open spec fn first_missing(needed: Seq<Seq<char>>, available: Seq<Seq<char>>) -> Option<
    Seq<char>,
>
    decreases needed.len(),
{
    if needed.len() == 0 {
        None
    } else if !available.contains(needed.first()) {
        Some(needed.first())
    } else {
        first_missing(needed.drop_first(), available)
    }
}

/// The first family of queues that can draw.
pub open spec fn first_graphics(families: Seq<u32>, from: int) -> Option<int>
    decreases families.len() - from,
{
    if from < 0 || from >= families.len() {
        None
    } else if formats::contains_flags(families[from], QUEUE_GRAPHICS) {
        Some(from)
    } else {
        first_graphics(families, from + 1)
    }
}

fn has_extension(available: &Vec<String>, name: &str) -> (found: bool)
    ensures
        found <==> names(available@).contains(name@),
{
    let mut i: usize = 0;
    while i < available.len()
        invariant
            i <= available@.len(),
            forall|k: int| 0 <= k < i ==> (#[trigger] available@[k])@ != name@,
        decreases available@.len() - i,
    {
        if same_text(available[i].as_str(), name) {
            assert(names(available@)[i as int] == name@);
            return true;
        }
        i = i + 1;
    }
    proof {
        if names(available@).contains(name@) {
            let k = names(available@).index_of(name@);
            assert(available@[k]@ == name@);
        }
    }
    false
}

/// The name of the extension that exchanges semaphores as files.
pub open spec fn semaphore_extension() -> Seq<char> {
    "VK_KHR_external_semaphore_fd"@
}

impl DeviceReport {
    /// Whether the device can do something with semaphores in the form of sync files.
    pub open spec fn semaphores_can(self, feature: u32) -> bool {
        names(self.extensions@).contains(semaphore_extension()) && formats::contains_flags(
            self.semaphore_features,
            feature,
        )
    }
}

/// Decides whether and how a device is set up.
///
/// Fails if the version of the API is too old, if a required extension is missing, or if no
/// queue can draw.
pub fn plan_device(report: &DeviceReport) -> (r: Result<DevicePlan, VulkanError>)
    requires
        report.queue_families@.len() <= u32::MAX,
    ensures
        if report.api_version.precedes(Version::needed()) {
            r == Err::<DevicePlan, VulkanError>(VulkanError::UnsupportedVersion(1, 3))
        } else if first_missing(needed_extensions(), names(report.extensions@)) is Some {
            r matches Err(VulkanError::MissingExtension(name)) && Some(name@) == first_missing(
                needed_extensions(),
                names(report.extensions@),
            )
        } else if first_graphics(report.queue_families@, 0) is None {
            r == Err::<DevicePlan, VulkanError>(VulkanError::NoGraphicsQueue)
        } else {
            r matches Ok(plan) && {
                &&& Some(plan.queue_family as int) == first_graphics(report.queue_families@, 0)
                &&& texts(plan.extensions@) == if names(report.extensions@).contains(
                    semaphore_extension(),
                ) {
                    needed_extensions().push(semaphore_extension())
                } else {
                    needed_extensions()
                }
                &&& plan.sync_fd_export == report.semaphores_can(SEMAPHORE_EXPORTABLE)
                &&& plan.sync_fd_import == report.semaphores_can(SEMAPHORE_IMPORTABLE)
                &&& plan.params_align == (if report.uniform_alignment > 4 {
                    report.uniform_alignment as int
                } else {
                    4
                }) % 0x1_0000_0000
            }
        },
{
    if !report.api_version.is_sufficient() {
        return Err(VulkanError::UnsupportedVersion(1, 3));
    }
    let mut extensions = VulkanRenderer::required_extensions();
    let ghost needed = needed_extensions();
    let ghost available = names(report.extensions@);
    let mut i: usize = 0;
    assert(needed.skip(0) =~= needed);
    while i < extensions.len()
        invariant
            needed == needed_extensions(),
            texts(extensions@) == needed,
            available == names(report.extensions@),
            i <= extensions@.len(),
            first_missing(needed.skip(i as int), available) == first_missing(needed, available),
            !report.api_version.precedes(Version::needed()),
        decreases extensions@.len() - i,
    {
        let extension = extensions[i];
        proof {
            assert(texts(extensions@)[i as int] == extension@);
            assert(needed.skip(i as int).first() == extension@);
            assert(needed.skip(i as int).drop_first() =~= needed.skip(i + 1));
        }
        if !has_extension(&report.extensions, extension) {
            return Err(VulkanError::MissingExtension(extension));
        }
        i = i + 1;
    }
    assert(needed.skip(i as int).len() == 0);
    let has_semaphores = has_extension(&report.extensions, "VK_KHR_external_semaphore_fd");

    let mut family: usize = 0;
    while family < report.queue_families.len() && !has_flags(
        report.queue_families[family],
        QUEUE_GRAPHICS,
    )
        invariant
            family <= report.queue_families@.len(),
            first_graphics(report.queue_families@, family as int) == first_graphics(
                report.queue_families@,
                0,
            ),
        decreases report.queue_families@.len() - family,
    {
        family = family + 1;
    }
    if family == report.queue_families.len() {
        return Err(VulkanError::NoGraphicsQueue);
    }
    if has_semaphores {
        let ghost before = extensions@;
        extensions.push("VK_KHR_external_semaphore_fd");
        assert(texts(extensions@) =~= texts(before).push(semaphore_extension()));
    }
    let align: u64 = if report.uniform_alignment > 4 {
        report.uniform_alignment
    } else {
        4
    };
    Ok(
        DevicePlan {
            queue_family: family as u32,
            extensions,
            sync_fd_export: has_semaphores && has_flags(
                report.semaphore_features,
                SEMAPHORE_EXPORTABLE,
            ),
            sync_fd_import: has_semaphores && has_flags(
                report.semaphore_features,
                SEMAPHORE_IMPORTABLE,
            ),
            params_align: (align % 0x1_0000_0000) as u32,
        },
    )
}

impl DevicePlan {
    /// Whether semaphores are exchanged as sync files at all.
    pub fn uses_sync_files(&self) -> (uses: bool)
        ensures
            uses <==> self.sync_fd_export || self.sync_fd_import,
    {
        self.sync_fd_export || self.sync_fd_import
    }
}

/// The shaders that every renderer has.
#[derive(Debug, Clone, Copy, PartialEq, Eq, Structural)]
pub enum BuiltInShader {
    /// Places the corners of a rectangle.
    Vertex,
    /// Colors it with a texture.
    Texture,
    /// Fills it with a color.
    Solid,
}

/// An object that every renderer needs.
#[derive(Debug, Clone, Copy, PartialEq, Eq, Structural)]
pub enum ObjectRecipe {
    /// The pool of command buffers.
    CommandPool,
    /// A shader.
    Shader(BuiltInShader),
    /// The layout of descriptor sets with the given number of textures.
    TextureLayout(u32),
    /// The layout of descriptor sets with a parameter block.
    ParamsLayout,
    /// The layout of pipelines with the given layouts of descriptor sets.
    PipelineLayout { textures: u64, params: u64 },
    /// A sampler. Beyond the border of a texture it continues the edge, or is transparent.
    Sampler { min: TextureFilter, mag: TextureFilter, transparent_border: bool },
}

/// Number of objects that every renderer needs.
pub const OBJECT_COUNT: usize = 16;

/// A sampler that continues the edge of a texture beyond its border.
pub open spec fn edge_sampler(min: TextureFilter, mag: TextureFilter) -> ObjectRecipe {
    ObjectRecipe::Sampler { min, mag, transparent_border: false }
}

/// The objects in the order in which they are created; later ones refer to earlier ones.
pub open spec fn recipes(made: Seq<u64>) -> Seq<ObjectRecipe> {
    seq![
        ObjectRecipe::CommandPool,
        ObjectRecipe::Shader(BuiltInShader::Vertex),
        ObjectRecipe::Shader(BuiltInShader::Texture),
        ObjectRecipe::Shader(BuiltInShader::Solid),
        ObjectRecipe::TextureLayout(1),
        ObjectRecipe::ParamsLayout,
        ObjectRecipe::TextureLayout(0),
        ObjectRecipe::TextureLayout(2),
        ObjectRecipe::PipelineLayout { textures: made[6], params: made[5] },
        ObjectRecipe::PipelineLayout { textures: made[4], params: made[5] },
        ObjectRecipe::PipelineLayout { textures: made[7], params: made[5] },
        ObjectRecipe::Sampler {
            min: TextureFilter::Linear,
            mag: TextureFilter::Linear,
            transparent_border: true,
        },
        edge_sampler(TextureFilter::Linear, TextureFilter::Linear),
        edge_sampler(TextureFilter::Linear, TextureFilter::Nearest),
        edge_sampler(TextureFilter::Nearest, TextureFilter::Linear),
        edge_sampler(TextureFilter::Nearest, TextureFilter::Nearest),
    ]
}

/// The object to create next, given those that exist.
pub open spec fn recipe_after(made: Seq<u64>) -> Option<ObjectRecipe> {
    if made.len() < OBJECT_COUNT {
        Some(recipes(made)[made.len() as int])
    } else {
        None
    }
}

/// The objects that were created so far while a renderer is set up.
#[derive(Debug)]
pub struct Setup {
    made: Vec<u64>,
}

impl Setup {
    pub closed spec fn view(&self) -> Seq<u64> {
        self.made@
    }

    /// Nothing was created yet.
    pub fn new() -> (setup: Self)
        ensures
            setup@ == Seq::<u64>::empty(),
    {
        Setup { made: Vec::new() }
    }

    /// The object to create next.
    pub fn next_object(&self) -> (recipe: Option<ObjectRecipe>)
        ensures
            recipe == recipe_after(self@),
    {
        let made = &self.made;
        let linear = TextureFilter::Linear;
        let nearest = TextureFilter::Nearest;
        let recipe = match made.len() {
            0 => ObjectRecipe::CommandPool,
            1 => ObjectRecipe::Shader(BuiltInShader::Vertex),
            2 => ObjectRecipe::Shader(BuiltInShader::Texture),
            3 => ObjectRecipe::Shader(BuiltInShader::Solid),
            4 => ObjectRecipe::TextureLayout(1),
            5 => ObjectRecipe::ParamsLayout,
            6 => ObjectRecipe::TextureLayout(0),
            7 => ObjectRecipe::TextureLayout(2),
            8 => ObjectRecipe::PipelineLayout { textures: made[6], params: made[5] },
            9 => ObjectRecipe::PipelineLayout { textures: made[4], params: made[5] },
            10 => ObjectRecipe::PipelineLayout { textures: made[7], params: made[5] },
            11 => ObjectRecipe::Sampler { min: linear, mag: linear, transparent_border: true },
            12 => ObjectRecipe::Sampler { min: linear, mag: linear, transparent_border: false },
            13 => ObjectRecipe::Sampler { min: linear, mag: nearest, transparent_border: false },
            14 => ObjectRecipe::Sampler { min: nearest, mag: linear, transparent_border: false },
            15 => ObjectRecipe::Sampler { min: nearest, mag: nearest, transparent_border: false },
            _ => return None,
        };
        Some(recipe)
    }

    /// Takes note of the object that was created last.
    pub fn created(&mut self, object: u64)
        ensures
            final(self)@ == old(self)@.push(object),
    {
        self.made.push(object);
    }

    /// The command pool, and the other objects.
    pub fn finish(&self) -> (r: (u64, FixedObjects))
        requires
            self@.len() == OBJECT_COUNT,
        ensures
            r.0 == self@[0],
            is_made_of(r.1, self@),
    {
        let made = &self.made;
        (
            made[0],
            FixedObjects {
                vertex_module: made[1],
                texture_module: made[2],
                solid_module: made[3],
                texture_layouts: [made[6], made[4], made[7]],
                params_layout: made[5],
                pipeline_layouts: [made[8], made[9], made[10]],
                samplers: [made[12], made[13], made[14], made[15]],
                custom_sampler: made[11],
            },
        )
    }
}

/// Whether the objects of a renderer are those that were created, each in its place.
pub open spec fn is_made_of(objects: FixedObjects, made: Seq<u64>) -> bool {
    &&& objects.vertex_module == made[1]
    &&& objects.texture_module == made[2]
    &&& objects.solid_module == made[3]
    &&& objects.texture_layouts@ == seq![made[6], made[4], made[7]]
    &&& objects.params_layout == made[5]
    &&& objects.pipeline_layouts@ == seq![made[8], made[9], made[10]]
    &&& objects.samplers@ == seq![made[12], made[13], made[14], made[15]]
    &&& objects.custom_sampler == made[11]
}

/// Whether an object was created with a recipe.
pub open spec fn was_made_with(made: Seq<u64>, object: u64, recipe: ObjectRecipe) -> bool {
    exists|k: int|
        0 <= k < made.len() && #[trigger] made[k] == object && recipe_after(made.take(k)) == Some(
            recipe,
        )
}

/// Setting up ends with all objects, and not earlier.
pub proof fn law_setup_is_complete(made: Seq<u64>)
    ensures
        recipe_after(made) is None <==> made.len() >= OBJECT_COUNT,
{
}

/// The layouts match: the sets for a number of textures have that many textures, and the
/// pipelines for it take such a set and a parameter block.
pub proof fn law_layouts_match(objects: FixedObjects, made: Seq<u64>, count: int)
    requires
        made.len() == OBJECT_COUNT,
        is_made_of(objects, made),
        0 <= count <= 2,
    ensures
        was_made_with(
            made,
            objects.texture_layouts@[count],
            ObjectRecipe::TextureLayout(count as u32),
        ),
        was_made_with(made, objects.params_layout, ObjectRecipe::ParamsLayout),
        was_made_with(
            made,
            objects.pipeline_layouts@[count],
            ObjectRecipe::PipelineLayout {
                textures: objects.texture_layouts@[count],
                params: objects.params_layout,
            },
        ),
{
    let layout = if count == 0 {
        6
    } else if count == 1 {
        4
    } else {
        7int
    };
    assert(made[layout] == objects.texture_layouts@[count]);
    assert(made.take(layout).len() == layout);
    assert(made[5] == objects.params_layout);
    assert(made.take(5).len() == 5);
    assert(made[8 + count] == objects.pipeline_layouts@[count]);
    let before = made.take(8 + count);
    assert(before[4] == made[4] && before[5] == made[5] && before[6] == made[6] && before[7]
        == made[7]);
}

/// The samplers are those for their filters.
pub proof fn law_samplers_match(
    objects: FixedObjects,
    made: Seq<u64>,
    filters: Filters,
)
    requires
        made.len() == OBJECT_COUNT,
        is_made_of(objects, made),
    ensures
        was_made_with(
            made,
            objects.samplers@[texture::filter_index(filters)],
            ObjectRecipe::Sampler {
                min: filters.downscale,
                mag: filters.upscale,
                transparent_border: false,
            },
        ),
{
    let i = texture::filter_index(filters);
    assert(made[12 + i] == objects.samplers@[i]);
    assert(made.take(12 + i).len() == 12 + i);
}

/// An object that is destroyed together with a renderer.
#[derive(Debug, Clone, Copy, PartialEq, Eq, Structural)]
pub enum Teardown {
    PipelineLayout(u64),
    SetLayout(u64),
    Sampler(u64),
    Shader(u64),
}

impl FixedObjects {
    /// The objects to destroy, in order.
    pub open spec fn teardown_order(self) -> Seq<Teardown> {
        seq![
            Teardown::PipelineLayout(self.pipeline_layouts@[0]),
            Teardown::PipelineLayout(self.pipeline_layouts@[1]),
            Teardown::PipelineLayout(self.pipeline_layouts@[2]),
            Teardown::SetLayout(self.texture_layouts@[0]),
            Teardown::SetLayout(self.texture_layouts@[2]),
            Teardown::SetLayout(self.texture_layouts@[1]),
            Teardown::SetLayout(self.params_layout),
            Teardown::Sampler(self.custom_sampler),
            Teardown::Shader(self.vertex_module),
            Teardown::Shader(self.texture_module),
            Teardown::Shader(self.solid_module),
            Teardown::Sampler(self.samplers@[0]),
            Teardown::Sampler(self.samplers@[1]),
            Teardown::Sampler(self.samplers@[2]),
            Teardown::Sampler(self.samplers@[3]),
        ]
    }

    /// The objects to destroy, in order.
    pub fn teardown(&self) -> (items: Vec<Teardown>)
        ensures
            items@ == self.teardown_order(),
    {
        let mut items: Vec<Teardown> = Vec::new();
        items.push(Teardown::PipelineLayout(self.pipeline_layouts[0]));
        items.push(Teardown::PipelineLayout(self.pipeline_layouts[1]));
        items.push(Teardown::PipelineLayout(self.pipeline_layouts[2]));
        items.push(Teardown::SetLayout(self.texture_layouts[0]));
        items.push(Teardown::SetLayout(self.texture_layouts[2]));
        items.push(Teardown::SetLayout(self.texture_layouts[1]));
        items.push(Teardown::SetLayout(self.params_layout));
        items.push(Teardown::Sampler(self.custom_sampler));
        items.push(Teardown::Shader(self.vertex_module));
        items.push(Teardown::Shader(self.texture_module));
        items.push(Teardown::Shader(self.solid_module));
        items.push(Teardown::Sampler(self.samplers[0]));
        items.push(Teardown::Sampler(self.samplers[1]));
        items.push(Teardown::Sampler(self.samplers[2]));
        items.push(Teardown::Sampler(self.samplers[3]));
        assert(items@ =~= self.teardown_order());
        items
    }
}

/// The object behind a part of the teardown.
pub open spec fn torn_down(item: Teardown) -> u64 {
    match item {
        Teardown::PipelineLayout(object) => object,
        Teardown::SetLayout(object) => object,
        Teardown::Sampler(object) => object,
        Teardown::Shader(object) => object,
    }
}

/// Every object that was created is destroyed, and none of them twice.
pub proof fn law_torn_down_once(objects: FixedObjects, made: Seq<u64>)
    requires
        made.len() == OBJECT_COUNT,
        made.no_duplicates(),
        is_made_of(objects, made),
    ensures
        objects.teardown_order().map_values(|t: Teardown| torn_down(t)).no_duplicates(),
        forall|k: int|
            1 <= k < OBJECT_COUNT ==> objects.teardown_order().map_values(
                |t: Teardown| torn_down(t),
            ).contains(#[trigger] made[k]),
{
    let order = objects.teardown_order().map_values(|t: Teardown| torn_down(t));
    let places = seq![8int, 9, 10, 6, 7, 4, 5, 11, 1, 2, 3, 12, 13, 14, 15];
    assert(order.len() == 15);
    assert forall|i: int| 0 <= i < 15 implies #[trigger] order[i] == made[places[i]] by {
    }
    assert forall|i: int, j: int| 0 <= i < j < 15 implies order[i] != order[j] by {
        assert(places[i] != places[j]);
    }
    let inverse = seq![0int, 8, 9, 10, 5, 6, 3, 4, 0, 1, 2, 7, 11, 12, 13, 14];
    assert forall|k: int| 1 <= k < OBJECT_COUNT implies order.contains(#[trigger] made[k]) by {
        assert(places[inverse[k]] == k);
        assert(order[inverse[k]] == made[k]);
    }
}

/// A version is sufficient exactly if it is not older than 1.3: a later variant always is, and else
/// a later major version, and else a minor version of at least three.
pub proof fn law_sufficient_versions(version: Version, other: Version)
    ensures
        version.precedes(Version::needed()) <==> version.variant == 0 && (version.major == 0 || (
        version.major == 1 && version.minor < 3)),
        !(version.precedes(other) && other.precedes(version)),
        !version.precedes(other) && !other.precedes(version) ==> version.variant == other.variant
            && version.major == other.major && version.minor == other.minor && version.patch
            == other.patch,
{
}

/// The extension that is reported as missing is the first of the needed ones that is not
/// available; none is reported only if all are.
pub proof fn law_missing_extensions(needed: Seq<Seq<char>>, available: Seq<Seq<char>>)
    ensures
        match first_missing(needed, available) {
            Some(name) => exists|i: int|
                0 <= i < needed.len() && #[trigger] needed[i] == name && !available.contains(name)
                    && forall|j: int| 0 <= j < i ==> available.contains(#[trigger] needed[j]),
            None => forall|i: int| 0 <= i < needed.len() ==> available.contains(#[trigger] needed[i]),
        },
    decreases needed.len(),
{
    if needed.len() > 0 {
        let rest = needed.drop_first();
        assert(needed.first() == needed[0]);
        assert forall|i: int| 0 <= i < rest.len() implies #[trigger] rest[i] == needed[i + 1] by {}
        if available.contains(needed[0]) {
            law_missing_extensions(rest, available);
            match first_missing(rest, available) {
                Some(name) => {
                    let i = choose|i: int|
                        0 <= i < rest.len() && #[trigger] rest[i] == name && !available.contains(name)
                            && forall|j: int| 0 <= j < i ==> available.contains(#[trigger] rest[j]);
                    assert(needed[i + 1] == name);
                    assert forall|j: int| 0 <= j < i + 1 implies available.contains(
                        #[trigger] needed[j],
                    ) by {
                        if j > 0 {
                            assert(rest[j - 1] == needed[j]);
                        }
                    }
                },
                None => {
                    assert forall|i: int| 0 <= i < needed.len() implies available.contains(
                        #[trigger] needed[i],
                    ) by {
                        if i > 0 {
                            assert(rest[i - 1] == needed[i]);
                        }
                    }
                },
            }
        }
    }
}

/// The queue family that is chosen is the first one that can do graphics.
pub proof fn law_first_graphics_family(families: Seq<u32>, from: int)
    requires
        0 <= from <= families.len(),
    ensures
        match first_graphics(families, from) {
            Some(i) => {
                &&& from <= i < families.len()
                &&& families[i] & QUEUE_GRAPHICS == QUEUE_GRAPHICS
                &&& forall|k: int|
                    from <= k < i ==> (#[trigger] families[k]) & QUEUE_GRAPHICS != QUEUE_GRAPHICS
            },
            None => forall|k: int|
                from <= k < families.len() ==> (#[trigger] families[k]) & QUEUE_GRAPHICS
                    != QUEUE_GRAPHICS,
        },
    decreases families.len() - from,
{
    if from < families.len() && families[from] & QUEUE_GRAPHICS != QUEUE_GRAPHICS {
        law_first_graphics_family(families, from + 1);
    }
}

/// Each of the shaders was made as what it is used for. The sampler of custom shaders is linear and
/// has a transparent border.
pub proof fn law_shaders_match(objects: FixedObjects, made: Seq<u64>)
    requires
        made.len() == OBJECT_COUNT,
        is_made_of(objects, made),
    ensures
        was_made_with(made, objects.vertex_module, ObjectRecipe::Shader(BuiltInShader::Vertex)),
        was_made_with(made, objects.texture_module, ObjectRecipe::Shader(BuiltInShader::Texture)),
        was_made_with(made, objects.solid_module, ObjectRecipe::Shader(BuiltInShader::Solid)),
        was_made_with(
            made,
            objects.custom_sampler,
            ObjectRecipe::Sampler {
                min: TextureFilter::Linear,
                mag: TextureFilter::Linear,
                transparent_border: true,
            },
        ),
        was_made_with(made, made[0], ObjectRecipe::CommandPool),
{
    assert(recipe_after(made.take(0)) == Some(ObjectRecipe::CommandPool));
    assert(recipe_after(made.take(1)) == Some(ObjectRecipe::Shader(BuiltInShader::Vertex)));
    assert(recipe_after(made.take(2)) == Some(ObjectRecipe::Shader(BuiltInShader::Texture)));
    assert(recipe_after(made.take(3)) == Some(ObjectRecipe::Shader(BuiltInShader::Solid)));
    assert(recipe_after(made.take(11)) == Some(
        ObjectRecipe::Sampler {
            min: TextureFilter::Linear,
            mag: TextureFilter::Linear,
            transparent_border: true,
        },
    ));
}

/// Every object is torn down as what it is.
pub proof fn law_torn_down_as_what_it_is(objects: FixedObjects, k: int)
    requires
        0 <= k < objects.teardown_order().len(),
    ensures
        match objects.teardown_order()[k] {
            Teardown::PipelineLayout(object) => objects.pipeline_layouts@.contains(object),
            Teardown::SetLayout(object) => objects.texture_layouts@.contains(object) || object
                == objects.params_layout,
            Teardown::Sampler(object) => objects.samplers@.contains(object) || object
                == objects.custom_sampler,
            Teardown::Shader(object) => object == objects.vertex_module || object
                == objects.texture_module || object == objects.solid_module,
        },
{
}

} // verus!
