//! Format tables.
//!
//! FourCC codes are mapped to formats whose texels are neither linearized when sampling nor
//! encoded when writing to the target: blending happens directly in the (typically
//! sRGB-encoded) framebuffer values.

use vstd::prelude::*;

verus! {

/// A FourCC code.
#[derive(Debug, Clone, Copy, PartialEq, Eq, Structural)]
pub enum Fourcc {
    Argb8888,
    Xrgb8888,
    Abgr8888,
    Xbgr8888,
    Rgba8888,
    Rgbx8888,
    Argb2101010,
    Xrgb2101010,
    Abgr2101010,
    Xbgr2101010,
    Abgr16161616f,
    Xbgr16161616f,
    Rgb565,
    /// Any other code.
    Other(u32),
}

/// A Vulkan format.
#[derive(Debug, Clone, Copy, PartialEq, Eq, Structural)]
pub enum VkFormat {
    B8G8R8A8Unorm,
    R8G8B8A8Unorm,
    A8B8G8R8UnormPack32,
    A2R10G10B10UnormPack32,
    A2B10G10R10UnormPack32,
    R16G16B16A16Sfloat,
    R5G6B5UnormPack16,
}

impl Fourcc {
    /// The number of the code.
    pub open spec fn number(self) -> u32 {
        match self {
            Fourcc::Argb8888 => 0x3432_5241,
            Fourcc::Xrgb8888 => 0x3432_5258,
            Fourcc::Abgr8888 => 0x3432_4241,
            Fourcc::Xbgr8888 => 0x3432_4258,
            Fourcc::Rgba8888 => 0x3432_4152,
            Fourcc::Rgbx8888 => 0x3432_5852,
            Fourcc::Argb2101010 => 0x3033_5241,
            Fourcc::Xrgb2101010 => 0x3033_5258,
            Fourcc::Abgr2101010 => 0x3033_4241,
            Fourcc::Xbgr2101010 => 0x3033_4258,
            Fourcc::Abgr16161616f => 0x4834_4241,
            Fourcc::Xbgr16161616f => 0x4834_4258,
            Fourcc::Rgb565 => 0x3631_4752,
            Fourcc::Other(number) => number,
        }
    }

    /// The number of the code.
    pub fn code(&self) -> (number: u32)
        ensures
            number == self.number(),
    {
        match self {
            Fourcc::Argb8888 => 0x3432_5241,
            Fourcc::Xrgb8888 => 0x3432_5258,
            Fourcc::Abgr8888 => 0x3432_4241,
            Fourcc::Xbgr8888 => 0x3432_4258,
            Fourcc::Rgba8888 => 0x3432_4152,
            Fourcc::Rgbx8888 => 0x3432_5852,
            Fourcc::Argb2101010 => 0x3033_5241,
            Fourcc::Xrgb2101010 => 0x3033_5258,
            Fourcc::Abgr2101010 => 0x3033_4241,
            Fourcc::Xbgr2101010 => 0x3033_4258,
            Fourcc::Abgr16161616f => 0x4834_4241,
            Fourcc::Xbgr16161616f => 0x4834_4258,
            Fourcc::Rgb565 => 0x3631_4752,
            Fourcc::Other(number) => *number,
        }
    }

    /// Whether the code is only named by its number if it has no other name.
    pub open spec fn is_canonical(self) -> bool {
        self matches Fourcc::Other(number) ==> forall|f: Fourcc| #[trigger]
            f.number() == number ==> f is Other
    }

    /// The code with this number.
    pub fn from_code(number: u32) -> (fourcc: Fourcc)
        ensures
            fourcc.number() == number,
            fourcc.is_canonical(),
    {
        if number == 0x3432_5241 {
            Fourcc::Argb8888
        } else if number == 0x3432_5258 {
            Fourcc::Xrgb8888
        } else if number == 0x3432_4241 {
            Fourcc::Abgr8888
        } else if number == 0x3432_4258 {
            Fourcc::Xbgr8888
        } else if number == 0x3432_4152 {
            Fourcc::Rgba8888
        } else if number == 0x3432_5852 {
            Fourcc::Rgbx8888
        } else if number == 0x3033_5241 {
            Fourcc::Argb2101010
        } else if number == 0x3033_5258 {
            Fourcc::Xrgb2101010
        } else if number == 0x3033_4241 {
            Fourcc::Abgr2101010
        } else if number == 0x3033_4258 {
            Fourcc::Xbgr2101010
        } else if number == 0x4834_4241 {
            Fourcc::Abgr16161616f
        } else if number == 0x4834_4258 {
            Fourcc::Xbgr16161616f
        } else if number == 0x3631_4752 {
            Fourcc::Rgb565
        } else {
            Fourcc::Other(number)
        }
    }
}

impl VkFormat {
    /// The number of the format.
    pub open spec fn number(self) -> i32 {
        match self {
            VkFormat::R5G6B5UnormPack16 => 4,
            VkFormat::R8G8B8A8Unorm => 37,
            VkFormat::B8G8R8A8Unorm => 44,
            VkFormat::A8B8G8R8UnormPack32 => 51,
            VkFormat::A2R10G10B10UnormPack32 => 58,
            VkFormat::A2B10G10R10UnormPack32 => 64,
            VkFormat::R16G16B16A16Sfloat => 97,
        }
    }

    /// The number of the format.
    pub fn raw(&self) -> (number: i32)
        ensures
            number == self.number(),
    {
        match self {
            VkFormat::R5G6B5UnormPack16 => 4,
            VkFormat::R8G8B8A8Unorm => 37,
            VkFormat::B8G8R8A8Unorm => 44,
            VkFormat::A8B8G8R8UnormPack32 => 51,
            VkFormat::A2R10G10B10UnormPack32 => 58,
            VkFormat::A2B10G10R10UnormPack32 => 64,
            VkFormat::R16G16B16A16Sfloat => 97,
        }
    }
}

/// Mapping of a FourCC code to a Vulkan format.
#[derive(Debug, Clone, Copy, PartialEq, Eq, Structural)]
pub struct FormatMapping {
    pub fourcc: Fourcc,
    pub vk: VkFormat,
    /// Whether the FourCC format has an alpha channel.
    ///
    /// Formats without alpha are sampled through an image view with the alpha component
    /// swizzled to one.
    pub has_alpha: bool,
}

/// The formats known to the renderer.
///
/// FourCC codes describe little-endian packed values, non-`PACK` Vulkan formats describe byte
/// order. The packed formats are only valid on little-endian hosts.
pub open spec fn mapping_of(fourcc: Fourcc, little_endian: bool) -> Option<FormatMapping> {
    let vk = match fourcc {
        Fourcc::Argb8888 | Fourcc::Xrgb8888 => Some(VkFormat::B8G8R8A8Unorm),
        Fourcc::Abgr8888 | Fourcc::Xbgr8888 => Some(VkFormat::R8G8B8A8Unorm),
        Fourcc::Abgr16161616f | Fourcc::Xbgr16161616f => Some(VkFormat::R16G16B16A16Sfloat),
        _ if !little_endian => None,
        Fourcc::Rgba8888 | Fourcc::Rgbx8888 => Some(VkFormat::A8B8G8R8UnormPack32),
        Fourcc::Argb2101010 | Fourcc::Xrgb2101010 => Some(VkFormat::A2R10G10B10UnormPack32),
        Fourcc::Abgr2101010 | Fourcc::Xbgr2101010 => Some(VkFormat::A2B10G10R10UnormPack32),
        Fourcc::Rgb565 => Some(VkFormat::R5G6B5UnormPack16),
        _ => None,
    };
    match vk {
        Some(vk) => Some(FormatMapping { fourcc, vk, has_alpha: is_translucent(fourcc) }),
        None => None,
    }
}

/// Whether a known format has an alpha channel.
pub open spec fn is_translucent(fourcc: Fourcc) -> bool {
    match fourcc {
        Fourcc::Argb8888
        | Fourcc::Abgr8888
        | Fourcc::Rgba8888
        | Fourcc::Argb2101010
        | Fourcc::Abgr2101010
        | Fourcc::Abgr16161616f => true,
        _ => false,
    }
}

fn mapping(fourcc: Fourcc, vk: VkFormat, has_alpha: bool) -> (m: FormatMapping)
    ensures
        m == (FormatMapping { fourcc, vk, has_alpha }),
{
    FormatMapping { fourcc, vk, has_alpha }
}

/// The codes of the formats known to the renderer, in order.
pub open spec fn known_codes(little_endian: bool) -> Seq<Fourcc> {
    if little_endian {
        seq![
            Fourcc::Argb8888,
            Fourcc::Xrgb8888,
            Fourcc::Abgr8888,
            Fourcc::Xbgr8888,
            Fourcc::Rgba8888,
            Fourcc::Rgbx8888,
            Fourcc::Argb2101010,
            Fourcc::Xrgb2101010,
            Fourcc::Abgr2101010,
            Fourcc::Xbgr2101010,
            Fourcc::Abgr16161616f,
            Fourcc::Xbgr16161616f,
            Fourcc::Rgb565,
        ]
    } else {
        seq![
            Fourcc::Argb8888,
            Fourcc::Xrgb8888,
            Fourcc::Abgr8888,
            Fourcc::Xbgr8888,
            Fourcc::Abgr16161616f,
            Fourcc::Xbgr16161616f,
        ]
    }
}

/// All format conversions known to the renderer.
pub fn known_formats(little_endian: bool) -> (formats: Vec<FormatMapping>)
    ensures
        formats@.len() == known_codes(little_endian).len(),
        forall|i: int|
            0 <= i < formats@.len() ==> mapping_of(known_codes(little_endian)[i], little_endian)
                == Some(#[trigger] formats@[i]),
{
    let mut formats: Vec<FormatMapping> = Vec::new();
    formats.push(mapping(Fourcc::Argb8888, VkFormat::B8G8R8A8Unorm, true));
    formats.push(mapping(Fourcc::Xrgb8888, VkFormat::B8G8R8A8Unorm, false));
    formats.push(mapping(Fourcc::Abgr8888, VkFormat::R8G8B8A8Unorm, true));
    formats.push(mapping(Fourcc::Xbgr8888, VkFormat::R8G8B8A8Unorm, false));
    if little_endian {
        formats.push(mapping(Fourcc::Rgba8888, VkFormat::A8B8G8R8UnormPack32, true));
        formats.push(mapping(Fourcc::Rgbx8888, VkFormat::A8B8G8R8UnormPack32, false));
        formats.push(mapping(Fourcc::Argb2101010, VkFormat::A2R10G10B10UnormPack32, true));
        formats.push(mapping(Fourcc::Xrgb2101010, VkFormat::A2R10G10B10UnormPack32, false));
        formats.push(mapping(Fourcc::Abgr2101010, VkFormat::A2B10G10R10UnormPack32, true));
        formats.push(mapping(Fourcc::Xbgr2101010, VkFormat::A2B10G10R10UnormPack32, false));
    }
    formats.push(mapping(Fourcc::Abgr16161616f, VkFormat::R16G16B16A16Sfloat, true));
    formats.push(mapping(Fourcc::Xbgr16161616f, VkFormat::R16G16B16A16Sfloat, false));
    if little_endian {
        formats.push(mapping(Fourcc::Rgb565, VkFormat::R5G6B5UnormPack16, false));
    }
    formats
}

/// The mapping of a code, if it is known.
pub fn get_format_mapping(fourcc: Fourcc, little_endian: bool) -> (m: Option<FormatMapping>)
    ensures
        m == mapping_of(fourcc, little_endian),
{
    let formats = known_formats(little_endian);
    let mut i: usize = 0;
    while i < formats.len()
        invariant
            i <= formats@.len(),
            formats@.len() == known_codes(little_endian).len(),
            forall|k: int|
                0 <= k < formats@.len() ==> mapping_of(known_codes(little_endian)[k], little_endian)
                    == Some(#[trigger] formats@[k]),
            forall|k: int| 0 <= k < i ==> #[trigger] formats@[k].fourcc != fourcc,
        decreases formats@.len() - i,
    {
        if formats[i].fourcc == fourcc {
            return Some(formats[i]);
        }
        i = i + 1;
    }
    proof {
        let codes = known_codes(little_endian);
        if mapping_of(fourcc, little_endian) is Some {
            lemma_known(fourcc, little_endian);
            let k = choose|k: int| 0 <= k < codes.len() && codes[k] == fourcc;
            assert(formats@[k].fourcc == fourcc);
        }
    }
    None
}

/// A code is listed exactly if it has a mapping.
proof fn lemma_known(fourcc: Fourcc, little_endian: bool)
    ensures
        known_codes(little_endian).contains(fourcc) <==> mapping_of(fourcc, little_endian) is Some,
{
    let codes = known_codes(little_endian);
    if mapping_of(fourcc, little_endian) is Some {
        if little_endian {
            let k: int = match fourcc {
                Fourcc::Argb8888 => 0,
                Fourcc::Xrgb8888 => 1,
                Fourcc::Abgr8888 => 2,
                Fourcc::Xbgr8888 => 3,
                Fourcc::Rgba8888 => 4,
                Fourcc::Rgbx8888 => 5,
                Fourcc::Argb2101010 => 6,
                Fourcc::Xrgb2101010 => 7,
                Fourcc::Abgr2101010 => 8,
                Fourcc::Xbgr2101010 => 9,
                Fourcc::Abgr16161616f => 10,
                Fourcc::Xbgr16161616f => 11,
                _ => 12,
            };
            assert(codes[k] == fourcc);
        } else {
            let k: int = match fourcc {
                Fourcc::Argb8888 => 0,
                Fourcc::Xrgb8888 => 1,
                Fourcc::Abgr8888 => 2,
                Fourcc::Xbgr8888 => 3,
                Fourcc::Abgr16161616f => 4,
                _ => 5,
            };
            assert(codes[k] == fourcc);
        }
    }
}

/// Bytes per pixel of a mappable format.
pub open spec fn pixel_bytes(fourcc: Fourcc) -> Option<usize> {
    match fourcc {
        Fourcc::Abgr16161616f | Fourcc::Xbgr16161616f => Some(8),
        Fourcc::Rgb565 => Some(2),
        Fourcc::Other(_) => None,
        _ => Some(4),
    }
}

/// Bytes per pixel of a mappable format.
pub fn bytes_per_pixel(fourcc: Fourcc) -> (bytes: Option<usize>)
    ensures
        bytes == pixel_bytes(fourcc),
{
    match fourcc {
        Fourcc::Argb8888
        | Fourcc::Xrgb8888
        | Fourcc::Abgr8888
        | Fourcc::Xbgr8888
        | Fourcc::Rgba8888
        | Fourcc::Rgbx8888
        | Fourcc::Argb2101010
        | Fourcc::Xrgb2101010
        | Fourcc::Abgr2101010
        | Fourcc::Xbgr2101010 => Some(4),
        Fourcc::Abgr16161616f | Fourcc::Xbgr16161616f => Some(8),
        Fourcc::Rgb565 => Some(2),
        Fourcc::Other(_) => None,
    }
}

/// Whether a format is supported for memory (shm) imports.
pub open spec fn is_mem_format(fourcc: Fourcc) -> bool {
    fourcc == Fourcc::Abgr8888 || fourcc == Fourcc::Xbgr8888 || fourcc == Fourcc::Argb8888 || fourcc
        == Fourcc::Xrgb8888
}

/// Formats supported for memory (shm) imports.
pub fn mem_formats() -> (formats: Vec<Fourcc>)
    ensures
        formats@ == seq![Fourcc::Abgr8888, Fourcc::Xbgr8888, Fourcc::Argb8888, Fourcc::Xrgb8888],
        forall|f: Fourcc| #[trigger] formats@.contains(f) <==> is_mem_format(f),
{
    let formats = vec![Fourcc::Abgr8888, Fourcc::Xbgr8888, Fourcc::Argb8888, Fourcc::Xrgb8888];
    proof {
        assert(formats@ =~= seq![
            Fourcc::Abgr8888,
            Fourcc::Xbgr8888,
            Fourcc::Argb8888,
            Fourcc::Xrgb8888,
        ]);
        assert(formats@[0] == Fourcc::Abgr8888);
        assert(formats@[1] == Fourcc::Xbgr8888);
        assert(formats@[2] == Fourcc::Argb8888);
        assert(formats@[3] == Fourcc::Xrgb8888);
    }
    formats
}

/// Whether a format is supported for memory (shm) imports.
pub fn supports_mem(fourcc: Fourcc) -> (supported: bool)
    ensures
        supported == is_mem_format(fourcc),
{
    fourcc == Fourcc::Abgr8888 || fourcc == Fourcc::Xbgr8888 || fourcc == Fourcc::Argb8888 || fourcc
        == Fourcc::Xrgb8888
}

/// Every format that can be imported from memory is known, with 4 bytes per pixel, whatever the
/// byte order; and every known format has a pixel size.
pub proof fn law_mappable_formats_have_a_pixel_size(fourcc: Fourcc, little_endian: bool)
    ensures
        is_mem_format(fourcc) ==> mapping_of(fourcc, little_endian) is Some && pixel_bytes(fourcc)
            == Some(4usize),
        mapping_of(fourcc, little_endian) is Some ==> pixel_bytes(fourcc) is Some,
{
}

/// A two-dimensional extent.
#[derive(Debug, Clone, Copy, PartialEq, Eq, Structural)]
pub struct Extent {
    pub width: u32,
    pub height: u32,
}

/// A format with a modifier.
#[derive(Debug, Clone, Copy, PartialEq, Eq, Structural)]
pub struct DrmFormat {
    pub code: Fourcc,
    pub modifier: u64,
}

/// Properties of one supported (format, modifier) pair.
#[derive(Debug, Clone, Copy, PartialEq, Eq, Structural)]
pub struct ModifierInfo {
    pub modifier: u64,
    pub plane_count: u32,
    pub max_extent: Extent,
}

/// What the device says about a format with a modifier.
#[derive(Debug, Clone, Copy, PartialEq, Eq, Structural)]
pub struct ModifierAnswer {
    pub modifier: u64,
    pub plane_count: u32,
    /// The features of images with this modifier.
    pub features: u32,
    /// The maximum extent of sampled images, if they are supported.
    pub texture_extent: Option<Extent>,
    /// The maximum extent of render targets, if they are supported.
    pub render_extent: Option<Extent>,
}

/// What the device says about a format.
#[derive(Debug)]
pub struct FormatAnswer {
    /// The features of optimally tiled images.
    pub optimal_features: u32,
    /// The maximum extent of optimally tiled sampled images, if they are supported.
    pub optimal_texture_extent: Option<Extent>,
    /// The maximum extent of optimally tiled offscreen images, if they are supported.
    pub optimal_offscreen_extent: Option<Extent>,
    /// The modifiers of the format.
    pub modifiers: Vec<ModifierAnswer>,
}

/// Device-specific properties of a supported format.
#[derive(Debug)]
pub struct FormatInfo {
    pub mapping: FormatMapping,
    /// Modifiers usable for sampling (dmabuf texture import).
    pub texture_modifiers: Vec<ModifierInfo>,
    /// Modifiers usable as a color attachment (dmabuf render target).
    pub render_modifiers: Vec<ModifierInfo>,
    /// Maximum extent for optimally tiled sampled images, if supported.
    pub optimal_max_extent: Option<Extent>,
    /// Whether optimally tiled images support color attachment usage.
    pub optimal_render: bool,
}

/// What a [`FormatInfo`] means.
#[verifier::ext_equal]
pub struct InfoModel {
    pub mapping: FormatMapping,
    pub texture_modifiers: Seq<ModifierInfo>,
    pub render_modifiers: Seq<ModifierInfo>,
    pub optimal_max_extent: Option<Extent>,
    pub optimal_render: bool,
}

impl FormatInfo {
    pub open spec fn view(&self) -> InfoModel {
        InfoModel {
            mapping: self.mapping,
            texture_modifiers: self.texture_modifiers@,
            render_modifiers: self.render_modifiers@,
            optimal_max_extent: self.optimal_max_extent,
            optimal_render: self.optimal_render,
        }
    }
}

/// Usage of images: source of a transfer.
pub const USAGE_TRANSFER_SRC: u32 = 0x1;

/// Usage of images: destination of a transfer.
pub const USAGE_TRANSFER_DST: u32 = 0x2;

/// Usage of images that are sampled, and of textures imported from dmabufs.
pub const TEXTURE_USAGE: u32 = 0x4;

/// Usage of images: color attachment.
pub const USAGE_COLOR_ATTACHMENT: u32 = 0x10;

/// Usage of render targets: color attachment, source and destination of transfers.
pub const RENDER_USAGE: u32 = 0x13;

/// Usage of textures that are uploaded from memory: sampled, source and destination of
/// transfers.
pub const MEM_TEXTURE_USAGE: u32 = 0x7;

/// Usage of offscreen buffers: that of render targets, and sampled.
pub const OFFSCREEN_USAGE: u32 = 0x17;

/// Feature of images that can be sampled.
pub const TEXTURE_FEATURES: u32 = 0x1;

/// Feature of images that can be rendered to with blending.
pub const RENDER_FEATURES: u32 = 0x100;

/// Whether all of the given flags are set.
pub open spec fn contains_flags(flags: u32, wanted: u32) -> bool {
    flags & wanted == wanted
}

/// Whether all of the given flags are set.
pub fn has_flags(flags: u32, wanted: u32) -> (has: bool)
    ensures
        has == contains_flags(flags, wanted),
{
    flags & wanted == wanted
}

impl ModifierAnswer {
    /// What is usable for sampling.
    pub open spec fn texture(self) -> Option<ModifierInfo> {
        match self.texture_extent {
            Some(max_extent) if contains_flags(self.features, TEXTURE_FEATURES) => Some(
                ModifierInfo { modifier: self.modifier, plane_count: self.plane_count, max_extent },
            ),
            _ => None,
        }
    }

    /// What is usable for rendering.
    pub open spec fn render(self) -> Option<ModifierInfo> {
        match self.render_extent {
            Some(max_extent) if contains_flags(self.features, RENDER_FEATURES) => Some(
                ModifierInfo { modifier: self.modifier, plane_count: self.plane_count, max_extent },
            ),
            _ => None,
        }
    }
}

/// The modifiers that are usable for sampling, or for rendering, in order.
pub open spec fn usable_modifiers(answers: Seq<ModifierAnswer>, render: bool) -> Seq<ModifierInfo>
    decreases answers.len(),
{
    if answers.len() == 0 {
        Seq::empty()
    } else {
        let before = usable_modifiers(answers.drop_last(), render);
        let last = if render {
            answers.last().render()
        } else {
            answers.last().texture()
        };
        match last {
            Some(info) => before.push(info),
            None => before,
        }
    }
}

/// The properties of a format, from what the device says about it.
pub open spec fn described(mapping: FormatMapping, answer: FormatAnswer) -> InfoModel {
    InfoModel {
        mapping,
        texture_modifiers: usable_modifiers(answer.modifiers@, false),
        render_modifiers: usable_modifiers(answer.modifiers@, true),
        optimal_max_extent: if contains_flags(answer.optimal_features, TEXTURE_FEATURES) {
            answer.optimal_texture_extent
        } else {
            None
        },
        optimal_render: contains_flags(answer.optimal_features, RENDER_FEATURES)
            && answer.optimal_offscreen_extent is Some,
    }
}

/// The properties of a format, from what the device says about it.
pub fn query_format_info(mapping: FormatMapping, answer: &FormatAnswer) -> (info: FormatInfo)
    ensures
        info@ == described(mapping, *answer),
{
    let mut texture_modifiers: Vec<ModifierInfo> = Vec::new();
    let mut render_modifiers: Vec<ModifierInfo> = Vec::new();
    let mut i: usize = 0;
    assert(answer.modifiers@.take(0) =~= Seq::<ModifierAnswer>::empty());
    while i < answer.modifiers.len()
        invariant
            i <= answer.modifiers@.len(),
            texture_modifiers@ == usable_modifiers(answer.modifiers@.take(i as int), false),
            render_modifiers@ == usable_modifiers(answer.modifiers@.take(i as int), true),
        decreases answer.modifiers@.len() - i,
    {
        let props = answer.modifiers[i];
        proof {
            assert(answer.modifiers@.take(i + 1).drop_last() =~= answer.modifiers@.take(i as int));
            assert(answer.modifiers@.take(i + 1).last() == props);
        }
        if has_flags(props.features, TEXTURE_FEATURES) {
            if let Some(max_extent) = props.texture_extent {
                texture_modifiers.push(
                    ModifierInfo {
                        modifier: props.modifier,
                        plane_count: props.plane_count,
                        max_extent,
                    },
                );
            }
        }
        if has_flags(props.features, RENDER_FEATURES) {
            if let Some(max_extent) = props.render_extent {
                render_modifiers.push(
                    ModifierInfo {
                        modifier: props.modifier,
                        plane_count: props.plane_count,
                        max_extent,
                    },
                );
            }
        }
        i = i + 1;
    }
    assert(answer.modifiers@.take(i as int) =~= answer.modifiers@);
    FormatInfo {
        mapping,
        texture_modifiers,
        render_modifiers,
        optimal_max_extent: if has_flags(answer.optimal_features, TEXTURE_FEATURES) {
            answer.optimal_texture_extent
        } else {
            None
        },
        optimal_render: has_flags(answer.optimal_features, RENDER_FEATURES)
            && answer.optimal_offscreen_extent.is_some(),
    }
}

/// The formats a device supports.
#[derive(Debug)]
pub struct FormatTable {
    infos: Vec<FormatInfo>,
}

/// Appends a format unless it is listed already.
pub open spec fn with_format(formats: Seq<DrmFormat>, format: DrmFormat) -> Seq<DrmFormat> {
    if formats.contains(format) {
        formats
    } else {
        formats.push(format)
    }
}

/// The formats followed by those of a code with its modifiers, each listed once.
pub open spec fn with_modifiers(
    formats: Seq<DrmFormat>,
    code: Fourcc,
    modifiers: Seq<ModifierInfo>,
) -> Seq<DrmFormat>
    decreases modifiers.len(),
{
    if modifiers.len() == 0 {
        formats
    } else {
        with_format(
            with_modifiers(formats, code, modifiers.drop_last()),
            DrmFormat { code, modifier: modifiers.last().modifier },
        )
    }
}

/// The modifiers of a format for sampling or for rendering.
pub open spec fn modifiers_of(info: InfoModel, render: bool) -> Seq<ModifierInfo> {
    if render {
        info.render_modifiers
    } else {
        info.texture_modifiers
    }
}

/// All formats that can be imported from dmabufs for sampling or for rendering, each listed
/// once.
pub open spec fn dmabuf_formats_of(infos: Seq<InfoModel>, render: bool) -> Seq<DrmFormat>
    decreases infos.len(),
{
    if infos.len() == 0 {
        Seq::empty()
    } else {
        with_modifiers(
            dmabuf_formats_of(infos.drop_last(), render),
            infos.last().mapping.fourcc,
            modifiers_of(infos.last(), render),
        )
    }
}

/// The properties of a format, if it is listed: those of its first entry.
pub open spec fn info_for(infos: Seq<InfoModel>, fourcc: Fourcc) -> Option<InfoModel>
    decreases infos.len(),
{
    if infos.len() == 0 {
        None
    } else if infos.first().mapping.fourcc == fourcc {
        Some(infos.first())
    } else {
        info_for(infos.drop_first(), fourcc)
    }
}

fn add_formats(formats: &mut Vec<DrmFormat>, code: Fourcc, modifiers: &Vec<ModifierInfo>)
    ensures
        final(formats)@ == with_modifiers(old(formats)@, code, modifiers@),
{
    let ghost before = formats@;
    let mut i: usize = 0;
    assert(modifiers@.take(0) =~= Seq::<ModifierInfo>::empty());
    while i < modifiers.len()
        invariant
            i <= modifiers@.len(),
            formats@ == with_modifiers(before, code, modifiers@.take(i as int)),
        decreases modifiers@.len() - i,
    {
        let format = DrmFormat { code, modifier: modifiers[i].modifier };
        proof {
            assert(modifiers@.take(i + 1).drop_last() =~= modifiers@.take(i as int));
            assert(modifiers@.take(i + 1).last() == modifiers@[i as int]);
        }
        let mut known: bool = false;
        let mut k: usize = 0;
        while k < formats.len()
            invariant
                k <= formats@.len(),
                known == exists|j: int| 0 <= j < k && #[trigger] formats@[j] == format,
            decreases formats@.len() - k,
        {
            if formats[k] == format {
                known = true;
            }
            k = k + 1;
        }
        assert(known == formats@.contains(format));
        if !known {
            formats.push(format);
        }
        i = i + 1;
    }
    assert(modifiers@.take(i as int) =~= modifiers@);
}

impl FormatTable {
    pub closed spec fn view(&self) -> Seq<InfoModel> {
        self.infos@.map_values(|info: FormatInfo| info@)
    }

    /// A table of these formats.
    pub fn new(infos: Vec<FormatInfo>) -> (table: Self)
        ensures
            table@ == infos@.map_values(|info: FormatInfo| info@),
    {
        FormatTable { infos }
    }

    /// The properties of a format.
    pub fn get(&self, fourcc: Fourcc) -> (info: Option<&FormatInfo>)
        ensures
            match info {
                Some(info) => info_for(self@, fourcc) == Some(info@),
                None => info_for(self@, fourcc) is None,
            },
    {
        let mut i: usize = 0;
        assert(self@.skip(0) =~= self@);
        while i < self.infos.len()
            invariant
                i <= self.infos@.len(),
                info_for(self@.skip(i as int), fourcc) == info_for(self@, fourcc),
            decreases self.infos@.len() - i,
        {
            proof {
                assert(self@.skip(i as int).first() == self.infos@[i as int]@);
                assert(self@.skip(i as int).drop_first() =~= self@.skip(i + 1));
            }
            if self.infos[i].mapping.fourcc == fourcc {
                return Some(&self.infos[i]);
            }
            i = i + 1;
        }
        None
    }

    /// The formats that can be imported from dmabufs for sampling, or for rendering. Each is
    /// listed once.
    pub fn dmabuf_formats(&self, render: bool) -> (formats: Vec<DrmFormat>)
        ensures
            formats@ == dmabuf_formats_of(self@, render),
    {
        let mut formats: Vec<DrmFormat> = Vec::new();
        let mut i: usize = 0;
        assert(self@.take(0) =~= Seq::<InfoModel>::empty());
        while i < self.infos.len()
            invariant
                i <= self.infos@.len(),
                formats@ == dmabuf_formats_of(self@.take(i as int), render),
            decreases self.infos@.len() - i,
        {
            proof {
                assert(self@.take(i + 1).drop_last() =~= self@.take(i as int));
                assert(self@.take(i + 1).last() == self.infos@[i as int]@);
            }
            let info = &self.infos[i];
            if render {
                add_formats(&mut formats, info.mapping.fourcc, &info.render_modifiers);
            } else {
                add_formats(&mut formats, info.mapping.fourcc, &info.texture_modifiers);
            }
            i = i + 1;
        }
        assert(self@.take(i as int) =~= self@);
        formats
    }
}

/// The usages are what their descriptions say, and only render targets have an attachment usage.
pub proof fn law_usages()
    ensures
        RENDER_USAGE == USAGE_COLOR_ATTACHMENT | USAGE_TRANSFER_SRC | USAGE_TRANSFER_DST,
        MEM_TEXTURE_USAGE == TEXTURE_USAGE | USAGE_TRANSFER_SRC | USAGE_TRANSFER_DST,
        OFFSCREEN_USAGE == RENDER_USAGE | TEXTURE_USAGE,
        contains_flags(RENDER_USAGE, USAGE_COLOR_ATTACHMENT),
        contains_flags(OFFSCREEN_USAGE, USAGE_COLOR_ATTACHMENT),
        !contains_flags(TEXTURE_USAGE, USAGE_COLOR_ATTACHMENT),
        !contains_flags(MEM_TEXTURE_USAGE, USAGE_COLOR_ATTACHMENT),
{
    assert(0x13u32 == 0x10u32 | 0x1u32 | 0x2u32) by (bit_vector);
    assert(0x7u32 == 0x4u32 | 0x1u32 | 0x2u32) by (bit_vector);
    assert(0x17u32 == 0x13u32 | 0x4u32) by (bit_vector);
    assert(0x13u32 & 0x10u32 == 0x10u32) by (bit_vector);
    assert(0x17u32 & 0x10u32 == 0x10u32) by (bit_vector);
    assert(0x4u32 & 0x10u32 != 0x10u32) by (bit_vector);
    assert(0x7u32 & 0x10u32 != 0x10u32) by (bit_vector);
}

/// A mapping is that of the code it was asked for, whatever the byte order of the machine. A code
/// and its twin without alpha are the same format, and only the former has alpha. A format with
/// components of whole bytes is known everywhere, a packed one only on machines that are
/// little-endian.
pub proof fn law_mappings(fourcc: Fourcc, little_endian: bool)
    ensures
        mapping_of(fourcc, little_endian) matches Some(mapping) ==> {
            &&& mapping.fourcc == fourcc
            &&& Some(mapping) == mapping_of(fourcc, true)
            &&& mapping.has_alpha <==> is_translucent(fourcc)
            &&& pixel_bytes(fourcc) == Some(vk_bytes(mapping.vk))
        },
        known_codes(little_endian).contains(fourcc) <==> mapping_of(fourcc, little_endian) is Some,
        fourcc is Other ==> mapping_of(fourcc, little_endian) is None,
        mapping_of(fourcc, true) matches Some(mapping) ==> (mapping_of(fourcc, false) is None
            <==> is_packed(mapping.vk)),
        is_translucent(fourcc) ==> {
            &&& mapping_of(fourcc, true) is Some
            &&& !is_translucent(without_alpha(fourcc))
            &&& mapping_of(without_alpha(fourcc), true) is Some
            &&& mapping_of(without_alpha(fourcc), true)->0.vk == mapping_of(fourcc, true)->0.vk
        },
{
    let codes = known_codes(little_endian);
    if mapping_of(fourcc, little_endian) is Some {
        if little_endian {
            assert(codes[0] == Fourcc::Argb8888 && codes[1] == Fourcc::Xrgb8888);
            assert(codes[2] == Fourcc::Abgr8888 && codes[3] == Fourcc::Xbgr8888);
            assert(codes[4] == Fourcc::Rgba8888 && codes[5] == Fourcc::Rgbx8888);
            assert(codes[6] == Fourcc::Argb2101010 && codes[7] == Fourcc::Xrgb2101010);
            assert(codes[8] == Fourcc::Abgr2101010 && codes[9] == Fourcc::Xbgr2101010);
            assert(codes[10] == Fourcc::Abgr16161616f && codes[11] == Fourcc::Xbgr16161616f);
            assert(codes[12] == Fourcc::Rgb565);
        } else {
            assert(codes[0] == Fourcc::Argb8888 && codes[1] == Fourcc::Xrgb8888);
            assert(codes[2] == Fourcc::Abgr8888 && codes[3] == Fourcc::Xbgr8888);
            assert(codes[4] == Fourcc::Abgr16161616f && codes[5] == Fourcc::Xbgr16161616f);
        }
    }
}

/// The bytes of a pixel, by the components of the format.
pub open spec fn vk_bytes(vk: VkFormat) -> usize {
    match vk {
        VkFormat::R5G6B5UnormPack16 => 2,
        VkFormat::R16G16B16A16Sfloat => 8,
        _ => 4,
    }
}

/// Whether the components of a format share words.
pub open spec fn is_packed(vk: VkFormat) -> bool {
    match vk {
        VkFormat::R8G8B8A8Unorm
        | VkFormat::B8G8R8A8Unorm
        | VkFormat::R16G16B16A16Sfloat => false,
        _ => true,
    }
}

/// The code of the same components with the alpha unused.
pub open spec fn without_alpha(fourcc: Fourcc) -> Fourcc {
    match fourcc {
        Fourcc::Argb8888 => Fourcc::Xrgb8888,
        Fourcc::Abgr8888 => Fourcc::Xbgr8888,
        Fourcc::Rgba8888 => Fourcc::Rgbx8888,
        Fourcc::Argb2101010 => Fourcc::Xrgb2101010,
        Fourcc::Abgr2101010 => Fourcc::Xbgr2101010,
        Fourcc::Abgr16161616f => Fourcc::Xbgr16161616f,
        _ => fourcc,
    }
}

/// What is known of a format is the first thing that was found out about that very format, and
/// nothing only if nothing was.
pub proof fn law_info_is_that_of_the_format(infos: Seq<InfoModel>, fourcc: Fourcc)
    ensures
        match info_for(infos, fourcc) {
            Some(info) => info.mapping.fourcc == fourcc && exists|i: int|
                0 <= i < infos.len() && #[trigger] infos[i] == info && forall|j: int|
                    0 <= j < i ==> (#[trigger] infos[j]).mapping.fourcc != fourcc,
            None => forall|i: int|
                0 <= i < infos.len() ==> (#[trigger] infos[i]).mapping.fourcc != fourcc,
        },
    decreases infos.len(),
{
    if infos.len() > 0 {
        let rest = infos.drop_first();
        assert(infos.first() == infos[0]);
        assert forall|i: int| 0 <= i < rest.len() implies #[trigger] rest[i] == infos[i + 1] by {}
        if infos[0].mapping.fourcc != fourcc {
            law_info_is_that_of_the_format(rest, fourcc);
            match info_for(rest, fourcc) {
                Some(info) => {
                    let i = choose|i: int|
                        0 <= i < rest.len() && #[trigger] rest[i] == info && forall|j: int|
                            0 <= j < i ==> (#[trigger] rest[j]).mapping.fourcc != fourcc;
                    assert(infos[i + 1] == info);
                    assert forall|j: int| 0 <= j < i + 1 implies (
                    #[trigger] infos[j]).mapping.fourcc != fourcc by {
                        if j > 0 {
                            assert(rest[j - 1] == infos[j]);
                        }
                    }
                },
                None => {
                    assert forall|i: int| 0 <= i < infos.len() implies (
                    #[trigger] infos[i]).mapping.fourcc != fourcc by {
                        if i > 0 {
                            assert(rest[i - 1] == infos[i]);
                        }
                    }
                },
            }
        }
    }
}

/// The formats that buffers can have are exactly the codes with a modifier that the device
/// supports for that use, each once.
pub proof fn law_buffer_formats_are_supported(infos: Seq<InfoModel>, render: bool, format: DrmFormat)
    ensures
        dmabuf_formats_of(infos, render).no_duplicates(),
        dmabuf_formats_of(infos, render).contains(format) <==> exists|i: int, k: int|
            supports_at(infos, render, format, i, k),
    decreases infos.len(),
{
    if infos.len() > 0 {
        let rest = infos.drop_last();
        let info = infos.last();
        let n = infos.len() - 1;
        law_buffer_formats_are_supported(rest, render, format);
        let before = dmabuf_formats_of(rest, render);
        lemma_with_modifiers(before, info.mapping.fourcc, modifiers_of(info, render), format);
        let listed = exists|k: int|
            0 <= k < modifiers_of(info, render).len() && format.code == info.mapping.fourcc
                && format.modifier == (#[trigger] modifiers_of(info, render)[k]).modifier;
        if before.contains(format) {
            let (i, k) = choose|i: int, k: int| supports_at(rest, render, format, i, k);
            assert(infos[i] == rest[i]);
            assert(supports_at(infos, render, format, i, k));
        }
        if listed {
            let k = choose|k: int|
                0 <= k < modifiers_of(info, render).len() && format.code == info.mapping.fourcc
                    && format.modifier == (#[trigger] modifiers_of(info, render)[k]).modifier;
            assert(supports_at(infos, render, format, n, k));
        }
        if exists|i: int, k: int| supports_at(infos, render, format, i, k) {
            let (i, k) = choose|i: int, k: int| supports_at(infos, render, format, i, k);
            if i < n {
                assert(infos[i] == rest[i]);
                assert(supports_at(rest, render, format, i, k));
            } else {
                assert(format.modifier == modifiers_of(info, render)[k].modifier);
                assert(listed);
            }
        }
    } else {
        assert(dmabuf_formats_of(infos, render) =~= Seq::<DrmFormat>::empty());
    }
}

/// Whether a format is supported by way of one modifier of one entry.
pub open spec fn supports_at(
    infos: Seq<InfoModel>,
    render: bool,
    format: DrmFormat,
    i: int,
    k: int,
) -> bool {
    let modifiers = if render {
        infos[i].render_modifiers
    } else {
        infos[i].texture_modifiers
    };
    &&& 0 <= i < infos.len()
    &&& 0 <= k < modifiers.len()
    &&& format.code == infos[i].mapping.fourcc
    &&& format.modifier == modifiers[k].modifier
}

proof fn lemma_with_modifiers(
    formats: Seq<DrmFormat>,
    code: Fourcc,
    modifiers: Seq<ModifierInfo>,
    format: DrmFormat,
)
    ensures
        formats.no_duplicates() ==> with_modifiers(formats, code, modifiers).no_duplicates(),
        with_modifiers(formats, code, modifiers).contains(format) <==> formats.contains(format) || (
        exists|k: int|
            0 <= k < modifiers.len() && format.code == code && format.modifier
                == (#[trigger] modifiers[k]).modifier),
    decreases modifiers.len(),
{
    if modifiers.len() > 0 {
        let rest = modifiers.drop_last();
        let n = modifiers.len() - 1;
        lemma_with_modifiers(formats, code, rest, format);
        let before = with_modifiers(formats, code, rest);
        let new = DrmFormat { code, modifier: modifiers.last().modifier };
        let after = with_modifiers(formats, code, modifiers);
        assert(modifiers[n] == modifiers.last());
        if !before.contains(new) {
            assert(after[before.len() as int] == new);
        }
        if before.contains(format) {
            let i = choose|i: int| 0 <= i < before.len() && before[i] == format;
            assert(after[i] == format);
        }
        if exists|k: int|
            0 <= k < rest.len() && format.code == code && format.modifier
                == (#[trigger] rest[k]).modifier {
            let k = choose|k: int|
                0 <= k < rest.len() && format.code == code && format.modifier
                    == (#[trigger] rest[k]).modifier;
            assert(modifiers[k] == rest[k]);
        }
        if exists|k: int|
            0 <= k < modifiers.len() && format.code == code && format.modifier
                == (#[trigger] modifiers[k]).modifier {
            let k = choose|k: int|
                0 <= k < modifiers.len() && format.code == code && format.modifier
                    == (#[trigger] modifiers[k]).modifier;
            if k < n {
                assert(rest[k] == modifiers[k]);
            } else {
                assert(format == new);
                assert(after.contains(new));
            }
        }
    }
}

/// The modifiers that can be used are those of the answers, one after the other: an answer counts
/// if the modifier has all of the features for the use and images of it can be made at all, and it
/// then gives the modifier, its planes and the largest image.
pub proof fn law_usable_modifiers(
    a: Seq<ModifierAnswer>,
    b: Seq<ModifierAnswer>,
    answer: ModifierAnswer,
    render: bool,
)
    ensures
        usable_modifiers(a + b, render) == usable_modifiers(a, render) + usable_modifiers(b, render),
        ({
            let (extent, features) = if render {
                (answer.render_extent, RENDER_FEATURES)
            } else {
                (answer.texture_extent, TEXTURE_FEATURES)
            };
            let usable = usable_modifiers(seq![answer], render);
            if extent is Some && answer.features & features == features {
                &&& usable.len() == 1
                &&& usable[0].modifier == answer.modifier
                &&& usable[0].plane_count == answer.plane_count
                &&& Some(usable[0].max_extent) == extent
            } else {
                usable.len() == 0
            }
        }),
    decreases b.len(),
{
    let one = seq![answer];
    assert(one.drop_last() =~= Seq::<ModifierAnswer>::empty());
    assert(usable_modifiers(one.drop_last(), render) =~= Seq::<ModifierInfo>::empty());
    assert(one.last() == answer);
    if b.len() == 0 {
        assert(a + b =~= a);
        assert(usable_modifiers(a, render) + usable_modifiers(b, render) =~= usable_modifiers(
            a,
            render,
        ));
    } else {
        law_usable_modifiers(a, b.drop_last(), answer, render);
        assert((a + b).drop_last() =~= a + b.drop_last());
        assert((a + b).last() == b.last());
        assert(usable_modifiers(a + b, render) =~= usable_modifiers(a, render) + usable_modifiers(
            b,
            render,
        ));
    }
}

/// What is found out about a format: for each use its modifiers, how large an image can be sampled
/// without a modifier, if it can at all, and whether one can be rendered to.
pub proof fn law_what_is_found_out(mapping: FormatMapping, answer: FormatAnswer)
    ensures
        ({
            let info = described(mapping, answer);
            &&& info.mapping == mapping
            &&& info.texture_modifiers == usable_modifiers(answer.modifiers@, false)
            &&& info.render_modifiers == usable_modifiers(answer.modifiers@, true)
            &&& answer.optimal_features & TEXTURE_FEATURES == TEXTURE_FEATURES
                ==> info.optimal_max_extent == answer.optimal_texture_extent
            &&& answer.optimal_features & TEXTURE_FEATURES != TEXTURE_FEATURES
                ==> info.optimal_max_extent is None
            &&& info.optimal_render <==> answer.optimal_features & RENDER_FEATURES == RENDER_FEATURES
                && answer.optimal_offscreen_extent is Some
        }),
{
}

/// Whether blue is the component in the lowest bits, by the name of the code: those bits are named
/// last.
pub open spec fn ends_in_blue(fourcc: Fourcc) -> bool {
    match fourcc {
        Fourcc::Argb8888
        | Fourcc::Xrgb8888
        | Fourcc::Argb2101010
        | Fourcc::Xrgb2101010
        | Fourcc::Rgb565 => true,
        _ => false,
    }
}

/// Whether blue is the component in the lowest bits, by the name of the format: the first byte is
/// named first, but the lowest bits of a word last.
pub open spec fn has_blue_lowest(vk: VkFormat) -> bool {
    match vk {
        VkFormat::B8G8R8A8Unorm
        | VkFormat::A2R10G10B10UnormPack32
        | VkFormat::R5G6B5UnormPack16 => true,
        _ => false,
    }
}

/// Whether a code has ten bits for each color.
pub open spec fn is_deep(fourcc: Fourcc) -> bool {
    match fourcc {
        Fourcc::Argb2101010
        | Fourcc::Xrgb2101010
        | Fourcc::Abgr2101010
        | Fourcc::Xbgr2101010 => true,
        _ => false,
    }
}

/// A format has the components of the code that it is mapped to, in the same order: blue is lowest
/// in both or in neither, and both or neither have ten bits for each color.
pub proof fn law_components_match(fourcc: Fourcc, little_endian: bool)
    ensures
        mapping_of(fourcc, little_endian) matches Some(mapping) ==> {
            &&& has_blue_lowest(mapping.vk) <==> ends_in_blue(fourcc)
            &&& is_deep(fourcc) <==> mapping.vk == VkFormat::A2R10G10B10UnormPack32 || mapping.vk
                == VkFormat::A2B10G10R10UnormPack32
            &&& mapping.vk == VkFormat::A8B8G8R8UnormPack32 <==> fourcc == Fourcc::Rgba8888 || fourcc
                == Fourcc::Rgbx8888
        },
{
}

} // verus!
