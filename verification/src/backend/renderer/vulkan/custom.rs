//! Custom fragment shader programs.
//!
//! A program draws rectangles with a caller-provided fragment shader. Uniform values are passed
//! per draw through a std140 uniform block; the block's GLSL text can be generated so that the
//! layout is guaranteed to match the serialization. A few textures are bound as combined image
//! samplers.
//!
//! Numbers are given by the bits of their single-precision form.

use vstd::prelude::*;
use vstd::string::StringExecFns;

use crate::backend::renderer::vulkan::device::CleanupItem;
use crate::backend::renderer::vulkan::error::VulkanError;
use crate::text::same_text;

verus! {

/// Maximum number of textures a custom program can sample.
pub const MAX_CUSTOM_TEXTURES: usize = 2;

/// Maximum size in bytes of a custom program's uniform block.
pub const MAX_CUSTOM_PARAMS_SIZE: u32 = 512;

/// Number of uniforms beyond which a uniform block is too large in any case: each of them takes
/// up at least four bytes.
const MAX_CUSTOM_UNIFORMS: usize = 128;

/// Type of a custom shader uniform.
#[derive(Debug, Clone, Copy, PartialEq, Eq, Structural)]
pub enum CustomUniformKind {
    Float,
    Vec2,
    Vec3,
    Vec4,
    /// A 3x3 matrix; occupies three vec4-aligned columns in std140.
    Mat3,
}

impl CustomUniformKind {
    /// std140 base alignment.
    pub open spec fn alignment(self) -> int {
        match self {
            CustomUniformKind::Float => 4,
            CustomUniformKind::Vec2 => 8,
            _ => 16,
        }
    }

    /// Size occupied in the buffer (std140).
    pub open spec fn extent(self) -> int {
        match self {
            CustomUniformKind::Float => 4,
            CustomUniformKind::Vec2 => 8,
            CustomUniformKind::Vec3 => 12,
            CustomUniformKind::Vec4 => 16,
            CustomUniformKind::Mat3 => 48,
        }
    }

    /// The name of the type in GLSL.
    pub open spec fn type_text(self) -> Seq<char> {
        match self {
            CustomUniformKind::Float => "float"@,
            CustomUniformKind::Vec2 => "vec2"@,
            CustomUniformKind::Vec3 => "vec3"@,
            CustomUniformKind::Vec4 => "vec4"@,
            CustomUniformKind::Mat3 => "mat3"@,
        }
    }

    /// std140 base alignment.
    pub fn align(self) -> (align: u32)
        ensures
            align == self.alignment(),
    {
        match self {
            CustomUniformKind::Float => 4,
            CustomUniformKind::Vec2 => 8,
            CustomUniformKind::Vec3 | CustomUniformKind::Vec4 | CustomUniformKind::Mat3 => 16,
        }
    }

    /// Size occupied in the buffer (std140).
    pub fn size(self) -> (size: u32)
        ensures
            size == self.extent(),
    {
        match self {
            CustomUniformKind::Float => 4,
            CustomUniformKind::Vec2 => 8,
            CustomUniformKind::Vec3 => 12,
            CustomUniformKind::Vec4 => 16,
            CustomUniformKind::Mat3 => 48,
        }
    }

    /// The name of the type in GLSL.
    pub fn glsl_type(self) -> (name: &'static str)
        ensures
            name@ == self.type_text(),
    {
        match self {
            CustomUniformKind::Float => "float",
            CustomUniformKind::Vec2 => "vec2",
            CustomUniformKind::Vec3 => "vec3",
            CustomUniformKind::Vec4 => "vec4",
            CustomUniformKind::Mat3 => "mat3",
        }
    }
}

/// Declaration of a custom shader uniform.
#[derive(Debug, Clone)]
pub struct CustomUniformDecl {
    pub name: String,
    pub kind: CustomUniformKind,
}

/// What a [`CustomUniformDecl`] means.
pub struct DeclModel {
    pub name: Seq<char>,
    pub kind: CustomUniformKind,
}

impl CustomUniformDecl {
    pub open spec fn view(&self) -> DeclModel {
        DeclModel { name: self.name@, kind: self.kind }
    }
}

/// The meanings of a list of declarations.
pub open spec fn models(decls: Seq<CustomUniformDecl>) -> Seq<DeclModel> {
    decls.map_values(|d: CustomUniformDecl| d@)
}

/// The smallest multiple of `align` that is not below `offset`.
pub open spec fn aligned(offset: int, align: int) -> int {
    (offset + align - 1) / align * align
}

/// Where the first `n` uniforms end.
pub open spec fn end_of(decls: Seq<DeclModel>, n: int) -> int
    decreases n,
{
    if n <= 0 {
        0
    } else {
        aligned(end_of(decls, n - 1), decls[n - 1].kind.alignment()) + decls[n - 1].kind.extent()
    }
}

/// Where a uniform starts: at the first aligned offset after the one before.
pub open spec fn offset_of(decls: Seq<DeclModel>, i: int) -> int {
    aligned(end_of(decls, i), decls[i].kind.alignment())
}

/// The size of the uniform block.
pub open spec fn block_size(decls: Seq<DeclModel>) -> int {
    aligned(end_of(decls, decls.len() as int), 16)
}

/// Aligning moves an offset up, by less than the alignment, to a multiple of it.
proof fn lemma_aligned(offset: int, align: int)
    requires
        offset >= 0,
        align == 4 || align == 8 || align == 16,
    ensures
        offset <= aligned(offset, align) < offset + align,
        aligned(offset, align) % align == 0,
{
}

/// The uniforms of a list take up at least four bytes each, and at most 64.
proof fn lemma_end_bound(decls: Seq<DeclModel>, n: int)
    requires
        0 <= n <= decls.len(),
    ensures
        4 * n <= end_of(decls, n) <= 64 * n,
    decreases n,
{
    if n > 0 {
        lemma_end_bound(decls, n - 1);
        lemma_aligned(end_of(decls, n - 1), decls[n - 1].kind.alignment());
    }
}

/// Computes the std140 offsets for an ordered list of declarations.
///
/// Returns (offsets, total size).
pub fn std140_layout(decls: &Vec<CustomUniformDecl>) -> (r: (Vec<u32>, u32))
    requires
        block_size(models(decls@)) <= u32::MAX,
    ensures
        r.0@.len() == decls@.len(),
        forall|i: int|
            0 <= i < decls@.len() ==> #[trigger] r.0@[i] == offset_of(models(decls@), i),
        r.1 == block_size(models(decls@)),
{
    let ghost all = models(decls@);
    let mut offsets: Vec<u32> = Vec::new();
    let mut offset: u32 = 0;
    let mut i: usize = 0;
    while i < decls.len()
        invariant
            i <= decls@.len(),
            all == models(decls@),
            block_size(all) <= u32::MAX,
            offset == end_of(all, i as int),
            offsets@.len() == i,
            forall|k: int| 0 <= k < i ==> #[trigger] offsets@[k] == offset_of(all, k),
        decreases decls@.len() - i,
    {
        let kind = decls[i].kind;
        let align: u32 = kind.align();
        proof {
            assert(all[i as int].kind == kind);
            lemma_end_bound(all, i as int);
            lemma_end_grows(all, i + 1, all.len() as int);
            lemma_end_bound(all, all.len() as int);
            lemma_aligned(end_of(all, all.len() as int), 16);
            lemma_aligned(offset as int, align as int);
        }
        offset = round_up(offset, align);
        offsets.push(offset);
        offset = offset + kind.size();
        i = i + 1;
    }
    proof {
        lemma_end_bound(all, i as int);
        lemma_aligned(offset as int, 16);
    }
    (offsets, round_up(offset, 16))
}

fn round_up(offset: u32, align: u32) -> (rounded: u32)
    requires
        align == 4 || align == 8 || align == 16,
        offset + align - 1 <= u32::MAX,
    ensures
        rounded == aligned(offset as int, align as int),
{
    (offset + (align - 1)) / align * align
}

/// Every uniform is aligned, the uniforms follow one another without overlapping, and all of
/// them lie within the block, whose size is a multiple of 16 bytes.
pub proof fn law_uniforms_do_not_overlap(decls: Seq<DeclModel>, i: int, j: int)
    requires
        0 <= i < j <= decls.len(),
    ensures
        offset_of(decls, i) % decls[i].kind.alignment() == 0,
        0 <= offset_of(decls, i),
        j < decls.len() ==> offset_of(decls, i) + decls[i].kind.extent() <= offset_of(decls, j),
        offset_of(decls, i) + decls[i].kind.extent() <= block_size(decls),
        block_size(decls) % 16 == 0,
{
    lemma_end_bound(decls, i);
    lemma_aligned(end_of(decls, i), decls[i].kind.alignment());
    lemma_end_grows(decls, i + 1, j);
    lemma_end_grows(decls, j, decls.len() as int);
    lemma_end_bound(decls, j);
    lemma_end_bound(decls, decls.len() as int);
    if j < decls.len() {
        lemma_aligned(end_of(decls, j), decls[j].kind.alignment());
    }
    lemma_aligned(end_of(decls, decls.len() as int), 16);
}

proof fn lemma_end_grows(decls: Seq<DeclModel>, i: int, j: int)
    requires
        0 <= i <= j <= decls.len(),
    ensures
        end_of(decls, i) <= end_of(decls, j),
    decreases j - i,
{
    if i < j {
        lemma_end_grows(decls, i, j - 1);
        lemma_end_bound(decls, j - 1);
        lemma_aligned(end_of(decls, j - 1), decls[j - 1].kind.alignment());
    }
}

/// The GLSL text of the first uniforms of a block.
pub open spec fn members_text(decls: Seq<DeclModel>) -> Seq<char>
    decreases decls.len(),
{
    if decls.len() == 0 {
        Seq::empty()
    } else {
        members_text(decls.drop_last()) + "    "@ + decls.last().kind.type_text() + " "@
            + decls.last().name + ";\n"@
    }
}

/// Generates the GLSL text of the uniform block matching the serialization of the given
/// (ordered) declarations, as an instance-less block making every member visible under its own
/// name.
pub fn uniform_block_glsl(decls: &Vec<CustomUniformDecl>) -> (text: String)
    ensures
        text@ == "layout(std140, set = 1, binding = 0) uniform NiriCustom {\n"@ + members_text(
            models(decls@),
        ) + "};\n"@,
{
    let ghost all = models(decls@);
    let ghost head = "layout(std140, set = 1, binding = 0) uniform NiriCustom {\n"@;
    let mut out: String = String::from_str(
        "layout(std140, set = 1, binding = 0) uniform NiriCustom {\n",
    );
    let mut i: usize = 0;
    assert(all.take(0) =~= Seq::<DeclModel>::empty());
    assert(out@ =~= head + members_text(all.take(0)));
    while i < decls.len()
        invariant
            i <= decls@.len(),
            all == models(decls@),
            out@ == head + members_text(all.take(i as int)),
        decreases decls@.len() - i,
    {
        proof {
            assert(all.take(i + 1).drop_last() =~= all.take(i as int));
            assert(all.take(i + 1).last() == decls@[i as int]@);
        }
        out.append("    ");
        out.append(decls[i].kind.glsl_type());
        out.append(" ");
        out.append(decls[i].name.as_str());
        out.append(";\n");
        assert(out@ =~= head + members_text(all.take(i + 1)));
        i = i + 1;
    }
    assert(all.take(i as int) =~= all);
    out.append("};\n");
    out
}

/// A decimal digit.
pub open spec fn digit(d: nat) -> Seq<char> {
    if d == 0 {
        "0"@
    } else if d == 1 {
        "1"@
    } else if d == 2 {
        "2"@
    } else if d == 3 {
        "3"@
    } else if d == 4 {
        "4"@
    } else if d == 5 {
        "5"@
    } else if d == 6 {
        "6"@
    } else if d == 7 {
        "7"@
    } else if d == 8 {
        "8"@
    } else {
        "9"@
    }
}

/// A number in decimal.
pub open spec fn decimal(n: nat) -> Seq<char>
    decreases n,
{
    if n < 10 {
        digit(n)
    } else {
        decimal(n / 10) + digit(n % 10)
    }
}

fn append_digit(out: &mut String, d: usize)
    requires
        d < 10,
    ensures
        final(out)@ == old(out)@ + digit(d as nat),
{
    let text: &str = if d == 0 {
        "0"
    } else if d == 1 {
        "1"
    } else if d == 2 {
        "2"
    } else if d == 3 {
        "3"
    } else if d == 4 {
        "4"
    } else if d == 5 {
        "5"
    } else if d == 6 {
        "6"
    } else if d == 7 {
        "7"
    } else if d == 8 {
        "8"
    } else {
        "9"
    };
    out.append(text);
}

fn append_decimal(out: &mut String, n: usize)
    ensures
        final(out)@ == old(out)@ + decimal(n as nat),
    decreases n,
{
    let ghost before = out@;
    if n < 10 {
        append_digit(out, n);
    } else {
        append_decimal(out, n / 10);
        append_digit(out, n % 10);
        assert(out@ =~= before + decimal(n as nat));
    }
}

/// The GLSL declarations of the first samplers.
pub open spec fn bindings_text(names: Seq<Seq<char>>) -> Seq<char>
    decreases names.len(),
{
    if names.len() == 0 {
        Seq::empty()
    } else {
        bindings_text(names.drop_last()) + "layout(set = 0, binding = "@ + decimal(
            (names.len() - 1) as nat,
        ) + ") uniform sampler2D "@ + names.last() + ";\n"@
    }
}

/// The characters of some texts.
pub open spec fn texts(names: Seq<&str>) -> Seq<Seq<char>> {
    names.map_values(|n: &str| n@)
}

/// Generates the GLSL declarations for the samplers of a custom program.
pub fn texture_bindings_glsl(names: &[&str]) -> (text: String)
    ensures
        text@ == bindings_text(texts(names@)),
{
    let ghost all = texts(names@);
    let mut out: String = String::new();
    let mut i: usize = 0;
    assert(all.take(0) =~= Seq::<Seq<char>>::empty());
    assert(out@ =~= bindings_text(all.take(0)));
    while i < names.len()
        invariant
            i <= names@.len(),
            all == texts(names@),
            out@ == bindings_text(all.take(i as int)),
        decreases names@.len() - i,
    {
        proof {
            assert(all.take(i + 1).drop_last() =~= all.take(i as int));
            assert(all.take(i + 1).last() == names@[i as int]@);
        }
        out.append("layout(set = 0, binding = ");
        append_decimal(&mut out, i);
        out.append(") uniform sampler2D ");
        out.append(names[i]);
        out.append(";\n");
        assert(out@ =~= bindings_text(all.take(i + 1)));
        i = i + 1;
    }
    assert(all.take(i as int) =~= all);
    out
}

/// A value for a custom shader uniform.
#[derive(Debug, Clone, Copy)]
pub enum CustomUniformValue {
    Float(u32),
    Vec2([u32; 2]),
    Vec3([u32; 3]),
    Vec4([u32; 4]),
    /// Column-major 3x3 matrix.
    Mat3([u32; 9]),
}

/// A byte of a word, in little-endian order.
pub open spec fn byte_of(word: u32, k: int) -> u8 {
    if k == 0 {
        (word % 256) as u8
    } else if k == 1 {
        (word / 256 % 256) as u8
    } else if k == 2 {
        (word / 65536 % 256) as u8
    } else {
        (word / 16777216) as u8
    }
}

/// The word at an offset, in little-endian order.
pub open spec fn word_at(bytes: Seq<u8>, at: int) -> int {
    bytes[at] + 256 * bytes[at + 1] + 65536 * bytes[at + 2] + 16777216 * bytes[at + 3]
}

/// The bytes with a word written at an offset.
pub open spec fn with_word(bytes: Seq<u8>, at: int, word: u32) -> Seq<u8> {
    bytes.update(at, byte_of(word, 0)).update(at + 1, byte_of(word, 1)).update(
        at + 2,
        byte_of(word, 2),
    ).update(at + 3, byte_of(word, 3))
}

/// The bytes with several words written, each at its place relative to an offset.
pub open spec fn with_words(bytes: Seq<u8>, words: Seq<(int, u32)>, offset: int) -> Seq<u8>
    decreases words.len(),
{
    if words.len() == 0 {
        bytes
    } else {
        with_word(
            with_words(bytes, words.drop_last(), offset),
            offset + words.last().0,
            words.last().1,
        )
    }
}

impl CustomUniformValue {
    /// The words of the value, and where they are placed.
    pub open spec fn words(self) -> Seq<(int, u32)> {
        match self {
            CustomUniformValue::Float(v) => seq![(0int, v)],
            CustomUniformValue::Vec2(v) => seq![(0int, v@[0]), (4int, v@[1])],
            CustomUniformValue::Vec3(v) => seq![(0int, v@[0]), (4int, v@[1]), (8int, v@[2])],
            CustomUniformValue::Vec4(v) => seq![
                (0int, v@[0]),
                (4int, v@[1]),
                (8int, v@[2]),
                (12int, v@[3]),
            ],
            CustomUniformValue::Mat3(m) => seq![
                (0int, m@[0]),
                (4int, m@[1]),
                (8int, m@[2]),
                (16int, m@[3]),
                (20int, m@[4]),
                (24int, m@[5]),
                (32int, m@[6]),
                (36int, m@[7]),
                (40int, m@[8]),
            ],
        }
    }

    /// The number of bytes from the start of the value to the end of its last word.
    pub open spec fn span(self) -> int {
        match self {
            CustomUniformValue::Float(_) => 4,
            CustomUniformValue::Vec2(_) => 8,
            CustomUniformValue::Vec3(_) => 12,
            CustomUniformValue::Vec4(_) => 16,
            CustomUniformValue::Mat3(_) => 44,
        }
    }

    /// The type of the value.
    pub open spec fn kind(self) -> CustomUniformKind {
        match self {
            CustomUniformValue::Float(_) => CustomUniformKind::Float,
            CustomUniformValue::Vec2(_) => CustomUniformKind::Vec2,
            CustomUniformValue::Vec3(_) => CustomUniformKind::Vec3,
            CustomUniformValue::Vec4(_) => CustomUniformKind::Vec4,
            CustomUniformValue::Mat3(_) => CustomUniformKind::Mat3,
        }
    }

    /// Writes the value in std140 form.
    pub fn write_std140(&self, out: &mut Vec<u8>, offset: u32)
        requires
            offset + self.span() <= old(out)@.len(),
        ensures
            final(out)@ == with_words(old(out)@, self.words(), offset as int),
    {
        let _len: usize = out.len();
        let at: usize = offset as usize;
        let ghost before = out@;
        proof {
            reveal_with_fuel(with_words, 10);
            lemma_words_unfold(before, self.words(), offset as int);
        }
        match self {
            CustomUniformValue::Float(v) => {
                put_word(out, at, *v);
            },
            CustomUniformValue::Vec2(v) => {
                put_word(out, at, v[0]);
                put_word(out, at + 4, v[1]);
            },
            CustomUniformValue::Vec3(v) => {
                put_word(out, at, v[0]);
                put_word(out, at + 4, v[1]);
                put_word(out, at + 8, v[2]);
            },
            CustomUniformValue::Vec4(v) => {
                put_word(out, at, v[0]);
                put_word(out, at + 4, v[1]);
                put_word(out, at + 8, v[2]);
                put_word(out, at + 12, v[3]);
            },
            CustomUniformValue::Mat3(m) => {
                put_word(out, at, m[0]);
                put_word(out, at + 4, m[1]);
                put_word(out, at + 8, m[2]);
                put_word(out, at + 16, m[3]);
                put_word(out, at + 20, m[4]);
                put_word(out, at + 24, m[5]);
                put_word(out, at + 32, m[6]);
                put_word(out, at + 36, m[7]);
                put_word(out, at + 40, m[8]);
            },
        }
    }
}

/// Writing a list of words is writing its first words, and then the last.
proof fn lemma_words_unfold(bytes: Seq<u8>, words: Seq<(int, u32)>, offset: int)
    ensures
        forall|n: int|
            0 <= n < words.len() ==> #[trigger] with_words(bytes, words.take(n + 1), offset)
                == with_word(
                with_words(bytes, words.take(n), offset),
                offset + words[n].0,
                words[n].1,
            ),
        with_words(bytes, words.take(0), offset) == bytes,
        words.take(words.len() as int) == words,
{
    assert forall|n: int| 0 <= n < words.len() implies #[trigger] with_words(
        bytes,
        words.take(n + 1),
        offset,
    ) == with_word(with_words(bytes, words.take(n), offset), offset + words[n].0, words[n].1) by {
        assert(words.take(n + 1).drop_last() =~= words.take(n));
    }
    assert(words.take(words.len() as int) =~= words);
}

fn put_word(out: &mut Vec<u8>, at: usize, word: u32)
    requires
        at + 4 <= old(out)@.len(),
    ensures
        final(out)@ == with_word(old(out)@, at as int, word),
{
    let _len: usize = out.len();
    out[at] = (word % 256) as u8;
    out[at + 1] = (word / 256 % 256) as u8;
    out[at + 2] = (word / 65536 % 256) as u8;
    out[at + 3] = (word / 16777216) as u8;
}

/// A named uniform value for a custom program draw.
#[derive(Debug, Clone, Copy)]
pub struct CustomUniform<'a> {
    pub name: &'a str,
    pub value: CustomUniformValue,
}

/// An owned named uniform value, for storing with a program override.
#[derive(Debug, Clone)]
pub struct OwnedCustomUniform {
    pub name: String,
    pub value: CustomUniformValue,
}

impl OwnedCustomUniform {
    /// Borrows this uniform for a draw call.
    pub fn borrow(&self) -> (uniform: CustomUniform<'_>)
        ensures
            uniform.name@ == self.name@,
            uniform.value == self.value,
    {
        CustomUniform { name: self.name.as_str(), value: self.value }
    }
}

/// The value that is provided for a name: that of the first uniform with it.
pub open spec fn value_for(uniforms: Seq<CustomUniform<'_>>, name: Seq<char>) -> Option<
    CustomUniformValue,
>
    decreases uniforms.len(),
{
    if uniforms.len() == 0 {
        None
    } else if uniforms.first().name@ == name {
        Some(uniforms.first().value)
    } else {
        value_for(uniforms.drop_first(), name)
    }
}

/// The block after the first `n` declared uniforms were written. Those that are not provided
/// stay zero.
pub open spec fn filled(
    decls: Seq<DeclModel>,
    uniforms: Seq<CustomUniform<'_>>,
    n: int,
) -> Seq<u8>
    decreases n,
{
    if n <= 0 {
        Seq::new(block_size(decls) as nat, |k: int| 0u8)
    } else {
        let before = filled(decls, uniforms, n - 1);
        match value_for(uniforms, decls[n - 1].name) {
            Some(value) => with_words(before, value.words(), offset_of(decls, n - 1)),
            None => before,
        }
    }
}

/// Whether every provided value that is written stays within the block.
pub open spec fn values_fit(decls: Seq<DeclModel>, uniforms: Seq<CustomUniform<'_>>) -> bool {
    forall|i: int|
        0 <= i < decls.len() ==> (value_for(uniforms, (#[trigger] decls[i]).name) matches Some(value)
            ==> offset_of(decls, i) + value.span() <= block_size(decls))
}

fn find_value(uniforms: &[CustomUniform<'_>], name: &str) -> (value: Option<CustomUniformValue>)
    ensures
        value == value_for(uniforms@, name@),
{
    let mut i: usize = 0;
    assert(uniforms@.skip(0) =~= uniforms@);
    while i < uniforms.len()
        invariant
            i <= uniforms@.len(),
            value_for(uniforms@.skip(i as int), name@) == value_for(uniforms@, name@),
        decreases uniforms@.len() - i,
    {
        assert(uniforms@.skip(i as int).drop_first() =~= uniforms@.skip(i + 1));
        if same_text(uniforms[i].name, name) {
            return Some(uniforms[i].value);
        }
        i = i + 1;
    }
    None
}

/// The interface of a custom program: its uniform block and its textures.
#[derive(Debug)]
pub struct ProgramLayout {
    uniforms: Vec<CustomUniformDecl>,
    /// The std140 offsets of the uniforms.
    offsets: Vec<u32>,
    block_size: u32,
    texture_names: Vec<String>,
}

impl ProgramLayout {
    /// The declared uniforms.
    pub closed spec fn decls(&self) -> Seq<DeclModel> {
        models(self.uniforms@)
    }

    /// The names of the textures.
    pub closed spec fn textures(&self) -> Seq<Seq<char>> {
        self.texture_names@.map_values(|n: String| n@)
    }

    /// The offsets and the size are those of std140, and nothing is too large.
    pub closed spec fn wf(&self) -> bool {
        &&& self.offsets@.len() == self.uniforms@.len()
        &&& forall|i: int|
            0 <= i < self.offsets@.len() ==> #[trigger] self.offsets@[i] == offset_of(
                self.decls(),
                i,
            )
        &&& self.block_size == block_size(self.decls())
        &&& self.block_size <= MAX_CUSTOM_PARAMS_SIZE
        &&& self.texture_names@.len() <= MAX_CUSTOM_TEXTURES
    }

    /// Lays out the uniforms of a program. Fails if there are too many textures, or if the
    /// uniform block is too large.
    pub fn new(uniforms: Vec<CustomUniformDecl>, texture_names: Vec<String>) -> (r: Result<
        ProgramLayout,
        VulkanError,
    >)
        ensures
            if texture_names@.len() > MAX_CUSTOM_TEXTURES || block_size(models(uniforms@))
                > MAX_CUSTOM_PARAMS_SIZE {
                r == Err::<ProgramLayout, VulkanError>(VulkanError::PipelineCreation)
            } else {
                r matches Ok(layout) && layout.wf() && layout.decls() == models(uniforms@)
                    && layout.textures() == texture_names@.map_values(|n: String| n@)
            },
    {
        if texture_names.len() > MAX_CUSTOM_TEXTURES {
            return Err(VulkanError::PipelineCreation);
        }
        proof {
            let all = models(uniforms@);
            lemma_end_bound(all, all.len() as int);
            lemma_aligned(end_of(all, all.len() as int), 16);
        }
        if uniforms.len() > MAX_CUSTOM_UNIFORMS {
            return Err(VulkanError::PipelineCreation);
        }
        let (offsets, block_size) = std140_layout(&uniforms);
        if block_size > MAX_CUSTOM_PARAMS_SIZE {
            return Err(VulkanError::PipelineCreation);
        }
        Ok(ProgramLayout { uniforms, offsets, block_size, texture_names })
    }

    /// The size of the uniform block.
    pub fn block_size(&self) -> (size: u32)
        requires
            self.wf(),
        ensures
            size == block_size(self.decls()),
            size <= MAX_CUSTOM_PARAMS_SIZE,
    {
        self.block_size
    }

    /// The number of textures.
    pub fn texture_count(&self) -> (count: usize)
        requires
            self.wf(),
        ensures
            count == self.textures().len(),
            count <= MAX_CUSTOM_TEXTURES,
    {
        self.texture_names.len()
    }

    /// Serializes the uniform values into the program's std140 block.
    ///
    /// Uniforms that were declared but not provided stay zero; provided uniforms that were not
    /// declared are ignored.
    pub fn serialize_uniforms(&self, uniforms: &[CustomUniform<'_>]) -> (out: Vec<u8>)
        requires
            self.wf(),
            values_fit(self.decls(), uniforms@),
        ensures
            out@ == filled(self.decls(), uniforms@, self.decls().len() as int),
    {
        let ghost decls = self.decls();
        let mut out: Vec<u8> = Vec::new();
        let mut k: u32 = 0;
        while k < self.block_size
            invariant
                k <= self.block_size,
                out@.len() == k,
                forall|j: int| 0 <= j < k ==> out@[j] == 0u8,
            decreases self.block_size - k,
        {
            out.push(0);
            k = k + 1;
        }
        assert(out@ =~= filled(decls, uniforms@, 0));
        let mut i: usize = 0;
        while i < self.uniforms.len()
            invariant
                self.wf(),
                decls == self.decls(),
                values_fit(decls, uniforms@),
                i <= self.uniforms@.len(),
                out@ == filled(decls, uniforms@, i as int),
                out@.len() == block_size(decls),
            decreases self.uniforms@.len() - i,
        {
            let offset: u32 = self.offsets[i];
            assert(decls[i as int] == self.uniforms@[i as int]@);
            if let Some(value) = find_value(uniforms, self.uniforms[i].name.as_str()) {
                proof {
                    let count = value.words().len() as int;
                    lemma_value_words(value, 0, 0);
                    lemma_words_read_back(out@, value, offset as int, count, 0);
                    assert(value.words().take(count) =~= value.words());
                }
                value.write_std140(&mut out, offset);
            }
            i = i + 1;
        }
        out
    }
}

/// The words of a value lie within its span, each in its own place.
proof fn lemma_value_words(value: CustomUniformValue, i: int, j: int)
    requires
        0 <= i < value.words().len(),
        0 <= j < value.words().len(),
    ensures
        0 <= value.words()[i].0 <= value.span() - 4,
        i < j ==> value.words()[i].0 + 4 <= value.words()[j].0,
        value.span() <= value.kind().extent(),
{
}

/// A word can be read where it was written, and what does not overlap it stays as it was.
proof fn lemma_word_read_back(bytes: Seq<u8>, at: int, word: u32)
    requires
        0 <= at,
        at + 4 <= bytes.len(),
    ensures
        with_word(bytes, at, word).len() == bytes.len(),
        word_at(with_word(bytes, at, word), at) == word,
        forall|k: int|
            0 <= k < bytes.len() && (k < at || k >= at + 4) ==> #[trigger] with_word(
                bytes,
                at,
                word,
            )[k] == bytes[k],
        forall|other: int|
            0 <= other && (other + 4 <= at || at + 4 <= other && other + 4 <= bytes.len())
                ==> #[trigger] word_at(with_word(bytes, at, word), other) == word_at(bytes, other),
{
}

/// Bytes outside of the words that are written stay as they were, and a word can be read where
/// it was written.
proof fn lemma_words_read_back(
    bytes: Seq<u8>,
    value: CustomUniformValue,
    offset: int,
    n: int,
    k: int,
)
    requires
        0 <= offset,
        offset + value.span() <= bytes.len(),
        0 <= n <= value.words().len(),
        0 <= k < bytes.len(),
    ensures
        with_words(bytes, value.words().take(n), offset).len() == bytes.len(),
        k < offset || k >= offset + value.span() ==> with_words(
            bytes,
            value.words().take(n),
            offset,
        )[k] == bytes[k],
        forall|i: int|
            0 <= i < n ==> #[trigger] word_at(
                with_words(bytes, value.words().take(n), offset),
                offset + value.words()[i].0,
            ) == value.words()[i].1,
    decreases n,
{
    let words = value.words();
    if n > 0 {
        lemma_words_read_back(bytes, value, offset, n - 1, k);
        lemma_value_words(value, n - 1, n - 1);
        assert(words.take(n).drop_last() =~= words.take(n - 1));
        assert(words.take(n).last() == words[n - 1]);
        let before = with_words(bytes, words.take(n - 1), offset);
        let after = with_words(bytes, words.take(n), offset);
        let at = offset + words[n - 1].0;
        let word = words[n - 1].1;
        assert(after == with_word(before, at, word));
        lemma_word_read_back(before, at, word);
        assert forall|i: int| 0 <= i < n implies #[trigger] word_at(after, offset + words[i].0)
            == words[i].1 by {
            if i < n - 1 {
                lemma_value_words(value, i, n - 1);
                assert(word_at(before, offset + words[i].0) == words[i].1);
            }
        }
    } else {
        assert(words.take(0) =~= Seq::<(int, u32)>::empty());
    }
}

/// Whether every provided value of a declared uniform has the declared type.
pub open spec fn kinds_match(decls: Seq<DeclModel>, uniforms: Seq<CustomUniform<'_>>) -> bool {
    forall|i: int|
        0 <= i < decls.len() ==> (value_for(uniforms, (#[trigger] decls[i]).name) matches Some(value)
            ==> value.kind() == decls[i].kind)
}

/// Values of the declared types fit into the block.
pub proof fn law_declared_types_fit(decls: Seq<DeclModel>, uniforms: Seq<CustomUniform<'_>>)
    requires
        kinds_match(decls, uniforms),
    ensures
        values_fit(decls, uniforms),
{
    assert forall|i: int| 0 <= i < decls.len() implies (value_for(
        uniforms,
        (#[trigger] decls[i]).name,
    ) matches Some(value) ==> offset_of(decls, i) + value.span() <= block_size(decls)) by {
        if let Some(value) = value_for(uniforms, decls[i].name) {
            law_uniforms_do_not_overlap(decls, i, decls.len() as int);
            lemma_value_words(value, 0, 0);
        }
    }
}

/// What a shader reads is what was provided: in the serialized block, every word of a provided
/// value stands at its place in the declared uniform, and the words of a uniform that was not
/// provided are zero.
pub proof fn law_uniforms_are_read_back(
    decls: Seq<DeclModel>,
    uniforms: Seq<CustomUniform<'_>>,
    i: int,
)
    requires
        kinds_match(decls, uniforms),
        0 <= i < decls.len(),
    ensures
        ({
            let block = filled(decls, uniforms, decls.len() as int);
            match value_for(uniforms, decls[i].name) {
                Some(value) => forall|k: int|
                    0 <= k < value.words().len() ==> #[trigger] word_at(
                        block,
                        offset_of(decls, i) + value.words()[k].0,
                    ) == value.words()[k].1,
                None => forall|at: int|
                    offset_of(decls, i) <= at < offset_of(decls, i) + decls[i].kind.extent()
                        ==> #[trigger] block[at] == 0u8,
            }
        }),
{
    law_declared_types_fit(decls, uniforms);
    lemma_filled(decls, uniforms, i, decls.len() as int);
}

proof fn lemma_filled(decls: Seq<DeclModel>, uniforms: Seq<CustomUniform<'_>>, i: int, n: int)
    requires
        kinds_match(decls, uniforms),
        values_fit(decls, uniforms),
        0 <= i < decls.len(),
        0 <= n <= decls.len(),
    ensures
        filled(decls, uniforms, n).len() == block_size(decls),
        ({
            let block = filled(decls, uniforms, n);
            let start = offset_of(decls, i);
            if n <= i || value_for(uniforms, decls[i].name) is None {
                forall|at: int|
                    start <= at < start + decls[i].kind.extent() ==> #[trigger] block[at] == 0u8
            } else {
                let value = value_for(uniforms, decls[i].name)->0;
                forall|k: int|
                    0 <= k < value.words().len() ==> #[trigger] word_at(
                        block,
                        start + value.words()[k].0,
                    ) == value.words()[k].1
            }
        }),
    decreases n,
{
    let start = offset_of(decls, i);
    let extent = decls[i].kind.extent();
    law_uniforms_do_not_overlap(decls, i, decls.len() as int);
    if n > 0 {
        lemma_filled(decls, uniforms, i, n - 1);
        let before = filled(decls, uniforms, n - 1);
        let after = filled(decls, uniforms, n);
        if let Some(value) = value_for(uniforms, decls[n - 1].name) {
            let offset = offset_of(decls, n - 1);
            law_uniforms_do_not_overlap(decls, n - 1, decls.len() as int);
            assert(decls[n - 1].kind == value.kind());
            lemma_value_words(value, 0, 0);
            let count = value.words().len() as int;
            assert(value.words().take(count) =~= value.words());
            lemma_words_read_back(before, value, offset, count, 0);
            if n - 1 != i {
                if n - 1 < i {
                    law_uniforms_do_not_overlap(decls, n - 1, i);
                } else {
                    law_uniforms_do_not_overlap(decls, i, n - 1);
                }
                assert forall|at: int| start <= at < start + extent implies #[trigger] after[at]
                    == before[at] by {
                    lemma_words_read_back(before, value, offset, count, at);
                }
                if let Some(mine) = value_for(uniforms, decls[i].name) {
                    assert(decls[i].kind == mine.kind());
                    assert forall|k: int| 0 <= k < mine.words().len() && n > i implies #[trigger] word_at(
                        after,
                        start + mine.words()[k].0,
                    ) == mine.words()[k].1 by {
                        lemma_value_words(mine, k, k);
                        let at = start + mine.words()[k].0;
                        assert(word_at(before, at) == mine.words()[k].1);
                        assert(after[at] == before[at]);
                        assert(after[at + 1] == before[at + 1]);
                        assert(after[at + 2] == before[at + 2]);
                        assert(after[at + 3] == before[at + 3]);
                    }
                }
            }
        }
    }
}

/// The first word of a SPIR-V module.
pub const SPIRV_MAGIC: u32 = 0x0723_0203;

/// The word at an offset, in big-endian order.
pub open spec fn big_endian_word_at(bytes: Seq<u8>, at: int) -> int {
    bytes[at + 3] + 256 * bytes[at + 2] + 65536 * bytes[at + 1] + 16777216 * bytes[at]
}

/// The words of a SPIR-V module, in the byte order that its first word tells. `None` if the
/// bytes are no such module.
pub open spec fn spirv_words(bytes: Seq<u8>) -> Option<Seq<u32>> {
    if bytes.len() == 0 || bytes.len() % 4 != 0 {
        None
    } else if word_at(bytes, 0) == SPIRV_MAGIC {
        Some(Seq::new(bytes.len() / 4, |i: int| word_at(bytes, 4 * i) as u32))
    } else if big_endian_word_at(bytes, 0) == SPIRV_MAGIC {
        Some(Seq::new(bytes.len() / 4, |i: int| big_endian_word_at(bytes, 4 * i) as u32))
    } else {
        None
    }
}

/// Calls `ash::util::read_spv` on the bytes.
///
/// It is taken to read the bytes as a whole number of words, in the byte order in which the
/// first word is the magic number, and to fail on anything else.
#[verifier::external_body]
fn read_spv(bytes: &[u8]) -> (words: Option<Vec<u32>>)
    ensures
        match words {
            Some(words) => spirv_words(bytes@) == Some(words@),
            None => spirv_words(bytes@) is None,
        },
{
    ash::util::read_spv(&mut std::io::Cursor::new(bytes)).ok()
}

/// Reads the words of a compiled shader.
pub fn shader_code(bytes: &[u8]) -> (r: Result<Vec<u32>, VulkanError>)
    ensures
        match spirv_words(bytes@) {
            Some(words) => r matches Ok(code) && code@ == words,
            None => r == Err::<Vec<u32>, VulkanError>(VulkanError::PipelineCreation),
        },
{
    match read_spv(bytes) {
        Some(words) => Ok(words),
        None => Err(VulkanError::PipelineCreation),
    }
}

/// A custom fragment shader program.
#[derive(Debug)]
pub struct VulkanPixelProgram {
    pub id: usize,
    pub module: u64,
    pub layout: ProgramLayout,
}

impl PartialEq for VulkanPixelProgram {
    fn eq(&self, other: &Self) -> (r: bool) {
        self.id == other.id
    }
}

impl vstd::std_specs::cmp::PartialEqSpecImpl for VulkanPixelProgram {
    open spec fn obeys_eq_spec() -> bool {
        true
    }

    open spec fn eq_spec(&self, other: &Self) -> bool {
        self.id == other.id
    }
}

impl VulkanPixelProgram {
    /// The resources that are released together with the program.
    ///
    /// The module is only needed to create further pipelines; those that exist stay valid
    /// without it. So no submission has to be waited for.
    pub fn cleanup(&self) -> (r: (u64, Vec<CleanupItem>))
        ensures
            r.0 == 0,
            r.1@ == seq![CleanupItem::ShaderModule(self.module)],
    {
        let mut items: Vec<CleanupItem> = Vec::new();
        items.push(CleanupItem::ShaderModule(self.module));
        (0, items)
    }
}

/// Numbers the programs of a process.
#[derive(Debug)]
pub struct ProgramIds {
    next: usize,
}

impl ProgramIds {
    /// The number of the next program.
    pub closed spec fn view(&self) -> usize {
        self.next
    }

    /// Numbers start with one.
    pub fn new() -> (ids: Self)
        ensures
            ids@ == 1,
    {
        ProgramIds { next: 1 }
    }

    /// Makes a program of a shader module. Its number is one that no program before it has, as
    /// long as the numbers do not wrap around.
    pub fn program(&mut self, module: u64, layout: ProgramLayout) -> (program: VulkanPixelProgram)
        ensures
            program.id == old(self)@,
            program.module == module,
            program.layout == layout,
            final(self)@ == if old(self)@ == usize::MAX {
                0
            } else {
                old(self)@ + 1
            },
    {
        let id: usize = self.next;
        self.next = id.wrapping_add(1);
        VulkanPixelProgram { id, module, layout }
    }
}

/// Uniforms are packed as tightly as their alignment allows: the first stands at the start, each
/// other behind the one before it with less space between them than its alignment, and less than
/// sixteen bytes are left at the end.
pub proof fn law_uniforms_are_packed_tightly(decls: Seq<DeclModel>, i: int)
    requires
        0 <= i < decls.len(),
    ensures
        i == 0 ==> offset_of(decls, i) == 0,
        i > 0 ==> ({
            let end = offset_of(decls, i - 1) + decls[i - 1].kind.extent();
            end <= offset_of(decls, i) < end + decls[i].kind.alignment()
        }),
        i == decls.len() - 1 ==> ({
            let end = offset_of(decls, i) + decls[i].kind.extent();
            end <= block_size(decls) < end + 16
        }),
{
    lemma_rounding(end_of(decls, i), decls[i].kind.alignment());
    lemma_rounding(end_of(decls, decls.len() as int), 16);
    if i > 0 {
        assert(end_of(decls, i) == offset_of(decls, i - 1) + decls[i - 1].kind.extent());
    }
    assert(end_of(decls, i + 1) == offset_of(decls, i) + decls[i].kind.extent());
}

proof fn lemma_rounding(offset: int, align: int)
    requires
        align == 4 || align == 8 || align == 16,
    ensures
        offset <= aligned(offset, align) < offset + align,
        offset == 0 ==> aligned(offset, align) == 0,
{
    if align == 4 {
        assert(offset <= (offset + 3) / 4 * 4 < offset + 4);
    } else if align == 8 {
        assert(offset <= (offset + 7) / 8 * 8 < offset + 8);
    } else {
        assert(offset <= (offset + 15) / 16 * 16 < offset + 16);
    }
}

/// The types take up what the layout rules say: a vector of three is aligned like one of four, and
/// a matrix is three such vectors.
pub proof fn law_types_take_up_their_space(kind: CustomUniformKind)
    ensures
        kind.extent() % 4 == 0 && kind.alignment() % 4 == 0,
        kind is Float ==> kind.extent() == 4 && kind.alignment() == 4,
        kind is Vec2 ==> kind.extent() == 2 * 4 && kind.alignment() == 2 * 4,
        kind is Vec3 ==> kind.extent() == 3 * 4 && kind.alignment() == 4 * 4,
        kind is Vec4 ==> kind.extent() == 4 * 4 && kind.alignment() == 4 * 4,
        kind is Mat3 ==> kind.extent() == 3 * (4 * 4) && kind.alignment() == 4 * 4,
{
}

/// The components of a value stand one after the other, four bytes apart; the columns of a matrix
/// sixteen bytes apart.
pub proof fn law_components_have_their_places(value: CustomUniformValue, k: int, column: int)
    ensures
        match value {
            CustomUniformValue::Float(v) => value.words().len() == 1 && value.words()[0] == (0int, v),
            CustomUniformValue::Vec2(v) => value.words().len() == 2 && (0 <= k < 2
                ==> value.words()[k] == (4 * k, v@[k])),
            CustomUniformValue::Vec3(v) => value.words().len() == 3 && (0 <= k < 3
                ==> value.words()[k] == (4 * k, v@[k])),
            CustomUniformValue::Vec4(v) => value.words().len() == 4 && (0 <= k < 4
                ==> value.words()[k] == (4 * k, v@[k])),
            CustomUniformValue::Mat3(m) => value.words().len() == 9 && (0 <= k < 3 && 0 <= column < 3
                ==> value.words()[3 * column + k] == (16 * column + 4 * k, m@[3 * column + k])),
        },
        match value {
            CustomUniformValue::Float(_) => value.kind() is Float,
            CustomUniformValue::Vec2(_) => value.kind() is Vec2,
            CustomUniformValue::Vec3(_) => value.kind() is Vec3,
            CustomUniformValue::Vec4(_) => value.kind() is Vec4,
            CustomUniformValue::Mat3(_) => value.kind() is Mat3,
        },
{
    if let CustomUniformValue::Mat3(m) = value {
        assert(value.words()[0] == (0int, m@[0]) && value.words()[1] == (4int, m@[1]));
        assert(value.words()[2] == (8int, m@[2]) && value.words()[3] == (16int, m@[3]));
        assert(value.words()[4] == (20int, m@[4]) && value.words()[5] == (24int, m@[5]));
        assert(value.words()[6] == (32int, m@[6]) && value.words()[7] == (36int, m@[7]));
        assert(value.words()[8] == (40int, m@[8]));
    }
}

/// A word is written with its lowest byte first, at the given place, and nothing else changes.
pub proof fn law_words_are_little_endian(bytes: Seq<u8>, at: int, word: u32, other: int)
    requires
        0 <= at,
        at + 4 <= bytes.len(),
        0 <= other < bytes.len(),
    ensures
        ({
            let after = with_word(bytes, at, word);
            &&& after.len() == bytes.len()
            &&& after[at] == word % 0x100
            &&& after[at + 1] == word / 0x100 % 0x100
            &&& after[at + 2] == word / 0x1_0000 % 0x100
            &&& after[at + 3] == word / 0x100_0000
            &&& other < at || at + 4 <= other ==> after[other] == bytes[other]
            &&& word_at(after, at) == word
        }),
{
}

/// The value that is written for a uniform is the first one that was given for that very name, and
/// none only if none was.
pub proof fn law_values_go_by_name(uniforms: Seq<CustomUniform<'_>>, name: Seq<char>)
    ensures
        match value_for(uniforms, name) {
            Some(value) => exists|i: int|
                0 <= i < uniforms.len() && (#[trigger] uniforms[i]).name@ == name
                    && uniforms[i].value == value && forall|j: int|
                    0 <= j < i ==> (#[trigger] uniforms[j]).name@ != name,
            None => forall|i: int| 0 <= i < uniforms.len() ==> (#[trigger] uniforms[i]).name@ != name,
        },
    decreases uniforms.len(),
{
    if uniforms.len() > 0 {
        let rest = uniforms.drop_first();
        assert(uniforms.first() == uniforms[0]);
        assert forall|i: int| 0 <= i < rest.len() implies #[trigger] rest[i] == uniforms[i + 1] by {}
        if uniforms[0].name@ != name {
            law_values_go_by_name(rest, name);
            match value_for(rest, name) {
                Some(value) => {
                    let i = choose|i: int|
                        0 <= i < rest.len() && (#[trigger] rest[i]).name@ == name && rest[i].value
                            == value && forall|j: int|
                            0 <= j < i ==> (#[trigger] rest[j]).name@ != name;
                    assert(uniforms[i + 1] == rest[i]);
                    assert forall|j: int| 0 <= j < i + 1 implies (#[trigger] uniforms[j]).name@
                        != name by {
                        if j > 0 {
                            assert(rest[j - 1] == uniforms[j]);
                        }
                    }
                },
                None => {
                    assert forall|i: int| 0 <= i < uniforms.len() implies (
                    #[trigger] uniforms[i]).name@ != name by {
                        if i > 0 {
                            assert(rest[i - 1] == uniforms[i]);
                        }
                    }
                },
            }
        }
    }
}

/// The text of a block has one line for each uniform, in order: its type and its name.
pub proof fn law_one_line_per_uniform(a: Seq<DeclModel>, b: Seq<DeclModel>, decl: DeclModel)
    ensures
        members_text(a + b) == members_text(a) + members_text(b),
        members_text(seq![decl]) == "    "@ + decl.kind.type_text() + " "@ + decl.name + ";\n"@,
    decreases b.len(),
{
    let one = seq![decl];
    assert(one.drop_last() =~= Seq::<DeclModel>::empty());
    assert(members_text(one.drop_last()) =~= Seq::<char>::empty());
    assert(one.last() == decl);
    assert(members_text(one) =~= "    "@ + decl.kind.type_text() + " "@ + decl.name + ";\n"@);
    if b.len() == 0 {
        assert(a + b =~= a);
        assert(members_text(a) + members_text(b) =~= members_text(a));
    } else {
        law_one_line_per_uniform(a, b.drop_last(), decl);
        assert((a + b).drop_last() =~= a + b.drop_last());
        assert((a + b).last() == b.last());
        assert(members_text(a + b) =~= members_text(a) + members_text(b));
    }
}

/// The text of the textures has one line for each of them, in order, and the binding in it is the
/// place of the texture.
pub proof fn law_one_binding_per_texture(names: Seq<Seq<char>>, name: Seq<char>)
    ensures
        bindings_text(Seq::empty()).len() == 0,
        bindings_text(names.push(name)) == bindings_text(names) + "layout(set = 0, binding = "@
            + decimal(names.len()) + ") uniform sampler2D "@ + name + ";\n"@,
        number_in(decimal(names.len())) == names.len(),
{
    let all = names.push(name);
    assert(all.drop_last() =~= names);
    assert(all.last() == name);
    law_decimals_are_read_back(names.len());
}

/// The number that a text of digits stands for.
pub open spec fn number_in(text: Seq<char>) -> int
    decreases text.len(),
{
    if text.len() == 0 {
        0
    } else {
        10 * number_in(text.drop_last()) + (text.last() as int - '0' as int)
    }
}

/// A number is written in decimal: read back, its digits give the number again.
pub proof fn law_decimals_are_read_back(n: nat)
    ensures
        number_in(decimal(n)) == n,
        decimal(n).len() > 0,
        forall|i: int|
            0 <= i < decimal(n).len() ==> '0' as int <= #[trigger] decimal(n)[i] as int <= '9' as int,
        n >= 10 ==> decimal(n)[0] != '0',
        n > 0 ==> decimal(n)[0] != '0',
    decreases n,
{
    if n < 10 {
        lemma_digit(n);
        let text = decimal(n);
        assert(text.drop_last() =~= Seq::<char>::empty());
        assert(number_in(text.drop_last()) == 0);
    } else {
        let tens = n / 10;
        let last = n % 10;
        lemma_digit(last);
        law_decimals_are_read_back(tens);
        let text = decimal(n);
        assert(text.drop_last() =~= decimal(tens));
        assert(text.last() == digit(last)[0]);
        assert(text[0] == decimal(tens)[0]);
    }
}

proof fn lemma_digit(d: nat)
    requires
        d < 10,
    ensures
        digit(d).len() == 1,
        digit(d)[0] as int == '0' as int + d,
{
    reveal_strlit("0");
    reveal_strlit("1");
    reveal_strlit("2");
    reveal_strlit("3");
    reveal_strlit("4");
    reveal_strlit("5");
    reveal_strlit("6");
    reveal_strlit("7");
    reveal_strlit("8");
    reveal_strlit("9");
}

/// The code of a shader is its bytes, four to a word, in the byte order in which the first word is
/// the magic number. What has no such order, or no whole words, is not the code of a shader.
pub proof fn law_shader_code_is_its_bytes(bytes: Seq<u8>, i: int)
    ensures
        match spirv_words(bytes) {
            Some(words) => {
                &&& words.len() > 0 && 4 * words.len() == bytes.len()
                &&& words[0] == 0x0723_0203
                &&& 0 <= i < words.len() ==> ({
                    let at = 4 * i;
                    if bytes[0] == 0x03 {
                        words[i] == bytes[at] + 0x100 * bytes[at + 1] + 0x1_0000 * bytes[at + 2]
                            + 0x100_0000 * bytes[at + 3]
                    } else {
                        words[i] == bytes[at + 3] + 0x100 * bytes[at + 2] + 0x1_0000 * bytes[at + 1]
                            + 0x100_0000 * bytes[at]
                    }
                })
            },
            None => {
                ||| bytes.len() == 0
                ||| bytes.len() % 4 != 0
                ||| {
                    &&& !(bytes[0] == 0x03 && bytes[1] == 0x02 && bytes[2] == 0x23 && bytes[3] == 0x07)
                    &&& !(bytes[0] == 0x07 && bytes[1] == 0x23 && bytes[2] == 0x02 && bytes[3] == 0x03)
                }
            },
        },
{
}

/// The type of a vector is named by its number of components, and that of a matrix by its columns.
pub proof fn law_types_are_named_by_their_size(kind: CustomUniformKind)
    ensures
        kind is Float ==> kind.type_text() == "float"@,
        kind is Vec2 || kind is Vec3 || kind is Vec4 ==> kind.type_text() == "vec"@ + decimal(
            (kind.extent() / 4) as nat,
        ),
        kind is Mat3 ==> kind.type_text() == "mat"@ + decimal((kind.extent() / 16) as nat),
{
    reveal_strlit("vec");
    reveal_strlit("mat");
    reveal_strlit("vec2");
    reveal_strlit("vec3");
    reveal_strlit("vec4");
    reveal_strlit("mat3");
    reveal_strlit("2");
    reveal_strlit("3");
    reveal_strlit("4");
    assert("vec2"@ =~= "vec"@ + "2"@);
    assert("vec3"@ =~= "vec"@ + "3"@);
    assert("vec4"@ =~= "vec"@ + "4"@);
    assert("mat3"@ =~= "mat"@ + "3"@);
    assert(decimal(2) == "2"@ && decimal(3) == "3"@ && decimal(4) == "4"@);
}

} // verus!
