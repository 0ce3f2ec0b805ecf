//! Custom programs and the parameter blocks of draws.

use smithay::backend::renderer::vulkan::color_params::ColorBlendParams;
use smithay::backend::renderer::vulkan::custom::{
    shader_code, std140_layout, texture_bindings_glsl, uniform_block_glsl, CustomUniform,
    CustomUniformDecl, CustomUniformKind, CustomUniformValue, OwnedCustomUniform, ProgramIds,
    ProgramLayout, MAX_CUSTOM_PARAMS_SIZE, MAX_CUSTOM_TEXTURES,
};
use smithay::backend::renderer::vulkan::device::CleanupItem;
use smithay::backend::renderer::vulkan::error::VulkanError;

fn decl(name: &str, kind: CustomUniformKind) -> CustomUniformDecl {
    CustomUniformDecl { name: name.to_string(), kind }
}

fn decls() -> Vec<CustomUniformDecl> {
    vec![
        decl("strength", CustomUniformKind::Float),
        decl("origin", CustomUniformKind::Vec2),
        decl("tint", CustomUniformKind::Vec3),
        decl("scale", CustomUniformKind::Float),
        decl("basis", CustomUniformKind::Mat3),
        decl("color", CustomUniformKind::Vec4),
    ]
}

fn names(list: &[&str]) -> Vec<String> {
    list.iter().map(|s| s.to_string()).collect()
}

fn float_at(block: &[u8], offset: usize) -> f32 {
    f32::from_le_bytes([block[offset], block[offset + 1], block[offset + 2], block[offset + 3]])
}

#[test]
fn blocks_are_laid_out_by_the_rules() {
    assert_eq!(std140_layout(&decls()), (vec![0, 8, 16, 28, 32, 80], 96));
    assert_eq!(std140_layout(&vec![]), (vec![], 0));
    assert_eq!(
        std140_layout(&vec![decl("a", CustomUniformKind::Float)]),
        (vec![0], 16)
    );
    assert_eq!(CustomUniformKind::Mat3.size(), 48);
    assert_eq!(CustomUniformKind::Vec3.align(), 16);
    assert_eq!(CustomUniformKind::Vec2.glsl_type(), "vec2");
}

#[test]
fn declarations_become_shader_text() {
    assert_eq!(
        uniform_block_glsl(&decls()[..3].iter().map(|d| decl(&d.name, d.kind)).collect()),
        "layout(std140, set = 1, binding = 0) uniform NiriCustom {\n    float strength;\n    vec2 origin;\n    vec3 tint;\n};\n"
    );
    assert_eq!(
        texture_bindings_glsl(&["first", "second"]),
        "layout(set = 0, binding = 0) uniform sampler2D first;\nlayout(set = 0, binding = 1) uniform sampler2D second;\n"
    );
    let many: Vec<&str> = (0..12).map(|_| "t").collect();
    assert!(texture_bindings_glsl(&many).contains("binding = 11) uniform sampler2D t;\n"));
    assert_eq!(texture_bindings_glsl(&[]), "");
}

#[test]
fn values_are_written_where_the_shader_reads_them() {
    let layout = ProgramLayout::new(decls(), names(&["tex"])).unwrap();
    assert_eq!(layout.block_size(), 96);
    assert_eq!(layout.texture_count(), 1);
    let bits = |v: f32| v.to_bits();
    let matrix: [f32; 9] = [1.0, 2.0, 3.0, 4.0, 5.0, 6.0, 7.0, 8.0, 9.0];
    let owned = OwnedCustomUniform {
        name: "origin".to_string(),
        value: CustomUniformValue::Vec2([bits(0.5), bits(-0.5)]),
    };
    let uniforms = [
        owned.borrow(),
        CustomUniform { name: "basis", value: CustomUniformValue::Mat3(matrix.map(bits)) },
        CustomUniform { name: "nobody", value: CustomUniformValue::Float(bits(99.0)) },
        CustomUniform { name: "scale", value: CustomUniformValue::Float(bits(3.25)) },
        // The first value for a name counts.
        CustomUniform { name: "scale", value: CustomUniformValue::Float(bits(4.0)) },
    ];
    let block = layout.serialize_uniforms(&uniforms);
    assert_eq!(block.len(), 96);
    assert_eq!(float_at(&block, 0), 0.0);
    assert_eq!(float_at(&block, 8), 0.5);
    assert_eq!(float_at(&block, 12), -0.5);
    assert_eq!(float_at(&block, 28), 3.25);
    for col in 0..3 {
        for row in 0..3 {
            assert_eq!(float_at(&block, 32 + col * 16 + row * 4), matrix[col * 3 + row]);
        }
        assert_eq!(float_at(&block, 32 + col * 16 + 12), 0.0);
    }
    assert!(block[80..].iter().all(|&b| b == 0));
}

#[test]
fn programs_are_limited() {
    assert_eq!(MAX_CUSTOM_TEXTURES, 2);
    assert_eq!(
        ProgramLayout::new(vec![], names(&["a", "b", "c"])).unwrap_err(),
        VulkanError::PipelineCreation
    );
    let fitting = |n: usize| (0..n).map(|_| decl("m", CustomUniformKind::Vec4)).collect();
    assert_eq!(
        ProgramLayout::new(fitting(32), vec![]).unwrap().block_size(),
        MAX_CUSTOM_PARAMS_SIZE
    );
    assert_eq!(
        ProgramLayout::new(fitting(33), vec![]).unwrap_err(),
        VulkanError::PipelineCreation
    );
    let floats = |n: usize| (0..n).map(|_| decl("f", CustomUniformKind::Float)).collect();
    assert_eq!(
        ProgramLayout::new(floats(128), vec![]).unwrap().block_size(),
        MAX_CUSTOM_PARAMS_SIZE
    );
    assert_eq!(
        ProgramLayout::new(floats(129), vec![]).unwrap_err(),
        VulkanError::PipelineCreation
    );
}

#[test]
fn programs_are_told_apart() {
    let mut ids = ProgramIds::new();
    let first = ids.program(7, ProgramLayout::new(vec![], vec![]).unwrap());
    let second = ids.program(7, ProgramLayout::new(vec![], vec![]).unwrap());
    assert_eq!((first.id, second.id), (1, 2));
    assert!(first == first && first != second);
    assert_eq!(first.cleanup(), (0, vec![CleanupItem::ShaderModule(7)]));
}

#[test]
fn shader_code_is_read_in_either_byte_order() {
    let words = [0x0723_0203u32, 0x0001_0000, 42];
    let little: Vec<u8> = words.iter().flat_map(|w| w.to_le_bytes()).collect();
    let big: Vec<u8> = words.iter().flat_map(|w| w.to_be_bytes()).collect();
    assert_eq!(shader_code(&little).unwrap(), words);
    assert_eq!(shader_code(&big).unwrap(), words);
    for broken in [&little[..11], &[][..], &[1, 2, 3, 4][..]] {
        assert_eq!(shader_code(broken).unwrap_err(), VulkanError::PipelineCreation);
    }
}

#[test]
fn color_parameters_are_packed() {
    let params = ColorBlendParams {
        hdr_pq: 1,
        ref_lum_scale: 2,
        linear: 3,
        linear_scale: 4,
        linear_to_ref: 5,
        hdr_to_sdr: 6,
        pq_gamut: 7,
        use_gamut: 8,
        tonemap: 9,
        tm_v: 10,
        tm_ref_scale: 11,
        tm_out_scale: 12,
        gamut: [20, 21, 22, 23, 24, 25, 26, 27, 28],
    };
    assert_eq!(
        params.to_std140(),
        [
            1, 2, 3, 4, 5, 6, 7, 8, 9, 10, 11, 12, 20, 21, 22, 0, 23, 24, 25, 0, 26, 27, 28, 0
        ]
    );
    assert_eq!(ColorBlendParams::default().to_std140(), [0; 24]);
}
