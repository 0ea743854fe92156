use wisp::align::pad_uniform_structs;
use wisp::reflect::{parse_and_validate, TypeInner, VarSpace};

/// The size of the `@group(g) @binding(0)` uniform struct in `source`.
fn uniform_size(source: &str, group: u32) -> u32 {
    let module = parse_and_validate(source).unwrap();
    module
        .global_variables
        .iter()
        .find_map(|var| {
            let binding = var.binding.as_ref()?;
            if !(var.space == VarSpace::Uniform && binding.group == group && binding.binding == 0) {
                return None;
            }
            match &module.types[var.ty] {
                TypeInner::Struct { span, .. } => Some(*span),
                _ => None,
            }
        })
        .unwrap()
}

const SHADER: &str = "\
struct Params {
    wobble: f32,
}
@group(1) @binding(0) var<uniform> params: Params;
@fragment
fn frag() -> @location(0) vec4<f32> {
    return vec4<f32>(params.wobble);
}
";

#[test]
fn pads_small_params_to_16() {
    let module = parse_and_validate(SHADER).unwrap();
    assert_eq!(uniform_size(SHADER, 1), 4, "single f32 starts at 4 bytes");
    let padded = pad_uniform_structs(SHADER, &module);
    // The padded source still parses and validates, now at 16 bytes.
    assert_eq!(uniform_size(&padded, 1), 16);
}

#[test]
fn leaves_aligned_structs_untouched() {
    let source = "\
struct Params {
    tint: vec4<f32>,
}
@group(1) @binding(0) var<uniform> params: Params;
@fragment
fn frag() -> @location(0) vec4<f32> {
    return params.tint;
}
";
    let module = parse_and_validate(source).unwrap();
    assert_eq!(uniform_size(source, 1), 16);
    assert_eq!(pad_uniform_structs(source, &module), source);
}

#[test]
fn padding_text_is_exact() {
    let module = parse_and_validate(SHADER).unwrap();
    let padded = pad_uniform_structs(SHADER, &module);
    let expected = SHADER.replacen(
        "    wobble: f32,\n}",
        "    wobble: f32,\n\n    _wisp_align_pad_0: f32,\n    _wisp_align_pad_1: f32,\n    _wisp_align_pad_2: f32,\n}",
        1,
    );
    assert_eq!(padded, expected);
}

#[test]
fn pads_globals_and_params_with_non_ascii_text_before() {
    let source = "\
// Réglages: ünïcode comments shift byte offsets.
struct Globals {
    time: f32,
    frame: u32,
}
struct Params {
    level: f32,
    tint: vec3<f32>,
}
@group(0) @binding(0) var<uniform> globals: Globals;
@group(1) @binding(0) var<uniform> params: Params;
@fragment
fn frag() -> @location(0) vec4<f32> {
    return vec4<f32>(globals.time + params.level);
}
";
    let module = parse_and_validate(source).unwrap();
    let padded = pad_uniform_structs(source, &module);
    assert_eq!(uniform_size(&padded, 0), 16);
    assert_eq!(uniform_size(&padded, 1), 32);
}
