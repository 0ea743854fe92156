use wisp::reflect::{find_directive, parse_and_validate, ReflectError, TypeInner};

#[test]
fn rejects_directives() {
    let src = "// fine\n#import bevy_pbr::forward_io\n";
    assert!(matches!(
        parse_and_validate(src),
        Err(ReflectError::Directive { line: 2 })
    ));
}

#[test]
fn parse_error_includes_location() {
    let Err(ReflectError::Parse(msg)) = parse_and_validate("fn nope( {") else {
        panic!("expected parse error");
    };
    assert!(msg.contains("1:"), "expected a span in: {msg}");
}

#[test]
fn doc_comments_are_retained() {
    let src = "
            struct Params {
                /// @min(0.0)
                level: f32,
            }
            @group(1) @binding(0) var<uniform> params: Params;
            @fragment
            fn fragment(@location(0) uv: vec2<f32>) -> @location(0) vec4<f32> {
                return vec4<f32>(params.level);
            }
        ";
    let reflected = parse_and_validate(src).unwrap();
    assert!(reflected.types.iter().any(|ty| match ty {
        TypeInner::Struct { members, .. } => members
            .iter()
            .any(|m| m.docs.iter().any(|l| l.contains("@min(0.0)"))),
        _ => false,
    }));
}

#[test]
fn directive_after_leading_white_space() {
    assert_eq!(find_directive("fn a() {}\n   \t#define X\n"), Some(2));
    assert_eq!(find_directive("#import x"), Some(1));
    assert_eq!(find_directive("// # not a directive\nfn a() {}"), None);
    assert_eq!(find_directive(""), None);
}

#[test]
fn validation_error_is_reported() {
    let src = "
            @fragment
            fn fragment() -> @location(0) vec4<f32> {
                return 1u;
            }
        ";
    assert!(matches!(
        parse_and_validate(src),
        Err(ReflectError::Validation(_)) | Err(ReflectError::Parse(_))
    ));
}

#[test]
fn entry_points_record_global_uses() {
    let src = "
            @group(1) @binding(1) var tex: texture_2d<f32>;
            @group(1) @binding(2) var other: texture_2d<f32>;
            @fragment
            fn fragment(@location(0) uv: vec2<f32>) -> @location(0) vec4<f32> {
                return textureLoad(tex, vec2<i32>(0, 0), 0);
            }
        ";
    let m = parse_and_validate(src).unwrap();
    assert_eq!(m.global_variables.len(), 2);
    assert_eq!(m.entry_points.len(), 1);
    assert_eq!(m.entry_points[0].uses, vec![true, false]);
}
