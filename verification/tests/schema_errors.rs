use wisp::reflect::parse_and_validate;
use wisp::schema::assemble::schema_from_module;
use wisp::schema::size::{size_from_outcome, EvalOutcome};
use wisp::schema::{SchemaError, SizeExprError, WispSchema};

fn schema(src: &str) -> WispSchema {
    schema_from_module(&parse_and_validate(src).unwrap()).unwrap()
}

fn schema_err(src: &str) -> SchemaError {
    schema_from_module(&parse_and_validate(src).unwrap()).unwrap_err()
}

const FINAL_PASS: &str = "
    @fragment
    fn fragment(@location(0) uv: vec2<f32>) -> @location(0) vec4<f32> {
        return vec4<f32>(uv, 0.0, 1.0);
    }
";

fn params(member: &str) -> String {
    format!(
        "
        struct Params {{
            {member}
        }}
        @group(1) @binding(0) var<uniform> params: Params;
        {FINAL_PASS}
        "
    )
}

#[test]
fn uniform_must_be_a_struct() {
    let src = format!("@group(1) @binding(0) var<uniform> tint: vec4<f32>;\n{FINAL_PASS}");
    assert!(matches!(schema_err(&src), SchemaError::UniformNotStruct { name } if name == "tint"));
}

#[test]
fn only_one_params_struct() {
    let src = format!(
        "
        struct A {{ x: f32, }}
        struct B {{ y: f32, }}
        @group(1) @binding(0) var<uniform> first: A;
        @group(1) @binding(1) var<uniform> second: B;
        {FINAL_PASS}
        "
    );
    assert!(matches!(
        schema_err(&src),
        SchemaError::MultipleParams { first, second } if first == "first" && second == "second"
    ));
}

#[test]
fn unsupported_param_type() {
    assert!(matches!(
        schema_err(&params("m: mat4x4<f32>,")),
        SchemaError::ParamType { field } if field == "m"
    ));
}

#[test]
fn hint_type_errors() {
    assert!(matches!(
        schema_err(&params("/// @min(0.0)\n v: vec2<f32>,")),
        SchemaError::ScalarHint { context } if context == "param `v`"
    ));
    assert!(matches!(
        schema_err(&params("/// @values(1, 2)\n x: f32,")),
        SchemaError::ValuesType { .. }
    ));
    assert!(matches!(
        schema_err(&params("/// @values(1, 2) @labels(\"a\")\n n: i32,")),
        SchemaError::LabelsMismatch { .. }
    ));
    assert!(matches!(
        schema_err(&params("/// @min(\"low\")\n x: f32,")),
        SchemaError::AnnotationArgs { annotation: "min", .. }
    ));
    assert!(matches!(
        schema_err(&params("/// @min(0.0\n x: f32,")),
        SchemaError::Annot { .. }
    ));
}

#[test]
fn params_and_images_share_names() {
    let src = format!(
        "
        struct Params {{ image: f32, }}
        @group(1) @binding(0) var<uniform> params: Params;
        @group(1) @binding(1) var image: texture_2d<f32>;
        {FINAL_PASS}
        "
    );
    assert!(matches!(schema_err(&src), SchemaError::NameCollision { name } if name == "image"));
}

#[test]
fn pass_annotation_errors() {
    let with_pass = |pass: &str| {
        format!(
            "
            /// {pass}
            @fragment
            fn first(@location(0) uv: vec2<f32>) -> @location(0) vec4<f32> {{
                return vec4<f32>(uv, 0.0, 1.0);
            }}
            {FINAL_PASS}
            "
        )
    };
    assert!(matches!(
        schema_err(&with_pass("@pass(target = \"a\", bogus = 1)")),
        SchemaError::PassArg { arg, .. } if arg == "bogus"
    ));
    assert!(matches!(
        schema_err(&with_pass("@pass(target = \"a\", 2)")),
        SchemaError::PassArg { arg, .. } if arg == "<number>"
    ));
    assert!(matches!(
        schema_err(&with_pass("@pass(target = 3)")),
        SchemaError::AnnotationArgs { annotation: "pass", .. }
    ));
    assert!(matches!(
        schema_err(&with_pass("@pass(target = \"a\", dispatch = \"8\")")),
        SchemaError::DispatchOnFragment { .. }
    ));
    assert!(matches!(
        schema_err(&with_pass("@pass(target = \"a\", width = \"$WIDTH /\")")),
        SchemaError::SizeExpr { err: SizeExprError::Eval { .. }, .. }
    ));
    assert!(matches!(
        schema_err(&with_pass("@pass(target = \"a\", height = \"$HEIGHT - 5000\")")),
        SchemaError::SizeExpr { err: SizeExprError::NonPositive { .. }, .. }
    ));
    assert!(matches!(
        schema_err(&with_pass("@pass(target = \"a\"")),
        SchemaError::Annot { .. }
    ));
    assert!(matches!(
        schema_err(&with_pass("@bogus")),
        SchemaError::UnknownAnnotation { valid, .. } if valid == "pass"
    ));
    let twice = format!(
        r#"
        /// @pass(target = "a")
        @fragment
        fn one(@location(0) uv: vec2<f32>) -> @location(0) vec4<f32> {{ return vec4<f32>(0.0); }}
        /// @pass(target = "a")
        @fragment
        fn two(@location(0) uv: vec2<f32>) -> @location(0) vec4<f32> {{ return vec4<f32>(0.0); }}
        {FINAL_PASS}
        "#
    );
    assert!(matches!(schema_err(&twice), SchemaError::DuplicateTarget { name } if name == "a"));
}

#[test]
fn dispatch_arity() {
    let src = format!(
        r#"
        @group(1) @binding(1) var sim_out: texture_storage_2d<rgba8unorm, write>;
        /// @pass(target = "sim", dispatch = "1, 2, 3, 4")
        @compute @workgroup_size(8, 8, 1)
        fn step_sim(@builtin(global_invocation_id) id: vec3<u32>) {{
            textureStore(sim_out, vec2<i32>(id.xy), vec4<f32>(0.0));
        }}
        {FINAL_PASS}
        "#
    );
    assert!(matches!(schema_err(&src), SchemaError::DispatchArity { .. }));
    let two = src.replace("1, 2, 3, 4", "$WIDTH / 8, 4");
    let s = schema(&two);
    assert_eq!(
        s.passes[0].dispatch,
        Some(["$WIDTH / 8".to_string(), "4".to_string(), "1".to_string()])
    );
}

fn storage(decl: &str, target: &str) -> String {
    format!(
        r#"
        @group(1) @binding(1) var {decl};
        /// @pass(target = "{target}")
        @compute @workgroup_size(8, 8, 1)
        fn step_sim(@builtin(global_invocation_id) id: vec3<u32>) {{
        }}
        {FINAL_PASS}
        "#
    )
}

#[test]
fn storage_texture_errors() {
    assert!(matches!(
        schema_err(&storage("sim_store: texture_storage_2d<rgba8unorm, write>", "sim")),
        SchemaError::StorageTextureName { name } if name == "sim_store"
    ));
    assert!(matches!(
        schema_err(&storage("other_out: texture_storage_2d<rgba8unorm, write>", "sim")),
        SchemaError::StorageTextureOrphan { target, .. } if target == "other"
    ));
    assert!(matches!(
        schema_err(&storage("sim_out: texture_storage_2d<rgba8unorm, read_write>", "sim")),
        SchemaError::StorageAccess { name } if name == "sim_out"
    ));
    assert!(matches!(
        schema_err(&storage("sim_out: texture_storage_2d<r32float, write>", "sim")),
        SchemaError::StorageFormat { expected: "rgba8unorm", .. }
    ));
}

#[test]
fn unsupported_bindings() {
    let src = format!("@group(1) @binding(1) var t: texture_2d<u32>;\n{FINAL_PASS}");
    assert!(matches!(schema_err(&src), SchemaError::UnsupportedTexture { name } if name == "t"));
    let src = format!("@group(1) @binding(1) var t: texture_3d<f32>;\n{FINAL_PASS}");
    assert!(matches!(schema_err(&src), SchemaError::UnsupportedTexture { .. }));
    let src = format!("@group(1) @binding(1) var s: sampler_comparison;\n{FINAL_PASS}");
    assert!(matches!(schema_err(&src), SchemaError::UnsupportedBinding { name } if name == "s"));
    let src = format!("@group(1) @binding(1) var<storage> data: array<f32>;\n{FINAL_PASS}");
    assert!(matches!(schema_err(&src), SchemaError::UnsupportedBinding { .. }));
    let src = format!("@group(3) @binding(0) var s: sampler;\n{FINAL_PASS}");
    assert!(matches!(schema_err(&src), SchemaError::BadGroup { group: 3, .. }));
    let src = format!("@group(0) @binding(0) var s: sampler;\n{FINAL_PASS}");
    assert!(matches!(schema_err(&src), SchemaError::Group0Binding { binding: 0, .. }));
}

#[test]
fn module_description_and_bindings_in_order() {
    let src = format!(
        "
        //! A test shader.
        //!   With two lines.
        @group(1) @binding(3) var b: texture_2d<f32>;
        @group(0) @binding(1) var samp: sampler;
        @group(1) @binding(2) var a: texture_2d<f32>;
        {FINAL_PASS}
        "
    );
    let s = schema(&src);
    assert_eq!(s.description, "A test shader. With two lines.");
    let slots: Vec<(u32, u32)> = s.bindings.iter().map(|b| (b.group, b.binding)).collect();
    assert_eq!(slots, vec![(0, 1), (1, 2), (1, 3)]);
    let names: Vec<&str> = s.textures.iter().map(|t| t.name.as_str()).collect();
    assert_eq!(names, vec!["a", "b"]);
    // Unused bindings are visible to every stage present.
    assert!(s.bindings.iter().all(|b| b.visibility.fragment && !b.visibility.compute));
}

#[test]
fn size_from_outcome_reads_every_kind_of_outcome() {
    assert_eq!(size_from_outcome("e", EvalOutcome::Int(7)), Ok(7));
    assert_eq!(size_from_outcome("e", EvalOutcome::Int(1 << 40)), Ok(u32::MAX));
    assert_eq!(
        size_from_outcome("e", EvalOutcome::Int(0)),
        Err(SizeExprError::NonPositive { expr: "e".to_string() })
    );
    assert_eq!(size_from_outcome("e", EvalOutcome::Float(400.75f64.to_bits())), Ok(400));
    assert_eq!(size_from_outcome("e", EvalOutcome::Float(1.0f64.to_bits())), Ok(1));
    assert_eq!(size_from_outcome("e", EvalOutcome::Float(1e12f64.to_bits())), Ok(u32::MAX));
    assert_eq!(
        size_from_outcome("e", EvalOutcome::Float(0.5f64.to_bits())),
        Err(SizeExprError::NonPositive { expr: "e".to_string() })
    );
    assert_eq!(
        size_from_outcome("e", EvalOutcome::Float(f64::NAN.to_bits())),
        Err(SizeExprError::NonPositive { expr: "e".to_string() })
    );
    assert_eq!(
        size_from_outcome("e", EvalOutcome::Other("true".to_string())),
        Err(SizeExprError::Eval { expr: "e".to_string(), err: "expected a number, found `true`".to_string() })
    );
    assert_eq!(
        size_from_outcome("e", EvalOutcome::Failed("boom".to_string())),
        Err(SizeExprError::Eval { expr: "e".to_string(), err: "boom".to_string() })
    );
}
