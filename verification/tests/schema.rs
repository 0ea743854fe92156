use wisp::globals::GlobalKind;
use wisp::number::Number;
use wisp::reflect::parse_and_validate;
use wisp::schema::assemble::schema_from_module;
use wisp::schema::{
    eval_size, BindingDesc, BindingTy, ParamType, PassStage, SchemaError, ShaderStages,
    SizeExprError, TextureFormat, TextureRole, UVec2, WispSchema,
};

fn schema(src: &str) -> WispSchema {
    schema_from_module(&parse_and_validate(src).unwrap()).unwrap()
}

fn schema_err(src: &str) -> SchemaError {
    schema_from_module(&parse_and_validate(src).unwrap()).unwrap_err()
}

/// The value a number literal denotes, as `f64::from_str` reads it.
fn num(n: &Option<Number>) -> Option<f64> {
    n.as_ref().map(|n| n.literal().parse::<f64>().unwrap())
}

fn nums(v: &Option<Vec<Number>>) -> Option<Vec<f64>> {
    v.as_ref()
        .map(|v| v.iter().map(|n| n.literal().parse::<f64>().unwrap()).collect())
}

const FRAGMENT: ShaderStages = ShaderStages { fragment: true, compute: false };
const COMPUTE: ShaderStages = ShaderStages { fragment: false, compute: true };

const FINAL_PASS: &str = "
        @fragment
        fn fragment(@location(0) uv: vec2<f32>) -> @location(0) vec4<f32> {
            return vec4<f32>(uv, 0.0, 1.0);
        }
    ";

#[test]
fn params_offsets_and_size() {
    let src = format!(
        "
            struct Params {{
                a: f32,
                b: vec2<f32>,
                c: vec4<f32>,
            }}
            @group(1) @binding(0) var<uniform> params: Params;
            {FINAL_PASS}
            "
    );
    let s = schema(&src);
    let params = s.params.unwrap();
    assert_eq!(params.size, 32);
    let layout: Vec<_> = params
        .fields
        .iter()
        .map(|f| (f.name.as_str(), f.ty, f.offset))
        .collect();
    assert_eq!(
        layout,
        vec![
            ("a", ParamType::F32, 0),
            ("b", ParamType::Vec2, 8),
            ("c", ParamType::Vec4, 16),
        ]
    );
    assert_eq!(s.passes.len(), 1);
    assert_eq!(s.passes[0].stage, PassStage::Fragment);
    assert!(s.passes[0].target.is_none());
    assert_eq!(
        s.bindings,
        vec![BindingDesc {
            group: 1,
            binding: 0,
            visibility: FRAGMENT,
            ty: BindingTy::Params { size: 32 },
        }]
    );
}

#[test]
fn member_annotations() {
    let src = format!(
        r#"
            struct Params {{
                /// Overall strength. @min(0.0) @max(1.0) @step(0.01) @default(0.5)
                level: f32,
                /// @color @default(1.0, 0.0, 0.0, 1.0) @label("Tint")
                tint: vec4<f32>,
                /// @bool @default(1)
                enabled: u32,
                /// @values(1, 2, 4) @labels("one", "two", "four")
                subdiv: i32,
            }}
            @group(1) @binding(0) var<uniform> params: Params;
            {FINAL_PASS}
            "#
    );
    let params = schema(&src).params.unwrap();
    let level = &params.fields[0];
    assert_eq!(level.ui.description, "Overall strength.");
    assert_eq!(
        (num(&level.ui.min), num(&level.ui.max), num(&level.ui.step)),
        (Some(0.0), Some(1.0), Some(0.01))
    );
    assert_eq!(nums(&level.ui.default), Some(vec![0.5]));
    let tint = &params.fields[1];
    assert!(tint.ui.color);
    assert_eq!(tint.ui.label.as_deref(), Some("Tint"));
    assert_eq!(nums(&tint.ui.default), Some(vec![1.0, 0.0, 0.0, 1.0]));
    let enabled = &params.fields[2];
    assert_eq!(enabled.ty, ParamType::Bool);
    let subdiv = &params.fields[3];
    assert_eq!(subdiv.ui.values, vec![1, 2, 4]);
    assert_eq!(subdiv.ui.labels, vec!["one", "two", "four"]);
}

#[test]
fn annotation_errors() {
    let unknown = format!(
        "
            struct Params {{
                /// @mni(0.0)
                level: f32,
            }}
            @group(1) @binding(0) var<uniform> params: Params;
            {FINAL_PASS}
            "
    );
    assert!(matches!(
        schema_err(&unknown),
        SchemaError::UnknownAnnotation { name, .. } if name == "mni"
    ));

    let arity = format!(
        "
            struct Params {{
                /// @default(1.0, 2.0)
                level: f32,
            }}
            @group(1) @binding(0) var<uniform> params: Params;
            {FINAL_PASS}
            "
    );
    assert!(matches!(
        schema_err(&arity),
        SchemaError::DefaultArity {
            expected: 1,
            found: 2,
            ..
        }
    ));

    let color = format!(
        "
            struct Params {{
                /// @color
                level: f32,
            }}
            @group(1) @binding(0) var<uniform> params: Params;
            {FINAL_PASS}
            "
    );
    assert!(matches!(schema_err(&color), SchemaError::ColorType { .. }));

    let boolean = format!(
        "
            struct Params {{
                /// @bool
                level: f32,
            }}
            @group(1) @binding(0) var<uniform> params: Params;
            {FINAL_PASS}
            "
    );
    assert!(matches!(schema_err(&boolean), SchemaError::BoolType { .. }));
}

#[test]
fn globals_subset_and_errors() {
    let src = format!(
        "
            struct Globals {{
                resolution: vec2<f32>,
                time: f32,
            }}
            @group(0) @binding(0) var<uniform> globals: Globals;
            {FINAL_PASS}
            "
    );
    let globals = schema(&src).globals.unwrap();
    assert_eq!(
        globals.fields,
        vec![(GlobalKind::Resolution, 0), (GlobalKind::Time, 8)]
    );

    let unknown = format!(
        "
            struct Globals {{ vibes: f32, }}
            @group(0) @binding(0) var<uniform> globals: Globals;
            {FINAL_PASS}
            "
    );
    assert!(matches!(
        schema_err(&unknown),
        SchemaError::UnknownGlobal { name, .. } if name == "vibes"
    ));

    let wrong_ty = format!(
        "
            struct Globals {{ time: vec2<f32>, }}
            @group(0) @binding(0) var<uniform> globals: Globals;
            {FINAL_PASS}
            "
    );
    assert!(matches!(
        schema_err(&wrong_ty),
        SchemaError::GlobalType { name, expected } if name == "time" && expected == "f32"
    ));
}

#[test]
fn texture_classification_and_multipass() {
    let src = r#"
            @group(0) @binding(1) var samp: sampler;
            @group(1) @binding(1) var input_image: texture_2d<f32>;
            @group(1) @binding(2) var buffer_a: texture_2d<f32>;

            /// Feedback accumulator.
            /// @pass(target = "buffer_a", persistent, float, width = "$WIDTH/2", height = "$HEIGHT/2")
            @fragment
            fn feedback(@location(0) uv: vec2<f32>) -> @location(0) vec4<f32> {
                return textureSample(buffer_a, samp, uv) * 0.95
                    + textureSample(input_image, samp, uv) * 0.05;
            }

            @fragment
            fn fragment(@location(0) uv: vec2<f32>) -> @location(0) vec4<f32> {
                return textureSample(buffer_a, samp, uv);
            }
        "#;
    let s = schema(src);
    assert_eq!(s.passes.len(), 2);
    let feedback = &s.passes[0];
    assert_eq!(feedback.entry, "feedback");
    assert_eq!(feedback.description, "Feedback accumulator.");
    let target = feedback.target.as_ref().unwrap();
    assert_eq!(target.name, "buffer_a");
    assert!(target.persistent);
    assert!(target.float);
    assert_eq!(target.format, TextureFormat::Rgba16Float);
    assert_eq!(target.width.as_deref(), Some("$WIDTH/2"));
    assert_eq!(target.height.as_deref(), Some("$HEIGHT/2"));
    assert!(
        feedback.self_feedback,
        "feedback pass samples its own target"
    );
    let final_pass = &s.passes[1];
    assert!(final_pass.target.is_none());
    assert!(!final_pass.self_feedback);

    let roles: Vec<_> = s
        .textures
        .iter()
        .map(|t| (t.name.as_str(), t.role))
        .collect();
    assert_eq!(
        roles,
        vec![
            ("input_image", TextureRole::ImageInput),
            ("buffer_a", TextureRole::PassTarget { pass: 0 }),
        ]
    );
    assert_eq!(s.samplers, vec![(0, 1)]);
}

#[test]
fn compute_pass_and_storage_target() {
    let src = r#"
            @group(0) @binding(1) var samp: sampler;
            @group(1) @binding(1) var sim: texture_2d<f32>;
            @group(1) @binding(2) var sim_out: texture_storage_2d<rgba16float, write>;

            /// @pass(target = "sim", float, dispatch = "$WIDTH/8, $HEIGHT/8")
            @compute @workgroup_size(8, 8, 1)
            fn step_sim(@builtin(global_invocation_id) id: vec3<u32>) {
                let c = textureLoad(sim, vec2<i32>(id.xy), 0);
                textureStore(sim_out, vec2<i32>(id.xy), c);
            }

            @fragment
            fn present(@location(0) uv: vec2<f32>) -> @location(0) vec4<f32> {
                return textureSample(sim, samp, uv);
            }
        "#;
    let s = schema(src);
    let sim = &s.passes[0];
    assert_eq!(sim.stage, PassStage::Compute);
    assert_eq!(sim.workgroup_size, [8, 8, 1]);
    assert_eq!(
        sim.dispatch,
        Some([
            "$WIDTH/8".to_string(),
            "$HEIGHT/8".to_string(),
            "1".to_string()
        ])
    );
    assert!(sim.self_feedback, "compute pass reads its own target");
    assert_eq!(
        sim.target.as_ref().unwrap().format,
        TextureFormat::Rgba16Float
    );
    assert_eq!(s.textures[1].role, TextureRole::StorageTarget { pass: 0 });
    let storage = s
        .bindings
        .iter()
        .find(|b| (b.group, b.binding) == (1, 2))
        .unwrap();
    assert_eq!(
        storage.ty,
        BindingTy::StorageTexture2d {
            format: TextureFormat::Rgba16Float
        }
    );
    assert_eq!(storage.visibility, COMPUTE);
    // `sim` is read by both stages.
    let sim_binding = s
        .bindings
        .iter()
        .find(|b| (b.group, b.binding) == (1, 1))
        .unwrap();
    assert_eq!(
        sim_binding.visibility,
        ShaderStages { fragment: true, compute: true }
    );
}

#[test]
fn compute_errors() {
    let no_target = "
            @compute @workgroup_size(8, 8, 1)
            fn step_sim() {}
        ";
    assert!(matches!(
        schema_err(&format!("{no_target}{FINAL_PASS}")),
        SchemaError::ComputeWithoutTarget { .. }
    ));

    let missing_storage = format!(
        r#"
            /// @pass(target = "sim")
            @compute @workgroup_size(8, 8, 1)
            fn step_sim() {{}}
            {FINAL_PASS}
            "#
    );
    assert!(matches!(
        schema_err(&missing_storage),
        SchemaError::MissingStorageTexture { target, .. } if target == "sim"
    ));

    let bad_format = format!(
        r#"
            @group(1) @binding(1) var sim_out: texture_storage_2d<rgba8unorm, write>;
            /// @pass(target = "sim", float)
            @compute @workgroup_size(8, 8, 1)
            fn step_sim(@builtin(global_invocation_id) id: vec3<u32>) {{
                textureStore(sim_out, vec2<i32>(id.xy), vec4<f32>(0.0));
            }}
            {FINAL_PASS}
            "#
    );
    assert!(matches!(
        schema_err(&bad_format),
        SchemaError::StorageFormat { expected, .. } if expected == "rgba16float"
    ));
}

#[test]
fn pass_errors() {
    assert!(matches!(
        schema_err(
            "
                @fragment
                fn a() -> @location(0) vec4<f32> { return vec4<f32>(0.0); }
                @fragment
                fn b() -> @location(0) vec4<f32> { return vec4<f32>(0.0); }
                "
        ),
        SchemaError::MultipleFinalPasses { .. }
    ));

    assert!(matches!(
        schema_err(
            r#"
                /// @pass(target = "a")
                @fragment
                fn only() -> @location(0) vec4<f32> { return vec4<f32>(0.0); }
                "#
        ),
        SchemaError::NoFinalPass
    ));

    assert!(matches!(
        schema_err(
            "
                /// @pass(persistent)
                @fragment
                fn only() -> @location(0) vec4<f32> { return vec4<f32>(0.0); }
                "
        ),
        SchemaError::FinalPassConfig { .. }
    ));

    assert!(matches!(
        schema_err(&format!(
            "
                @vertex
                fn vert() -> @builtin(position) vec4<f32> {{ return vec4<f32>(0.0); }}
                {FINAL_PASS}
                "
        )),
        SchemaError::UnsupportedStage { .. }
    ));
}

#[test]
fn group_conventions() {
    assert!(matches!(
        schema_err(&format!(
            "
                @group(2) @binding(0) var tex: texture_2d<f32>;
                {FINAL_PASS}
                "
        )),
        SchemaError::BadGroup { group: 2, .. }
    ));

    assert!(matches!(
        schema_err(&format!(
            "
                struct G {{ time: f32, }}
                @group(0) @binding(2) var<uniform> globals: G;
                {FINAL_PASS}
                "
        )),
        SchemaError::Group0Binding { binding: 2, .. }
    ));
}

#[test]
fn audio_annotations() {
    let src = format!(
        "
            /// @audio(samples = 1024)
            @group(1) @binding(1) var waveform: texture_2d<f32>;
            /// @audio_fft
            @group(1) @binding(2) var spectrum: texture_2d<f32>;
            {FINAL_PASS}
            "
    );
    let s = schema(&src);
    assert_eq!(
        s.textures[0].role,
        TextureRole::AudioWaveform { samples: 1024 }
    );
    assert_eq!(s.textures[1].role, TextureRole::AudioFft { bins: 256 });
}

#[test]
fn eval_size_expressions() {
    let base = UVec2::new(800, 600);
    assert_eq!(eval_size("$WIDTH", base).unwrap(), 800);
    assert_eq!(eval_size("$WIDTH/2", base).unwrap(), 400);
    assert_eq!(eval_size("$WIDTH/16.0", base).unwrap(), 50);
    assert_eq!(eval_size("512", base).unwrap(), 512);
    assert_eq!(eval_size("max($HEIGHT, 1024)", base).unwrap(), 1024);
    assert!(matches!(
        eval_size("0", base),
        Err(SizeExprError::NonPositive { .. })
    ));
    assert!(matches!(
        eval_size("$WIDTH /", base),
        Err(SizeExprError::Eval { .. })
    ));
}

#[test]
fn uniform_sizes_round_up_to_16() {
    let s = schema(
        "struct Params {\n    wobble: f32,\n}\n@group(1) @binding(0) var<uniform> params: Params;\n@fragment\nfn frag() -> @location(0) vec4<f32> {\n    return vec4<f32>(params.wobble);\n}\n",
    );
    assert_eq!(s.params.unwrap().size, 16);
    assert_eq!(
        s.bindings,
        vec![BindingDesc { group: 1, binding: 0, visibility: FRAGMENT, ty: BindingTy::Params { size: 16 } }]
    );
    let s = schema(&format!(
        "struct Globals {{ time: f32, frame: u32 }}\n@group(0) @binding(0) var<uniform> globals: Globals;\n{}",
        "@fragment\nfn frag() -> @location(0) vec4<f32> {\n    return vec4<f32>(globals.time);\n}\n"
    ));
    assert_eq!(s.globals.unwrap().size, 16);
}
