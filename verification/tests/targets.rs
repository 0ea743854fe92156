use wisp::reflect::parse_and_validate;
use wisp::schema::assemble::schema_from_module;
use wisp::schema::{PassStage, TextureFormat, UVec2};
use wisp::targets::{dispatch_size, plan_is_current, target_plan, target_size, target_step, TargetPlan, TargetStep};

const SRC: &str = r#"
    @group(0) @binding(1) var samp: sampler;
    @group(1) @binding(1) var sim: texture_2d<f32>;
    @group(1) @binding(2) var sim_out: texture_storage_2d<rgba8unorm, write>;
    @group(1) @binding(3) var half: texture_2d<f32>;

    /// @pass(target = "sim")
    @compute @workgroup_size(8, 8, 1)
    fn step_sim(@builtin(global_invocation_id) id: vec3<u32>) {
        textureStore(sim_out, vec2<i32>(id.xy), vec4<f32>(1.0));
    }

    /// @pass(target = "half", width = "$WIDTH/2", height = "$HEIGHT / 0")
    @fragment
    fn downsample(@location(0) uv: vec2<f32>) -> @location(0) vec4<f32> {
        return textureSample(sim, samp, uv);
    }

    @fragment
    fn present(@location(0) uv: vec2<f32>) -> @location(0) vec4<f32> {
        return textureSample(half, samp, uv);
    }
"#;

#[test]
fn dispatch_covers_the_target() {
    let schema = schema_from_module(&parse_and_validate(SRC).unwrap());
    // `$HEIGHT / 0` does not evaluate at load time either.
    assert!(schema.is_err());

    let ok = SRC.replace("$HEIGHT / 0", "$HEIGHT/2");
    let s = schema_from_module(&parse_and_validate(&ok).unwrap()).unwrap();
    let sim = &s.passes[0];
    assert_eq!(sim.stage, PassStage::Compute);
    assert_eq!(dispatch_size(sim, UVec2::new(100, 64)), [13, 8, 1]);

    let half = s.passes[1].target.as_ref().unwrap();
    assert_eq!(target_size(half, UVec2::new(801, 600)), UVec2::new(400, 300));
    let sim_target = sim.target.as_ref().unwrap();
    assert_eq!(target_size(sim_target, UVec2::new(801, 600)), UVec2::new(801, 600));

    let plan = target_plan(sim, UVec2::new(64, 64)).unwrap();
    assert_eq!(plan.size, UVec2::new(64, 64));
    assert!(plan.clear);
    assert_eq!(plan.dispatch, Some([8, 8, 1]));
    assert_eq!(plan.format, TextureFormat::Rgba8Unorm);
    assert!(target_plan(&s.passes[2], UVec2::new(64, 64)).is_none());
    let bigger = target_plan(sim, UVec2::new(65, 64)).unwrap();
    assert!(plan_is_current(&plan, &plan));
    assert!(!plan_is_current(&plan, &bigger));
}

#[test]
fn failing_size_expression_falls_back_to_the_view() {
    let src = r#"
        @group(0) @binding(1) var samp: sampler;
        @group(1) @binding(1) var small: texture_2d<f32>;
        /// @pass(target = "small", width = "$WIDTH - 1000")
        @fragment
        fn shrink(@location(0) uv: vec2<f32>) -> @location(0) vec4<f32> {
            return vec4<f32>(uv, 0.0, 1.0);
        }
        @fragment
        fn present(@location(0) uv: vec2<f32>) -> @location(0) vec4<f32> {
            return textureSample(small, samp, uv);
        }
    "#;
    let s = schema_from_module(&parse_and_validate(src).unwrap()).unwrap();
    let small = s.passes[0].target.as_ref().unwrap();
    assert_eq!(target_size(small, UVec2::new(1920, 1080)), UVec2::new(920, 1080));
    // Too small a view makes the expression non-positive: the view width is used.
    assert_eq!(target_size(small, UVec2::new(640, 480)), UVec2::new(640, 480));
}

#[test]
fn target_steps_keep_flip_or_reallocate() {
    let plan = |x: u32, ping_pong: bool| TargetPlan {
        size: UVec2 { x, y: 8 },
        clear: true,
        dispatch: None,
        ping_pong,
        format: TextureFormat::Rgba8Unorm,
    };
    assert_eq!(target_step(Some((plan(8, false), true)), None), TargetStep::Clear);
    assert_eq!(target_step(None, Some(plan(8, true))), TargetStep::Allocate { ping_pong: true });
    assert_eq!(target_step(Some((plan(8, true), true)), Some(plan(8, true))), TargetStep::Keep { flip: true });
    assert_eq!(target_step(Some((plan(8, false), true)), Some(plan(8, false))), TargetStep::Keep { flip: false });
    assert_eq!(target_step(Some((plan(8, false), true)), Some(plan(16, false))), TargetStep::Allocate { ping_pong: false });
    assert_eq!(target_step(Some((plan(8, false), false)), Some(plan(8, false))), TargetStep::Allocate { ping_pong: false });
}
