use wisp::globals::{GlobalKind, GlobalsSchema, GlobalsValues};
use wisp::layout::{
    binding_groups, binds_own_storage, dynamic_offset, pack_globals_chunks, pass_attachment, requires_compute,
    target_sample, texture_at, texture_source, PassAttachment, TargetSample, TextureSource, COMPUTE_UNSUPPORTED,
};
use wisp::reflect::parse_and_validate;
use wisp::schema::assemble::schema_from_module;
use wisp::schema::{
    BindingDesc, BindingTy, PassSchema, PassStage, ShaderStages, TargetSchema, TextureFormat, TextureRole,
    TextureSchema, UVec2,
};
use wisp::targets::TargetPlan;

fn desc(group: u32, binding: u32) -> BindingDesc {
    BindingDesc {
        group,
        binding,
        visibility: ShaderStages { fragment: true, compute: false },
        ty: BindingTy::Sampler,
    }
}

#[test]
fn bindings_split_into_groups() {
    let groups = binding_groups(&vec![desc(0, 1), desc(1, 0), desc(1, 2)]);
    assert_eq!(groups, vec![vec![desc(0, 1)], vec![desc(1, 0), desc(1, 2)]]);
    // A group with no bindings still gets its (empty) slot.
    let groups = binding_groups(&vec![desc(1, 3)]);
    assert_eq!(groups, vec![vec![], vec![desc(1, 3)]]);
    assert!(binding_groups(&vec![]).is_empty());
}

#[test]
fn globals_chunks_are_aligned_per_pass() {
    let schema = GlobalsSchema {
        size: 8,
        fields: vec![(GlobalKind::Frame, 0), (GlobalKind::PassIndex, 4)],
    };
    let values: Vec<GlobalsValues> = (0..3)
        .map(|pass| GlobalsValues {
            frame: 10,
            pass_index: pass,
            ..Default::default()
        })
        .collect();
    let (bytes, offsets) = pack_globals_chunks(&schema, &values, 256);
    assert_eq!(offsets, vec![0, 256, 512]);
    assert_eq!(bytes.len(), 768);
    for (pass, &offset) in offsets.iter().enumerate() {
        let at = offset as usize;
        let frame = u32::from_ne_bytes([bytes[at], bytes[at + 1], bytes[at + 2], bytes[at + 3]]);
        let index = u32::from_ne_bytes([bytes[at + 4], bytes[at + 5], bytes[at + 6], bytes[at + 7]]);
        assert_eq!((frame, index), (10, pass as u32));
        assert!(bytes[at + 8..at + 256].iter().all(|&b| b == 0));
    }
}

#[test]
fn pass_targets_sampled_by_order() {
    assert_eq!(target_sample(0, 1, false), TargetSample::Written);
    assert_eq!(target_sample(1, 1, false), TargetSample::Placeholder);
    assert_eq!(target_sample(1, 1, true), TargetSample::Previous);
    assert_eq!(target_sample(2, 1, false), TargetSample::Previous);
}

#[test]
fn compute_requirement() {
    let fragment_only = "
        @fragment
        fn fragment(@location(0) uv: vec2<f32>) -> @location(0) vec4<f32> {
            return vec4<f32>(uv, 0.0, 1.0);
        }
    ";
    let s = schema_from_module(&parse_and_validate(fragment_only).unwrap()).unwrap();
    assert!(!requires_compute(&s.passes));
    let compute = r#"
        @group(1) @binding(1) var sim_out: texture_storage_2d<rgba8unorm, write>;
        /// @pass(target = "sim")
        @compute @workgroup_size(8, 8, 1)
        fn step_sim(@builtin(global_invocation_id) id: vec3<u32>) {
            textureStore(sim_out, vec2<i32>(id.xy), vec4<f32>(0.0));
        }
        @fragment
        fn fragment(@location(0) uv: vec2<f32>) -> @location(0) vec4<f32> {
            return vec4<f32>(uv, 0.0, 1.0);
        }
    "#;
    let s = schema_from_module(&parse_and_validate(compute).unwrap()).unwrap();
    assert!(requires_compute(&s.passes));
}

fn texture(name: &str, group: u32, binding: u32, role: TextureRole) -> TextureSchema {
    TextureSchema { name: name.to_string(), group, binding, role }
}

#[test]
fn textures_are_found_by_group_and_binding() {
    let textures = vec![
        texture("a", 1, 1, TextureRole::ImageInput),
        texture("b", 1, 2, TextureRole::PassTarget { pass: 0 }),
        texture("c", 2, 1, TextureRole::ImageInput),
    ];
    assert_eq!(texture_at(&textures, 1, 2), Some(1));
    assert_eq!(texture_at(&textures, 2, 1), Some(2));
    assert_eq!(texture_at(&textures, 2, 2), None);
}

#[test]
fn sampled_textures_bind_inputs_targets_or_the_placeholder() {
    assert_eq!(texture_source(TextureRole::ImageInput, 0, false), TextureSource::Input);
    assert_eq!(texture_source(TextureRole::AudioFft { bins: 8 }, 3, true), TextureSource::Input);
    assert_eq!(
        texture_source(TextureRole::PassTarget { pass: 0 }, 1, false),
        TextureSource::Target { pass: 0, sample: TargetSample::Written }
    );
    assert_eq!(
        texture_source(TextureRole::PassTarget { pass: 1 }, 1, true),
        TextureSource::Target { pass: 1, sample: TargetSample::Previous }
    );
    assert_eq!(
        texture_source(TextureRole::PassTarget { pass: 1 }, 1, false),
        TextureSource::Target { pass: 1, sample: TargetSample::Placeholder }
    );
    assert_eq!(texture_source(TextureRole::StorageTarget { pass: 0 }, 0, false), TextureSource::Placeholder);
    assert!(binds_own_storage(TextureRole::StorageTarget { pass: 2 }, 2));
    assert!(!binds_own_storage(TextureRole::StorageTarget { pass: 2 }, 1));
    assert!(!binds_own_storage(TextureRole::ImageInput, 0));
}

fn pass(stage: PassStage, target: bool) -> PassSchema {
    PassSchema {
        entry: "p".to_string(),
        entry_index: 0,
        stage,
        target: if target {
            Some(TargetSchema {
                name: "t".to_string(),
                persistent: false,
                float: false,
                format: TextureFormat::Rgba8Unorm,
                width: None,
                height: None,
            })
        } else {
            None
        },
        workgroup_size: [8, 8, 1],
        dispatch: None,
        self_feedback: false,
        description: String::new(),
    }
}

#[test]
fn passes_write_to_the_view_their_target_or_through_storage() {
    let plan = |dispatch| TargetPlan {
        size: UVec2 { x: 16, y: 16 },
        clear: true,
        dispatch,
        ping_pong: false,
        format: TextureFormat::Rgba8Unorm,
    };
    assert_eq!(pass_attachment(&pass(PassStage::Fragment, false), None), Some(PassAttachment::View));
    assert_eq!(pass_attachment(&pass(PassStage::Fragment, true), None), None);
    assert_eq!(
        pass_attachment(&pass(PassStage::Fragment, true), Some(&plan(None))),
        Some(PassAttachment::Target { clear: true })
    );
    assert_eq!(
        pass_attachment(&pass(PassStage::Compute, true), Some(&plan(Some([2, 2, 1])))),
        Some(PassAttachment::Compute { dispatch: [2, 2, 1] })
    );
    assert_eq!(pass_attachment(&pass(PassStage::Compute, true), None), None);
    assert_eq!(pass_attachment(&pass(PassStage::Compute, true), Some(&plan(None))), None);
}

#[test]
fn only_the_globals_group_gets_a_dynamic_offset() {
    let offsets = vec![0, 256, 512];
    assert_eq!(dynamic_offset(Some(0), 0, &offsets, 1), Some(256));
    assert_eq!(dynamic_offset(Some(0), 1, &offsets, 1), None);
    assert_eq!(dynamic_offset(None, 0, &offsets, 1), None);
    assert_eq!(dynamic_offset(Some(0), 0, &offsets, 3), None);
    assert!(COMPUTE_UNSUPPORTED.starts_with("compute shaders are not supported"));
}
