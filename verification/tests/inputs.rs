use wisp::inputs::{inputs_from_schema, pack_params, rematch_inputs, WispInputs, WispValue, DEFAULT_IMAGE};
use wisp::number::Number;
use wisp::schema::{ParamField, ParamType, ParamsSchema, TextureRole, TextureSchema, UiHints, WispSchema};

fn number(text: &str) -> Number {
    let chars: Vec<char> = text.chars().collect();
    Number::from_literal(&chars)
}

fn field(name: &str, ty: ParamType, offset: u32, default: Option<Vec<&str>>) -> ParamField {
    ParamField {
        name: name.to_string(),
        ty,
        offset,
        ui: UiHints {
            default: default.map(|d| d.into_iter().map(number).collect()),
            ..Default::default()
        },
    }
}

/// The default of a field: its `@default` components (zero where absent),
/// converted to the field's type.
fn default_value(field: &ParamField) -> WispValue {
    let component = |i: usize| -> f64 {
        field
            .ui
            .default
            .as_ref()
            .and_then(|d| d.get(i).map(|n| n.literal().parse::<f64>().unwrap()))
            .unwrap_or(0.0)
    };
    let bits = |i: usize| (component(i) as f32).to_bits();
    match field.ty {
        ParamType::F32 => WispValue::F32(bits(0)),
        ParamType::I32 => WispValue::I32(component(0) as i32),
        ParamType::U32 => WispValue::U32(component(0) as u32),
        ParamType::Bool => WispValue::Bool(component(0) != 0.0),
        ParamType::Vec2 => WispValue::Vec2([bits(0), bits(1)]),
        ParamType::Vec3 => WispValue::Vec3([bits(0), bits(1), bits(2)]),
        ParamType::Vec4 => WispValue::Vec4([bits(0), bits(1), bits(2), bits(3)]),
    }
}

fn defaults(schema: &WispSchema) -> Vec<WispValue> {
    match &schema.params {
        Some(params) => params.fields.iter().map(default_value).collect(),
        None => Vec::new(),
    }
}

fn test_schema() -> WispSchema {
    WispSchema {
        description: String::new(),
        globals: None,
        params: Some(ParamsSchema {
            name: "params".to_string(),
            size: 32,
            fields: vec![
                field("level", ParamType::F32, 0, Some(vec!["0.5"])),
                field("enabled", ParamType::Bool, 4, Some(vec!["1.0"])),
                field("center", ParamType::Vec2, 8, None),
                field("tint", ParamType::Vec4, 16, Some(vec!["1.0", "0.5", "0.25", "1.0"])),
            ],
        }),
        textures: Vec::new(),
        samplers: Vec::new(),
        passes: Vec::new(),
        bindings: Vec::new(),
    }
}

fn f32s(values: &[f32]) -> Vec<u32> {
    values.iter().map(|v| v.to_bits()).collect()
}

fn floats(bytes: &[u8]) -> Vec<f32> {
    bytes.chunks(4).map(|c| f32::from_ne_bytes([c[0], c[1], c[2], c[3]])).collect()
}

fn words(bytes: &[u8]) -> Vec<u32> {
    bytes.chunks(4).map(|c| u32::from_ne_bytes([c[0], c[1], c[2], c[3]])).collect()
}

fn pack(schema: &WispSchema, inputs: &WispInputs) -> Vec<u8> {
    pack_params(schema.params.as_ref().unwrap(), inputs, &defaults(schema))
}

#[test]
fn defaults_from_schema() {
    let schema = test_schema();
    let inputs = inputs_from_schema(&schema, &defaults(&schema));
    assert_eq!(inputs.get("level"), Some(WispValue::F32(0.5f32.to_bits())));
    assert_eq!(inputs.get("enabled"), Some(WispValue::Bool(true)));
    assert_eq!(inputs.get("center"), Some(WispValue::Vec2([0.0f32.to_bits(); 2])));
    assert_eq!(
        inputs.get("tint"),
        Some(WispValue::Vec4([1.0f32.to_bits(), 0.5f32.to_bits(), 0.25f32.to_bits(), 1.0f32.to_bits()]))
    );
}

#[test]
fn pack_byte_exact() {
    let schema = test_schema();
    let mut inputs = inputs_from_schema(&schema, &defaults(&schema));
    inputs.insert("center".to_string(), WispValue::Vec2([2.0f32.to_bits(), 3.0f32.to_bits()]));
    let bytes = pack(&schema, &inputs);
    assert_eq!(bytes.len(), 32);
    let floats = floats(&bytes);
    // `enabled` is a bool packed as u32 1, which is f32-bit-pattern ~1e-45;
    // compare it as a u32 word instead.
    assert_eq!(floats[0], 0.5);
    let words = words(&bytes);
    assert_eq!(words[1], 1);
    assert_eq!(&floats[2..4], &[2.0, 3.0]);
    assert_eq!(&floats[4..8], &[1.0, 0.5, 0.25, 1.0]);
}

#[test]
fn pack_falls_back_on_type_mismatch() {
    let schema = test_schema();
    let mut inputs = inputs_from_schema(&schema, &defaults(&schema));
    inputs.insert("level".to_string(), WispValue::Vec4([1.0f32.to_bits(); 4]));
    let bytes = pack(&schema, &inputs);
    let floats = floats(&bytes);
    assert_eq!(floats[0], 0.5, "mismatched value falls back to the default");
}

#[test]
fn rematch_preserves_matching_values() {
    let schema = test_schema();
    let mut old = inputs_from_schema(&schema, &defaults(&schema));
    old.insert("level".to_string(), WispValue::F32(0.9f32.to_bits()));
    // Simulate the field changing type across a reload.
    old.insert("enabled".to_string(), WispValue::F32(3.0f32.to_bits()));
    let inputs = rematch_inputs(&old, &schema, &defaults(&schema));
    assert_eq!(inputs.get("level"), Some(WispValue::F32(0.9f32.to_bits())));
    assert_eq!(inputs.get("enabled"), Some(WispValue::Bool(true)), "type change resets to the default");
}

fn image_schema() -> WispSchema {
    let mut schema = test_schema();
    schema.textures = vec![
        TextureSchema { name: "photo".to_string(), group: 1, binding: 1, role: TextureRole::ImageInput },
        TextureSchema { name: "feedback".to_string(), group: 1, binding: 2, role: TextureRole::PassTarget { pass: 0 } },
    ];
    schema
}

#[test]
fn image_inputs_start_at_the_placeholder() {
    let schema = image_schema();
    let inputs = inputs_from_schema(&schema, &defaults(&schema));
    assert_eq!(inputs.get("photo"), Some(WispValue::Image(DEFAULT_IMAGE)));
    assert_eq!(inputs.get("feedback"), None);
    assert_eq!(inputs.entries().len(), 5);
}

#[test]
fn rematch_keeps_images_and_drops_stale_names() {
    let schema = image_schema();
    let mut old = inputs_from_schema(&schema, &defaults(&schema));
    old.insert("photo".to_string(), WispValue::Image(7));
    old.insert("gone".to_string(), WispValue::U32(3));
    let inputs = rematch_inputs(&old, &schema, &defaults(&schema));
    assert_eq!(inputs.get("photo"), Some(WispValue::Image(7)));
    assert_eq!(inputs.get("gone"), None);
    assert_eq!(inputs.entries().len(), 5);
}

#[test]
fn rematch_against_the_same_schema_changes_nothing() {
    let schema = image_schema();
    let mut old = inputs_from_schema(&schema, &defaults(&schema));
    old.insert("level".to_string(), WispValue::F32(0.25f32.to_bits()));
    old.insert("photo".to_string(), WispValue::Image(2));
    let inputs = rematch_inputs(&old, &schema, &defaults(&schema));
    for (name, value) in old.entries() {
        assert_eq!(inputs.get(name), Some(*value));
    }
    assert_eq!(inputs.entries().len(), old.entries().len());
}

#[test]
fn insert_replaces_and_get_misses() {
    let mut inputs = WispInputs::new();
    assert_eq!(inputs.get("a"), None);
    inputs.insert("a".to_string(), WispValue::U32(1));
    inputs.insert("b".to_string(), WispValue::I32(-1));
    inputs.insert("a".to_string(), WispValue::U32(2));
    assert_eq!(inputs.get("a"), Some(WispValue::U32(2)));
    assert_eq!(inputs.get("b"), Some(WispValue::I32(-1)));
    assert_eq!(inputs.entries().len(), 2);
}

#[test]
fn pack_integers_and_missing_inputs() {
    let schema = WispSchema {
        params: Some(ParamsSchema {
            name: "params".to_string(),
            size: 16,
            fields: vec![
                field("count", ParamType::I32, 0, Some(vec!["-3"])),
                field("mode", ParamType::U32, 4, Some(vec!["2"])),
                field("off", ParamType::Bool, 8, None),
            ],
        }),
        ..test_schema()
    };
    let mut inputs = WispInputs::new();
    inputs.insert("mode".to_string(), WispValue::U32(9));
    let bytes = pack(&schema, &inputs);
    assert_eq!(bytes.len(), 16);
    assert_eq!(words(&bytes), vec![(-3i32) as u32, 9, 0, 0]);
}

#[test]
fn value_words_and_kinds() {
    assert_eq!(WispValue::Bool(true).words(), vec![1]);
    assert_eq!(WispValue::I32(-1).words(), vec![u32::MAX]);
    assert_eq!(WispValue::Vec3([1, 2, 3]).words(), vec![1, 2, 3]);
    assert_eq!(WispValue::Image(4).words(), Vec::<u32>::new());
    assert!(WispValue::F32(0).same_kind(&WispValue::F32(5)));
    assert!(!WispValue::F32(0).same_kind(&WispValue::U32(0)));
    assert_eq!(f32s(&[1.0]), vec![0x3f80_0000]);
}
