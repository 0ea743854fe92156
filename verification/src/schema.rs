//! The reflected interface of a wisp shader.
//!
//! A [`WispSchema`] is built from a validated module (see [`crate::reflect`]) and
//! fully describes the shader's interface: the globals/params uniforms, the
//! textures and samplers it declares, and the passes formed by its entry points.
//! Downstream layers (render pipeline, UI) work from the schema alone.
//!
//! The conventions enforced here:
//!
//! - `@group(0)` is wisp-provided: an optional globals uniform struct at
//!   `@binding(0)` (see [`crate::globals`]) and an optional sampler at `@binding(1)`.
//! - `@group(1)` is shader-declared: at most one uniform struct (the params, whose
//!   members become tweakable inputs), plus textures and samplers.
//! - Every `@fragment`/`@compute` entry point is a pass, executed in declaration
//!   order and configured by a `/// @pass(..)` doc-comment annotation. Exactly one
//!   `@fragment` entry point omits `target = ".."` - the final pass, rendering to
//!   the view. A pass's named target can be read by any pass as a `texture_2d<f32>`
//!   of the same name; a compute pass writes its target through a
//!   `texture_storage_2d` named `<target>_out`.

pub mod assemble;
pub mod hints;
pub mod passes;
pub mod size;

pub use size::{eval_size, UVec2};

use crate::annot::{AnnotError, AnnotErrorView};
use crate::globals::GlobalsSchema;
use crate::number::Number;
use crate::text::{strings_view, views};
use vstd::prelude::*;

verus! {

/// A set of shader stages (the fragment and compute stages wisp uses).
#[derive(Clone, Copy, Debug, Eq, Hash, PartialEq, Structural)]
pub struct ShaderStages {
    pub fragment: bool,
    pub compute: bool,
}

impl ShaderStages {
    /// The empty set.
    pub fn none() -> (r: ShaderStages)
        ensures
            r == (ShaderStages { fragment: false, compute: false }),
    {
        ShaderStages { fragment: false, compute: false }
    }

    /// The union of two stage sets.
    pub fn union(self, other: ShaderStages) -> (r: ShaderStages)
        ensures
            r == spec_union(self, other),
    {
        ShaderStages { fragment: self.fragment || other.fragment, compute: self.compute || other.compute }
    }

    /// Whether the set holds no stage.
    pub fn is_empty(self) -> (r: bool)
        ensures
            r == (!self.fragment && !self.compute),
    {
        !self.fragment && !self.compute
    }
}

/// The union of two stage sets.
pub open spec fn spec_union(a: ShaderStages, b: ShaderStages) -> ShaderStages {
    ShaderStages { fragment: a.fragment || b.fragment, compute: a.compute || b.compute }
}

/// The texture formats of wisp's pass targets.
#[derive(Clone, Copy, Debug, Eq, Hash, PartialEq, Structural)]
pub enum TextureFormat {
    Rgba8Unorm,
    Rgba8UnormSrgb,
    Rgba16Float,
}

/// One entry in the shader's bind group interface.
#[derive(Clone, Copy, Debug, Eq, Hash, PartialEq, Structural)]
pub struct BindingDesc {
    pub group: u32,
    pub binding: u32,
    /// Union of the stages of every entry point that uses the binding.
    pub visibility: ShaderStages,
    pub ty: BindingTy,
}

#[derive(Clone, Copy, Debug, Eq, Hash, PartialEq, Structural)]
pub enum BindingTy {
    /// The wisp globals uniform, bound with a per-pass dynamic offset.
    Globals { size: u32 },
    /// The user params uniform.
    Params { size: u32 },
    /// A filterable 2d float texture.
    Texture2d,
    /// A filtering sampler.
    Sampler,
    /// A write-only 2d storage texture.
    StorageTexture2d { format: TextureFormat },
}

/// The WGSL type of a params struct member.
#[derive(Clone, Copy, Debug, Eq, Hash, PartialEq, Structural)]
pub enum ParamType {
    F32,
    I32,
    U32,
    /// A `u32` member annotated `@bool`, exposed as a toggle. (WGSL forbids `bool`
    /// in uniform structs.)
    Bool,
    Vec2,
    Vec3,
    Vec4,
}

/// UI hints parsed from a params member's doc-comment annotations.
#[derive(Clone, Debug, Default, PartialEq)]
pub struct UiHints {
    /// Free doc-comment text, shown as a tooltip.
    pub description: String,
    /// `@label("..")` - display name override.
    pub label: Option<String>,
    /// `@min(..)`.
    pub min: Option<Number>,
    /// `@max(..)`.
    pub max: Option<Number>,
    /// `@step(..)`.
    pub step: Option<Number>,
    /// `@default(..)` components; length matches the field's arity.
    pub default: Option<Vec<Number>>,
    /// `@color` - expose a vec3/vec4 as a color picker.
    pub color: bool,
    /// `@values(..)` - restrict an integer to a set of values (dropdown).
    pub values: Vec<i64>,
    /// `@labels(..)` - display names for the `@values` entries.
    pub labels: Vec<String>,
}

#[derive(Clone, Debug, PartialEq)]
pub struct ParamField {
    pub name: String,
    pub ty: ParamType,
    /// Byte offset within the params uniform.
    pub offset: u32,
    pub ui: UiHints,
}

/// The reflected params uniform struct: the shader's tweakable inputs.
#[derive(Clone, Debug, PartialEq)]
pub struct ParamsSchema {
    /// The name of the uniform's global variable.
    pub name: String,
    /// Total size of the struct in bytes, including trailing padding.
    pub size: u32,
    pub fields: Vec<ParamField>,
}

#[derive(Clone, Debug, PartialEq)]
pub struct TextureSchema {
    pub name: String,
    pub group: u32,
    pub binding: u32,
    pub role: TextureRole,
}

#[derive(Clone, Copy, Debug, Eq, PartialEq, Structural)]
pub enum TextureRole {
    /// A user-supplied image, settable as a shader input.
    ImageInput,
    /// Reads the target of the pass at this index in [`WispSchema::passes`].
    PassTarget { pass: usize },
    /// The storage texture through which a compute pass writes its target.
    StorageTarget { pass: usize },
    /// `@audio(samples = ..)` - waveform texture.
    AudioWaveform { samples: u32 },
    /// `@audio_fft(bins = ..)` - FFT magnitude texture.
    AudioFft { bins: u32 },
}

/// One pass: a `@fragment` or `@compute` entry point.
#[derive(Clone, Debug, PartialEq)]
pub struct PassSchema {
    /// The entry point name.
    pub entry: String,
    /// The entry point's index in the module.
    pub entry_index: usize,
    pub stage: PassStage,
    /// The named intermediate target, or `None` for the final pass.
    pub target: Option<TargetSchema>,
    /// Compute workgroup size (zeroes for fragment passes).
    pub workgroup_size: [u32; 3],
    /// `dispatch = ".."` expressions; when absent the dispatch size is derived from
    /// the target size and workgroup size.
    pub dispatch: Option<[String; 3]>,
    /// Whether the pass reads its own target (requires ping-pong buffering).
    pub self_feedback: bool,
    /// Free doc-comment text.
    pub description: String,
}

#[derive(Clone, Copy, Debug, Eq, PartialEq, Structural)]
pub enum PassStage {
    Fragment,
    Compute,
}

/// Configuration of a pass's named intermediate target.
#[derive(Clone, Debug, PartialEq)]
pub struct TargetSchema {
    pub name: String,
    /// Keep the previous frame's contents instead of clearing.
    pub persistent: bool,
    /// `@pass(.., float)` - render at `Rgba16Float` precision.
    pub float: bool,
    pub format: TextureFormat,
    /// `$WIDTH`/`$HEIGHT` size expressions; the target size defaults to the view size.
    pub width: Option<String>,
    pub height: Option<String>,
}

/// The complete reflected interface of a wisp shader.
#[derive(Clone, Debug, PartialEq)]
pub struct WispSchema {
    /// Module-level doc comments (`//!`).
    pub description: String,
    /// The globals uniform struct at `@group(0) @binding(0)`, if declared.
    pub globals: Option<GlobalsSchema>,
    /// The params uniform struct in `@group(1)`, if declared.
    pub params: Option<ParamsSchema>,
    /// Every texture the shader declares, in `(group, binding)` order.
    pub textures: Vec<TextureSchema>,
    /// Every sampler the shader declares, as `(group, binding)`, sorted. All
    /// samplers are bound to the default filtering sampler.
    pub samplers: Vec<(u32, u32)>,
    /// The shader's passes, one per entry point, in declaration order.
    pub passes: Vec<PassSchema>,
    /// The full bind group interface, sorted by `(group, binding)`.
    pub bindings: Vec<BindingDesc>,
}

#[derive(Clone, Debug, PartialEq)]
pub enum SizeExprError {
    Eval { expr: String, err: String },
    NonPositive { expr: String },
}

#[derive(Clone, Debug, PartialEq)]
pub enum SchemaError {
    Annot { context: String, err: AnnotError },
    AnnotationArgs { context: String, annotation: &'static str, expected: &'static str },
    UnknownAnnotation { context: String, name: String, valid: String },
    BadGroup { name: String, group: u32 },
    Group0Binding { name: String, binding: u32 },
    UniformNotStruct { name: String },
    UnknownGlobal { name: String, valid: String },
    GlobalType { name: String, expected: &'static str },
    MultipleParams { first: String, second: String },
    ParamType { field: String },
    BoolType { context: String },
    ColorType { context: String },
    ScalarHint { context: String },
    DefaultArity { context: String, expected: usize, found: usize },
    ValuesType { context: String },
    LabelsMismatch { context: String },
    NameCollision { name: String },
    UnsupportedStage { name: String },
    NoFinalPass,
    MultipleFinalPasses { first: String, second: String },
    FinalPassConfig { context: String },
    DispatchOnFragment { context: String },
    PassArg { context: String, arg: String },
    DispatchArity { context: String },
    ComputeWithoutTarget { entry: String },
    DuplicateTarget { name: String },
    DuplicateBinding { group: u32, binding: u32 },
    MissingStorageTexture { entry: String, target: String },
    StorageTextureName { name: String },
    StorageTextureOrphan { name: String, target: String },
    StorageAccess { name: String },
    StorageFormat { name: String, expected: &'static str },
    UnsupportedTexture { name: String },
    UnsupportedBinding { name: String },
    SizeExpr { context: String, err: SizeExprError },
}

// ---------------------------------------------------------------------------
// Views
// ---------------------------------------------------------------------------

pub struct UiHintsView {
    pub description: Seq<char>,
    pub label: Option<Seq<char>>,
    pub min: Option<Seq<char>>,
    pub max: Option<Seq<char>>,
    pub step: Option<Seq<char>>,
    pub default: Option<Seq<Seq<char>>>,
    pub color: bool,
    pub values: Seq<i64>,
    pub labels: Seq<Seq<char>>,
}

pub struct ParamFieldView {
    pub name: Seq<char>,
    pub ty: ParamType,
    pub offset: u32,
    pub ui: UiHintsView,
}

pub struct ParamsSchemaView {
    pub name: Seq<char>,
    pub size: u32,
    pub fields: Seq<ParamFieldView>,
}

pub struct GlobalsSchemaView {
    pub size: u32,
    pub fields: Seq<(crate::globals::GlobalKind, u32)>,
}

pub struct TextureSchemaView {
    pub name: Seq<char>,
    pub group: u32,
    pub binding: u32,
    pub role: TextureRole,
}

pub struct TargetSchemaView {
    pub name: Seq<char>,
    pub persistent: bool,
    pub float: bool,
    pub format: TextureFormat,
    pub width: Option<Seq<char>>,
    pub height: Option<Seq<char>>,
}

pub struct PassSchemaView {
    pub entry: Seq<char>,
    pub entry_index: usize,
    pub stage: PassStage,
    pub target: Option<TargetSchemaView>,
    pub workgroup_size: Seq<u32>,
    pub dispatch: Option<Seq<Seq<char>>>,
    pub self_feedback: bool,
    pub description: Seq<char>,
}

pub struct WispSchemaView {
    pub description: Seq<char>,
    pub globals: Option<GlobalsSchemaView>,
    pub params: Option<ParamsSchemaView>,
    pub textures: Seq<TextureSchemaView>,
    pub samplers: Seq<(u32, u32)>,
    pub passes: Seq<PassSchemaView>,
    pub bindings: Seq<BindingDesc>,
}

pub enum SizeExprErrorView {
    Eval { expr: Seq<char>, err: Seq<char> },
    NonPositive { expr: Seq<char> },
}

pub enum SchemaErrorView {
    Annot { context: Seq<char>, err: AnnotErrorView },
    AnnotationArgs { context: Seq<char>, annotation: Seq<char>, expected: Seq<char> },
    UnknownAnnotation { context: Seq<char>, name: Seq<char>, valid: Seq<char> },
    BadGroup { name: Seq<char>, group: u32 },
    Group0Binding { name: Seq<char>, binding: u32 },
    UniformNotStruct { name: Seq<char> },
    UnknownGlobal { name: Seq<char>, valid: Seq<char> },
    GlobalType { name: Seq<char>, expected: Seq<char> },
    MultipleParams { first: Seq<char>, second: Seq<char> },
    ParamType { field: Seq<char> },
    BoolType { context: Seq<char> },
    ColorType { context: Seq<char> },
    ScalarHint { context: Seq<char> },
    DefaultArity { context: Seq<char>, expected: usize, found: usize },
    ValuesType { context: Seq<char> },
    LabelsMismatch { context: Seq<char> },
    NameCollision { name: Seq<char> },
    UnsupportedStage { name: Seq<char> },
    NoFinalPass,
    MultipleFinalPasses { first: Seq<char>, second: Seq<char> },
    FinalPassConfig { context: Seq<char> },
    DispatchOnFragment { context: Seq<char> },
    PassArg { context: Seq<char>, arg: Seq<char> },
    DispatchArity { context: Seq<char> },
    ComputeWithoutTarget { entry: Seq<char> },
    DuplicateTarget { name: Seq<char> },
    DuplicateBinding { group: u32, binding: u32 },
    MissingStorageTexture { entry: Seq<char>, target: Seq<char> },
    StorageTextureName { name: Seq<char> },
    StorageTextureOrphan { name: Seq<char>, target: Seq<char> },
    StorageAccess { name: Seq<char> },
    StorageFormat { name: Seq<char>, expected: Seq<char> },
    UnsupportedTexture { name: Seq<char> },
    UnsupportedBinding { name: Seq<char> },
    SizeExpr { context: Seq<char>, err: SizeExprErrorView },
}

/// The view of an optional string.
pub open spec fn opt_view(o: Option<String>) -> Option<Seq<char>> {
    match o {
        Some(s) => Some(s@),
        None => None,
    }
}

/// The view of an optional number.
pub open spec fn opt_num_view(o: Option<Number>) -> Option<Seq<char>> {
    match o {
        Some(n) => Some(n@),
        None => None,
    }
}

/// The views of a sequence of numbers.
pub open spec fn nums_view(v: Seq<Number>) -> Seq<Seq<char>> {
    v.map_values(|n: Number| n@)
}

impl View for UiHints {
    type V = UiHintsView;

    open spec fn view(&self) -> UiHintsView {
        UiHintsView {
            description: self.description@,
            label: opt_view(self.label),
            min: opt_num_view(self.min),
            max: opt_num_view(self.max),
            step: opt_num_view(self.step),
            default: match self.default {
                Some(v) => Some(nums_view(v@)),
                None => None,
            },
            color: self.color,
            values: self.values@,
            labels: strings_view(self.labels@),
        }
    }
}

impl View for ParamField {
    type V = ParamFieldView;

    open spec fn view(&self) -> ParamFieldView {
        ParamFieldView { name: self.name@, ty: self.ty, offset: self.offset, ui: self.ui@ }
    }
}

/// The views of a sequence of param fields.
pub open spec fn fields_view(v: Seq<ParamField>) -> Seq<ParamFieldView> {
    v.map_values(|f: ParamField| f@)
}

impl View for ParamsSchema {
    type V = ParamsSchemaView;

    open spec fn view(&self) -> ParamsSchemaView {
        ParamsSchemaView { name: self.name@, size: self.size, fields: fields_view(self.fields@) }
    }
}

impl View for GlobalsSchema {
    type V = GlobalsSchemaView;

    open spec fn view(&self) -> GlobalsSchemaView {
        GlobalsSchemaView { size: self.size, fields: self.fields@ }
    }
}

impl View for TextureSchema {
    type V = TextureSchemaView;

    open spec fn view(&self) -> TextureSchemaView {
        TextureSchemaView {
            name: self.name@,
            group: self.group,
            binding: self.binding,
            role: self.role,
        }
    }
}

/// The views of a sequence of textures.
pub open spec fn textures_view(v: Seq<TextureSchema>) -> Seq<TextureSchemaView> {
    v.map_values(|t: TextureSchema| t@)
}

impl View for TargetSchema {
    type V = TargetSchemaView;

    open spec fn view(&self) -> TargetSchemaView {
        TargetSchemaView {
            name: self.name@,
            persistent: self.persistent,
            float: self.float,
            format: self.format,
            width: opt_view(self.width),
            height: opt_view(self.height),
        }
    }
}

/// The view of an optional target.
pub open spec fn opt_target_view(o: Option<TargetSchema>) -> Option<TargetSchemaView> {
    match o {
        Some(t) => Some(t@),
        None => None,
    }
}

/// The view of optional dispatch expressions.
pub open spec fn opt_dispatch_view(o: Option<[String; 3]>) -> Option<Seq<Seq<char>>> {
    match o {
        Some(d) => Some(strings_view(d@)),
        None => None,
    }
}

impl View for PassSchema {
    type V = PassSchemaView;

    open spec fn view(&self) -> PassSchemaView {
        PassSchemaView {
            entry: self.entry@,
            entry_index: self.entry_index,
            stage: self.stage,
            target: opt_target_view(self.target),
            workgroup_size: self.workgroup_size@,
            dispatch: opt_dispatch_view(self.dispatch),
            self_feedback: self.self_feedback,
            description: self.description@,
        }
    }
}

/// The views of a sequence of passes.
pub open spec fn passes_view(v: Seq<PassSchema>) -> Seq<PassSchemaView> {
    v.map_values(|p: PassSchema| p@)
}

impl View for WispSchema {
    type V = WispSchemaView;

    open spec fn view(&self) -> WispSchemaView {
        WispSchemaView {
            description: self.description@,
            globals: match self.globals {
                Some(g) => Some(g@),
                None => None,
            },
            params: match self.params {
                Some(p) => Some(p@),
                None => None,
            },
            textures: textures_view(self.textures@),
            samplers: self.samplers@,
            passes: passes_view(self.passes@),
            bindings: self.bindings@,
        }
    }
}

impl View for SizeExprError {
    type V = SizeExprErrorView;

    open spec fn view(&self) -> SizeExprErrorView {
        match self {
            SizeExprError::Eval { expr, err } => SizeExprErrorView::Eval { expr: expr@, err: err@ },
            SizeExprError::NonPositive { expr } => SizeExprErrorView::NonPositive { expr: expr@ },
        }
    }
}

impl View for SchemaError {
    type V = SchemaErrorView;

    open spec fn view(&self) -> SchemaErrorView {
        match self {
            SchemaError::Annot { context, err } => SchemaErrorView::Annot { context: context@, err: err@ },
            SchemaError::AnnotationArgs { context, annotation, expected } => SchemaErrorView::AnnotationArgs {
                context: context@,
                annotation: annotation@,
                expected: expected@,
            },
            SchemaError::UnknownAnnotation { context, name, valid } => SchemaErrorView::UnknownAnnotation {
                context: context@,
                name: name@,
                valid: valid@,
            },
            SchemaError::BadGroup { name, group } => SchemaErrorView::BadGroup { name: name@, group: *group },
            SchemaError::Group0Binding { name, binding } => SchemaErrorView::Group0Binding {
                name: name@,
                binding: *binding,
            },
            SchemaError::UniformNotStruct { name } => SchemaErrorView::UniformNotStruct { name: name@ },
            SchemaError::UnknownGlobal { name, valid } => SchemaErrorView::UnknownGlobal {
                name: name@,
                valid: valid@,
            },
            SchemaError::GlobalType { name, expected } => SchemaErrorView::GlobalType {
                name: name@,
                expected: expected@,
            },
            SchemaError::MultipleParams { first, second } => SchemaErrorView::MultipleParams {
                first: first@,
                second: second@,
            },
            SchemaError::ParamType { field } => SchemaErrorView::ParamType { field: field@ },
            SchemaError::BoolType { context } => SchemaErrorView::BoolType { context: context@ },
            SchemaError::ColorType { context } => SchemaErrorView::ColorType { context: context@ },
            SchemaError::ScalarHint { context } => SchemaErrorView::ScalarHint { context: context@ },
            SchemaError::DefaultArity { context, expected, found } => SchemaErrorView::DefaultArity {
                context: context@,
                expected: *expected,
                found: *found,
            },
            SchemaError::ValuesType { context } => SchemaErrorView::ValuesType { context: context@ },
            SchemaError::LabelsMismatch { context } => SchemaErrorView::LabelsMismatch { context: context@ },
            SchemaError::NameCollision { name } => SchemaErrorView::NameCollision { name: name@ },
            SchemaError::UnsupportedStage { name } => SchemaErrorView::UnsupportedStage { name: name@ },
            SchemaError::NoFinalPass => SchemaErrorView::NoFinalPass,
            SchemaError::MultipleFinalPasses { first, second } => SchemaErrorView::MultipleFinalPasses {
                first: first@,
                second: second@,
            },
            SchemaError::FinalPassConfig { context } => SchemaErrorView::FinalPassConfig { context: context@ },
            SchemaError::DispatchOnFragment { context } => SchemaErrorView::DispatchOnFragment {
                context: context@,
            },
            SchemaError::PassArg { context, arg } => SchemaErrorView::PassArg { context: context@, arg: arg@ },
            SchemaError::DispatchArity { context } => SchemaErrorView::DispatchArity { context: context@ },
            SchemaError::ComputeWithoutTarget { entry } => SchemaErrorView::ComputeWithoutTarget { entry: entry@ },
            SchemaError::DuplicateTarget { name } => SchemaErrorView::DuplicateTarget { name: name@ },
            SchemaError::DuplicateBinding { group, binding } => SchemaErrorView::DuplicateBinding {
                group: *group,
                binding: *binding,
            },
            SchemaError::MissingStorageTexture { entry, target } => SchemaErrorView::MissingStorageTexture {
                entry: entry@,
                target: target@,
            },
            SchemaError::StorageTextureName { name } => SchemaErrorView::StorageTextureName { name: name@ },
            SchemaError::StorageTextureOrphan { name, target } => SchemaErrorView::StorageTextureOrphan {
                name: name@,
                target: target@,
            },
            SchemaError::StorageAccess { name } => SchemaErrorView::StorageAccess { name: name@ },
            SchemaError::StorageFormat { name, expected } => SchemaErrorView::StorageFormat {
                name: name@,
                expected: expected@,
            },
            SchemaError::UnsupportedTexture { name } => SchemaErrorView::UnsupportedTexture { name: name@ },
            SchemaError::UnsupportedBinding { name } => SchemaErrorView::UnsupportedBinding { name: name@ },
            SchemaError::SizeExpr { context, err } => SchemaErrorView::SizeExpr { context: context@, err: err@ },
        }
    }
}

// ---------------------------------------------------------------------------
// Small functions
// ---------------------------------------------------------------------------

/// The number of scalar components of a param type.
pub open spec fn spec_arity(t: ParamType) -> usize {
    match t {
        ParamType::F32 | ParamType::I32 | ParamType::U32 | ParamType::Bool => 1,
        ParamType::Vec2 => 2,
        ParamType::Vec3 => 3,
        ParamType::Vec4 => 4,
    }
}

/// The WGSL name of a param type.
pub open spec fn spec_wgsl_name(t: ParamType) -> Seq<char> {
    match t {
        ParamType::F32 => "f32"@,
        ParamType::I32 => "i32"@,
        ParamType::U32 | ParamType::Bool => "u32"@,
        ParamType::Vec2 => "vec2<f32>"@,
        ParamType::Vec3 => "vec3<f32>"@,
        ParamType::Vec4 => "vec4<f32>"@,
    }
}

impl ParamType {
    /// The number of scalar components.
    pub fn arity(self) -> (r: usize)
        ensures
            r == spec_arity(self),
    {
        match self {
            ParamType::F32 | ParamType::I32 | ParamType::U32 | ParamType::Bool => 1,
            ParamType::Vec2 => 2,
            ParamType::Vec3 => 3,
            ParamType::Vec4 => 4,
        }
    }

    /// Whether the type has a single component.
    pub fn is_scalar(self) -> (r: bool)
        ensures
            r == (spec_arity(self) == 1),
    {
        self.arity() == 1
    }

    /// The WGSL name of the type, for error messages.
    pub fn wgsl_name(self) -> (r: &'static str)
        ensures
            r@ == spec_wgsl_name(self),
    {
        match self {
            ParamType::F32 => "f32",
            ParamType::I32 => "i32",
            ParamType::U32 | ParamType::Bool => "u32",
            ParamType::Vec2 => "vec2<f32>",
            ParamType::Vec3 => "vec3<f32>",
            ParamType::Vec4 => "vec4<f32>",
        }
    }
}

/// The stage set of a pass stage.
pub open spec fn spec_stage_set(s: PassStage) -> ShaderStages {
    match s {
        PassStage::Fragment => ShaderStages { fragment: true, compute: false },
        PassStage::Compute => ShaderStages { fragment: false, compute: true },
    }
}

impl PassStage {
    pub fn shader_stages(self) -> (r: ShaderStages)
        ensures
            r == spec_stage_set(self),
    {
        match self {
            PassStage::Fragment => ShaderStages { fragment: true, compute: false },
            PassStage::Compute => ShaderStages { fragment: false, compute: true },
        }
    }
}

} // verus!
