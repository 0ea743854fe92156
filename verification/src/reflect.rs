//! WGSL parsing, validation and analysis via `naga`, and the plain model of a
//! reflected module that the schema is built from.
//!
//! Wisp shaders are plain WGSL - the same source that bevy compiles is parsed here
//! (with doc comments retained) so that [`crate::schema`] can reflect the shader's
//! interface. naga_oil preprocessor directives (`#import` and friends) are rejected
//! so that what wisp reflects and what bevy compiles never diverge, and so error
//! line numbers always match the file on disk.
//!
//! [`ReflectedModule`] holds, as plain values, what the schema reads of a naga
//! module and its analysis: the types, the global variables, the entry points,
//! their doc comments and which globals each entry point uses. Type and global
//! references are indices in the module's arenas.

use crate::text::{chars_of, lines, skip_ws_from, spec_lines, spec_trim_start, strings_view, views};
use vstd::prelude::*;

verus! {

/// `naga::ScalarKind`.
#[derive(Clone, Copy, Debug, PartialEq, Eq, Structural)]
pub enum ScalarKindDesc {
    Sint,
    Uint,
    Float,
    Bool,
    AbstractInt,
    AbstractFloat,
}

/// `naga::Scalar`: a kind and a byte width.
#[derive(Clone, Copy, Debug, PartialEq, Eq, Structural)]
pub struct ScalarDesc {
    pub kind: ScalarKindDesc,
    pub width: u8,
}

/// `naga::VectorSize`.
#[derive(Clone, Copy, Debug, PartialEq, Eq, Structural)]
pub enum VecSize {
    Bi,
    Tri,
    Quad,
}

/// `naga::ImageDimension`.
#[derive(Clone, Copy, Debug, PartialEq, Eq, Structural)]
pub enum ImageDim {
    D1,
    D2,
    D3,
    Cube,
}

/// The storage texel formats the schema distinguishes (`naga::StorageFormat`).
#[derive(Clone, Copy, Debug, PartialEq, Eq, Structural)]
pub enum TexelFormat {
    Rgba8Unorm,
    Rgba16Float,
    Other,
}

/// naga's `StorageAccess::STORE` flag.
pub const STORAGE_ACCESS_STORE: u32 = 0x2;

/// `naga::ImageClass`; a storage image's access flags are kept as their bits.
#[derive(Clone, Copy, Debug, PartialEq, Eq, Structural)]
pub enum ImageKind {
    Sampled { kind: ScalarKindDesc, multi: bool },
    Depth { multi: bool },
    External,
    Storage { format: TexelFormat, access: u32 },
}

/// One member of a struct type.
#[derive(Clone, Debug, PartialEq)]
pub struct StructMember {
    pub name: Option<String>,
    /// Index of the member's type in [`ReflectedModule::types`].
    pub ty: usize,
    /// Byte offset within the struct.
    pub offset: u32,
    /// The member's raw doc comments.
    pub docs: Vec<String>,
}

/// What the schema reads of a `naga::TypeInner`.
#[derive(Clone, Debug, PartialEq)]
pub enum TypeInner {
    Scalar(ScalarDesc),
    Vector { size: VecSize, scalar: ScalarDesc },
    Struct { members: Vec<StructMember>, span: u32 },
    Image { dim: ImageDim, arrayed: bool, class: ImageKind },
    Sampler { comparison: bool },
    /// Any other type (matrices, arrays, atomics, pointers, ...).
    Other,
}

/// `naga::AddressSpace`, as far as the schema tells spaces apart.
#[derive(Clone, Copy, Debug, PartialEq, Eq, Structural)]
pub enum VarSpace {
    Uniform,
    Handle,
    Other,
}

/// `naga::ResourceBinding`.
#[derive(Clone, Copy, Debug, PartialEq, Eq, Structural)]
pub struct ResourceBinding {
    pub group: u32,
    pub binding: u32,
}

/// One global variable of the module.
#[derive(Clone, Debug, PartialEq)]
pub struct GlobalVariable {
    pub name: Option<String>,
    pub space: VarSpace,
    pub binding: Option<ResourceBinding>,
    /// Index of the variable's type in [`ReflectedModule::types`].
    pub ty: usize,
    /// The variable's raw doc comments.
    pub docs: Vec<String>,
}

/// `naga::ShaderStage`, as far as wisp tells stages apart.
#[derive(Clone, Copy, Debug, PartialEq, Eq, Structural)]
pub enum EntryStage {
    Vertex,
    Fragment,
    Compute,
    Other,
}

/// One entry point of the module.
#[derive(Clone, Debug, PartialEq)]
pub struct EntryPoint {
    pub name: String,
    pub stage: EntryStage,
    pub workgroup_size: [u32; 3],
    /// The entry point's raw doc comments.
    pub docs: Vec<String>,
    /// For each global variable (by index), whether this entry point uses it.
    pub uses: Vec<bool>,
}

/// A parsed and validated WGSL module, as plain values.
#[derive(Clone, Debug, PartialEq)]
pub struct ReflectedModule {
    /// Module-level doc comments (`//!`).
    pub docs: Vec<String>,
    pub types: Vec<TypeInner>,
    /// For each type, the byte index just past its source span, when known.
    pub type_span_ends: Vec<Option<usize>>,
    pub global_variables: Vec<GlobalVariable>,
    pub entry_points: Vec<EntryPoint>,
}

/// Whether entry point `ep` uses global variable `g` (false when out of range).
pub open spec fn spec_uses(m: ReflectedModule, ep: int, g: int) -> bool {
    0 <= ep < m.entry_points@.len() && 0 <= g < m.entry_points@[ep].uses@.len()
        && m.entry_points@[ep].uses@[g]
}

/// The end of the source span of the type at index `ty`, when known.
pub open spec fn spec_type_span_end(m: ReflectedModule, ty: int) -> Option<usize> {
    if 0 <= ty < m.type_span_ends@.len() {
        m.type_span_ends@[ty]
    } else {
        None
    }
}

/// The type at index `ty` (`Other` when out of range).
pub open spec fn spec_type_at(m: ReflectedModule, ty: int) -> TypeInner {
    if 0 <= ty < m.types@.len() {
        m.types@[ty]
    } else {
        TypeInner::Other
    }
}

impl ReflectedModule {
    /// Whether entry point `ep` uses global variable `g` (false when out of range).
    pub fn uses(&self, ep: usize, g: usize) -> (r: bool)
        ensures
            r == spec_uses(*self, ep as int, g as int),
    {
        ep < self.entry_points.len() && g < self.entry_points[ep].uses.len()
            && self.entry_points[ep].uses[g]
    }

    /// The end of the source span of the type at index `ty`, when known.
    pub fn type_span_end(&self, ty: usize) -> (r: Option<usize>)
        ensures
            r == spec_type_span_end(*self, ty as int),
    {
        if ty < self.type_span_ends.len() {
            self.type_span_ends[ty]
        } else {
            None
        }
    }

    /// The type at index `ty` (`None` when out of range).
    pub fn type_at(&self, ty: usize) -> (r: Option<&TypeInner>)
        ensures
            match r {
                Some(t) => ty < self.types@.len() && *t == spec_type_at(*self, ty as int),
                None => ty >= self.types@.len() && spec_type_at(*self, ty as int) == TypeInner::Other,
            },
    {
        if ty < self.types.len() {
            Some(&self.types[ty])
        } else {
            None
        }
    }
}

// ---------------------------------------------------------------------------
// Preprocessor directives
// ---------------------------------------------------------------------------

/// Whether a line is a naga_oil-style `#` directive (after leading white space).
pub open spec fn spec_is_directive(line: Seq<char>) -> bool {
    let t = spec_trim_start(line);
    t.len() > 0 && t[0] == '#'
}

/// The index of the first directive line from `i` (the count of lines if none).
pub open spec fn spec_first_directive_from(ls: Seq<Seq<char>>, i: int) -> int
    decreases ls.len() - i,
{
    if i >= ls.len() || i < 0 {
        ls.len() as int
    } else if spec_is_directive(ls[i]) {
        i
    } else {
        spec_first_directive_from(ls, i + 1)
    }
}

/// The 1-based line number of the first directive line of `source`, if any.
pub open spec fn spec_find_directive(source: Seq<char>) -> Option<int> {
    let ls = spec_lines(source);
    let i = spec_first_directive_from(ls, 0);
    if 0 <= i < ls.len() {
        Some(i + 1)
    } else {
        None
    }
}

/// The 1-based line number of the first naga_oil-style `#` directive, if any.
pub fn find_directive(source: &str) -> (r: Option<usize>)
    ensures
        match r {
            Some(l) => spec_find_directive(source@) == Some(l as int),
            None => spec_find_directive(source@) is None,
        },
{
    let s = chars_of(source);
    let ls = lines(s.as_slice());
    let ghost lv = views(ls@);
    let mut i: usize = 0;
    while i < ls.len()
        invariant
            i <= ls@.len(),
            lv == views(ls@),
            lv == spec_lines(source@),
            spec_first_directive_from(lv, 0) == spec_first_directive_from(lv, i as int),
        decreases ls@.len() - i,
    {
        let line = ls[i].as_slice();
        let a = skip_ws_from(line, 0);
        proof {
            assert(lv[i as int] == line@);
        }
        if a < line.len() && line[a] == '#' {
            return Some(i + 1);
        }
        i += 1;
    }
    None
}

// ---------------------------------------------------------------------------
// naga
// ---------------------------------------------------------------------------

#[verifier::external_type_specification]
#[verifier::external_body]
pub struct ExModule(naga::Module);

#[verifier::external_type_specification]
#[verifier::external_body]
pub struct ExModuleInfo(naga::valid::ModuleInfo);

#[verifier::external_type_specification]
#[verifier::external_body]
pub struct ExScalar(naga::Scalar);

#[verifier::external_type_specification]
#[verifier::external_body]
pub struct ExScalarKind(naga::ScalarKind);

#[verifier::external_type_specification]
#[verifier::external_body]
pub struct ExVectorSize(naga::VectorSize);

#[verifier::external_type_specification]
#[verifier::external_body]
pub struct ExImageDimension(naga::ImageDimension);

#[verifier::external_type_specification]
#[verifier::external_body]
pub struct ExImageClass(naga::ImageClass);

#[verifier::external_type_specification]
#[verifier::external_body]
pub struct ExStorageFormat(naga::StorageFormat);

#[verifier::external_type_specification]
#[verifier::external_body]
pub struct ExAddressSpace(naga::AddressSpace);

#[verifier::external_type_specification]
#[verifier::external_body]
pub struct ExShaderStage(naga::ShaderStage);

/// A parsed module together with naga's validation analysis of it, and the
/// source it was parsed from.
pub struct Validated {
    module: naga::Module,
    info: naga::valid::ModuleInfo,
    source: Ghost<Seq<char>>,
}

impl View for Validated {
    type V = Seq<char>;

    /// The source the module was parsed from.
    closed spec fn view(&self) -> Seq<char> {
        self.source@
    }
}

/// The variant of a module type, with its naga fields.
enum TypeClass {
    Scalar(naga::Scalar),
    Vector(naga::VectorSize, naga::Scalar),
    Struct(u32),
    Image(naga::ImageDimension, bool, naga::ImageClass),
    Sampler(bool),
    Other,
}

/// The variant of an image class, with its naga fields (storage access as bits).
enum ImageClassParts {
    Sampled(naga::ScalarKind, bool),
    Depth(bool),
    External,
    Storage(naga::StorageFormat, u32),
}

/// Whether `w` occurs in `s`.
pub open spec fn spec_mentions(s: Seq<char>, w: Seq<char>) -> bool {
    exists|i: int| 0 <= i && i + w.len() <= s.len() && #[trigger] s.subrange(i, i + w.len()) == w
}

/// Whether `source` mentions none of the WGSL built-ins whose constant
/// folding naga does with std's transcendental float functions (`sin`, `cos`,
/// `tan` and their inverse and hyperbolic forms, `exp`, `exp2`, `log`, `log2`,
/// `pow`), whose precision std leaves to the platform.
pub open spec fn spec_free_of_float_builtins(source: Seq<char>) -> bool {
    &&& !spec_mentions(source, "sin"@)
    &&& !spec_mentions(source, "cos"@)
    &&& !spec_mentions(source, "tan"@)
    &&& !spec_mentions(source, "exp"@)
    &&& !spec_mentions(source, "log"@)
    &&& !spec_mentions(source, "pow"@)
}

/// Names naga's verdict on WGSL source: accepted, or the parse or validation
/// error rendered against the source.
pub uninterp spec fn spec_naga_verdict(source: Seq<char>) -> Result<(), ReflectErrorView>;

/// `naga::front::wgsl::Frontend::parse` (doc comments retained, every
/// capability allowed), then `naga::valid::Validator::validate` (every flag and
/// capability): the module kept with its analysis, or the parse or validation
/// error rendered against the source (`emit_to_string`). An error is one of
/// those two, never a directive error. naga's verdict is named for source that
/// mentions none of the float built-ins naga folds with std's transcendental
/// functions (its hashing is FxHash, with no per-process seed); for other
/// source, and for what the module holds, nothing is stated.
#[verifier::external_body]
fn naga_parse_validate(source: &str) -> (r: Result<Validated, ReflectError>)
    ensures
        r matches Err(e) ==> (e is Parse || e is Validation),
        r matches Ok(v) ==> v@ == source@,
        spec_free_of_float_builtins(source@) ==> spec_naga_verdict(source@) == match r {
            Ok(_) => Ok::<(), ReflectErrorView>(()),
            Err(e) => Err::<(), ReflectErrorView>(e@),
        },
{
    let caps = naga::valid::Capabilities::all();
    let options = naga::front::wgsl::Options { parse_doc_comments: true, capabilities: caps };
    let module = match naga::front::wgsl::Frontend::new_with_options(options).parse(source) {
        Ok(m) => m,
        Err(e) => return Err(ReflectError::Parse(e.emit_to_string(source))),
    };
    match naga::valid::Validator::new(naga::valid::ValidationFlags::all(), caps).validate(&module) {
        Ok(info) => Ok(Validated { module, info, source: Ghost(source@) }),
        Err(e) => Err(ReflectError::Validation(e.emit_to_string(source))),
    }
}

// What naga's module for a source holds. Each is named for source free of the
// float built-ins (see `spec_free_of_float_builtins`), where naga's parse is a
// function of the source alone; indices are those of naga's arenas.

/// Names the module-level doc comments of the module naga makes of `source`.
pub uninterp spec fn spec_wgsl_module_docs(source: Seq<char>) -> Seq<Seq<char>>;

/// Names the number of types in the module naga makes of `source`.
pub uninterp spec fn spec_wgsl_type_count(source: Seq<char>) -> usize;

/// Names the end of the source span of type `i`, when known.
pub uninterp spec fn spec_wgsl_type_span_end(source: Seq<char>, i: usize) -> Option<usize>;

/// Names the number of members of type `i` when it is a struct (else 0).
pub uninterp spec fn spec_wgsl_member_count(source: Seq<char>, i: usize) -> usize;

/// Names member `k` of type `i`: its name, type index and offset.
pub uninterp spec fn spec_wgsl_member(source: Seq<char>, i: usize, k: usize) -> Option<(Option<Seq<char>>, usize, u32)>;

/// Names the doc comments of member `k` of type `i`.
pub uninterp spec fn spec_wgsl_member_docs(source: Seq<char>, i: usize, k: usize) -> Seq<Seq<char>>;

/// Names the number of global variables.
pub uninterp spec fn spec_wgsl_global_count(source: Seq<char>) -> usize;

/// Names global variable `g`: its name, resource binding and type index.
pub uninterp spec fn spec_wgsl_global(source: Seq<char>, g: usize) -> (Option<Seq<char>>, Option<ResourceBinding>, usize);

/// Names the doc comments of global variable `g`.
pub uninterp spec fn spec_wgsl_global_docs(source: Seq<char>, g: usize) -> Seq<Seq<char>>;

/// Names the number of entry points.
pub uninterp spec fn spec_wgsl_entry_point_count(source: Seq<char>) -> usize;

/// Names entry point `e`: its name and workgroup size.
pub uninterp spec fn spec_wgsl_entry_point(source: Seq<char>, e: usize) -> (Seq<char>, Seq<u32>);

/// Names the doc comments of entry point `e`.
pub uninterp spec fn spec_wgsl_entry_point_docs(source: Seq<char>, e: usize) -> Seq<Seq<char>>;

/// Names whether entry point `e` uses global variable `g`, by naga's analysis
/// (false past either count).
pub uninterp spec fn spec_wgsl_uses_global(source: Seq<char>, e: usize, g: usize) -> bool;

/// An optional string by its view.
pub open spec fn opt_str_view(o: Option<String>) -> Option<Seq<char>> {
    match o {
        Some(s) => Some(s@),
        None => None,
    }
}

/// The module-level doc comments (`DocComments::module`; none when the module
/// has no doc comments).
#[verifier::external_body]
fn module_docs(v: &Validated) -> (r: Vec<String>)
    ensures
        spec_free_of_float_builtins(v@) ==> strings_view(r@) == spec_wgsl_module_docs(v@),
{
    v.module.doc_comments.as_ref().map(|d| d.module.clone()).unwrap_or_default()
}

/// The number of types in the module's type arena (`UniqueArena::len`).
#[verifier::external_body]
fn type_count(v: &Validated) -> (r: usize)
    ensures
        spec_free_of_float_builtins(v@) ==> r == spec_wgsl_type_count(v@),
{
    v.module.types.len()
}

/// The variant of the `i`-th type of the arena, with its fields (`Other` for
/// the variants wisp does not read and past the end).
#[verifier::external_body]
fn type_class(v: &Validated, i: usize) -> (r: TypeClass) {
    match v.module.types.iter().nth(i).map(|(_, t)| &t.inner) {
        Some(naga::TypeInner::Scalar(s)) => TypeClass::Scalar(*s),
        Some(naga::TypeInner::Vector { size, scalar }) => TypeClass::Vector(*size, *scalar),
        Some(naga::TypeInner::Struct { span, .. }) => TypeClass::Struct(*span),
        Some(naga::TypeInner::Image { dim, arrayed, class }) => TypeClass::Image(*dim, *arrayed, *class),
        Some(naga::TypeInner::Sampler { comparison }) => TypeClass::Sampler(*comparison),
        _ => TypeClass::Other,
    }
}

/// The end of the source byte range of the `i`-th type (`UniqueArena::get_span`,
/// then `Span::to_range`), when the type and its span are known.
#[verifier::external_body]
fn type_span_end(v: &Validated, i: usize) -> (r: Option<usize>)
    ensures
        spec_free_of_float_builtins(v@) ==> r == spec_wgsl_type_span_end(v@, i),
{
    let handle = v.module.types.iter().nth(i).map(|(h, _)| h);
    handle.and_then(|h| v.module.types.get_span(h).to_range()).map(|range| range.end)
}

/// The number of members of the `i`-th type when it is a struct (else 0).
#[verifier::external_body]
fn member_count(v: &Validated, i: usize) -> (r: usize)
    ensures
        spec_free_of_float_builtins(v@) ==> r == spec_wgsl_member_count(v@, i),
{
    match v.module.types.iter().nth(i).map(|(_, t)| &t.inner) {
        Some(naga::TypeInner::Struct { members, .. }) => members.len(),
        _ => 0,
    }
}

/// The name, type index (`Handle::index`) and offset of member `k` of the
/// `i`-th type, when that is a struct with such a member: there is one for
/// each `k` below the member count.
#[verifier::external_body]
fn member_of(v: &Validated, i: usize, k: usize) -> (r: Option<(Option<String>, usize, u32)>)
    ensures
        spec_free_of_float_builtins(v@) ==> match r {
            Some((name, ty, offset)) => spec_wgsl_member(v@, i, k) == Some((opt_str_view(name), ty, offset)),
            None => spec_wgsl_member(v@, i, k) is None,
        },
        spec_free_of_float_builtins(v@) && k < spec_wgsl_member_count(v@, i) ==> r is Some,
{
    match v.module.types.iter().nth(i).map(|(_, t)| &t.inner) {
        Some(naga::TypeInner::Struct { members, .. }) => {
            members.get(k).map(|m| (m.name.clone(), m.ty.index(), m.offset))
        },
        _ => None,
    }
}

/// The doc comments of member `k` of the `i`-th type
/// (`DocComments::struct_members`; none when absent).
#[verifier::external_body]
fn member_docs(v: &Validated, i: usize, k: usize) -> (r: Vec<String>)
    ensures
        spec_free_of_float_builtins(v@) ==> strings_view(r@) == spec_wgsl_member_docs(v@, i, k),
{
    let handle = v.module.types.iter().nth(i).map(|(h, _)| h);
    match (handle, v.module.doc_comments.as_deref()) {
        (Some(h), Some(d)) => d.struct_members.get(&(h, k)).cloned().unwrap_or_default(),
        _ => Vec::new(),
    }
}

/// The kind and byte width of a scalar type.
#[verifier::external_body]
fn scalar_parts(s: naga::Scalar) -> (r: (naga::ScalarKind, u8)) {
    (s.kind, s.width)
}

/// The variant of a `naga::ScalarKind`.
#[verifier::external_body]
fn scalar_kind_of(k: naga::ScalarKind) -> (r: ScalarKindDesc) {
    match k {
        naga::ScalarKind::Sint => ScalarKindDesc::Sint,
        naga::ScalarKind::Uint => ScalarKindDesc::Uint,
        naga::ScalarKind::Float => ScalarKindDesc::Float,
        naga::ScalarKind::Bool => ScalarKindDesc::Bool,
        naga::ScalarKind::AbstractInt => ScalarKindDesc::AbstractInt,
        naga::ScalarKind::AbstractFloat => ScalarKindDesc::AbstractFloat,
    }
}

/// The variant of a `naga::VectorSize`.
#[verifier::external_body]
fn vector_size_of(s: naga::VectorSize) -> (r: VecSize) {
    match s {
        naga::VectorSize::Bi => VecSize::Bi,
        naga::VectorSize::Tri => VecSize::Tri,
        naga::VectorSize::Quad => VecSize::Quad,
    }
}

/// The variant of a `naga::ImageDimension`.
#[verifier::external_body]
fn image_dim_of(d: naga::ImageDimension) -> (r: ImageDim) {
    match d {
        naga::ImageDimension::D1 => ImageDim::D1,
        naga::ImageDimension::D2 => ImageDim::D2,
        naga::ImageDimension::D3 => ImageDim::D3,
        naga::ImageDimension::Cube => ImageDim::Cube,
    }
}

/// The variant of a `naga::ImageClass`, with its fields (a storage image's
/// access flags by `StorageAccess::bits`).
#[verifier::external_body]
fn image_class_parts(c: naga::ImageClass) -> (r: ImageClassParts) {
    match c {
        naga::ImageClass::Sampled { kind, multi } => ImageClassParts::Sampled(kind, multi),
        naga::ImageClass::Depth { multi } => ImageClassParts::Depth(multi),
        naga::ImageClass::External => ImageClassParts::External,
        naga::ImageClass::Storage { format, access } => ImageClassParts::Storage(format, access.bits()),
    }
}

/// Which of the two storage formats wisp accepts a `naga::StorageFormat` is.
#[verifier::external_body]
fn storage_format_of(f: naga::StorageFormat) -> (r: TexelFormat) {
    match f {
        naga::StorageFormat::Rgba8Unorm => TexelFormat::Rgba8Unorm,
        naga::StorageFormat::Rgba16Float => TexelFormat::Rgba16Float,
        _ => TexelFormat::Other,
    }
}

/// The number of global variables of the module (`Arena::len`).
#[verifier::external_body]
fn global_count(v: &Validated) -> (r: usize)
    ensures
        spec_free_of_float_builtins(v@) ==> r == spec_wgsl_global_count(v@),
{
    v.module.global_variables.len()
}

/// The name, address space, resource binding and type index of the `g`-th
/// global variable, when there is one.
#[verifier::external_body]
fn global_of(v: &Validated, g: usize) -> (r: Option<(Option<String>, naga::AddressSpace, Option<ResourceBinding>, usize)>)
    ensures
        spec_free_of_float_builtins(v@) ==> (r is Some <==> g < spec_wgsl_global_count(v@)),
        spec_free_of_float_builtins(v@) ==> (r matches Some((name, _, binding, ty)) ==> spec_wgsl_global(v@, g) == (
            opt_str_view(name),
            binding,
            ty,
        )),
{
    v.module.global_variables.iter().nth(g).map(|(_, var)| {
        let binding = var.binding.as_ref().map(|b| ResourceBinding { group: b.group, binding: b.binding });
        (var.name.clone(), var.space, binding, var.ty.index())
    })
}

/// Which of the two address spaces wisp binds a `naga::AddressSpace` is.
#[verifier::external_body]
fn space_of(s: naga::AddressSpace) -> (r: VarSpace) {
    match s {
        naga::AddressSpace::Uniform => VarSpace::Uniform,
        naga::AddressSpace::Handle => VarSpace::Handle,
        _ => VarSpace::Other,
    }
}

/// The doc comments of the `g`-th global variable
/// (`DocComments::global_variables`; none when absent).
#[verifier::external_body]
fn global_docs(v: &Validated, g: usize) -> (r: Vec<String>)
    ensures
        spec_free_of_float_builtins(v@) ==> strings_view(r@) == spec_wgsl_global_docs(v@, g),
{
    let handle = v.module.global_variables.iter().nth(g).map(|(h, _)| h);
    match (handle, v.module.doc_comments.as_deref()) {
        (Some(h), Some(d)) => d.global_variables.get(&h).cloned().unwrap_or_default(),
        _ => Vec::new(),
    }
}

/// The number of entry points of the module.
#[verifier::external_body]
fn entry_point_count(v: &Validated) -> (r: usize)
    ensures
        spec_free_of_float_builtins(v@) ==> r == spec_wgsl_entry_point_count(v@),
{
    v.module.entry_points.len()
}

/// The name, stage and workgroup size of entry point `e`, when there is one.
#[verifier::external_body]
fn entry_point_of(v: &Validated, e: usize) -> (r: Option<(String, naga::ShaderStage, [u32; 3])>)
    ensures
        spec_free_of_float_builtins(v@) ==> (r is Some <==> e < spec_wgsl_entry_point_count(v@)),
        spec_free_of_float_builtins(v@) ==> (r matches Some((name, _, size)) ==> spec_wgsl_entry_point(v@, e) == (
            name@,
            size@,
        )),
{
    v.module.entry_points.get(e).map(|ep| (ep.name.clone(), ep.stage, ep.workgroup_size))
}

/// Which of the stages wisp tells apart a `naga::ShaderStage` is.
#[verifier::external_body]
fn stage_of(s: naga::ShaderStage) -> (r: EntryStage) {
    match s {
        naga::ShaderStage::Vertex => EntryStage::Vertex,
        naga::ShaderStage::Fragment => EntryStage::Fragment,
        naga::ShaderStage::Compute => EntryStage::Compute,
        _ => EntryStage::Other,
    }
}

/// The doc comments of entry point `e` (`DocComments::entry_points`; none when
/// absent).
#[verifier::external_body]
fn entry_point_docs(v: &Validated, e: usize) -> (r: Vec<String>)
    ensures
        spec_free_of_float_builtins(v@) ==> strings_view(r@) == spec_wgsl_entry_point_docs(v@, e),
{
    v.module.doc_comments.as_ref().and_then(|d| d.entry_points.get(&e)).cloned().unwrap_or_default()
}

/// Whether entry point `e` uses the `g`-th global variable, by the analysis
/// (`ModuleInfo::get_entry_point`, then the variable's `GlobalUse` is not
/// empty); false when either index is past the end, where the analysis would
/// panic.
#[verifier::external_body]
fn uses_global(v: &Validated, e: usize, g: usize) -> (r: bool)
    ensures
        spec_free_of_float_builtins(v@) ==> r == spec_wgsl_uses_global(v@, e, g),
{
    match v.module.global_variables.iter().nth(g) {
        Some((h, _)) if e < v.module.entry_points.len() => !v.info.get_entry_point(e)[h].is_empty(),
        _ => false,
    }
}

fn convert_scalar(s: naga::Scalar) -> (r: ScalarDesc) {
    let (kind, width) = scalar_parts(s);
    ScalarDesc { kind: scalar_kind_of(kind), width }
}

fn convert_image_class(c: naga::ImageClass) -> (r: ImageKind) {
    match image_class_parts(c) {
        ImageClassParts::Sampled(kind, multi) => ImageKind::Sampled { kind: scalar_kind_of(kind), multi },
        ImageClassParts::Depth(multi) => ImageKind::Depth { multi },
        ImageClassParts::External => ImageKind::External,
        ImageClassParts::Storage(format, access) => ImageKind::Storage {
            format: storage_format_of(format),
            access,
        },
    }
}

/// Whether `m` is member `k` of type `i` of the module naga makes of `source`.
pub open spec fn spec_member_reflects(m: StructMember, source: Seq<char>, i: usize, k: usize) -> bool {
    &&& spec_wgsl_member(source, i, k) == Some((opt_str_view(m.name), m.ty, m.offset))
    &&& strings_view(m.docs@) == spec_wgsl_member_docs(source, i, k)
}

/// Whether `ms` are the members of type `i`, in order.
pub open spec fn spec_members_reflect(ms: Seq<StructMember>, source: Seq<char>, i: usize) -> bool {
    &&& ms.len() == spec_wgsl_member_count(source, i)
    &&& forall|k: int| 0 <= k < ms.len() ==> spec_member_reflects(#[trigger] ms[k], source, i, k as usize)
}

fn struct_members(v: &Validated, i: usize) -> (r: Vec<StructMember>)
    ensures
        spec_free_of_float_builtins(v@) ==> spec_members_reflect(r@, v@, i),
{
    let n = member_count(v, i);
    let mut members: Vec<StructMember> = Vec::new();
    let mut k: usize = 0;
    while k < n
        invariant
            k <= n,
            spec_free_of_float_builtins(v@) ==> n == spec_wgsl_member_count(v@, i),
            spec_free_of_float_builtins(v@) ==> members@.len() == k,
            spec_free_of_float_builtins(v@) ==> forall|j: int|
                0 <= j < members@.len() ==> spec_member_reflects(#[trigger] members@[j], v@, i, j as usize),
        decreases n - k,
    {
        match member_of(v, i, k) {
            Some((name, ty, offset)) => {
                members.push(StructMember { name, ty, offset, docs: member_docs(v, i, k) });
            },
            None => {},
        }
        k += 1;
    }
    members
}

fn convert_type(v: &Validated, i: usize) -> (r: TypeInner)
    ensures
        spec_free_of_float_builtins(v@) ==> (r matches TypeInner::Struct { members, .. } ==> spec_members_reflect(
            members@,
            v@,
            i,
        )),
{
    match type_class(v, i) {
        TypeClass::Scalar(s) => TypeInner::Scalar(convert_scalar(s)),
        TypeClass::Vector(size, s) => TypeInner::Vector { size: vector_size_of(size), scalar: convert_scalar(s) },
        TypeClass::Struct(span) => TypeInner::Struct { members: struct_members(v, i), span },
        TypeClass::Image(dim, arrayed, class) => TypeInner::Image {
            dim: image_dim_of(dim),
            arrayed,
            class: convert_image_class(class),
        },
        TypeClass::Sampler(comparison) => TypeInner::Sampler { comparison },
        TypeClass::Other => TypeInner::Other,
    }
}

/// Whether each entry point records a use flag for every global variable.
pub open spec fn spec_uses_complete(m: ReflectedModule) -> bool {
    forall|e: int|
        0 <= e < m.entry_points@.len() ==> #[trigger] m.entry_points@[e].uses@.len()
            == m.global_variables@.len()
}

/// Whether global variable `gv` is variable `g` of the module naga makes of
/// `source`.
pub open spec fn spec_global_reflects(gv: GlobalVariable, source: Seq<char>, g: usize) -> bool {
    &&& spec_wgsl_global(source, g) == (opt_str_view(gv.name), gv.binding, gv.ty)
    &&& strings_view(gv.docs@) == spec_wgsl_global_docs(source, g)
}

/// Whether `ep` is entry point `e` of the module naga makes of `source`.
pub open spec fn spec_entry_reflects(ep: EntryPoint, source: Seq<char>, e: usize) -> bool {
    &&& spec_wgsl_entry_point(source, e) == (ep.name@, ep.workgroup_size@)
    &&& strings_view(ep.docs@) == spec_wgsl_entry_point_docs(source, e)
    &&& forall|g: int| 0 <= g < ep.uses@.len() ==> #[trigger] ep.uses@[g] == spec_wgsl_uses_global(source, e, g as usize)
}

/// Whether `m` holds what the module naga makes of `source` holds: its doc
/// comments, its types with their span ends (the members of the struct
/// types), its global variables and its entry points, in arena order.
pub open spec fn spec_reflects(m: ReflectedModule, source: Seq<char>) -> bool {
    &&& strings_view(m.docs@) == spec_wgsl_module_docs(source)
    &&& m.types@.len() == spec_wgsl_type_count(source)
    &&& m.type_span_ends@.len() == m.types@.len()
    &&& forall|i: int| 0 <= i < m.type_span_ends@.len() ==> #[trigger] m.type_span_ends@[i] == spec_wgsl_type_span_end(source, i as usize)
    &&& forall|i: int| 0 <= i < m.types@.len() ==> (#[trigger] m.types@[i] matches TypeInner::Struct { members, .. }
        ==> spec_members_reflect(members@, source, i as usize))
    &&& m.global_variables@.len() == spec_wgsl_global_count(source)
    &&& forall|g: int| 0 <= g < m.global_variables@.len() ==> spec_global_reflects(#[trigger] m.global_variables@[g], source, g as usize)
    &&& m.entry_points@.len() == spec_wgsl_entry_point_count(source)
    &&& forall|e: int| 0 <= e < m.entry_points@.len() ==> spec_entry_reflects(#[trigger] m.entry_points@[e], source, e as usize)
}

/// The plain model of a validated module.
fn reflect(v: &Validated) -> (r: ReflectedModule)
    ensures
        spec_uses_complete(r),
        spec_free_of_float_builtins(v@) ==> spec_reflects(r, v@),
{
    let ghost free = spec_free_of_float_builtins(v@);
    let docs = module_docs(v);
    let mut types: Vec<TypeInner> = Vec::new();
    let mut type_span_ends: Vec<Option<usize>> = Vec::new();
    let type_n = type_count(v);
    let mut i: usize = 0;
    while i < type_n
        invariant
            i <= type_n,
            free == spec_free_of_float_builtins(v@),
            types@.len() == i,
            type_span_ends@.len() == i,
            free ==> forall|j: int| 0 <= j < i ==> #[trigger] type_span_ends@[j] == spec_wgsl_type_span_end(v@, j as usize),
            free ==> forall|j: int| 0 <= j < i ==> (#[trigger] types@[j] matches TypeInner::Struct { members, .. }
                ==> spec_members_reflect(members@, v@, j as usize)),
        decreases type_n - i,
    {
        types.push(convert_type(v, i));
        type_span_ends.push(type_span_end(v, i));
        i += 1;
    }
    let mut global_variables: Vec<GlobalVariable> = Vec::new();
    let global_n = global_count(v);
    let mut g: usize = 0;
    while g < global_n
        invariant
            g <= global_n,
            free == spec_free_of_float_builtins(v@),
            free ==> global_n == spec_wgsl_global_count(v@),
            free ==> global_variables@.len() == g,
            free ==> forall|j: int| 0 <= j < global_variables@.len() ==> spec_global_reflects(
                #[trigger] global_variables@[j],
                v@,
                j as usize,
            ),
        decreases global_n - g,
    {
        match global_of(v, g) {
            Some((name, space, binding, ty)) => {
                let docs = global_docs(v, g);
                global_variables.push(GlobalVariable { name, space: space_of(space), binding, ty, docs });
            },
            None => {},
        }
        g += 1;
    }
    let mut entry_points: Vec<EntryPoint> = Vec::new();
    let entry_n = entry_point_count(v);
    let mut e: usize = 0;
    while e < entry_n
        invariant
            e <= entry_n,
            free == spec_free_of_float_builtins(v@),
            free ==> entry_n == spec_wgsl_entry_point_count(v@),
            free ==> entry_points@.len() == e,
            forall|j: int|
                0 <= j < entry_points@.len() ==> #[trigger] entry_points@[j].uses@.len() == global_variables@.len(),
            free ==> forall|j: int| 0 <= j < entry_points@.len() ==> spec_entry_reflects(
                #[trigger] entry_points@[j],
                v@,
                j as usize,
            ),
        decreases entry_n - e,
    {
        match entry_point_of(v, e) {
            Some((name, stage, workgroup_size)) => {
                let mut uses: Vec<bool> = Vec::new();
                let mut u: usize = 0;
                while u < global_variables.len()
                    invariant
                        u <= global_variables@.len(),
                        uses@.len() == u,
                        free == spec_free_of_float_builtins(v@),
                        free ==> forall|j: int| 0 <= j < u ==> #[trigger] uses@[j] == spec_wgsl_uses_global(v@, e, j as usize),
                    decreases global_variables@.len() - u,
                {
                    uses.push(uses_global(v, e, u));
                    u += 1;
                }
                let docs = entry_point_docs(v, e);
                entry_points.push(EntryPoint { name, stage: stage_of(stage), workgroup_size, docs, uses });
            },
            None => {},
        }
        e += 1;
    }
    ReflectedModule { docs, types, type_span_ends, global_variables, entry_points }
}

/// Why wisp WGSL source was rejected.
#[derive(Clone, Debug, PartialEq)]
pub enum ReflectError {
    /// A naga_oil-style `#` directive on this 1-based line.
    Directive { line: usize },
    /// naga could not parse the source; the message locates the error.
    Parse(String),
    /// naga could not validate the module.
    Validation(String),
}

pub enum ReflectErrorView {
    Directive { line: usize },
    Parse(Seq<char>),
    Validation(Seq<char>),
}

impl View for ReflectError {
    type V = ReflectErrorView;

    open spec fn view(&self) -> ReflectErrorView {
        match self {
            ReflectError::Directive { line } => ReflectErrorView::Directive { line: *line },
            ReflectError::Parse(m) => ReflectErrorView::Parse(m@),
            ReflectError::Validation(m) => ReflectErrorView::Validation(m@),
        }
    }
}

/// Parses and validates wisp WGSL source. Source holding a `#` directive is
/// rejected with the line of the first one, before naga sees it; other source
/// is handed to naga as it is: its verdict is the result's (accepted, or its
/// error), and a module naga accepts is read into the plain model. Both are
/// stated for source free of the float built-ins naga folds with std's
/// transcendental functions; the model's type variants are not stated.
pub fn parse_and_validate(source: &str) -> (r: Result<ReflectedModule, ReflectError>)
    ensures
        match spec_find_directive(source@) {
            Some(l) => r matches Err(ReflectError::Directive { line }) && line == l,
            None => !(r matches Err(ReflectError::Directive { .. })),
        },
        r matches Ok(m) ==> spec_uses_complete(m),
        r matches Ok(m) ==> (spec_free_of_float_builtins(source@) ==> spec_reflects(m, source@)),
        spec_find_directive(source@) is None && spec_free_of_float_builtins(source@) ==> spec_naga_verdict(source@)
            == match r {
            Ok(_) => Ok::<(), ReflectErrorView>(()),
            Err(e) => Err::<(), ReflectErrorView>(e@),
        },
{
    match find_directive(source) {
        Some(line) => {
            return Err(ReflectError::Directive { line });
        },
        None => {},
    }
    match naga_parse_validate(source) {
        Ok(v) => Ok(reflect(&v)),
        Err(e) => Err(e),
    }
}

} // verus!
