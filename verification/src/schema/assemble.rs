//! Assembling the [`WispSchema`] of a module: its bindings, textures, samplers,
//! globals and params, checked against wisp's conventions.

use crate::annot::{clean_text, spec_clean_text};
use crate::reflect::{
    spec_type_at, spec_uses, VarSpace, GlobalVariable, ImageKind, ImageDim,
    ReflectedModule, ScalarKindDesc, TypeInner,
};
use crate::schema::hints::{
    globals_schema, params_schema, spec_globals_schema, spec_params_schema, spec_uniform_size, uniform_size,
};
use crate::schema::passes::{
    passes_from_entry_points, passes_result_view, spec_passes, spec_storage_target, spec_texture_role, storage_target,
    texture_role,
};
use crate::schema::{
    fields_view, passes_view, spec_stage_set, spec_union, textures_view, BindingDesc, BindingTy,
    GlobalsSchemaView, ParamsSchemaView, PassSchema, PassSchemaView, PassStage, SchemaError,
    SchemaErrorView, ShaderStages, TextureRole, TextureSchema, TextureSchemaView, WispSchema,
    WispSchemaView,
};
use crate::globals::GlobalsSchema;
use crate::schema::ParamsSchema;
use crate::schema::size::EvalOutcomeView;
use crate::text::{append_range, decimal, spec_decimal, string_of, strings_view, chars_of};
use vstd::prelude::*;

verus! {

// ---------------------------------------------------------------------------
// Ordering by `(group, binding)`
// ---------------------------------------------------------------------------

/// The position of `(group, binding)` in the lexicographic order.
pub open spec fn binding_key(group: u32, binding: u32) -> int {
    group as int * 0x1_0000_0000 + binding as int
}

/// The first index from `i` whose key exceeds `k` (the length if none does).
pub open spec fn spec_insert_pos<T>(s: Seq<T>, k: int, key: spec_fn(T) -> int, i: int) -> int
    decreases s.len() - i,
{
    if i >= s.len() || i < 0 {
        s.len() as int
    } else if key(s[i]) > k {
        i
    } else {
        spec_insert_pos(s, k, key, i + 1)
    }
}

/// `s` stably sorted by `key` (insertion sort).
pub open spec fn spec_sort_by_key<T>(s: Seq<T>, key: spec_fn(T) -> int) -> Seq<T>
    decreases s.len(),
{
    if s.len() == 0 {
        s
    } else {
        let r = spec_sort_by_key(s.drop_last(), key);
        r.insert(spec_insert_pos(r, key(s.last()), key, 0), s.last())
    }
}

/// Whether `s` is ordered by `key`.
pub open spec fn spec_sorted_by<T>(s: Seq<T>, key: spec_fn(T) -> int) -> bool {
    forall|i: int, j: int| 0 <= i <= j < s.len() ==> key(s[i]) <= key(s[j])
}

pub proof fn lemma_insert_pos<T>(s: Seq<T>, k: int, key: spec_fn(T) -> int, i: int)
    requires
        0 <= i <= s.len(),
    ensures
        i <= spec_insert_pos(s, k, key, i) <= s.len(),
        forall|j: int| i <= j < spec_insert_pos(s, k, key, i) ==> key(s[j]) <= k,
        spec_insert_pos(s, k, key, i) < s.len() ==> key(s[spec_insert_pos(s, k, key, i)]) > k,
    decreases s.len() - i,
{
    if i < s.len() && key(s[i]) <= k {
        lemma_insert_pos(s, k, key, i + 1);
    }
}

/// Sorting by key orders the sequence and keeps its elements.
pub proof fn lemma_sort_by_key<T>(s: Seq<T>, key: spec_fn(T) -> int)
    ensures
        spec_sorted_by(spec_sort_by_key(s, key), key),
        spec_sort_by_key(s, key).to_multiset() == s.to_multiset(),
    decreases s.len(),
{
    if s.len() > 0 {
        let r = spec_sort_by_key(s.drop_last(), key);
        let x = s.last();
        let p = spec_insert_pos(r, key(x), key, 0);
        lemma_sort_by_key(s.drop_last(), key);
        lemma_insert_pos(r, key(x), key, 0);
        let out = r.insert(p, x);
        assert forall|i: int, j: int| 0 <= i <= j < out.len() implies key(out[i]) <= key(out[j]) by {
            if i < p && j < p {
            } else if i < p && j == p {
            } else if i < p && j > p {
                assert(out[j] == r[j - 1]);
            } else if i == p && j == p {
            } else if i == p {
                assert(out[j] == r[j - 1]);
                if p < r.len() {
                    assert(key(r[p]) <= key(r[j - 1]));
                }
            } else {
                assert(out[i] == r[i - 1]);
                assert(out[j] == r[j - 1]);
            }
        }
        assert(s =~= s.drop_last().push(x));
        vstd::seq_lib::to_multiset_insert(r, p, x);
        vstd::seq_lib::to_multiset_build(s.drop_last(), x);
    }
}

/// The key of a texture.
pub open spec fn texture_key() -> spec_fn(TextureSchemaView) -> int {
    |t: TextureSchemaView| binding_key(t.group, t.binding)
}

/// The key of a binding.
pub open spec fn binding_desc_key() -> spec_fn(BindingDesc) -> int {
    |b: BindingDesc| binding_key(b.group, b.binding)
}

/// The key of a sampler.
pub open spec fn sampler_key() -> spec_fn((u32, u32)) -> int {
    |s: (u32, u32)| binding_key(s.0, s.1)
}

fn key_le(g1: u32, b1: u32, g2: u32, b2: u32) -> (r: bool)
    ensures
        r == (binding_key(g1, b1) <= binding_key(g2, b2)),
{
    g1 < g2 || (g1 == g2 && b1 <= b2)
}

// ---------------------------------------------------------------------------
// Gathering the bindings of the global variables
// ---------------------------------------------------------------------------

/// What the bound global variables declare, in declaration order: the globals
/// and params uniforms, the textures and samplers, and every binding with the
/// index of its variable.
pub struct Gathered {
    pub globals: Option<GlobalsSchemaView>,
    pub params: Option<ParamsSchemaView>,
    pub textures: Seq<(usize, TextureSchemaView)>,
    pub samplers: Seq<(u32, u32)>,
    pub bindings: Seq<(usize, u32, u32, BindingTy)>,
}

/// Nothing gathered yet.
pub open spec fn spec_nothing_gathered() -> Gathered {
    Gathered {
        globals: None,
        params: None,
        textures: Seq::empty(),
        samplers: Seq::empty(),
        bindings: Seq::empty(),
    }
}

/// The name of a bound variable in messages: its own, else `binding G:B`.
pub open spec fn spec_binding_name(var: GlobalVariable, group: u32, binding: u32) -> Seq<char> {
    match var.name {
        Some(n) => n@,
        None => "binding "@ + spec_decimal(group as nat) + ":"@ + spec_decimal(binding as nat),
    }
}

/// Whether `(group, binding)` is already bound.
pub open spec fn spec_has_binding(bs: Seq<(usize, u32, u32, BindingTy)>, group: u32, binding: u32) -> bool {
    exists|i: int| 0 <= i < bs.len() && bs[i].1 == group && bs[i].2 == binding
}

/// A uniform binding: the globals struct at `@group(0) @binding(0)` or the one
/// params struct in `@group(1)`.
pub open spec fn spec_gather_uniform(
    m: ReflectedModule,
    acc: Gathered,
    var: GlobalVariable,
    name: Seq<char>,
    group: u32,
    binding: u32,
) -> Result<(Gathered, BindingTy), SchemaErrorView> {
    match spec_type_at(m, var.ty as int) {
        TypeInner::Struct { members, span } => if group == 0 {
            if binding != 0 {
                Err(SchemaErrorView::Group0Binding { name, binding })
            } else {
                match spec_globals_schema(m, members@, span) {
                    Err(e) => Err(e),
                    Ok(gs) => Ok((Gathered { globals: Some(gs), ..acc }, BindingTy::Globals { size: spec_uniform_size(span) })),
                }
            }
        } else if group == 1 {
            match acc.params {
                Some(p) => Err(SchemaErrorView::MultipleParams { first: p.name, second: name }),
                None => match spec_params_schema(m, name, members@, span) {
                    Err(e) => Err(e),
                    Ok(ps) => Ok((Gathered { params: Some(ps), ..acc }, BindingTy::Params { size: spec_uniform_size(span) })),
                },
            }
        } else {
            Err(SchemaErrorView::BadGroup { name, group })
        },
        _ => Err(SchemaErrorView::UniformNotStruct { name }),
    }
}

/// A handle binding: a `texture_2d<f32>` or 2d storage texture in `@group(1)`,
/// or a non-comparison sampler (in `@group(0)` only at `@binding(1)`).
pub open spec fn spec_gather_handle(
    m: ReflectedModule,
    passes: Seq<PassSchemaView>,
    acc: Gathered,
    var: GlobalVariable,
    g: int,
    name: Seq<char>,
    group: u32,
    binding: u32,
) -> Result<(Gathered, BindingTy), SchemaErrorView> {
    match spec_type_at(m, var.ty as int) {
        TypeInner::Image { dim, arrayed, class } => if dim != ImageDim::D2 || arrayed {
            Err(SchemaErrorView::UnsupportedTexture { name })
        } else if group != 1 {
            Err(SchemaErrorView::BadGroup { name, group })
        } else {
            match class {
                ImageKind::Sampled { kind, multi } => if kind != ScalarKindDesc::Float || multi {
                    Err(SchemaErrorView::UnsupportedTexture { name })
                } else {
                    match spec_texture_role(name, strings_view(var.docs@), passes) {
                        Err(e) => Err(e),
                        Ok(role) => Ok(
                            (
                                Gathered {
                                    textures: acc.textures.push(
                                        (g as usize, TextureSchemaView { name, group, binding, role }),
                                    ),
                                    ..acc
                                },
                                BindingTy::Texture2d,
                            ),
                        ),
                    }
                },
                ImageKind::Storage { format, access } => match spec_storage_target(
                    name,
                    format,
                    access,
                    passes,
                ) {
                    Err(e) => Err(e),
                    Ok((pass, fmt)) => Ok(
                        (
                            Gathered {
                                textures: acc.textures.push(
                                    (
                                        g as usize,
                                        TextureSchemaView {
                                            name,
                                            group,
                                            binding,
                                            role: TextureRole::StorageTarget { pass },
                                        },
                                    ),
                                ),
                                ..acc
                            },
                            BindingTy::StorageTexture2d { format: fmt },
                        ),
                    ),
                },
                _ => Err(SchemaErrorView::UnsupportedTexture { name }),
            }
        },
        TypeInner::Sampler { comparison } => if comparison {
            Err(SchemaErrorView::UnsupportedBinding { name })
        } else if group == 0 && binding != 1 {
            Err(SchemaErrorView::Group0Binding { name, binding })
        } else if group > 1 {
            Err(SchemaErrorView::BadGroup { name, group })
        } else {
            Ok((Gathered { samplers: acc.samplers.push((group, binding)), ..acc }, BindingTy::Sampler))
        },
        _ => Err(SchemaErrorView::UnsupportedBinding { name }),
    }
}

/// What global variable `g` adds; unbound variables add nothing, and no two
/// variables may share a `(group, binding)`.
pub open spec fn spec_gather_var(m: ReflectedModule, passes: Seq<PassSchemaView>, acc: Gathered, g: int) -> Result<
    Gathered,
    SchemaErrorView,
> {
    let var = m.global_variables@[g];
    match var.binding {
        None => Ok(acc),
        Some(rb) => if spec_has_binding(acc.bindings, rb.group, rb.binding) {
            Err(SchemaErrorView::DuplicateBinding { group: rb.group, binding: rb.binding })
        } else {
            let name = spec_binding_name(var, rb.group, rb.binding);
            let step = match var.space {
                VarSpace::Uniform => spec_gather_uniform(m, acc, var, name, rb.group, rb.binding),
                VarSpace::Handle => spec_gather_handle(
                    m,
                    passes,
                    acc,
                    var,
                    g,
                    name,
                    rb.group,
                    rb.binding,
                ),
                VarSpace::Other => Err(SchemaErrorView::UnsupportedBinding { name }),
            };
            match step {
                Err(e) => Err(e),
                Ok((next, ty)) => Ok(
                    Gathered {
                        bindings: next.bindings.push((g as usize, rb.group, rb.binding, ty)),
                        ..next
                    },
                ),
            }
        },
    }
}

/// What the global variables from index `g` on add.
pub open spec fn spec_gather_from(m: ReflectedModule, passes: Seq<PassSchemaView>, acc: Gathered, g: int) -> Result<
    Gathered,
    SchemaErrorView,
>
    decreases m.global_variables@.len() - g,
{
    if g >= m.global_variables@.len() || g < 0 {
        Ok(acc)
    } else {
        match spec_gather_var(m, passes, acc, g) {
            Err(e) => Err(e),
            Ok(next) => spec_gather_from(m, passes, next, g + 1),
        }
    }
}

/// The views of textures with the indices of their variables.
pub open spec fn entries_view(v: Seq<(usize, TextureSchema)>) -> Seq<(usize, TextureSchemaView)> {
    v.map_values(|e: (usize, TextureSchema)| (e.0, e.1@))
}

/// What has been gathered, as held by `schema_from_module`.
pub struct GatherState {
    pub globals: Option<GlobalsSchema>,
    pub params: Option<ParamsSchema>,
    pub textures: Vec<(usize, TextureSchema)>,
    pub samplers: Vec<(u32, u32)>,
    pub bindings: Vec<(usize, u32, u32, BindingTy)>,
}

impl View for GatherState {
    type V = Gathered;

    open spec fn view(&self) -> Gathered {
        Gathered {
            globals: match self.globals {
                Some(g) => Some(g@),
                None => None,
            },
            params: match self.params {
                Some(p) => Some(p@),
                None => None,
            },
            textures: entries_view(self.textures@),
            samplers: self.samplers@,
            bindings: self.bindings@,
        }
    }
}

fn binding_name(var: &GlobalVariable, group: u32, binding: u32) -> (r: String)
    ensures
        r@ == spec_binding_name(*var, group, binding),
{
    match &var.name {
        Some(n) => n.clone(),
        None => {
            let mut v = chars_of("binding ");
            let g = decimal(group as u64);
            append_range(&mut v, g.as_slice(), 0, g.len());
            let colon = chars_of(":");
            append_range(&mut v, colon.as_slice(), 0, colon.len());
            let b = decimal(binding as u64);
            append_range(&mut v, b.as_slice(), 0, b.len());
            proof {
                assert(g@.subrange(0, g@.len() as int) =~= g@);
                assert(colon@.subrange(0, colon@.len() as int) =~= colon@);
                assert(b@.subrange(0, b@.len() as int) =~= b@);
            }
            string_of(v.as_slice())
        },
    }
}

fn has_binding(bs: &Vec<(usize, u32, u32, BindingTy)>, group: u32, binding: u32) -> (r: bool)
    ensures
        r == spec_has_binding(bs@, group, binding),
{
    let mut i: usize = 0;
    while i < bs.len()
        invariant
            i <= bs@.len(),
            forall|k: int| 0 <= k < i ==> !(bs@[k].1 == group && bs@[k].2 == binding),
        decreases bs@.len() - i,
    {
        if bs[i].1 == group && bs[i].2 == binding {
            return true;
        }
        i += 1;
    }
    false
}

fn gather_uniform(module: &ReflectedModule, st: GatherState, var: &GlobalVariable, name: String, group: u32, binding: u32) -> (r:
    Result<(GatherState, BindingTy), SchemaError>)
    ensures
        match r {
            Ok((next, ty)) => spec_gather_uniform(*module, st@, *var, name@, group, binding) == Ok::<
                (Gathered, BindingTy),
                SchemaErrorView,
            >((next@, ty)),
            Err(e) => spec_gather_uniform(*module, st@, *var, name@, group, binding) == Err::<
                (Gathered, BindingTy),
                SchemaErrorView,
            >(e@),
        },
{
    let mut st = st;
    match module.type_at(var.ty) {
        Some(TypeInner::Struct { members, span }) => {
            if group == 0 {
                if binding != 0 {
                    return Err(SchemaError::Group0Binding { name, binding });
                }
                let gs = globals_schema(module, members, *span)?;
                st.globals = Some(gs);
                Ok((st, BindingTy::Globals { size: uniform_size(*span) }))
            } else if group == 1 {
                match &st.params {
                    Some(p) => {
                        return Err(SchemaError::MultipleParams { first: p.name.clone(), second: name });
                    },
                    None => {},
                }
                let ps = params_schema(module, name.as_str(), members, *span)?;
                st.params = Some(ps);
                Ok((st, BindingTy::Params { size: uniform_size(*span) }))
            } else {
                Err(SchemaError::BadGroup { name, group })
            }
        },
        _ => Err(SchemaError::UniformNotStruct { name }),
    }
}

fn gather_handle(
    module: &ReflectedModule,
    passes: &Vec<PassSchema>,
    st: GatherState,
    var: &GlobalVariable,
    g: usize,
    name: String,
    group: u32,
    binding: u32,
) -> (r: Result<(GatherState, BindingTy), SchemaError>)
    ensures
        match r {
            Ok((next, ty)) => spec_gather_handle(
                *module,
                passes_view(passes@),
                st@,
                *var,
                g as int,
                name@,
                group,
                binding,
            ) == Ok::<(Gathered, BindingTy), SchemaErrorView>((next@, ty)),
            Err(e) => spec_gather_handle(
                *module,
                passes_view(passes@),
                st@,
                *var,
                g as int,
                name@,
                group,
                binding,
            ) == Err::<(Gathered, BindingTy), SchemaErrorView>(e@),
        },
{
    let mut st = st;
    match module.type_at(var.ty) {
        Some(TypeInner::Image { dim, arrayed, class }) => {
            if *dim != ImageDim::D2 || *arrayed {
                return Err(SchemaError::UnsupportedTexture { name });
            }
            if group != 1 {
                return Err(SchemaError::BadGroup { name, group });
            }
            match class {
                ImageKind::Sampled { kind, multi } => {
                    if *kind != ScalarKindDesc::Float || *multi {
                        return Err(SchemaError::UnsupportedTexture { name });
                    }
                    let role = texture_role(name.as_str(), var.docs.as_slice(), passes)?;
                    let ghost old_t = st.textures@;
                    st.textures.push((g, TextureSchema { name, group, binding, role }));
                    proof {
                        assert(entries_view(st.textures@) =~= entries_view(old_t).push(
                            (g, st.textures@.last().1@),
                        ));
                    }
                    Ok((st, BindingTy::Texture2d))
                },
                ImageKind::Storage { format, access } => {
                    let (pass, fmt) = storage_target(name.as_str(), *format, *access, passes)?;
                    let ghost old_t = st.textures@;
                    st.textures.push(
                        (g, TextureSchema { name, group, binding, role: TextureRole::StorageTarget { pass } }),
                    );
                    proof {
                        assert(entries_view(st.textures@) =~= entries_view(old_t).push(
                            (g, st.textures@.last().1@),
                        ));
                    }
                    Ok((st, BindingTy::StorageTexture2d { format: fmt }))
                },
                _ => Err(SchemaError::UnsupportedTexture { name }),
            }
        },
        Some(TypeInner::Sampler { comparison }) => {
            if *comparison {
                return Err(SchemaError::UnsupportedBinding { name });
            }
            if group == 0 && binding != 1 {
                return Err(SchemaError::Group0Binding { name, binding });
            }
            if group > 1 {
                return Err(SchemaError::BadGroup { name, group });
            }
            st.samplers.push((group, binding));
            Ok((st, BindingTy::Sampler))
        },
        _ => Err(SchemaError::UnsupportedBinding { name }),
    }
}

fn gather_var(module: &ReflectedModule, passes: &Vec<PassSchema>, st: GatherState, g: usize) -> (r: Result<
    GatherState,
    SchemaError,
>)
    requires
        g < module.global_variables@.len(),
    ensures
        match r {
            Ok(next) => spec_gather_var(*module, passes_view(passes@), st@, g as int) == Ok::<
                Gathered,
                SchemaErrorView,
            >(next@),
            Err(e) => spec_gather_var(*module, passes_view(passes@), st@, g as int) == Err::<
                Gathered,
                SchemaErrorView,
            >(e@),
        },
{
    let var = &module.global_variables[g];
    let rb = match var.binding {
        None => {
            return Ok(st);
        },
        Some(rb) => rb,
    };
    if has_binding(&st.bindings, rb.group, rb.binding) {
        return Err(SchemaError::DuplicateBinding { group: rb.group, binding: rb.binding });
    }
    let name = binding_name(var, rb.group, rb.binding);
    let (mut next, ty) = match var.space {
        VarSpace::Uniform => gather_uniform(module, st, var, name, rb.group, rb.binding)?,
        VarSpace::Handle => gather_handle(module, passes, st, var, g, name, rb.group, rb.binding)?,
        VarSpace::Other => {
            return Err(SchemaError::UnsupportedBinding { name });
        },
    };
    next.bindings.push((g, rb.group, rb.binding, ty));
    Ok(next)
}

// ---------------------------------------------------------------------------
// Checks and derived facts over the gathered bindings
// ---------------------------------------------------------------------------

/// Whether a storage texture writes the target of pass `p`.
pub open spec fn spec_written(textures: Seq<(usize, TextureSchemaView)>, p: int) -> bool {
    exists|k: int| 0 <= k < textures.len() && textures[k].1.role == TextureRole::StorageTarget { pass: p as usize }
}

/// The first pass from `i` that is a compute pass whose target no storage
/// texture writes (the length if there is none).
pub open spec fn spec_unwritten_from(passes: Seq<PassSchemaView>, textures: Seq<(usize, TextureSchemaView)>, i: int) -> int
    decreases passes.len() - i,
{
    if i >= passes.len() || i < 0 {
        passes.len() as int
    } else if passes[i].target is Some && passes[i].stage == PassStage::Compute && !spec_written(textures, i) {
        i
    } else {
        spec_unwritten_from(passes, textures, i + 1)
    }
}

/// The name of a pass's target (empty for the final pass).
pub open spec fn spec_target_name(p: PassSchemaView) -> Seq<char> {
    match p.target {
        Some(t) => t.name,
        None => Seq::empty(),
    }
}

/// Every compute pass writes its target through a `<target>_out` storage texture.
pub open spec fn spec_check_written(passes: Seq<PassSchemaView>, textures: Seq<(usize, TextureSchemaView)>) -> Result<
    (),
    SchemaErrorView,
> {
    let i = spec_unwritten_from(passes, textures, 0);
    if 0 <= i < passes.len() {
        Err(
            SchemaErrorView::MissingStorageTexture {
                entry: passes[i].entry,
                target: spec_target_name(passes[i]),
            },
        )
    } else {
        Ok(())
    }
}

/// Whether pass `p` reads its own target (through a texture it uses).
pub open spec fn spec_reads_own_target(m: ReflectedModule, textures: Seq<(usize, TextureSchemaView)>, p: int) -> bool {
    exists|k: int|
        0 <= k < textures.len() && textures[k].1.role == TextureRole::PassTarget { pass: p as usize }
            && spec_uses(m, p, textures[k].0 as int)
}

/// The passes with `self_feedback` set on each pass with a target that reads it.
pub open spec fn spec_with_feedback(
    m: ReflectedModule,
    passes: Seq<PassSchemaView>,
    textures: Seq<(usize, TextureSchemaView)>,
) -> Seq<PassSchemaView> {
    Seq::new(
        passes.len(),
        |i: int|
            if passes[i].target is Some {
                PassSchemaView { self_feedback: spec_reads_own_target(m, textures, i), ..passes[i] }
            } else {
                passes[i]
            },
    )
}

/// Whether a user image texture is named `name`.
pub open spec fn spec_collides(textures: Seq<(usize, TextureSchemaView)>, name: Seq<char>) -> bool {
    exists|k: int| 0 <= k < textures.len() && textures[k].1.name == name && textures[k].1.role == TextureRole::ImageInput
}

/// The first params field from `i` named like a user image (the length if none is).
pub open spec fn spec_collision_from(
    fields: Seq<crate::schema::ParamFieldView>,
    textures: Seq<(usize, TextureSchemaView)>,
    i: int,
) -> int
    decreases fields.len() - i,
{
    if i >= fields.len() || i < 0 {
        fields.len() as int
    } else if spec_collides(textures, fields[i].name) {
        i
    } else {
        spec_collision_from(fields, textures, i + 1)
    }
}

/// Params and user images share one namespace.
pub open spec fn spec_check_collisions(params: Option<ParamsSchemaView>, textures: Seq<(usize, TextureSchemaView)>) -> Result<
    (),
    SchemaErrorView,
> {
    match params {
        None => Ok(()),
        Some(p) => {
            let i = spec_collision_from(p.fields, textures, 0);
            if 0 <= i < p.fields.len() {
                Err(SchemaErrorView::NameCollision { name: p.fields[i].name })
            } else {
                Ok(())
            }
        },
    }
}

/// The union of the stages of the passes.
pub open spec fn spec_all_stages(passes: Seq<PassSchemaView>) -> ShaderStages
    decreases passes.len(),
{
    if passes.len() == 0 {
        ShaderStages { fragment: false, compute: false }
    } else {
        spec_union(spec_all_stages(passes.drop_last()), spec_stage_set(passes.last().stage))
    }
}

/// The union of the stages of the passes whose entry point uses variable `h`.
pub open spec fn spec_used_stages(m: ReflectedModule, passes: Seq<PassSchemaView>, h: int) -> ShaderStages
    decreases passes.len(),
{
    if passes.len() == 0 {
        ShaderStages { fragment: false, compute: false }
    } else {
        let prev = spec_used_stages(m, passes.drop_last(), h);
        if spec_uses(m, passes.len() - 1, h) {
            spec_union(prev, spec_stage_set(passes.last().stage))
        } else {
            prev
        }
    }
}

/// The visibility of variable `h`: the stages of the passes using it, or every
/// stage present when no pass uses it.
pub open spec fn spec_visibility(m: ReflectedModule, passes: Seq<PassSchemaView>, h: int) -> ShaderStages {
    let u = spec_used_stages(m, passes, h);
    if !u.fragment && !u.compute {
        spec_all_stages(passes)
    } else {
        u
    }
}

/// The binding descriptions, in declaration order.
pub open spec fn spec_binding_descs(
    m: ReflectedModule,
    passes: Seq<PassSchemaView>,
    bs: Seq<(usize, u32, u32, BindingTy)>,
) -> Seq<BindingDesc> {
    bs.map_values(
        |b: (usize, u32, u32, BindingTy)|
            BindingDesc { group: b.1, binding: b.2, visibility: spec_visibility(m, passes, b.0 as int), ty: b.3 },
    )
}

/// The textures of the gathered entries, in declaration order.
pub open spec fn spec_entry_textures(t: Seq<(usize, TextureSchemaView)>) -> Seq<TextureSchemaView> {
    t.map_values(|e: (usize, TextureSchemaView)| e.1)
}

/// The schema of a module: its passes, then its bound variables checked in
/// declaration order; compute passes must write their targets, and params
/// must not share a name with a user image. Textures, samplers and bindings
/// come ordered by `(group, binding)`. `ev(k)` are the outcomes of the size
/// expressions of entry point `k`.
pub open spec fn spec_schema_from_module(m: ReflectedModule, ev: spec_fn(int) -> Seq<EvalOutcomeView>) -> Result<
    WispSchemaView,
    SchemaErrorView,
> {
    match spec_passes(m, ev) {
        Err(e) => Err(e),
        Ok(passes) => match spec_gather_from(m, passes, spec_nothing_gathered(), 0) {
            Err(e) => Err(e),
            Ok(acc) => match spec_check_written(passes, acc.textures) {
                Err(e) => Err(e),
                Ok(_) => match spec_check_collisions(acc.params, acc.textures) {
                    Err(e) => Err(e),
                    Ok(_) => Ok(
                        WispSchemaView {
                            description: spec_clean_text(strings_view(m.docs@)),
                            globals: acc.globals,
                            params: acc.params,
                            textures: spec_sort_by_key(spec_entry_textures(acc.textures), texture_key()),
                            samplers: spec_sort_by_key(acc.samplers, sampler_key()),
                            passes: spec_with_feedback(m, passes, acc.textures),
                            bindings: spec_sort_by_key(
                                spec_binding_descs(m, passes, acc.bindings),
                                binding_desc_key(),
                            ),
                        },
                    ),
                },
            },
        },
    }
}

fn written(textures: &Vec<(usize, TextureSchema)>, p: usize) -> (r: bool)
    ensures
        r == spec_written(entries_view(textures@), p as int),
{
    let ghost tv = entries_view(textures@);
    let mut k: usize = 0;
    while k < textures.len()
        invariant
            k <= textures@.len(),
            tv == entries_view(textures@),
            forall|j: int| 0 <= j < k ==> tv[j].1.role != (TextureRole::StorageTarget { pass: p }),
        decreases textures@.len() - k,
    {
        proof {
            assert(tv[k as int].1 == textures@[k as int].1@);
        }
        match textures[k].1.role {
            TextureRole::StorageTarget { pass } => {
                if pass == p {
                    return true;
                }
            },
            _ => {},
        }
        k += 1;
    }
    false
}

fn check_written(passes: &Vec<PassSchema>, textures: &Vec<(usize, TextureSchema)>) -> (r: Result<(), SchemaError>)
    ensures
        match r {
            Ok(_) => spec_check_written(passes_view(passes@), entries_view(textures@)) is Ok,
            Err(e) => spec_check_written(passes_view(passes@), entries_view(textures@)) == Err::<
                (),
                SchemaErrorView,
            >(e@),
        },
{
    let ghost pv = passes_view(passes@);
    let ghost tv = entries_view(textures@);
    let mut i: usize = 0;
    while i < passes.len()
        invariant
            i <= passes@.len(),
            pv == passes_view(passes@),
            tv == entries_view(textures@),
            spec_unwritten_from(pv, tv, 0) == spec_unwritten_from(pv, tv, i as int),
        decreases passes@.len() - i,
    {
        proof {
            assert(pv[i as int] == passes@[i as int]@);
        }
        match &passes[i].target {
            Some(t) => {
                if passes[i].stage == PassStage::Compute && !written(textures, i) {
                    return Err(
                        SchemaError::MissingStorageTexture {
                            entry: passes[i].entry.clone(),
                            target: t.name.clone(),
                        },
                    );
                }
            },
            None => {},
        }
        i += 1;
    }
    Ok(())
}

fn reads_own_target(module: &ReflectedModule, textures: &Vec<(usize, TextureSchema)>, p: usize) -> (r: bool)
    ensures
        r == spec_reads_own_target(*module, entries_view(textures@), p as int),
{
    let ghost tv = entries_view(textures@);
    let mut k: usize = 0;
    while k < textures.len()
        invariant
            k <= textures@.len(),
            tv == entries_view(textures@),
            forall|j: int|
                0 <= j < k ==> !(tv[j].1.role == (TextureRole::PassTarget { pass: p }) && spec_uses(
                    *module,
                    p as int,
                    tv[j].0 as int,
                )),
        decreases textures@.len() - k,
    {
        proof {
            assert(tv[k as int].1 == textures@[k as int].1@);
        }
        match textures[k].1.role {
            TextureRole::PassTarget { pass } => {
                if pass == p && module.uses(p, textures[k].0) {
                    return true;
                }
            },
            _ => {},
        }
        k += 1;
    }
    false
}

fn with_feedback(module: &ReflectedModule, passes: Vec<PassSchema>, textures: &Vec<(usize, TextureSchema)>) -> (r:
    Vec<PassSchema>)
    ensures
        passes_view(r@) == spec_with_feedback(*module, passes_view(passes@), entries_view(textures@)),
{
    let ghost orig = passes_view(passes@);
    let ghost want = spec_with_feedback(*module, orig, entries_view(textures@));
    let mut rest = passes;
    let mut out: Vec<PassSchema> = Vec::new();
    proof {
        assert(passes_view(rest@) =~= orig.skip(0));
    }
    while rest.len() > 0
        invariant
            out@.len() + rest@.len() == orig.len(),
            want == spec_with_feedback(*module, orig, entries_view(textures@)),
            passes_view(rest@) == orig.skip(out@.len() as int),
            passes_view(out@) == want.take(out@.len() as int),
        decreases rest@.len(),
    {
        let ghost i = out@.len() as int;
        let ghost old_rest = rest@;
        let mut p = rest.remove(0);
        proof {
            assert(p@ == passes_view(old_rest)[0]);
            assert(passes_view(old_rest)[0] == orig[i]);
            assert(passes_view(rest@) =~= passes_view(old_rest).skip(1));
            assert(orig.skip(i).skip(1) =~= orig.skip(i + 1));
        }
        if p.target.is_some() {
            p.self_feedback = reads_own_target(module, textures, out.len());
        }
        let ghost old_out = out@;
        out.push(p);
        proof {
            assert(p@ == want[i]);
            assert(passes_view(out@) =~= passes_view(old_out).push(p@));
            assert(want.take(i + 1) =~= want.take(i).push(want[i]));
        }
    }
    proof {
        assert(want.take(orig.len() as int) =~= want);
    }
    out
}

fn collides(textures: &Vec<(usize, TextureSchema)>, name: &str) -> (r: bool)
    ensures
        r == spec_collides(entries_view(textures@), name@),
{
    let ghost tv = entries_view(textures@);
    let mut k: usize = 0;
    while k < textures.len()
        invariant
            k <= textures@.len(),
            tv == entries_view(textures@),
            forall|j: int| 0 <= j < k ==> !(tv[j].1.name == name@ && tv[j].1.role == TextureRole::ImageInput),
        decreases textures@.len() - k,
    {
        proof {
            assert(tv[k as int].1 == textures@[k as int].1@);
        }
        if textures[k].1.role == TextureRole::ImageInput && crate::text::str_eq(textures[k].1.name.as_str(), name) {
            return true;
        }
        k += 1;
    }
    false
}

fn check_collisions(params: &Option<ParamsSchema>, textures: &Vec<(usize, TextureSchema)>) -> (r: Result<
    (),
    SchemaError,
>)
    ensures
        match r {
            Ok(_) => spec_check_collisions(
                match *params {
                    Some(p) => Some(p@),
                    None => None,
                },
                entries_view(textures@),
            ) is Ok,
            Err(e) => spec_check_collisions(
                match *params {
                    Some(p) => Some(p@),
                    None => None,
                },
                entries_view(textures@),
            ) == Err::<(), SchemaErrorView>(e@),
        },
{
    let p = match params {
        None => {
            return Ok(());
        },
        Some(p) => p,
    };
    let ghost fv = fields_view(p.fields@);
    let ghost tv = entries_view(textures@);
    let ghost pv = p@;
    let mut i: usize = 0;
    while i < p.fields.len()
        invariant
            i <= p.fields@.len(),
            pv == p@,
            (match *params {
                Some(q) => Some(q@),
                None => None,
            }) == Some(pv),
            fv == fields_view(p.fields@),
            tv == entries_view(textures@),
            spec_collision_from(fv, tv, 0) == spec_collision_from(fv, tv, i as int),
        decreases p.fields@.len() - i,
    {
        proof {
            assert(fv[i as int] == p.fields@[i as int]@);
        }
        if collides(textures, p.fields[i].name.as_str()) {
            return Err(SchemaError::NameCollision { name: p.fields[i].name.clone() });
        }
        i += 1;
    }
    Ok(())
}

fn all_stages(passes: &Vec<PassSchema>) -> (r: ShaderStages)
    ensures
        r == spec_all_stages(passes_view(passes@)),
{
    let ghost pv = passes_view(passes@);
    let mut acc = ShaderStages::none();
    let mut i: usize = 0;
    proof {
        assert(pv.take(0) =~= Seq::<PassSchemaView>::empty());
    }
    while i < passes.len()
        invariant
            i <= passes@.len(),
            pv == passes_view(passes@),
            acc == spec_all_stages(pv.take(i as int)),
        decreases passes@.len() - i,
    {
        proof {
            assert(pv.take(i + 1).drop_last() =~= pv.take(i as int));
            assert(pv.take(i + 1).last() == passes@[i as int]@);
        }
        acc = acc.union(passes[i].stage.shader_stages());
        i += 1;
    }
    proof {
        assert(pv.take(passes@.len() as int) =~= pv);
    }
    acc
}

fn used_stages(module: &ReflectedModule, passes: &Vec<PassSchema>, h: usize) -> (r: ShaderStages)
    ensures
        r == spec_used_stages(*module, passes_view(passes@), h as int),
{
    let ghost pv = passes_view(passes@);
    let mut acc = ShaderStages::none();
    let mut i: usize = 0;
    proof {
        assert(pv.take(0) =~= Seq::<PassSchemaView>::empty());
    }
    while i < passes.len()
        invariant
            i <= passes@.len(),
            pv == passes_view(passes@),
            acc == spec_used_stages(*module, pv.take(i as int), h as int),
        decreases passes@.len() - i,
    {
        proof {
            assert(pv.take(i + 1).drop_last() =~= pv.take(i as int));
            assert(pv.take(i + 1).last() == passes@[i as int]@);
        }
        if module.uses(i, h) {
            acc = acc.union(passes[i].stage.shader_stages());
        }
        i += 1;
    }
    proof {
        assert(pv.take(passes@.len() as int) =~= pv);
    }
    acc
}

fn binding_descs(module: &ReflectedModule, passes: &Vec<PassSchema>, bs: &Vec<(usize, u32, u32, BindingTy)>) -> (r:
    Vec<BindingDesc>)
    ensures
        r@ == spec_binding_descs(*module, passes_view(passes@), bs@),
{
    let all = all_stages(passes);
    let mut out: Vec<BindingDesc> = Vec::new();
    let mut k: usize = 0;
    while k < bs.len()
        invariant
            k <= bs@.len(),
            all == spec_all_stages(passes_view(passes@)),
            out@ == spec_binding_descs(*module, passes_view(passes@), bs@).take(k as int),
        decreases bs@.len() - k,
    {
        let b = bs[k];
        let used = used_stages(module, passes, b.0);
        let visibility = if used.is_empty() {
            all
        } else {
            used
        };
        let ghost old_out = out@;
        out.push(BindingDesc { group: b.1, binding: b.2, visibility, ty: b.3 });
        proof {
            assert(spec_binding_descs(*module, passes_view(passes@), bs@).take(k + 1) =~= old_out.push(
                out@.last(),
            ));
        }
        k += 1;
    }
    proof {
        assert(spec_binding_descs(*module, passes_view(passes@), bs@).take(bs@.len() as int)
            =~= spec_binding_descs(*module, passes_view(passes@), bs@));
    }
    out
}

fn clone_texture(t: &TextureSchema) -> (r: TextureSchema)
    ensures
        r@ == t@,
{
    TextureSchema { name: t.name.clone(), group: t.group, binding: t.binding, role: t.role }
}

/// The textures of the entries, ordered by `(group, binding)`.
fn sort_textures(entries: &Vec<(usize, TextureSchema)>) -> (r: Vec<TextureSchema>)
    ensures
        textures_view(r@) == spec_sort_by_key(spec_entry_textures(entries_view(entries@)), texture_key()),
{
    let ghost tv = spec_entry_textures(entries_view(entries@));
    let mut out: Vec<TextureSchema> = Vec::new();
    let mut k: usize = 0;
    proof {
        assert(tv.take(0) =~= Seq::<TextureSchemaView>::empty());
        assert(textures_view(out@) =~= Seq::<TextureSchemaView>::empty());
    }
    while k < entries.len()
        invariant
            k <= entries@.len(),
            tv == spec_entry_textures(entries_view(entries@)),
            tv.len() == entries@.len(),
            textures_view(out@) == spec_sort_by_key(tv.take(k as int), texture_key()),
        decreases entries@.len() - k,
    {
        let x = &entries[k].1;
        let ghost ov = textures_view(out@);
        let ghost kx = binding_key(x.group, x.binding);
        proof {
            assert(tv[k as int] == x@);
            lemma_insert_pos(ov, kx, texture_key(), 0);
        }
        let mut i: usize = 0;
        while i < out.len() && key_le(out[i].group, out[i].binding, x.group, x.binding)
            invariant
                i <= out@.len(),
                ov == textures_view(out@),
                kx == binding_key(x.group, x.binding),
                spec_insert_pos(ov, kx, texture_key(), 0) == spec_insert_pos(ov, kx, texture_key(), i as int),
            decreases out@.len() - i,
        {
            proof {
                assert(ov[i as int] == out@[i as int]@);
            }
            i += 1;
        }
        proof {
            if i < out@.len() {
                assert(ov[i as int] == out@[i as int]@);
            }
        }
        let c = clone_texture(x);
        out.insert(i, c);
        proof {
            assert(tv.take(k + 1).drop_last() =~= tv.take(k as int));
            assert(tv.take(k + 1).last() == x@);
            assert(textures_view(out@) =~= ov.insert(i as int, c@));
        }
        k += 1;
    }
    proof {
        assert(tv.take(entries@.len() as int) =~= tv);
    }
    out
}

/// The bindings ordered by `(group, binding)`.
fn sort_bindings(v: &Vec<BindingDesc>) -> (r: Vec<BindingDesc>)
    ensures
        r@ == spec_sort_by_key(v@, binding_desc_key()),
{
    let mut out: Vec<BindingDesc> = Vec::new();
    let mut k: usize = 0;
    proof {
        assert(v@.take(0) =~= Seq::<BindingDesc>::empty());
    }
    while k < v.len()
        invariant
            k <= v@.len(),
            out@ == spec_sort_by_key(v@.take(k as int), binding_desc_key()),
        decreases v@.len() - k,
    {
        let x = v[k];
        let ghost kx = binding_key(x.group, x.binding);
        let mut i: usize = 0;
        while i < out.len() && key_le(out[i].group, out[i].binding, x.group, x.binding)
            invariant
                i <= out@.len(),
                kx == binding_key(x.group, x.binding),
                spec_insert_pos(out@, kx, binding_desc_key(), 0) == spec_insert_pos(
                    out@,
                    kx,
                    binding_desc_key(),
                    i as int,
                ),
            decreases out@.len() - i,
        {
            i += 1;
        }
        out.insert(i, x);
        proof {
            assert(v@.take(k + 1).drop_last() =~= v@.take(k as int));
            assert(v@.take(k + 1).last() == x);
        }
        k += 1;
    }
    proof {
        assert(v@.take(v@.len() as int) =~= v@);
    }
    out
}

/// The samplers ordered by `(group, binding)`.
fn sort_samplers(v: &Vec<(u32, u32)>) -> (r: Vec<(u32, u32)>)
    ensures
        r@ == spec_sort_by_key(v@, sampler_key()),
{
    let mut out: Vec<(u32, u32)> = Vec::new();
    let mut k: usize = 0;
    proof {
        assert(v@.take(0) =~= Seq::<(u32, u32)>::empty());
    }
    while k < v.len()
        invariant
            k <= v@.len(),
            out@ == spec_sort_by_key(v@.take(k as int), sampler_key()),
        decreases v@.len() - k,
    {
        let x = v[k];
        let ghost kx = binding_key(x.0, x.1);
        let mut i: usize = 0;
        while i < out.len() && key_le(out[i].0, out[i].1, x.0, x.1)
            invariant
                i <= out@.len(),
                kx == binding_key(x.0, x.1),
                spec_insert_pos(out@, kx, sampler_key(), 0) == spec_insert_pos(out@, kx, sampler_key(), i as int),
            decreases out@.len() - i,
        {
            i += 1;
        }
        out.insert(i, x);
        proof {
            assert(v@.take(k + 1).drop_last() =~= v@.take(k as int));
            assert(v@.take(k + 1).last() == x);
        }
        k += 1;
    }
    proof {
        assert(v@.take(v@.len() as int) =~= v@);
    }
    out
}

// ---------------------------------------------------------------------------
// The schema
// ---------------------------------------------------------------------------

/// Builds the schema of a parsed and validated module.
pub fn schema_from_module(module: &ReflectedModule) -> (r: Result<WispSchema, SchemaError>)
    ensures
        exists|ev: spec_fn(int) -> Seq<EvalOutcomeView>|
            #[trigger] spec_schema_from_module(*module, ev) == match r {
                Ok(s) => Ok::<WispSchemaView, SchemaErrorView>(s@),
                Err(e) => Err::<WispSchemaView, SchemaErrorView>(e@),
            },
{
    let description = clean_text(module.docs.as_slice());
    let found = passes_from_entry_points(module);
    let ghost ev = choose|ev: spec_fn(int) -> Seq<EvalOutcomeView>|
        spec_passes(*module, ev) == passes_result_view(found);
    let ghost whole = spec_schema_from_module(*module, ev);
    let passes = found?;
    let ghost pv = passes_view(passes@);
    let mut st = GatherState {
        globals: None,
        params: None,
        textures: Vec::new(),
        samplers: Vec::new(),
        bindings: Vec::new(),
    };
    proof {
        assert(st@ == spec_nothing_gathered()) by {
            assert(entries_view(st.textures@) =~= Seq::<(usize, TextureSchemaView)>::empty());
        }
    }
    let mut g: usize = 0;
    while g < module.global_variables.len()
        invariant
            g <= module.global_variables@.len(),
            pv == passes_view(passes@),
            spec_passes(*module, ev) == Ok::<Seq<PassSchemaView>, SchemaErrorView>(pv),
            whole == spec_schema_from_module(*module, ev),
            spec_gather_from(*module, pv, spec_nothing_gathered(), 0) == spec_gather_from(
                *module,
                pv,
                st@,
                g as int,
            ),
        decreases module.global_variables@.len() - g,
    {
        st = gather_var(module, &passes, st, g)?;
        g += 1;
    }
    check_written(&passes, &st.textures)?;
    check_collisions(&st.params, &st.textures)?;
    let descs = binding_descs(module, &passes, &st.bindings);
    let bindings = sort_bindings(&descs);
    let textures = sort_textures(&st.textures);
    let samplers = sort_samplers(&st.samplers);
    let passes = with_feedback(module, passes, &st.textures);
    Ok(WispSchema { description, globals: st.globals, params: st.params, textures, samplers, passes, bindings })
}

/// The textures, samplers and bindings of a schema come ordered by
/// `(group, binding)`, and each holds exactly what was gathered from the bound
/// variables.
pub proof fn lemma_schema_ordered(m: ReflectedModule, ev: spec_fn(int) -> Seq<EvalOutcomeView>)
    requires
        spec_schema_from_module(m, ev) is Ok,
    ensures
        ({
            let s = spec_schema_from_module(m, ev)->Ok_0;
            &&& spec_sorted_by(s.textures, texture_key())
            &&& spec_sorted_by(s.samplers, sampler_key())
            &&& spec_sorted_by(s.bindings, binding_desc_key())
        }),
{
    let passes = spec_passes(m, ev)->Ok_0;
    let acc = spec_gather_from(m, passes, spec_nothing_gathered(), 0)->Ok_0;
    lemma_sort_by_key(spec_entry_textures(acc.textures), texture_key());
    lemma_sort_by_key(acc.samplers, sampler_key());
    lemma_sort_by_key(spec_binding_descs(m, passes, acc.bindings), binding_desc_key());
}

// ---------------------------------------------------------------------------
// Storage textures and compute passes
// ---------------------------------------------------------------------------

/// Every storage texture among `textures` writes the target of an existing
/// pass and is named `<target>_out` after it.
pub open spec fn spec_storage_named(passes: Seq<PassSchemaView>, textures: Seq<TextureSchemaView>) -> bool {
    forall|k: int|
        0 <= k < textures.len() ==> (#[trigger] textures[k].role matches TextureRole::StorageTarget { pass } ==> (
        pass < passes.len() && textures[k].name == crate::schema::passes::spec_pass_target_name(
            passes[pass as int],
        ) + "_out"@))
}

pub proof fn lemma_storage_target_named(
    name: Seq<char>,
    format: crate::reflect::TexelFormat,
    access: u32,
    passes: Seq<PassSchemaView>,
)
    requires
        passes.len() <= usize::MAX,
    ensures
        spec_storage_target(name, format, access, passes) matches Ok((p, _)) ==> p < passes.len()
            && name == crate::schema::passes::spec_pass_target_name(passes[p as int]) + "_out"@,
{
    if let Ok((p, _)) = spec_storage_target(name, format, access, passes) {
        let target = name.take(name.len() - 4);
        crate::schema::passes::lemma_target_pass_from_bounds(passes, target, 0);
        let pi = crate::schema::passes::spec_target_pass(passes, target)->Some_0;
        assert(p as int == pi);
        assert(crate::schema::passes::spec_pass_target_name(passes[pi]) == target);
        assert(name =~= target + "_out"@) by {
            reveal_strlit("_out");
            assert(name.skip(name.len() - 4) == "_out"@);
        }
    }
}

pub proof fn lemma_texture_role_not_storage(name: Seq<char>, raw: Seq<Seq<char>>, passes: Seq<PassSchemaView>)
    ensures
        spec_texture_role(name, raw, passes) matches Ok(role) ==> !(role is StorageTarget),
{
}

pub proof fn lemma_gather_storage_named(m: ReflectedModule, passes: Seq<PassSchemaView>, acc: Gathered, g: int)
    requires
        0 <= g,
        passes.len() <= usize::MAX,
        spec_storage_named(passes, spec_entry_textures(acc.textures)),
    ensures
        spec_gather_from(m, passes, acc, g) matches Ok(out) ==> spec_storage_named(
            passes,
            spec_entry_textures(out.textures),
        ),
    decreases m.global_variables@.len() - g,
{
    if g < m.global_variables@.len() {
        let var = m.global_variables@[g];
        if let Ok(next) = spec_gather_var(m, passes, acc, g) {
            if let Some(rb) = var.binding {
                let name = spec_binding_name(var, rb.group, rb.binding);
                if let TypeInner::Image { dim, arrayed, class } = spec_type_at(m, var.ty as int) {
                    match class {
                        ImageKind::Storage { format, access } => {
                            lemma_storage_target_named(name, format, access, passes);
                        },
                        ImageKind::Sampled { .. } => {
                            lemma_texture_role_not_storage(name, strings_view(var.docs@), passes);
                        },
                        _ => {},
                    }
                }
            }
            let before = spec_entry_textures(acc.textures);
            let after = spec_entry_textures(next.textures);
            assert(after.len() == before.len() || after.len() == before.len() + 1);
            assert forall|k: int| 0 <= k < before.len() implies after[k] == before[k] by {}
            assert(spec_storage_named(passes, after));
            lemma_gather_storage_named(m, passes, next, g + 1);
        }
    }
}

pub proof fn lemma_unwritten_from(passes: Seq<PassSchemaView>, textures: Seq<(usize, TextureSchemaView)>, j: int)
    requires
        0 <= j,
        !(0 <= spec_unwritten_from(passes, textures, j) < passes.len()),
    ensures
        forall|i: int|
            j <= i < passes.len() && #[trigger] passes[i].stage == PassStage::Compute && passes[i].target is Some
                ==> spec_written(textures, i),
    decreases passes.len() - j,
{
    if j < passes.len() {
        lemma_unwritten_from(passes, textures, j + 1);
    }
}

/// Every compute pass of an accepted schema writes its target through a
/// storage texture of the schema named `<target>_out`.
pub proof fn lemma_compute_passes_written(m: ReflectedModule, ev: spec_fn(int) -> Seq<EvalOutcomeView>)
    requires
        spec_schema_from_module(m, ev) is Ok,
    ensures
        ({
            let s = spec_schema_from_module(m, ev)->Ok_0;
            forall|i: int|
                0 <= i < s.passes.len() && #[trigger] s.passes[i].stage == PassStage::Compute ==> {
                    &&& s.passes[i].target is Some
                    &&& exists|k: int|
                        0 <= k < s.textures.len() && s.textures[k].role == (TextureRole::StorageTarget {
                            pass: i as usize,
                        }) && #[trigger] s.textures[k].name
                            == crate::schema::passes::spec_pass_target_name(s.passes[i]) + "_out"@
                }
        }),
{
    let passes = spec_passes(m, ev)->Ok_0;
    crate::schema::passes::lemma_passes_conventions(m, ev);
    assert(m.entry_points@.len() == m.entry_points.len());
    let acc = spec_gather_from(m, passes, spec_nothing_gathered(), 0)->Ok_0;
    lemma_gather_storage_named(m, passes, spec_nothing_gathered(), 0);
    lemma_unwritten_from(passes, acc.textures, 0);
    let tex = spec_entry_textures(acc.textures);
    let sorted = spec_sort_by_key(tex, texture_key());
    lemma_sort_by_key(tex, texture_key());
    let s = spec_schema_from_module(m, ev)->Ok_0;
    assert(s.textures == sorted);
    assert forall|i: int| 0 <= i < s.passes.len() && #[trigger] s.passes[i].stage == PassStage::Compute implies {
        &&& s.passes[i].target is Some
        &&& exists|k: int|
            0 <= k < s.textures.len() && s.textures[k].role == (TextureRole::StorageTarget { pass: i as usize })
                && #[trigger] s.textures[k].name == crate::schema::passes::spec_pass_target_name(s.passes[i])
                + "_out"@
    } by {
        assert(s.passes[i].stage == passes[i].stage && s.passes[i].target == passes[i].target);
        assert(spec_written(acc.textures, i));
        let k = choose|k: int|
            0 <= k < acc.textures.len() && acc.textures[k].1.role == TextureRole::StorageTarget { pass: i as usize };
        let x = tex[k];
        assert(x == acc.textures[k].1);
        assert(tex.contains(x));
        assert(sorted.contains(x)) by {
            broadcast use vstd::seq_lib::group_to_multiset_ensures;
            assert(tex.to_multiset().count(x) > 0);
        }
        let k2 = choose|k2: int| 0 <= k2 < sorted.len() && sorted[k2] == x;
        assert(s.textures[k2].name == crate::schema::passes::spec_pass_target_name(s.passes[i]) + "_out"@);
    }
}

pub proof fn lemma_collision_from(
    fields: Seq<crate::schema::ParamFieldView>,
    textures: Seq<(usize, TextureSchemaView)>,
    i: int,
)
    requires
        0 <= i,
        !(0 <= spec_collision_from(fields, textures, i) < fields.len()),
    ensures
        forall|j: int| i <= j < fields.len() ==> !spec_collides(textures, #[trigger] fields[j].name),
    decreases fields.len() - i,
{
    if i < fields.len() {
        lemma_collision_from(fields, textures, i + 1);
    }
}

/// No param of an accepted schema is named like one of its user images: the
/// two share one namespace of inputs.
pub proof fn lemma_inputs_namespace(m: ReflectedModule, ev: spec_fn(int) -> Seq<EvalOutcomeView>)
    requires
        spec_schema_from_module(m, ev) is Ok,
    ensures
        ({
            let s = spec_schema_from_module(m, ev)->Ok_0;
            s.params matches Some(p) ==> forall|f: int, k: int|
                0 <= f < p.fields.len() && 0 <= k < s.textures.len() && #[trigger] s.textures[k].role
                    == TextureRole::ImageInput ==> #[trigger] p.fields[f].name != s.textures[k].name
        }),
{
    let passes = spec_passes(m, ev)->Ok_0;
    let acc = spec_gather_from(m, passes, spec_nothing_gathered(), 0)->Ok_0;
    let tex = spec_entry_textures(acc.textures);
    let sorted = spec_sort_by_key(tex, texture_key());
    lemma_sort_by_key(tex, texture_key());
    let s = spec_schema_from_module(m, ev)->Ok_0;
    if let Some(p) = s.params {
        lemma_collision_from(p.fields, acc.textures, 0);
        assert forall|f: int, k: int|
            0 <= f < p.fields.len() && 0 <= k < s.textures.len() && #[trigger] s.textures[k].role
                == TextureRole::ImageInput implies #[trigger] p.fields[f].name != s.textures[k].name by {
            let x = sorted[k];
            assert(sorted.contains(x));
            assert(tex.contains(x)) by {
                broadcast use vstd::seq_lib::group_to_multiset_ensures;
                assert(sorted.to_multiset().count(x) > 0);
            }
            let k2 = choose|k2: int| 0 <= k2 < tex.len() && tex[k2] == x;
            assert(acc.textures[k2].1 == x);
            if p.fields[f].name == x.name {
                assert(spec_collides(acc.textures, p.fields[f].name));
            }
        }
    }
}

// ---------------------------------------------------------------------------
// Distinct binding slots
// ---------------------------------------------------------------------------

/// Whether the keys of `s` are pairwise distinct.
pub open spec fn spec_keys_distinct<T>(s: Seq<T>, key: spec_fn(T) -> int) -> bool {
    forall|i: int, j: int| 0 <= i < j < s.len() ==> key(s[i]) != key(s[j])
}

/// Whether `s` is strictly ordered by `key`.
pub open spec fn spec_strictly_sorted_by<T>(s: Seq<T>, key: spec_fn(T) -> int) -> bool {
    forall|i: int, j: int| 0 <= i < j < s.len() ==> key(s[i]) < key(s[j])
}

/// Sorting elements with distinct keys orders them strictly.
pub proof fn lemma_sort_strict<T>(s: Seq<T>, key: spec_fn(T) -> int)
    requires
        spec_keys_distinct(s, key),
    ensures
        spec_strictly_sorted_by(spec_sort_by_key(s, key), key),
    decreases s.len(),
{
    if s.len() > 0 {
        let prev = s.drop_last();
        let r = spec_sort_by_key(prev, key);
        let x = s.last();
        let p = spec_insert_pos(r, key(x), key, 0);
        lemma_sort_strict(prev, key);
        lemma_sort_by_key(prev, key);
        lemma_insert_pos(r, key(x), key, 0);
        assert forall|j: int| 0 <= j < r.len() implies key(#[trigger] r[j]) != key(x) by {
            assert(r.contains(r[j]));
            assert(prev.contains(r[j])) by {
                broadcast use vstd::seq_lib::group_to_multiset_ensures;
                assert(r.to_multiset().count(r[j]) > 0);
            }
            let i = choose|i: int| 0 <= i < prev.len() && prev[i] == r[j];
            assert(s[i] == prev[i] && x == s[s.len() - 1]);
        }
        let out = r.insert(p, x);
        assert forall|i: int, j: int| 0 <= i < j < out.len() implies key(out[i]) < key(out[j]) by {
            if j < p {
            } else if j == p {
                assert(key(r[i]) != key(x));
            } else if i < p {
                assert(out[j] == r[j - 1]);
            } else if i == p {
                assert(out[j] == r[j - 1]);
                if p < r.len() {
                    assert(key(r[p]) <= key(r[j - 1]));
                }
            } else {
                assert(out[i] == r[i - 1] && out[j] == r[j - 1]);
            }
        }
    }
}

/// Whether no two gathered bindings share a `(group, binding)` slot.
pub open spec fn spec_slots_distinct(bs: Seq<(usize, u32, u32, BindingTy)>) -> bool {
    forall|i: int, j: int| 0 <= i < j < bs.len() ==> !(bs[i].1 == bs[j].1 && bs[i].2 == bs[j].2)
}

pub proof fn lemma_gather_slots_distinct(m: ReflectedModule, passes: Seq<PassSchemaView>, acc: Gathered, g: int)
    requires
        0 <= g,
        spec_slots_distinct(acc.bindings),
    ensures
        spec_gather_from(m, passes, acc, g) matches Ok(out) ==> spec_slots_distinct(out.bindings),
    decreases m.global_variables@.len() - g,
{
    if g < m.global_variables@.len() {
        if let Ok(next) = spec_gather_var(m, passes, acc, g) {
            let var = m.global_variables@[g];
            if let Some(rb) = var.binding {
                assert(!spec_has_binding(acc.bindings, rb.group, rb.binding));
                let name = spec_binding_name(var, rb.group, rb.binding);
                let step = match var.space {
                    VarSpace::Uniform => spec_gather_uniform(m, acc, var, name, rb.group, rb.binding),
                    VarSpace::Handle => spec_gather_handle(m, passes, acc, var, g, name, rb.group, rb.binding),
                    VarSpace::Other => Err(SchemaErrorView::UnsupportedBinding { name }),
                };
                let (mid, ty) = step->Ok_0;
                assert(mid.bindings == acc.bindings);
                assert(next.bindings == acc.bindings.push((g as usize, rb.group, rb.binding, ty)));
                assert forall|i: int, j: int| 0 <= i < j < next.bindings.len() implies !(next.bindings[i].1
                    == next.bindings[j].1 && next.bindings[i].2 == next.bindings[j].2) by {
                    if j == acc.bindings.len() {
                        assert(next.bindings[i] == acc.bindings[i]);
                    } else {
                        assert(next.bindings[i] == acc.bindings[i] && next.bindings[j] == acc.bindings[j]);
                    }
                }
            }
            lemma_gather_slots_distinct(m, passes, next, g + 1);
        }
    }
}

/// The bindings of an accepted schema are strictly ordered by
/// `(group, binding)`: no two share a slot.
pub proof fn lemma_bindings_strictly_ordered(m: ReflectedModule, ev: spec_fn(int) -> Seq<EvalOutcomeView>)
    requires
        spec_schema_from_module(m, ev) is Ok,
    ensures
        ({
            let s = spec_schema_from_module(m, ev)->Ok_0;
            forall|i: int, j: int|
                0 <= i < j < s.bindings.len() ==> binding_key(#[trigger] s.bindings[i].group, s.bindings[i].binding)
                    < binding_key(#[trigger] s.bindings[j].group, s.bindings[j].binding)
        }),
{
    let passes = spec_passes(m, ev)->Ok_0;
    let acc = spec_gather_from(m, passes, spec_nothing_gathered(), 0)->Ok_0;
    lemma_gather_slots_distinct(m, passes, spec_nothing_gathered(), 0);
    let descs = spec_binding_descs(m, passes, acc.bindings);
    assert forall|i: int, j: int| 0 <= i < j < descs.len() implies binding_desc_key()(descs[i])
        != binding_desc_key()(descs[j]) by {
        assert(descs[i].group == acc.bindings[i].1 && descs[i].binding == acc.bindings[i].2);
        assert(descs[j].group == acc.bindings[j].1 && descs[j].binding == acc.bindings[j].2);
        if descs[i].group == descs[j].group {
        } else if descs[i].group < descs[j].group {
            assert(binding_key(descs[i].group, descs[i].binding) < binding_key(descs[j].group, descs[j].binding));
        } else {
            assert(binding_key(descs[i].group, descs[i].binding) > binding_key(descs[j].group, descs[j].binding));
        }
    }
    lemma_sort_strict(descs, binding_desc_key());
}

} // verus!
