//! Passes: one per `@fragment`/`@compute` entry point, configured by `@pass(..)`,
//! and the roles of the textures that read or write their targets.

use crate::annot::{
    parse_docs, spec_get, spec_named_from, spec_parse_docs, Annotation, AnnotationView, Arg,
    ArgView, Value, ValueView,
};
use crate::number::{spec_display, spec_positive_u32};
use crate::reflect::{
    EntryPoint, ReflectedModule, EntryStage, TexelFormat, STORAGE_ACCESS_STORE,
};
use crate::schema::hints::spec_check_known;
use crate::schema::hints::check_known;
use crate::schema::size::{eval_size, size_result_view, spec_eval_size, EvalOutcomeView, UVec2};
use crate::schema::{
    opt_dispatch_view, opt_target_view, opt_view, passes_view, PassSchema, PassSchemaView,
    PassStage, SchemaError, SchemaErrorView, TargetSchema, TargetSchemaView, TextureFormat,
    TextureRole,
};
use crate::text::{
    chars_of, concat3, copy_range, ends_with, spec_ends_with, spec_split, spec_trim, split,
    str_eq, string_of, strings_view, strs_view, trim, views,
};
use vstd::prelude::*;

verus! {

// ---------------------------------------------------------------------------
// Expressions
// ---------------------------------------------------------------------------

/// A `width`/`height`/`dispatch` value as an expression string: a number as
/// `f64` displays it, a string or word as written.
pub open spec fn spec_expr_string(v: ValueView) -> Seq<char> {
    match v {
        ValueView::Number(n) => spec_display(n),
        ValueView::Str(s) => s,
        ValueView::Ident(s) => s,
    }
}

/// A `width`/`height`/`dispatch` value as an expression string.
pub fn expr_string(value: &Value) -> (r: String)
    ensures
        r@ == spec_expr_string(value@),
{
    match value {
        Value::Number(n) => n.to_display_string(),
        Value::Str(s) => s.clone(),
        Value::Ident(s) => s.clone(),
    }
}

/// The trimmed comma-separated pieces of a `dispatch` value.
pub open spec fn spec_dispatch_pieces(v: ValueView) -> Seq<Seq<char>> {
    spec_split(spec_expr_string(v), ',').map_values(|p: Seq<char>| spec_trim(p))
}

/// The three dispatch expressions of a `dispatch` value: one to three non-empty
/// comma-separated expressions, the missing ones `1`.
pub open spec fn spec_dispatch_exprs(v: ValueView, ctx: Seq<char>) -> Result<
    Seq<Seq<char>>,
    SchemaErrorView,
> {
    let ps = spec_dispatch_pieces(v);
    if ps.len() == 0 || ps.len() > 3 || exists|i: int| 0 <= i < ps.len() && ps[i].len() == 0 {
        Err(SchemaErrorView::DispatchArity { context: ctx })
    } else {
        Ok(ps + Seq::new((3 - ps.len()) as nat, |i: int| "1"@))
    }
}

/// The three dispatch expressions of a `dispatch` value.
pub fn dispatch_exprs(value: &Value, context: &str) -> (r: Result<[String; 3], SchemaError>)
    ensures
        match r {
            Ok(d) => spec_dispatch_exprs(value@, context@) == Ok::<Seq<Seq<char>>, SchemaErrorView>(
                strings_view(d@),
            ),
            Err(e) => spec_dispatch_exprs(value@, context@) == Err::<Seq<Seq<char>>, SchemaErrorView>(
                e@,
            ),
        },
{
    let text = expr_string(value);
    let t = chars_of(text.as_str());
    let pieces = split(t.as_slice(), ',');
    let ghost ps = spec_dispatch_pieces(value@);
    let mut exprs: Vec<String> = Vec::new();
    let mut has_empty = false;
    let mut k: usize = 0;
    while k < pieces.len()
        invariant
            k <= pieces@.len(),
            views(pieces@) == spec_split(spec_expr_string(value@), ','),
            ps == spec_dispatch_pieces(value@),
            ps.len() == pieces@.len(),
            strings_view(exprs@) == ps.take(k as int),
            has_empty == exists|i: int| 0 <= i < k && ps[i].len() == 0,
        decreases pieces@.len() - k,
    {
        let p = trim(pieces[k].as_slice());
        proof {
            assert(ps[k as int] == spec_trim(views(pieces@)[k as int]));
        }
        if p.len() == 0 {
            has_empty = true;
        }
        let ghost old_e = exprs@;
        exprs.push(string_of(p));
        proof {
            assert(strings_view(exprs@) =~= strings_view(old_e).push(p@));
            assert(ps.take(k + 1) =~= ps.take(k as int).push(ps[k as int]));
        }
        k += 1;
    }
    proof {
        assert(ps.take(pieces@.len() as int) =~= ps);
    }
    if exprs.len() == 0 || exprs.len() > 3 || has_empty {
        return Err(SchemaError::DispatchArity { context: String::from_str(context) });
    }
    let e0 = exprs[0].clone();
    let e1 = if exprs.len() > 1 {
        exprs[1].clone()
    } else {
        String::from_str("1")
    };
    let e2 = if exprs.len() > 2 {
        exprs[2].clone()
    } else {
        String::from_str("1")
    };
    let d = [e0, e1, e2];
    proof {
        assert(strings_view(exprs@)[0] == exprs@[0]@);
        if exprs@.len() > 1 {
            assert(strings_view(exprs@)[1] == exprs@[1]@);
        }
        if exprs@.len() > 2 {
            assert(strings_view(exprs@)[2] == exprs@[2]@);
        }
        assert(strings_view(d@) =~= ps + Seq::new((3 - ps.len()) as nat, |i: int| "1"@));
    }
    Ok(d)
}

// ---------------------------------------------------------------------------
// `@pass(..)`
// ---------------------------------------------------------------------------

/// The settings gathered from a `@pass(..)` annotation's arguments.
pub struct PassArgs {
    pub target: Option<Seq<char>>,
    pub persistent: bool,
    pub float: bool,
    pub width: Option<Seq<char>>,
    pub height: Option<Seq<char>>,
    pub dispatch: Option<Seq<Seq<char>>>,
}

/// No argument seen yet.
pub open spec fn spec_no_pass_args() -> PassArgs {
    PassArgs {
        target: None,
        persistent: false,
        float: false,
        width: None,
        height: None,
        dispatch: None,
    }
}

/// The settings after one more argument; a later argument overrides an
/// earlier one of the same key.
pub open spec fn spec_pass_arg(st: PassArgs, a: ArgView, ctx: Seq<char>) -> Result<
    PassArgs,
    SchemaErrorView,
> {
    match a {
        ArgView::Named(key, value) => if key == "target"@ {
            match value {
                ValueView::Number(_) => Err(
                    SchemaErrorView::AnnotationArgs {
                        context: ctx,
                        annotation: "pass"@,
                        expected: "target = \"<name>\""@,
                    },
                ),
                ValueView::Str(s) => Ok(PassArgs { target: Some(s), ..st }),
                ValueView::Ident(s) => Ok(PassArgs { target: Some(s), ..st }),
            }
        } else if key == "width"@ {
            Ok(PassArgs { width: Some(spec_expr_string(value)), ..st })
        } else if key == "height"@ {
            Ok(PassArgs { height: Some(spec_expr_string(value)), ..st })
        } else if key == "dispatch"@ {
            match spec_dispatch_exprs(value, ctx) {
                Ok(d) => Ok(PassArgs { dispatch: Some(d), ..st }),
                Err(e) => Err(e),
            }
        } else {
            Err(SchemaErrorView::PassArg { context: ctx, arg: key })
        },
        ArgView::Pos(value) => match value {
            ValueView::Ident(f) => if f == "persistent"@ {
                Ok(PassArgs { persistent: true, ..st })
            } else if f == "float"@ {
                Ok(PassArgs { float: true, ..st })
            } else {
                Err(SchemaErrorView::PassArg { context: ctx, arg: f })
            },
            ValueView::Str(s) => Err(SchemaErrorView::PassArg { context: ctx, arg: s }),
            ValueView::Number(_) => Err(SchemaErrorView::PassArg { context: ctx, arg: "<number>"@ }),
        },
    }
}

/// The settings after the arguments from index `k` on.
pub open spec fn spec_pass_args_from(args: Seq<ArgView>, ctx: Seq<char>, st: PassArgs, k: int) -> Result<
    PassArgs,
    SchemaErrorView,
>
    decreases args.len() - k,
{
    if k >= args.len() || k < 0 {
        Ok(st)
    } else {
        match spec_pass_arg(st, args[k], ctx) {
            Err(e) => Err(e),
            Ok(next) => spec_pass_args_from(args, ctx, next, k + 1),
        }
    }
}

/// The format of a pass target: `float` targets are `Rgba16Float`, other
/// fragment targets `Rgba8UnormSrgb`, other compute targets `Rgba8Unorm`.
pub open spec fn spec_target_format(stage: PassStage, float: bool) -> TextureFormat {
    if float {
        TextureFormat::Rgba16Float
    } else if stage == PassStage::Fragment {
        TextureFormat::Rgba8UnormSrgb
    } else {
        TextureFormat::Rgba8Unorm
    }
}

/// A `@pass(..)` annotation's target and dispatch expressions.
pub open spec fn spec_pass_config(a: AnnotationView, ctx: Seq<char>, stage: PassStage) -> Result<
    (Option<TargetSchemaView>, Option<Seq<Seq<char>>>),
    SchemaErrorView,
> {
    match spec_pass_args_from(a.args, ctx, spec_no_pass_args(), 0) {
        Err(e) => Err(e),
        Ok(st) => match st.target {
            None => if st.persistent || st.float || st.width is Some || st.height is Some
                || st.dispatch is Some {
                Err(SchemaErrorView::FinalPassConfig { context: ctx })
            } else {
                Ok((None, None))
            },
            Some(name) => if stage == PassStage::Fragment && st.dispatch is Some {
                Err(SchemaErrorView::DispatchOnFragment { context: ctx })
            } else {
                Ok(
                    (
                        Some(
                            TargetSchemaView {
                                name,
                                persistent: st.persistent,
                                float: st.float,
                                format: spec_target_format(stage, st.float),
                                width: st.width,
                                height: st.height,
                            },
                        ),
                        st.dispatch,
                    ),
                )
            },
        },
    }
}

/// The view of the settings held in `pass_config`'s variables.
pub open spec fn pass_args_view(
    target: Option<String>,
    persistent: bool,
    float: bool,
    width: Option<String>,
    height: Option<String>,
    dispatch: Option<[String; 3]>,
) -> PassArgs {
    PassArgs {
        target: opt_view(target),
        persistent,
        float,
        width: opt_view(width),
        height: opt_view(height),
        dispatch: opt_dispatch_view(dispatch),
    }
}

fn annotation_args(context: &str, annotation: &'static str, expected: &'static str) -> (e: SchemaError)
    ensures
        e@ == (SchemaErrorView::AnnotationArgs {
            context: context@,
            annotation: annotation@,
            expected: expected@,
        }),
{
    SchemaError::AnnotationArgs { context: String::from_str(context), annotation, expected }
}

/// Interprets a `@pass(..)` annotation's arguments.
pub fn pass_config(annotation: &Annotation, context: &str, stage: PassStage) -> (r: Result<
    (Option<TargetSchema>, Option<[String; 3]>),
    SchemaError,
>)
    ensures
        match r {
            Ok((t, d)) => spec_pass_config(annotation@, context@, stage) == Ok::<
                (Option<TargetSchemaView>, Option<Seq<Seq<char>>>),
                SchemaErrorView,
            >((opt_target_view(t), opt_dispatch_view(d))),
            Err(e) => spec_pass_config(annotation@, context@, stage) == Err::<
                (Option<TargetSchemaView>, Option<Seq<Seq<char>>>),
                SchemaErrorView,
            >(e@),
        },
{
    let ghost args = annotation@.args;
    let ghost ctx = context@;
    let mut target_name: Option<String> = None;
    let mut persistent = false;
    let mut float = false;
    let mut width: Option<String> = None;
    let mut height: Option<String> = None;
    let mut dispatch: Option<[String; 3]> = None;
    let mut i: usize = 0;
    while i < annotation.args.len()
        invariant
            i <= annotation.args@.len(),
            args == annotation@.args,
            ctx == context@,
            spec_pass_args_from(args, ctx, spec_no_pass_args(), 0) == spec_pass_args_from(
                args,
                ctx,
                pass_args_view(target_name, persistent, float, width, height, dispatch),
                i as int,
            ),
        decreases annotation.args@.len() - i,
    {
        proof {
            assert(args[i as int] == annotation.args@[i as int]@);
        }
        match &annotation.args[i] {
            Arg::Named(key, value) => {
                let k = key.as_str();
                if str_eq(k, "target") {
                    match value.as_str() {
                        Some(name) => {
                            target_name = Some(String::from_str(name));
                        },
                        None => {
                            return Err(annotation_args(context, "pass", "target = \"<name>\""));
                        },
                    }
                } else if str_eq(k, "width") {
                    width = Some(expr_string(value));
                } else if str_eq(k, "height") {
                    height = Some(expr_string(value));
                } else if str_eq(k, "dispatch") {
                    dispatch = Some(dispatch_exprs(value, context)?);
                } else {
                    return Err(
                        SchemaError::PassArg { context: String::from_str(context), arg: key.clone() },
                    );
                }
            },
            Arg::Pos(value) => {
                match value {
                    Value::Ident(f) => {
                        if str_eq(f.as_str(), "persistent") {
                            persistent = true;
                        } else if str_eq(f.as_str(), "float") {
                            float = true;
                        } else {
                            return Err(
                                SchemaError::PassArg {
                                    context: String::from_str(context),
                                    arg: f.clone(),
                                },
                            );
                        }
                    },
                    Value::Str(s) => {
                        return Err(
                            SchemaError::PassArg { context: String::from_str(context), arg: s.clone() },
                        );
                    },
                    Value::Number(_) => {
                        return Err(
                            SchemaError::PassArg {
                                context: String::from_str(context),
                                arg: String::from_str("<number>"),
                            },
                        );
                    },
                }
            },
        }
        i += 1;
    }
    let name = match target_name {
        Some(n) => n,
        None => {
            if persistent || float || width.is_some() || height.is_some() || dispatch.is_some() {
                return Err(SchemaError::FinalPassConfig { context: String::from_str(context) });
            }
            return Ok((None, None));
        },
    };
    if stage == PassStage::Fragment && dispatch.is_some() {
        return Err(SchemaError::DispatchOnFragment { context: String::from_str(context) });
    }
    let format = if float {
        TextureFormat::Rgba16Float
    } else if stage == PassStage::Fragment {
        TextureFormat::Rgba8UnormSrgb
    } else {
        TextureFormat::Rgba8Unorm
    };
    Ok((Some(TargetSchema { name, persistent, float, format, width, height }), dispatch))
}

// ---------------------------------------------------------------------------
// Texture roles
// ---------------------------------------------------------------------------

/// The index of the first pass from `i` whose target is named `name`.
pub open spec fn spec_target_pass_from(passes: Seq<PassSchemaView>, name: Seq<char>, i: int) -> Option<
    int,
>
    decreases passes.len() - i,
{
    if i >= passes.len() || i < 0 {
        None
    } else if passes[i].target matches Some(t) && t.name == name {
        Some(i)
    } else {
        spec_target_pass_from(passes, name, i + 1)
    }
}

/// The pass whose target is named `name`.
pub open spec fn spec_target_pass(passes: Seq<PassSchemaView>, name: Seq<char>) -> Option<int> {
    spec_target_pass_from(passes, name, 0)
}

pub proof fn lemma_target_pass_from_bounds(passes: Seq<PassSchemaView>, name: Seq<char>, i: int)
    requires
        0 <= i,
    ensures
        spec_target_pass_from(passes, name, i) matches Some(p) ==> (i <= p < passes.len()
            && (passes[p].target matches Some(t) && t.name == name)),
    decreases passes.len() - i,
{
    if i < passes.len() && !(passes[i].target matches Some(t) && t.name == name) {
        lemma_target_pass_from_bounds(passes, name, i + 1);
    }
}

/// The index of the pass whose target is named `name`.
pub fn target_pass(passes: &Vec<PassSchema>, name: &str) -> (r: Option<usize>)
    ensures
        match r {
            Some(p) => spec_target_pass(passes_view(passes@), name@) == Some(p as int),
            None => spec_target_pass(passes_view(passes@), name@) is None,
        },
{
    let ghost pv = passes_view(passes@);
    let mut i: usize = 0;
    while i < passes.len()
        invariant
            i <= passes@.len(),
            pv == passes_view(passes@),
            spec_target_pass_from(pv, name@, 0) == spec_target_pass_from(pv, name@, i as int),
        decreases passes@.len() - i,
    {
        proof {
            assert(pv[i as int] == passes@[i as int]@);
        }
        match &passes[i].target {
            Some(t) => {
                if str_eq(t.name.as_str(), name) {
                    return Some(i);
                }
            },
            None => {},
        }
        i += 1;
    }
    None
}

/// The sole `key = <positive integer>` argument of an annotation, or `default`
/// when there are no arguments.
pub open spec fn spec_named_u32(a: AnnotationView, key: Seq<char>, default: u32, ctx: Seq<char>) -> Result<
    u32,
    SchemaErrorView,
> {
    let err = SchemaErrorView::AnnotationArgs {
        context: ctx,
        annotation: key,
        expected: "a positive integer"@,
    };
    if a.args.len() == 0 {
        Ok(default)
    } else if a.args.len() != 1 {
        Err(err)
    } else {
        match spec_named_from(a.args, key, 0) {
            Some(ValueView::Number(n)) => match spec_positive_u32(n) {
                Some(v) => Ok(v),
                None => Err(err),
            },
            _ => Err(err),
        }
    }
}

/// The sole `key = <positive integer>` argument of an annotation, or `default`
/// when there are no arguments.
pub fn named_u32(annotation: &Annotation, key: &'static str, default: u32, context: &str) -> (r: Result<
    u32,
    SchemaError,
>)
    ensures
        match r {
            Ok(v) => spec_named_u32(annotation@, key@, default, context@) == Ok::<u32, SchemaErrorView>(v),
            Err(e) => spec_named_u32(annotation@, key@, default, context@) == Err::<u32, SchemaErrorView>(
                e@,
            ),
        },
{
    if annotation.args.len() == 0 {
        return Ok(default);
    }
    if annotation.args.len() != 1 {
        return Err(annotation_args(context, key, "a positive integer"));
    }
    let n = match annotation.named(key) {
        Some(v) => match v.as_number() {
            Some(n) => n,
            None => {
                return Err(annotation_args(context, key, "a positive integer"));
            },
        },
        None => {
            return Err(annotation_args(context, key, "a positive integer"));
        },
    };
    match n.as_positive_u32() {
        Some(v) => Ok(v),
        None => Err(annotation_args(context, key, "a positive integer")),
    }
}

/// Annotations recognized on texture globals.
pub open spec fn spec_texture_annotations() -> Seq<Seq<char>> {
    seq!["audio"@, "audio_fft"@]
}

/// The role of a `texture_2d<f32>` global: an audio texture when annotated, the
/// target of the pass that renders a target of the same name, else a user image.
pub open spec fn spec_texture_role(name: Seq<char>, raw: Seq<Seq<char>>, passes: Seq<PassSchemaView>) -> Result<
    TextureRole,
    SchemaErrorView,
> {
    let ctx = "texture `"@ + name + "`"@;
    match spec_parse_docs(raw) {
        Err(e) => Err(SchemaErrorView::Annot { context: ctx, err: e }),
        Ok(d) => match spec_check_known(d.annotations, spec_texture_annotations(), ctx) {
            Err(e) => Err(e),
            Ok(_) => match (spec_get(d, "audio"@), spec_get(d, "audio_fft"@)) {
                (Some(_), Some(_)) => Err(
                    SchemaErrorView::AnnotationArgs {
                        context: ctx,
                        annotation: "audio"@,
                        expected: "either `@audio` or `@audio_fft`, not both"@,
                    },
                ),
                (Some(a), None) => match spec_named_u32(a, "samples"@, 512, ctx) {
                    Ok(samples) => Ok(TextureRole::AudioWaveform { samples }),
                    Err(e) => Err(e),
                },
                (None, Some(a)) => match spec_named_u32(a, "bins"@, 256, ctx) {
                    Ok(bins) => Ok(TextureRole::AudioFft { bins }),
                    Err(e) => Err(e),
                },
                (None, None) => match spec_target_pass(passes, name) {
                    Some(p) => Ok(TextureRole::PassTarget { pass: p as usize }),
                    None => Ok(TextureRole::ImageInput),
                },
            },
        },
    }
}

/// The role of a `texture_2d<f32>` global.
pub fn texture_role(name: &str, raw: &[String], passes: &Vec<PassSchema>) -> (r: Result<
    TextureRole,
    SchemaError,
>)
    ensures
        match r {
            Ok(role) => spec_texture_role(name@, strings_view(raw@), passes_view(passes@)) == Ok::<
                TextureRole,
                SchemaErrorView,
            >(role),
            Err(e) => spec_texture_role(name@, strings_view(raw@), passes_view(passes@)) == Err::<
                TextureRole,
                SchemaErrorView,
            >(e@),
        },
{
    let n = chars_of(name);
    let context = concat3("texture `", n.as_slice(), "`");
    let parsed = match parse_docs(raw) {
        Ok(d) => d,
        Err(err) => {
            return Err(SchemaError::Annot { context, err });
        },
    };
    let known = ["audio", "audio_fft"];
    proof {
        assert(strs_view(known@) =~= spec_texture_annotations());
    }
    check_known(&parsed, &known, context.as_str())?;
    match (parsed.get("audio"), parsed.get("audio_fft")) {
        (Some(_), Some(_)) => Err(
            annotation_args(context.as_str(), "audio", "either `@audio` or `@audio_fft`, not both"),
        ),
        (Some(a), None) => {
            let samples = named_u32(a, "samples", 512, context.as_str())?;
            Ok(TextureRole::AudioWaveform { samples })
        },
        (None, Some(a)) => {
            let bins = named_u32(a, "bins", 256, context.as_str())?;
            Ok(TextureRole::AudioFft { bins })
        },
        (None, None) => match target_pass(passes, name) {
            Some(p) => Ok(TextureRole::PassTarget { pass: p }),
            None => Ok(TextureRole::ImageInput),
        },
    }
}

/// The storage texture through which a compute pass writes its target: named
/// `<target>_out` after the target of a compute pass, declared with exactly
/// write access, in the target's format (`rgba16float` for `float` targets,
/// `rgba8unorm` otherwise). Gives the pass index and the format.
pub open spec fn spec_storage_target(
    name: Seq<char>,
    format: TexelFormat,
    access: u32,
    passes: Seq<PassSchemaView>,
) -> Result<(usize, TextureFormat), SchemaErrorView> {
    if !spec_ends_with(name, "_out"@) {
        Err(SchemaErrorView::StorageTextureName { name })
    } else {
        let target = name.take(name.len() - 4);
        let orphan = SchemaErrorView::StorageTextureOrphan { name, target };
        match spec_target_pass(passes, target) {
            None => Err(orphan),
            Some(p) => if passes[p].stage != PassStage::Compute {
                Err(orphan)
            } else if access != STORAGE_ACCESS_STORE {
                Err(SchemaErrorView::StorageAccess { name })
            } else {
                match passes[p].target {
                    None => Err(orphan),
                    Some(t) => {
                        let expected = if t.float {
                            TextureFormat::Rgba16Float
                        } else {
                            TextureFormat::Rgba8Unorm
                        };
                        let expected_name = if t.float {
                            "rgba16float"@
                        } else {
                            "rgba8unorm"@
                        };
                        let declared = match format {
                            TexelFormat::Rgba8Unorm => Some(TextureFormat::Rgba8Unorm),
                            TexelFormat::Rgba16Float => Some(TextureFormat::Rgba16Float),
                            TexelFormat::Other => None,
                        };
                        if declared != Some(expected) {
                            Err(SchemaErrorView::StorageFormat { name, expected: expected_name })
                        } else {
                            Ok((p as usize, expected))
                        }
                    },
                }
            },
        }
    }
}

/// The pass written through a storage texture, and its format.
pub fn storage_target(name: &str, format: TexelFormat, access: u32, passes: &Vec<PassSchema>) -> (r:
    Result<(usize, TextureFormat), SchemaError>)
    ensures
        match r {
            Ok(v) => spec_storage_target(name@, format, access, passes_view(passes@)) == Ok::<
                (usize, TextureFormat),
                SchemaErrorView,
            >(v),
            Err(e) => spec_storage_target(name@, format, access, passes_view(passes@)) == Err::<
                (usize, TextureFormat),
                SchemaErrorView,
            >(e@),
        },
{
    let n = chars_of(name);
    let suffix = chars_of("_out");
    proof {
        reveal_strlit("_out");
    }
    if !ends_with(n.as_slice(), suffix.as_slice()) {
        return Err(SchemaError::StorageTextureName { name: String::from_str(name) });
    }
    let target_chars = copy_range(n.as_slice(), 0, n.len() - 4);
    let target = string_of(target_chars.as_slice());
    proof {
        assert(n@.subrange(0, n@.len() - 4) =~= n@.take(n@.len() - 4));
    }
    let pass = match target_pass(passes, target.as_str()) {
        Some(p) => p,
        None => {
            return Err(SchemaError::StorageTextureOrphan { name: String::from_str(name), target });
        },
    };
    proof {
        lemma_target_pass_from_bounds(passes_view(passes@), target@, 0);
        assert(passes_view(passes@)[pass as int] == passes@[pass as int]@);
    }
    if passes[pass].stage != PassStage::Compute {
        return Err(SchemaError::StorageTextureOrphan { name: String::from_str(name), target });
    }
    if access != STORAGE_ACCESS_STORE {
        return Err(SchemaError::StorageAccess { name: String::from_str(name) });
    }
    let float = match &passes[pass].target {
        Some(t) => t.float,
        None => {
            return Err(SchemaError::StorageTextureOrphan { name: String::from_str(name), target });
        },
    };
    let (expected, expected_name) = if float {
        (TextureFormat::Rgba16Float, "rgba16float")
    } else {
        (TextureFormat::Rgba8Unorm, "rgba8unorm")
    };
    let declared = match format {
        TexelFormat::Rgba8Unorm => Some(TextureFormat::Rgba8Unorm),
        TexelFormat::Rgba16Float => Some(TextureFormat::Rgba16Float),
        TexelFormat::Other => None,
    };
    match declared {
        Some(d) => {
            if d != expected {
                return Err(
                    SchemaError::StorageFormat { name: String::from_str(name), expected: expected_name },
                );
            }
        },
        None => {
            return Err(
                SchemaError::StorageFormat { name: String::from_str(name), expected: expected_name },
            );
        },
    }
    Ok((pass, expected))
}

// ---------------------------------------------------------------------------
// Passes from entry points
// ---------------------------------------------------------------------------

/// The pass stage of an entry point's stage (`None` for the unsupported ones).
pub open spec fn spec_pass_stage(s: EntryStage) -> Option<PassStage> {
    match s {
        EntryStage::Fragment => Some(PassStage::Fragment),
        EntryStage::Compute => Some(PassStage::Compute),
        _ => None,
    }
}

/// An optional expression as a sequence of zero or one expression.
pub open spec fn opt_seq(o: Option<Seq<char>>) -> Seq<Seq<char>> {
    match o {
        Some(x) => seq![x],
        None => Seq::empty(),
    }
}

/// A pass's size expressions, in order: width, height, then the dispatch ones.
pub open spec fn spec_pass_exprs(target: Option<TargetSchemaView>, dispatch: Option<Seq<Seq<char>>>) -> Seq<
    Seq<char>,
> {
    (match target {
        Some(t) => opt_seq(t.width) + opt_seq(t.height),
        None => Seq::empty(),
    }) + (match dispatch {
        Some(d) => d,
        None => Seq::empty(),
    })
}

/// The base size size expressions are checked against when a shader loads.
pub open spec fn spec_check_base() -> UVec2 {
    UVec2 { x: 1920, y: 1080 }
}

/// An expression must give a size against the check base, where `o` stands
/// for what evalexpr returns.
pub open spec fn spec_check_size(expr: Seq<char>, o: EvalOutcomeView, ctx: Seq<char>) -> Result<(), SchemaErrorView> {
    match spec_eval_size(expr, spec_check_base(), o) {
        Err(e) => Err(SchemaErrorView::SizeExpr { context: ctx, err: e }),
        Ok(_) => Ok(()),
    }
}

/// Every expression must give a size, with evaluation outcomes `outs` in the
/// same order; the first that does not is reported.
pub open spec fn spec_check_sizes(exprs: Seq<Seq<char>>, outs: Seq<EvalOutcomeView>, ctx: Seq<char>) -> Result<
    (),
    SchemaErrorView,
>
    decreases exprs.len(),
{
    if exprs.len() == 0 {
        Ok(())
    } else {
        match spec_check_size(exprs[0], outs[0], ctx) {
            Err(e) => Err(e),
            Ok(_) => spec_check_sizes(exprs.drop_first(), outs.drop_first(), ctx),
        }
    }
}

/// A check's result by its view.
pub open spec fn unit_result_view(r: Result<(), SchemaError>) -> Result<(), SchemaErrorView> {
    match r {
        Ok(_) => Ok(()),
        Err(e) => Err(e@),
    }
}

/// A pass's result by its view.
pub open spec fn pass_result_view(r: Result<(PassSchema, Option<usize>), SchemaError>) -> Result<
    (PassSchemaView, Option<usize>),
    SchemaErrorView,
> {
    match r {
        Ok((p, f)) => Ok((p@, f)),
        Err(e) => Err(e@),
    }
}

/// A list of passes by its view.
pub open spec fn passes_result_view(r: Result<Vec<PassSchema>, SchemaError>) -> Result<
    Seq<PassSchemaView>,
    SchemaErrorView,
> {
    match r {
        Ok(v) => Ok(passes_view(v@)),
        Err(e) => Err(e@),
    }
}

/// The outcomes `seen` of the first evaluations, as a function of the entry
/// index (none past them).
pub open spec fn outcomes_of(seen: Seq<Seq<EvalOutcomeView>>) -> spec_fn(int) -> Seq<EvalOutcomeView> {
    |k: int| if 0 <= k < seen.len() { seen[k] } else { Seq::empty() }
}

/// Whether `ev` gives the outcomes `seen` for the first entries.
pub open spec fn agrees(ev: spec_fn(int) -> Seq<EvalOutcomeView>, seen: Seq<Seq<EvalOutcomeView>>) -> bool {
    forall|k: int| 0 <= k < seen.len() ==> #[trigger] ev(k) == seen[k]
}

/// The pass of entry point `ep` at `index`, given the passes before it and the
/// index of the final pass among them; also gives the final pass index after it.
pub open spec fn spec_entry_pass(
    ep: EntryPoint,
    index: int,
    passes: Seq<PassSchemaView>,
    fin: Option<usize>,
    outs: Seq<EvalOutcomeView>,
) -> Result<(PassSchemaView, Option<usize>), SchemaErrorView> {
    let name = ep.name@;
    let ctx = "entry point `"@ + name + "`"@;
    match spec_parse_docs(strings_view(ep.docs@)) {
        Err(e) => Err(SchemaErrorView::Annot { context: ctx, err: e }),
        Ok(d) => match spec_check_known(d.annotations, seq!["pass"@], ctx) {
            Err(e) => Err(e),
            Ok(_) => match spec_pass_stage(ep.stage) {
                None => Err(SchemaErrorView::UnsupportedStage { name }),
                Some(stage) => match (match spec_get(d, "pass"@) {
                    None => Ok((None, None)),
                    Some(a) => spec_pass_config(a, ctx, stage),
                }) {
                    Err(e) => Err(e),
                    Ok((target, dispatch)) => match spec_check_sizes(
                        spec_pass_exprs(target, dispatch),
                        outs,
                        ctx,
                    ) {
                        Err(e) => Err(e),
                        Ok(_) => {
                            let pass = PassSchemaView {
                                entry: name,
                                entry_index: index as usize,
                                stage,
                                target,
                                workgroup_size: ep.workgroup_size@,
                                dispatch,
                                self_feedback: false,
                                description: d.description,
                            };
                            match target {
                                None => if stage == PassStage::Compute {
                                    Err(SchemaErrorView::ComputeWithoutTarget { entry: name })
                                } else {
                                    match fin {
                                        Some(first) => Err(
                                            SchemaErrorView::MultipleFinalPasses {
                                                first: passes[first as int].entry,
                                                second: name,
                                            },
                                        ),
                                        None => Ok((pass, Some(index as usize))),
                                    }
                                },
                                Some(t) => if spec_target_pass(passes, t.name) is Some {
                                    Err(SchemaErrorView::DuplicateTarget { name: t.name })
                                } else {
                                    Ok((pass, fin))
                                },
                            }
                        },
                    },
                },
            },
        },
    }
}

/// The passes of the entry points from index `k` on, after `passes`; `ev(k)`
/// are the outcomes of the size expressions of entry point `k`.
pub open spec fn spec_passes_from(
    m: ReflectedModule,
    k: int,
    passes: Seq<PassSchemaView>,
    fin: Option<usize>,
    ev: spec_fn(int) -> Seq<EvalOutcomeView>,
) -> Result<Seq<PassSchemaView>, SchemaErrorView>
    decreases m.entry_points@.len() - k,
{
    if k >= m.entry_points@.len() || k < 0 {
        if fin is None {
            Err(SchemaErrorView::NoFinalPass)
        } else {
            Ok(passes)
        }
    } else {
        match spec_entry_pass(m.entry_points@[k], k, passes, fin, ev(k)) {
            Err(e) => Err(e),
            Ok((p, f)) => spec_passes_from(m, k + 1, passes.push(p), f, ev),
        }
    }
}

/// The passes of a module: one per entry point, in declaration order. Every
/// entry point is `@fragment` or `@compute`; a compute pass names a target;
/// exactly one fragment pass has none (the final pass); no two passes share a
/// target; every size expression gives a size, with the outcomes `ev(k)` for
/// entry point `k`.
pub open spec fn spec_passes(m: ReflectedModule, ev: spec_fn(int) -> Seq<EvalOutcomeView>) -> Result<
    Seq<PassSchemaView>,
    SchemaErrorView,
> {
    spec_passes_from(m, 0, Seq::empty(), None, ev)
}

/// Checks that `expr` gives a size at 1920x1080, the base size expressions are
/// checked against when a shader loads.
fn check_size(expr: &String, context: &str) -> (r: Result<(), SchemaError>)
    ensures
        exists|o: EvalOutcomeView| #[trigger] spec_check_size(expr@, o, context@) == unit_result_view(r),
{
    let e = eval_size(expr.as_str(), UVec2::new(1920, 1080));
    let ghost o = choose|o: EvalOutcomeView| spec_eval_size(expr@, spec_check_base(), o) == size_result_view(e);
    let r = match e {
        Ok(_) => Ok(()),
        Err(err) => Err(SchemaError::SizeExpr { context: String::from_str(context), err }),
    };
    proof {
        assert(spec_check_size(expr@, o, context@) == unit_result_view(r));
    }
    r
}

fn check_pass_sizes(target: &Option<TargetSchema>, dispatch: &Option<[String; 3]>, context: &str) -> (r:
    Result<(), SchemaError>)
    ensures
        exists|outs: Seq<EvalOutcomeView>|
            #[trigger] spec_check_sizes(
                spec_pass_exprs(opt_target_view(*target), opt_dispatch_view(*dispatch)),
                outs,
                context@,
            ) == unit_result_view(r),
{
    let mut exprs: Vec<String> = Vec::new();
    match target {
        Some(t) => {
            match &t.width {
                Some(w) => exprs.push(w.clone()),
                None => {},
            }
            match &t.height {
                Some(h) => exprs.push(h.clone()),
                None => {},
            }
        },
        None => {},
    }
    match dispatch {
        Some(d) => {
            exprs.push(d[0].clone());
            exprs.push(d[1].clone());
            exprs.push(d[2].clone());
        },
        None => {},
    }
    let ghost all = spec_pass_exprs(opt_target_view(*target), opt_dispatch_view(*dispatch));
    let ghost mut seen: Seq<EvalOutcomeView> = Seq::empty();
    proof {
        match dispatch {
            Some(d) => {
                assert(strings_view(d@) =~= seq![d@[0]@, d@[1]@, d@[2]@]);
            },
            None => {},
        }
        assert(strings_view(exprs@) =~= all);
        assert forall|outs: Seq<EvalOutcomeView>| outs.len() == all.len() && outs.take(0) == seen implies
            #[trigger] spec_check_sizes(all, outs, context@) == spec_check_sizes(all.skip(0), outs.skip(0), context@) by {
            assert(all.skip(0) =~= all);
            assert(outs.skip(0) =~= outs);
        }
    }
    let mut i: usize = 0;
    while i < exprs.len()
        invariant
            i <= exprs@.len(),
            seen.len() == i,
            strings_view(exprs@) == all,
            all == spec_pass_exprs(opt_target_view(*target), opt_dispatch_view(*dispatch)),
            forall|outs: Seq<EvalOutcomeView>| outs.len() == all.len() && outs.take(i as int) == seen ==>
                #[trigger] spec_check_sizes(all, outs, context@) == spec_check_sizes(
                    all.skip(i as int),
                    outs.skip(i as int),
                    context@,
                ),
        decreases exprs@.len() - i,
    {
        proof {
            assert(all.skip(i as int)[0] == exprs@[i as int]@);
            assert(all.skip(i as int).drop_first() =~= all.skip(i + 1));
        }
        let checked = check_size(&exprs[i], context);
        let ghost o = choose|o: EvalOutcomeView| spec_check_size(exprs@[i as int]@, o, context@) == unit_result_view(checked);
        match checked {
            Ok(_) => {},
            Err(e) => {
                proof {
                    let outs = seen.push(o) + Seq::new((all.len() - i - 1) as nat, |j: int| o);
                    assert(outs.take(i as int) =~= seen);
                    assert(outs.skip(i as int)[0] == o);
                    assert(spec_check_sizes(all, outs, context@) == spec_check_sizes(
                        all.skip(i as int),
                        outs.skip(i as int),
                        context@,
                    ));
                    assert(spec_check_sizes(all, outs, context@) == unit_result_view(checked));
                }
                return Err(e);
            },
        }
        proof {
            let seen2 = seen.push(o);
            assert forall|outs: Seq<EvalOutcomeView>| outs.len() == all.len() && outs.take(i + 1) == seen2 implies
                #[trigger] spec_check_sizes(all, outs, context@) == spec_check_sizes(
                    all.skip(i + 1),
                    outs.skip(i + 1),
                    context@,
                ) by {
                assert(outs.take(i as int) =~= seen);
                assert(outs.skip(i as int)[0] == outs[i as int]);
                assert(outs[i as int] == outs.take(i + 1)[i as int]);
                assert(outs.skip(i as int).drop_first() =~= outs.skip(i + 1));
            }
            seen = seen2;
        }
        i += 1;
    }
    proof {
        assert(all.skip(i as int) =~= Seq::<Seq<char>>::empty());
        assert(seen.take(i as int) =~= seen);
        assert(spec_check_sizes(all, seen, context@) == spec_check_sizes(all.skip(i as int), seen.skip(i as int), context@));
    }
    Ok(())
}

/// The pass of the entry point at `index`, given the passes before it.
fn entry_pass(module: &ReflectedModule, index: usize, passes: &Vec<PassSchema>, fin: Option<usize>) -> (r:
    Result<(PassSchema, Option<usize>), SchemaError>)
    requires
        index < module.entry_points@.len(),
        passes@.len() == index,
        fin matches Some(f) ==> f < index,
    ensures
        exists|outs: Seq<EvalOutcomeView>|
            #[trigger] spec_entry_pass(
                module.entry_points@[index as int],
                index as int,
                passes_view(passes@),
                fin,
                outs,
            ) == pass_result_view(r),
{
    let ghost no_outs = Seq::<EvalOutcomeView>::empty();
    let ghost early = spec_entry_pass(
        module.entry_points@[index as int],
        index as int,
        passes_view(passes@),
        fin,
        no_outs,
    );
    let ep = &module.entry_points[index];
    let name = chars_of(ep.name.as_str());
    let context = concat3("entry point `", name.as_slice(), "`");
    let parsed = match parse_docs(ep.docs.as_slice()) {
        Ok(d) => d,
        Err(err) => {
            return Err(SchemaError::Annot { context, err });
        },
    };
    let known = ["pass"];
    proof {
        assert(strs_view(known@) =~= seq!["pass"@]);
    }
    check_known(&parsed, &known, context.as_str())?;
    let stage = match ep.stage {
        EntryStage::Fragment => PassStage::Fragment,
        EntryStage::Compute => PassStage::Compute,
        _ => {
            return Err(SchemaError::UnsupportedStage { name: ep.name.clone() });
        },
    };
    let (target, dispatch) = match parsed.get("pass") {
        None => (None, None),
        Some(a) => pass_config(a, context.as_str(), stage)?,
    };
    let checked = check_pass_sizes(&target, &dispatch, context.as_str());
    let ghost outs = choose|outs: Seq<EvalOutcomeView>|
        spec_check_sizes(
            spec_pass_exprs(opt_target_view(target), opt_dispatch_view(dispatch)),
            outs,
            context@,
        ) == unit_result_view(checked);
    let ghost late = spec_entry_pass(
        module.entry_points@[index as int],
        index as int,
        passes_view(passes@),
        fin,
        outs,
    );
    checked?;
    let mut new_fin = fin;
    match &target {
        None => {
            if stage == PassStage::Compute {
                return Err(SchemaError::ComputeWithoutTarget { entry: ep.name.clone() });
            }
            match fin {
                Some(first) => {
                    proof {
                        assert(passes_view(passes@)[first as int] == passes@[first as int]@);
                    }
                    return Err(
                        SchemaError::MultipleFinalPasses {
                            first: passes[first].entry.clone(),
                            second: ep.name.clone(),
                        },
                    );
                },
                None => {
                    new_fin = Some(index);
                },
            }
        },
        Some(t) => {
            if target_pass(passes, t.name.as_str()).is_some() {
                return Err(SchemaError::DuplicateTarget { name: t.name.clone() });
            }
        },
    }
    let pass = PassSchema {
        entry: ep.name.clone(),
        entry_index: index,
        stage,
        target,
        workgroup_size: ep.workgroup_size,
        dispatch,
        self_feedback: false,
        description: parsed.description,
    };
    Ok((pass, new_fin))
}

/// The passes of a module, one per entry point, in declaration order.
pub fn passes_from_entry_points(module: &ReflectedModule) -> (r: Result<Vec<PassSchema>, SchemaError>)
    ensures
        exists|ev: spec_fn(int) -> Seq<EvalOutcomeView>| #[trigger] spec_passes(*module, ev) == passes_result_view(r),
{
    let mut passes: Vec<PassSchema> = Vec::new();
    let mut fin: Option<usize> = None;
    let mut k: usize = 0;
    let ghost mut seen: Seq<Seq<EvalOutcomeView>> = Seq::empty();
    proof {
        assert(passes_view(passes@) =~= Seq::<PassSchemaView>::empty());
    }
    while k < module.entry_points.len()
        invariant
            k <= module.entry_points@.len(),
            passes@.len() == k,
            seen.len() == k,
            fin matches Some(f) ==> f < k,
            forall|ev: spec_fn(int) -> Seq<EvalOutcomeView>| agrees(ev, seen) ==> #[trigger] spec_passes(*module, ev)
                == spec_passes_from(*module, k as int, passes_view(passes@), fin, ev),
        decreases module.entry_points@.len() - k,
    {
        let step = entry_pass(module, k, &passes, fin);
        let ghost outs = choose|outs: Seq<EvalOutcomeView>|
            spec_entry_pass(module.entry_points@[k as int], k as int, passes_view(passes@), fin, outs)
                == pass_result_view(step);
        let ghost seen2 = seen.push(outs);
        proof {
            assert forall|ev: spec_fn(int) -> Seq<EvalOutcomeView>| agrees(ev, seen2) implies agrees(ev, seen)
                && ev(k as int) == outs by {
                assert forall|j: int| 0 <= j < seen.len() implies #[trigger] ev(j) == seen[j] by {
                    assert(seen2[j] == seen[j]);
                }
                assert(ev(k as int) == seen2[k as int]);
            }
            assert(agrees(outcomes_of(seen2), seen2));
        }
        let (pass, f) = match step {
            Ok(pf) => pf,
            Err(e) => {
                proof {
                    let ev = outcomes_of(seen2);
                    assert(spec_passes(*module, ev) == passes_result_view(Err(e)));
                }
                return Err(e);
            },
        };
        let ghost old_p = passes@;
        passes.push(pass);
        proof {
            assert(passes_view(passes@) =~= passes_view(old_p).push(pass@));
            seen = seen2;
        }
        fin = f;
        k += 1;
    }
    proof {
        let ev = outcomes_of(seen);
        assert(agrees(ev, seen));
        assert(spec_passes(*module, ev) == spec_passes_from(*module, k as int, passes_view(passes@), fin, ev));
    }
    if fin.is_none() {
        return Err(SchemaError::NoFinalPass);
    }
    Ok(passes)
}

// ---------------------------------------------------------------------------
// What every accepted list of passes satisfies
// ---------------------------------------------------------------------------

/// The name of a pass's target (empty for the final pass).
pub open spec fn spec_pass_target_name(p: PassSchemaView) -> Seq<char> {
    match p.target {
        Some(t) => t.name,
        None => Seq::empty(),
    }
}

/// wisp's pass conventions: one pass per entry point, in order; every compute
/// pass has a target; exactly one pass (a fragment pass) has none; no two
/// passes share a target name.
pub open spec fn spec_pass_conventions(m: ReflectedModule, ps: Seq<PassSchemaView>) -> bool {
    &&& ps.len() == m.entry_points@.len()
    &&& forall|i: int|
        0 <= i < ps.len() ==> #[trigger] ps[i].entry_index == i && ps[i].entry == m.entry_points@[i].name@
    &&& forall|i: int| 0 <= i < ps.len() && #[trigger] ps[i].stage == PassStage::Compute ==> ps[i].target is Some
    &&& exists|i: int| 0 <= i < ps.len() && #[trigger] ps[i].target is None
    &&& forall|i: int, j: int|
        0 <= i < ps.len() && 0 <= j < ps.len() && #[trigger] ps[i].target is None && #[trigger] ps[j].target is None
            ==> i == j
    &&& forall|i: int, j: int|
        0 <= i < j < ps.len() && #[trigger] ps[i].target is Some && #[trigger] ps[j].target is Some
            ==> spec_pass_target_name(ps[i]) != spec_pass_target_name(ps[j])
}

/// What holds of the passes of the first entry points while they are read.
pub open spec fn spec_prefix_conventions(m: ReflectedModule, ps: Seq<PassSchemaView>, fin: Option<usize>) -> bool {
    &&& ps.len() <= m.entry_points@.len()
    &&& forall|i: int|
        0 <= i < ps.len() ==> #[trigger] ps[i].entry_index == i && ps[i].entry == m.entry_points@[i].name@
    &&& forall|i: int| 0 <= i < ps.len() && #[trigger] ps[i].stage == PassStage::Compute ==> ps[i].target is Some
    &&& (match fin {
        Some(f) => f < ps.len() && ps[f as int].target is None && forall|i: int|
            0 <= i < ps.len() && #[trigger] ps[i].target is None ==> i == f,
        None => forall|i: int| 0 <= i < ps.len() ==> #[trigger] ps[i].target is Some,
    })
    &&& forall|i: int, j: int|
        0 <= i < j < ps.len() && #[trigger] ps[i].target is Some && #[trigger] ps[j].target is Some
            ==> spec_pass_target_name(ps[i]) != spec_pass_target_name(ps[j])
}

pub proof fn lemma_target_pass_none(passes: Seq<PassSchemaView>, name: Seq<char>, i: int)
    requires
        0 <= i,
        spec_target_pass_from(passes, name, i) is None,
    ensures
        forall|j: int| i <= j < passes.len() ==> !(#[trigger] passes[j].target matches Some(t) && t.name == name),
    decreases passes.len() - i,
{
    if i < passes.len() {
        lemma_target_pass_none(passes, name, i + 1);
    }
}

pub proof fn lemma_entry_pass_facts(
    ep: EntryPoint,
    index: int,
    passes: Seq<PassSchemaView>,
    fin: Option<usize>,
    outs: Seq<EvalOutcomeView>,
)
    ensures
        spec_entry_pass(ep, index, passes, fin, outs) matches Ok((p, f)) ==> {
            &&& p.entry_index == index as usize
            &&& p.entry == ep.name@
            &&& (p.stage == PassStage::Compute ==> p.target is Some)
            &&& (p.target is None ==> fin is None && f == Some(index as usize))
            &&& (p.target matches Some(t) ==> f == fin && spec_target_pass(passes, t.name) is None)
        },
{
}

pub proof fn lemma_passes_from_conventions(
    m: ReflectedModule,
    k: int,
    passes: Seq<PassSchemaView>,
    fin: Option<usize>,
    ev: spec_fn(int) -> Seq<EvalOutcomeView>,
)
    requires
        0 <= k <= m.entry_points@.len(),
        passes.len() == k,
        spec_prefix_conventions(m, passes, fin),
    ensures
        spec_passes_from(m, k, passes, fin, ev) matches Ok(ps) ==> spec_pass_conventions(m, ps),
    decreases m.entry_points@.len() - k,
{
    if k < m.entry_points@.len() {
        match spec_entry_pass(m.entry_points@[k], k, passes, fin, ev(k)) {
            Err(_) => {},
            Ok((p, f)) => {
                lemma_entry_pass_facts(m.entry_points@[k], k, passes, fin, ev(k));
                assert(k < m.entry_points.len());
                assert(p.entry_index == k);
                let next = passes.push(p);
                if let Some(t) = p.target {
                    lemma_target_pass_none(passes, t.name, 0);
                }
                assert(next[k] == p);
                assert forall|i: int, j: int|
                    0 <= i < j < next.len() && #[trigger] next[i].target is Some && #[trigger] next[j].target is Some
                        implies spec_pass_target_name(next[i]) != spec_pass_target_name(next[j]) by {
                    if j == k {
                        assert(next[i] == passes[i]);
                    } else {
                        assert(next[i] == passes[i] && next[j] == passes[j]);
                    }
                }
                assert forall|i: int| 0 <= i < next.len() implies #[trigger] next[i].entry_index == i
                    && next[i].entry == m.entry_points@[i].name@ by {
                    if i < k {
                        assert(next[i] == passes[i]);
                    } else {
                        assert(i == k && next[i] == p);
                        assert(p.entry == m.entry_points@[k].name@);
                    }
                }
                assert forall|i: int| 0 <= i < next.len() && #[trigger] next[i].stage == PassStage::Compute
                    implies next[i].target is Some by {
                    if i < k {
                        assert(next[i] == passes[i]);
                    }
                }
                match f {
                    Some(ff) => {
                        assert forall|i: int| 0 <= i < next.len() && #[trigger] next[i].target is None
                            implies i == ff by {
                            if i < k {
                                assert(next[i] == passes[i]);
                            }
                        }
                    },
                    None => {
                        assert forall|i: int| 0 <= i < next.len() implies #[trigger] next[i].target is Some by {
                            if i < k {
                                assert(next[i] == passes[i]);
                            }
                        }
                    },
                }
                assert(spec_prefix_conventions(m, next, f));
                lemma_passes_from_conventions(m, k + 1, next, f, ev);
            },
        }
    } else {
        if let Some(f) = fin {
            assert(passes[f as int].target is None);
        }
    }
}

/// Whether some argument from index `k` on is the flag `f`.
pub open spec fn spec_has_flag_from(args: Seq<ArgView>, f: Seq<char>, k: int) -> bool {
    exists|j: int| k <= j < args.len() && #[trigger] args[j] == ArgView::Pos(ValueView::Ident(f))
}

proof fn lemma_pass_args_flags(args: Seq<ArgView>, ctx: Seq<char>, st: PassArgs, k: int)
    requires
        0 <= k <= args.len(),
    ensures
        spec_pass_args_from(args, ctx, st, k) matches Ok(r) ==> {
            &&& (r.float <==> st.float || spec_has_flag_from(args, "float"@, k))
            &&& (r.persistent <==> st.persistent || spec_has_flag_from(args, "persistent"@, k))
        },
    decreases args.len() - k,
{
    reveal_strlit("float");
    reveal_strlit("persistent");
    if k < args.len() {
        match spec_pass_arg(st, args[k], ctx) {
            Err(_) => {},
            Ok(next) => {
                lemma_pass_args_flags(args, ctx, next, k + 1);
                assert("float"@ != "persistent"@) by {
                    assert("float"@.len() != "persistent"@.len());
                }
                match args[k] {
                    ArgView::Pos(ValueView::Ident(f)) => {
                        assert(next.float == (st.float || f == "float"@));
                        assert(next.persistent == (st.persistent || f == "persistent"@));
                    },
                    _ => {},
                }
                assert(next.float == (st.float || args[k] == ArgView::Pos(ValueView::Ident("float"@))));
                assert(next.persistent == (st.persistent || args[k] == ArgView::Pos(ValueView::Ident("persistent"@))));
                if spec_pass_args_from(args, ctx, st, k) is Ok {
                    assert(spec_has_flag_from(args, "float"@, k) <==> (args[k] == ArgView::Pos(
                        ValueView::Ident("float"@),
                    ) || spec_has_flag_from(args, "float"@, k + 1)));
                    assert(spec_has_flag_from(args, "persistent"@, k) <==> (args[k] == ArgView::Pos(
                        ValueView::Ident("persistent"@),
                    ) || spec_has_flag_from(args, "persistent"@, k + 1)));
                }
            },
        }
    }
}

/// A target is `float` exactly when the `@pass` annotation holds the flag
/// `float`, and `persistent` exactly when it holds the flag `persistent`.
pub proof fn lemma_target_flags(a: AnnotationView, ctx: Seq<char>, stage: PassStage)
    ensures
        spec_pass_config(a, ctx, stage) matches Ok((Some(t), _)) ==> {
            &&& (t.float <==> spec_has_flag_from(a.args, "float"@, 0))
            &&& (t.persistent <==> spec_has_flag_from(a.args, "persistent"@, 0))
        },
{
    lemma_pass_args_flags(a.args, ctx, spec_no_pass_args(), 0);
}

/// A pass target's format: `Rgba16Float` exactly for `float` targets; a
/// target without `float` is `Rgba8UnormSrgb` on a fragment pass and
/// `Rgba8Unorm` on a compute pass.
pub proof fn lemma_target_format(a: AnnotationView, ctx: Seq<char>, stage: PassStage)
    ensures
        spec_pass_config(a, ctx, stage) matches Ok((Some(t), _)) ==> {
            &&& (t.format == TextureFormat::Rgba16Float <==> t.float)
            &&& (!t.float && stage == PassStage::Fragment ==> t.format == TextureFormat::Rgba8UnormSrgb)
            &&& (!t.float && stage == PassStage::Compute ==> t.format == TextureFormat::Rgba8Unorm)
        },
{
}

/// Every list of passes the module is accepted with follows wisp's pass
/// conventions, whatever the size expressions evaluate to.
pub proof fn lemma_passes_conventions(m: ReflectedModule, ev: spec_fn(int) -> Seq<EvalOutcomeView>)
    ensures
        spec_passes(m, ev) matches Ok(ps) ==> spec_pass_conventions(m, ps),
{
    lemma_passes_from_conventions(m, 0, Seq::empty(), None, ev);
}

} // verus!
