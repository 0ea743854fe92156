//! Params and globals members: their types, their annotations and the UI hints
//! those annotations carry.

use crate::annot::{
    parse_docs, spec_get, spec_is_pos_number, spec_is_pos_string, spec_parse_docs,
    spec_pos_number, spec_pos_string, AnnotationView, Docs, DocsView,
};
use crate::globals::{
    spec_global_param_ty, spec_kind_from_name, GlobalKind, GlobalsSchema,
};
use crate::number::{spec_as_i64, Number};
use crate::reflect::{spec_type_at, ReflectedModule, ScalarDesc, ScalarKindDesc, StructMember, TypeInner, VecSize};
use crate::schema::{
    fields_view, nums_view, spec_arity, spec_wgsl_name, GlobalsSchemaView, ParamField,
    ParamFieldView, ParamType, ParamsSchema, ParamsSchemaView, SchemaError, SchemaErrorView,
    UiHints, UiHintsView,
};
use crate::text::{
    chars_of, concat3, join_strs, spec_join, str_eq, strings_view, strs_view,
};
use vstd::prelude::*;

verus! {

// ---------------------------------------------------------------------------
// Known annotations
// ---------------------------------------------------------------------------

/// Annotations recognized on params struct members.
pub open spec fn spec_member_annotations() -> Seq<Seq<char>> {
    seq![
        "min"@,
        "max"@,
        "step"@,
        "default"@,
        "color"@,
        "label"@,
        "values"@,
        "labels"@,
        "bool"@,
    ]
}

/// Annotations recognized on params struct members.
pub fn member_annotations() -> (r: [&'static str; 9])
    ensures
        strs_view(r@) == spec_member_annotations(),
{
    let r = ["min", "max", "step", "default", "color", "label", "values", "labels", "bool"];
    proof {
        assert(strs_view(r@) =~= spec_member_annotations());
    }
    r
}

/// The index of the first annotation whose name is not in `known`, from `i`.
pub open spec fn spec_first_unknown(anns: Seq<AnnotationView>, known: Seq<Seq<char>>, i: int) -> int
    decreases anns.len() - i,
{
    if i >= anns.len() || i < 0 {
        anns.len() as int
    } else if !known.contains(anns[i].name) {
        i
    } else {
        spec_first_unknown(anns, known, i + 1)
    }
}

/// The list of supported annotations shown in an unknown-annotation error.
pub open spec fn spec_valid_list(known: Seq<Seq<char>>) -> Seq<char> {
    if known.len() == 0 {
        "none"@
    } else {
        spec_join(known, ", "@)
    }
}

/// Every annotation must be one of `known`; the first that is not is reported.
pub open spec fn spec_check_known(
    anns: Seq<AnnotationView>,
    known: Seq<Seq<char>>,
    context: Seq<char>,
) -> Result<(), SchemaErrorView> {
    let i = spec_first_unknown(anns, known, 0);
    if 0 <= i < anns.len() {
        Err(
            SchemaErrorView::UnknownAnnotation {
                context,
                name: anns[i].name,
                valid: spec_valid_list(known),
            },
        )
    } else {
        Ok(())
    }
}

pub proof fn lemma_first_unknown_bounds(anns: Seq<AnnotationView>, known: Seq<Seq<char>>, i: int)
    requires
        0 <= i <= anns.len(),
    ensures
        i <= spec_first_unknown(anns, known, i) <= anns.len(),
    decreases anns.len() - i,
{
    if i < anns.len() && known.contains(anns[i].name) {
        lemma_first_unknown_bounds(anns, known, i + 1);
    }
}

fn contains_name(known: &[&str], name: &str) -> (r: bool)
    ensures
        r == strs_view(known@).contains(name@),
{
    let mut k: usize = 0;
    while k < known.len()
        invariant
            k <= known@.len(),
            forall|j: int| 0 <= j < k ==> known@[j]@ != name@,
        decreases known@.len() - k,
    {
        if str_eq(known[k], name) {
            proof {
                assert(strs_view(known@)[k as int] == name@);
            }
            return true;
        }
        k += 1;
    }
    proof {
        if strs_view(known@).contains(name@) {
            let j = choose|j: int| 0 <= j < strs_view(known@).len() && strs_view(known@)[j] == name@;
            assert(known@[j]@ == name@);
        }
    }
    false
}

/// Check that every annotation is one of `known`.
pub fn check_known(parsed: &Docs, known: &[&str], context: &str) -> (r: Result<(), SchemaError>)
    ensures
        match r {
            Ok(()) => spec_check_known(parsed@.annotations, strs_view(known@), context@) is Ok,
            Err(e) => spec_check_known(parsed@.annotations, strs_view(known@), context@) == Err::<(), SchemaErrorView>(e@),
        },
{
    let ghost anns = parsed@.annotations;
    let ghost kv = strs_view(known@);
    let mut i: usize = 0;
    while i < parsed.annotations.len()
        invariant
            i <= parsed.annotations@.len(),
            anns == parsed@.annotations,
            kv == strs_view(known@),
            spec_first_unknown(anns, kv, 0) == spec_first_unknown(anns, kv, i as int),
        decreases parsed.annotations@.len() - i,
    {
        proof {
            assert(anns[i as int] == parsed.annotations@[i as int]@);
        }
        let name = parsed.annotations[i].name.as_str();
        if !contains_name(known, name) {
            let valid = if known.len() == 0 {
                String::from_str("none")
            } else {
                join_strs(known, ", ")
            };
            return Err(
                SchemaError::UnknownAnnotation {
                    context: String::from_str(context),
                    name: String::from_str(name),
                    valid,
                },
            );
        }
        i += 1;
    }
    Ok(())
}

// ---------------------------------------------------------------------------
// Member types
// ---------------------------------------------------------------------------

/// The param type of a 32-bit scalar.
pub open spec fn spec_scalar_param_type(s: ScalarDesc) -> Option<ParamType> {
    if s.width == 4 {
        match s.kind {
            ScalarKindDesc::Float => Some(ParamType::F32),
            ScalarKindDesc::Sint => Some(ParamType::I32),
            ScalarKindDesc::Uint => Some(ParamType::U32),
            _ => None,
        }
    } else {
        None
    }
}

/// The param type of a module type: 32-bit scalars and `f32` vectors.
pub open spec fn spec_param_type_of(m: ReflectedModule, ty: int) -> Option<ParamType> {
    match spec_type_at(m, ty) {
        TypeInner::Scalar(s) => spec_scalar_param_type(s),
        TypeInner::Vector { size, scalar } => if spec_scalar_param_type(scalar) == Some(
            ParamType::F32,
        ) {
            match size {
                VecSize::Bi => Some(ParamType::Vec2),
                VecSize::Tri => Some(ParamType::Vec3),
                VecSize::Quad => Some(ParamType::Vec4),
            }
        } else {
            None
        },
        _ => None,
    }
}

pub fn scalar_param_type(s: ScalarDesc) -> (r: Option<ParamType>)
    ensures
        r == spec_scalar_param_type(s),
{
    if s.width == 4 {
        match s.kind {
            ScalarKindDesc::Float => Some(ParamType::F32),
            ScalarKindDesc::Sint => Some(ParamType::I32),
            ScalarKindDesc::Uint => Some(ParamType::U32),
            _ => None,
        }
    } else {
        None
    }
}

pub fn param_type_of(module: &ReflectedModule, ty: usize) -> (r: Option<ParamType>)
    ensures
        r == spec_param_type_of(*module, ty as int),
{
    match module.type_at(ty) {
        Some(TypeInner::Scalar(s)) => scalar_param_type(*s),
        Some(TypeInner::Vector { size, scalar }) => {
            if scalar_param_type(*scalar) == Some(ParamType::F32) {
                match size {
                    VecSize::Bi => Some(ParamType::Vec2),
                    VecSize::Tri => Some(ParamType::Vec3),
                    VecSize::Quad => Some(ParamType::Vec4),
                }
            } else {
                None
            }
        },
        _ => None,
    }
}

// ---------------------------------------------------------------------------
// UI hints
// ---------------------------------------------------------------------------

/// Whether every argument is a positional number.
pub open spec fn spec_all_pos_numbers(args: Seq<crate::annot::ArgView>) -> bool {
    forall|i: int| 0 <= i < args.len() ==> spec_is_pos_number(args[i])
}

/// The literals of positional number arguments.
pub open spec fn spec_numbers(args: Seq<crate::annot::ArgView>) -> Seq<Seq<char>> {
    args.map_values(|a: crate::annot::ArgView| spec_pos_number(a))
}

/// Whether every argument is a positional string.
pub open spec fn spec_all_pos_strings(args: Seq<crate::annot::ArgView>) -> bool {
    forall|i: int| 0 <= i < args.len() ==> spec_is_pos_string(args[i])
}

/// The contents of positional string arguments.
pub open spec fn spec_strings(args: Seq<crate::annot::ArgView>) -> Seq<Seq<char>> {
    args.map_values(|a: crate::annot::ArgView| spec_pos_string(a))
}

/// `@min`/`@max`/`@step`: a single number on a scalar member.
pub open spec fn spec_scalar_hint(d: DocsView, name: Seq<char>, ty: ParamType, ctx: Seq<char>) -> Result<
    Option<Seq<char>>,
    SchemaErrorView,
> {
    match spec_get(d, name) {
        None => Ok(None),
        Some(a) => if spec_arity(ty) != 1 {
            Err(SchemaErrorView::ScalarHint { context: ctx })
        } else if a.args.len() == 1 && spec_is_pos_number(a.args[0]) {
            Ok(Some(spec_pos_number(a.args[0])))
        } else {
            Err(
                SchemaErrorView::AnnotationArgs {
                    context: ctx,
                    annotation: name,
                    expected: "a single number"@,
                },
            )
        },
    }
}

/// `@label("..")`: a single string.
pub open spec fn spec_label_hint(d: DocsView, ctx: Seq<char>) -> Result<
    Option<Seq<char>>,
    SchemaErrorView,
> {
    match spec_get(d, "label"@) {
        None => Ok(None),
        Some(a) => if a.args.len() == 1 && spec_is_pos_string(a.args[0]) {
            Ok(Some(spec_pos_string(a.args[0])))
        } else {
            Err(
                SchemaErrorView::AnnotationArgs {
                    context: ctx,
                    annotation: "label"@,
                    expected: "a single string"@,
                },
            )
        },
    }
}

/// `@color`: no arguments, on a `vec3<f32>` or `vec4<f32>` member.
pub open spec fn spec_color_hint(d: DocsView, ty: ParamType, ctx: Seq<char>) -> Result<
    bool,
    SchemaErrorView,
> {
    match spec_get(d, "color"@) {
        None => Ok(false),
        Some(a) => if a.args.len() != 0 {
            Err(
                SchemaErrorView::AnnotationArgs {
                    context: ctx,
                    annotation: "color"@,
                    expected: "no arguments"@,
                },
            )
        } else if !(ty == ParamType::Vec3 || ty == ParamType::Vec4) {
            Err(SchemaErrorView::ColorType { context: ctx })
        } else {
            Ok(true)
        },
    }
}

/// `@default(..)`: numbers, one per component of the member.
pub open spec fn spec_default_hint(d: DocsView, ty: ParamType, ctx: Seq<char>) -> Result<
    Option<Seq<Seq<char>>>,
    SchemaErrorView,
> {
    match spec_get(d, "default"@) {
        None => Ok(None),
        Some(a) => if !spec_all_pos_numbers(a.args) {
            Err(
                SchemaErrorView::AnnotationArgs {
                    context: ctx,
                    annotation: "default"@,
                    expected: "numbers"@,
                },
            )
        } else if a.args.len() != spec_arity(ty) {
            Err(
                SchemaErrorView::DefaultArity {
                    context: ctx,
                    expected: spec_arity(ty),
                    found: a.args.len() as usize,
                },
            )
        } else {
            Ok(Some(spec_numbers(a.args)))
        },
    }
}

/// `@values(..)`: numbers on an `i32`/`u32` member, each converted with `as i64`.
pub open spec fn spec_values_hint(d: DocsView, ty: ParamType, ctx: Seq<char>) -> Result<
    Seq<i64>,
    SchemaErrorView,
> {
    match spec_get(d, "values"@) {
        None => Ok(Seq::empty()),
        Some(a) => if !(ty == ParamType::I32 || ty == ParamType::U32) {
            Err(SchemaErrorView::ValuesType { context: ctx })
        } else if !spec_all_pos_numbers(a.args) {
            Err(
                SchemaErrorView::AnnotationArgs {
                    context: ctx,
                    annotation: "values"@,
                    expected: "numbers"@,
                },
            )
        } else {
            Ok(spec_numbers(a.args).map_values(|n: Seq<char>| spec_as_i64(n)))
        },
    }
}

/// `@labels(..)`: strings, one per `@values` entry.
pub open spec fn spec_labels_hint(d: DocsView, values_len: nat, ctx: Seq<char>) -> Result<
    Seq<Seq<char>>,
    SchemaErrorView,
> {
    match spec_get(d, "labels"@) {
        None => Ok(Seq::empty()),
        Some(a) => if !spec_all_pos_strings(a.args) {
            Err(
                SchemaErrorView::AnnotationArgs {
                    context: ctx,
                    annotation: "labels"@,
                    expected: "strings"@,
                },
            )
        } else if values_len == 0 || a.args.len() != values_len {
            Err(SchemaErrorView::LabelsMismatch { context: ctx })
        } else {
            Ok(spec_strings(a.args))
        },
    }
}

/// The UI hints of a params member from its parsed annotations.
pub open spec fn spec_ui_hints(d: DocsView, ty: ParamType, ctx: Seq<char>) -> Result<
    UiHintsView,
    SchemaErrorView,
> {
    match spec_scalar_hint(d, "min"@, ty, ctx) {
        Err(e) => Err(e),
        Ok(min) => match spec_scalar_hint(d, "max"@, ty, ctx) {
            Err(e) => Err(e),
            Ok(max) => match spec_scalar_hint(d, "step"@, ty, ctx) {
                Err(e) => Err(e),
                Ok(step) => match spec_label_hint(d, ctx) {
                    Err(e) => Err(e),
                    Ok(label) => match spec_color_hint(d, ty, ctx) {
                        Err(e) => Err(e),
                        Ok(color) => match spec_default_hint(d, ty, ctx) {
                            Err(e) => Err(e),
                            Ok(default) => match spec_values_hint(d, ty, ctx) {
                                Err(e) => Err(e),
                                Ok(values) => match spec_labels_hint(d, values.len(), ctx) {
                                    Err(e) => Err(e),
                                    Ok(labels) => Ok(
                                        UiHintsView {
                                            description: d.description,
                                            label,
                                            min,
                                            max,
                                            step,
                                            default,
                                            color,
                                            values,
                                            labels,
                                        },
                                    ),
                                },
                            },
                        },
                    },
                },
            },
        },
    }
}

fn annotation_args(context: &str, annotation: &'static str, expected: &'static str) -> (e: SchemaError)
    ensures
        e@ == (SchemaErrorView::AnnotationArgs {
            context: context@,
            annotation: annotation@,
            expected: expected@,
        }),
{
    SchemaError::AnnotationArgs { context: String::from_str(context), annotation, expected }
}

fn scalar_hint(parsed: &Docs, name: &'static str, ty: ParamType, context: &str) -> (r: Result<
    Option<Number>,
    SchemaError,
>)
    ensures
        match r {
            Ok(n) => spec_scalar_hint(parsed@, name@, ty, context@) == Ok::<Option<Seq<char>>, SchemaErrorView>(
                crate::schema::opt_num_view(n),
            ),
            Err(e) => spec_scalar_hint(parsed@, name@, ty, context@) == Err::<Option<Seq<char>>, SchemaErrorView>(
                e@,
            ),
        },
{
    match parsed.get(name) {
        None => Ok(None),
        Some(annotation) => {
            if !ty.is_scalar() {
                return Err(SchemaError::ScalarHint { context: String::from_str(context) });
            }
            match annotation.single_number() {
                Some(n) => Ok(Some(n)),
                None => Err(annotation_args(context, name, "a single number")),
            }
        },
    }
}

fn label_hint(parsed: &Docs, context: &str) -> (r: Result<Option<String>, SchemaError>)
    ensures
        match r {
            Ok(l) => spec_label_hint(parsed@, context@) == Ok::<Option<Seq<char>>, SchemaErrorView>(
                crate::schema::opt_view(l),
            ),
            Err(e) => spec_label_hint(parsed@, context@) == Err::<Option<Seq<char>>, SchemaErrorView>(e@),
        },
{
    match parsed.get("label") {
        None => Ok(None),
        Some(annotation) => match annotation.single_string() {
            Some(s) => Ok(Some(s)),
            None => Err(annotation_args(context, "label", "a single string")),
        },
    }
}

fn color_hint(parsed: &Docs, ty: ParamType, context: &str) -> (r: Result<bool, SchemaError>)
    ensures
        match r {
            Ok(c) => spec_color_hint(parsed@, ty, context@) == Ok::<bool, SchemaErrorView>(c),
            Err(e) => spec_color_hint(parsed@, ty, context@) == Err::<bool, SchemaErrorView>(e@),
        },
{
    match parsed.get("color") {
        None => Ok(false),
        Some(annotation) => {
            if annotation.args.len() != 0 {
                return Err(annotation_args(context, "color", "no arguments"));
            }
            if !(ty == ParamType::Vec3 || ty == ParamType::Vec4) {
                return Err(SchemaError::ColorType { context: String::from_str(context) });
            }
            Ok(true)
        },
    }
}

fn default_hint(parsed: &Docs, ty: ParamType, context: &str) -> (r: Result<
    Option<Vec<Number>>,
    SchemaError,
>)
    ensures
        match r {
            Ok(d) => spec_default_hint(parsed@, ty, context@) == Ok::<Option<Seq<Seq<char>>>, SchemaErrorView>(
                match d {
                    Some(v) => Some(nums_view(v@)),
                    None => None,
                },
            ),
            Err(e) => spec_default_hint(parsed@, ty, context@) == Err::<Option<Seq<Seq<char>>>, SchemaErrorView>(
                e@,
            ),
        },
{
    match parsed.get("default") {
        None => Ok(None),
        Some(annotation) => {
            let components = match annotation.pos_numbers() {
                Some(c) => c,
                None => {
                    return Err(annotation_args(context, "default", "numbers"));
                },
            };
            if components.len() != ty.arity() {
                return Err(
                    SchemaError::DefaultArity {
                        context: String::from_str(context),
                        expected: ty.arity(),
                        found: components.len(),
                    },
                );
            }
            proof {
                assert(nums_view(components@) =~= spec_numbers(annotation@.args));
            }
            Ok(Some(components))
        },
    }
}

fn values_hint(parsed: &Docs, ty: ParamType, context: &str) -> (r: Result<Vec<i64>, SchemaError>)
    ensures
        match r {
            Ok(v) => spec_values_hint(parsed@, ty, context@) == Ok::<Seq<i64>, SchemaErrorView>(v@),
            Err(e) => spec_values_hint(parsed@, ty, context@) == Err::<Seq<i64>, SchemaErrorView>(e@),
        },
{
    match parsed.get("values") {
        None => Ok(Vec::new()),
        Some(annotation) => {
            if !(ty == ParamType::I32 || ty == ParamType::U32) {
                return Err(SchemaError::ValuesType { context: String::from_str(context) });
            }
            let numbers = match annotation.pos_numbers() {
                Some(c) => c,
                None => {
                    return Err(annotation_args(context, "values", "numbers"));
                },
            };
            let ghost target = spec_numbers(annotation@.args).map_values(|n: Seq<char>| spec_as_i64(n));
            let mut out: Vec<i64> = Vec::new();
            let mut k: usize = 0;
            while k < numbers.len()
                invariant
                    k <= numbers@.len(),
                    numbers@.len() == annotation@.args.len(),
                    forall|i: int| 0 <= i < numbers@.len() ==> numbers@[i]@ == spec_pos_number(annotation@.args[i]),
                    target == spec_numbers(annotation@.args).map_values(|n: Seq<char>| spec_as_i64(n)),
                    out@ == target.take(k as int),
                decreases numbers@.len() - k,
            {
                let v = numbers[k].as_i64();
                out.push(v);
                proof {
                    assert(target[k as int] == v);
                    assert(out@ =~= target.take(k + 1));
                }
                k += 1;
            }
            proof {
                assert(target.take(numbers@.len() as int) =~= target);
            }
            Ok(out)
        },
    }
}

fn labels_hint(parsed: &Docs, values_len: usize, context: &str) -> (r: Result<Vec<String>, SchemaError>)
    ensures
        match r {
            Ok(l) => spec_labels_hint(parsed@, values_len as nat, context@) == Ok::<Seq<Seq<char>>, SchemaErrorView>(
                strings_view(l@),
            ),
            Err(e) => spec_labels_hint(parsed@, values_len as nat, context@) == Err::<Seq<Seq<char>>, SchemaErrorView>(
                e@,
            ),
        },
{
    match parsed.get("labels") {
        None => {
            proof {
                assert(strings_view(Seq::<String>::empty()) =~= Seq::<Seq<char>>::empty());
            }
            Ok(Vec::new())
        },
        Some(annotation) => {
            let labels = match annotation.pos_strings() {
                Some(l) => l,
                None => {
                    return Err(annotation_args(context, "labels", "strings"));
                },
            };
            if values_len == 0 || labels.len() != values_len {
                return Err(SchemaError::LabelsMismatch { context: String::from_str(context) });
            }
            proof {
                assert(strings_view(labels@) =~= spec_strings(annotation@.args));
            }
            Ok(labels)
        },
    }
}

/// The UI hints of a params member from its parsed annotations.
pub fn ui_hints(parsed: &Docs, ty: ParamType, context: &str) -> (r: Result<UiHints, SchemaError>)
    ensures
        match r {
            Ok(h) => spec_ui_hints(parsed@, ty, context@) == Ok::<UiHintsView, SchemaErrorView>(h@),
            Err(e) => spec_ui_hints(parsed@, ty, context@) == Err::<UiHintsView, SchemaErrorView>(e@),
        },
{
    let min = scalar_hint(parsed, "min", ty, context)?;
    let max = scalar_hint(parsed, "max", ty, context)?;
    let step = scalar_hint(parsed, "step", ty, context)?;
    let label = label_hint(parsed, context)?;
    let color = color_hint(parsed, ty, context)?;
    let default = default_hint(parsed, ty, context)?;
    let values = values_hint(parsed, ty, context)?;
    let labels = labels_hint(parsed, values.len(), context)?;
    Ok(
        UiHints {
            description: parsed.description.clone(),
            label,
            min,
            max,
            step,
            default,
            color,
            values,
            labels,
        },
    )
}

// ---------------------------------------------------------------------------
// Params and globals structs
// ---------------------------------------------------------------------------

/// Prepends accumulated items to a sequence result.
pub open spec fn prepend_ok<T>(acc: Seq<T>, r: Result<Seq<T>, SchemaErrorView>) -> Result<
    Seq<T>,
    SchemaErrorView,
> {
    match r {
        Ok(rest) => Ok(acc + rest),
        Err(e) => Err(e),
    }
}

pub proof fn lemma_prepend_ok_push<T>(acc: Seq<T>, x: T, r: Result<Seq<T>, SchemaErrorView>)
    ensures
        prepend_ok(acc, prepend_ok(seq![x], r)) == prepend_ok(acc.push(x), r),
{
    match r {
        Ok(rest) => {
            assert(acc + (seq![x] + rest) =~= acc.push(x) + rest);
        },
        Err(e) => {},
    }
}

pub proof fn lemma_prepend_ok_empty<T>(r: Result<Seq<T>, SchemaErrorView>)
    ensures
        prepend_ok(Seq::<T>::empty(), r) == r,
{
    match r {
        Ok(rest) => {
            assert(Seq::<T>::empty() + rest =~= rest);
        },
        Err(e) => {},
    }
}

/// A member's name (empty when it has none).
pub open spec fn spec_member_name(mem: StructMember) -> Seq<char> {
    match mem.name {
        Some(s) => s@,
        None => Seq::empty(),
    }
}

/// `@bool` turns a `u32` member into a toggle.
pub open spec fn spec_bool_type(d: DocsView, base: ParamType, ctx: Seq<char>) -> Result<
    ParamType,
    SchemaErrorView,
> {
    match spec_get(d, "bool"@) {
        None => Ok(base),
        Some(a) => if a.args.len() != 0 {
            Err(
                SchemaErrorView::AnnotationArgs {
                    context: ctx,
                    annotation: "bool"@,
                    expected: "no arguments"@,
                },
            )
        } else if base != ParamType::U32 {
            Err(SchemaErrorView::BoolType { context: ctx })
        } else {
            Ok(ParamType::Bool)
        },
    }
}

/// One params member: its annotations, type and UI hints.
pub open spec fn spec_param_field(m: ReflectedModule, mem: StructMember) -> Result<
    ParamFieldView,
    SchemaErrorView,
> {
    let name = spec_member_name(mem);
    let ctx = "param `"@ + name + "`"@;
    match spec_parse_docs(strings_view(mem.docs@)) {
        Err(e) => Err(SchemaErrorView::Annot { context: ctx, err: e }),
        Ok(d) => match spec_check_known(d.annotations, spec_member_annotations(), ctx) {
            Err(e) => Err(e),
            Ok(_) => match spec_param_type_of(m, mem.ty as int) {
                None => Err(SchemaErrorView::ParamType { field: name }),
                Some(base) => match spec_bool_type(d, base, ctx) {
                    Err(e) => Err(e),
                    Ok(ty) => match spec_ui_hints(d, ty, ctx) {
                        Err(e) => Err(e),
                        Ok(ui) => Ok(ParamFieldView { name, ty, offset: mem.offset, ui }),
                    },
                },
            },
        },
    }
}

/// The params members from index `k` on.
pub open spec fn spec_param_fields_from(m: ReflectedModule, members: Seq<StructMember>, k: int) -> Result<
    Seq<ParamFieldView>,
    SchemaErrorView,
>
    decreases members.len() - k,
{
    if k >= members.len() || k < 0 {
        Ok(Seq::empty())
    } else {
        match spec_param_field(m, members[k]) {
            Err(e) => Err(e),
            Ok(f) => prepend_ok(seq![f], spec_param_fields_from(m, members, k + 1)),
        }
    }
}

/// The size reported for a uniform struct of the span: rounded up to the
/// next multiple of 16, matching the padding of uniform structs before
/// compilation (the span itself where that multiple does not fit in `u32`).
pub open spec fn spec_uniform_size(span: u32) -> u32 {
    if span % 16 == 0 || span > 0xFFFF_FFF0 {
        span
    } else {
        (span + (16 - span % 16)) as u32
    }
}

/// The size reported for a uniform struct of the span.
pub fn uniform_size(span: u32) -> (r: u32)
    ensures
        r == spec_uniform_size(span),
        r % 16 == 0 || span > 0xFFFF_FFF0,
        span <= r,
{
    if span % 16 == 0 || span > 0xFFFF_FFF0 {
        span
    } else {
        span + (16 - span % 16)
    }
}

/// The params schema of a `@group(1)` uniform struct.
pub open spec fn spec_params_schema(
    m: ReflectedModule,
    var_name: Seq<char>,
    members: Seq<StructMember>,
    span: u32,
) -> Result<ParamsSchemaView, SchemaErrorView> {
    match spec_param_fields_from(m, members, 0) {
        Err(e) => Err(e),
        Ok(fields) => Ok(ParamsSchemaView { name: var_name, size: spec_uniform_size(span), fields }),
    }
}

fn member_name(mem: &StructMember) -> (r: Vec<char>)
    ensures
        r@ == spec_member_name(*mem),
{
    match &mem.name {
        Some(s) => chars_of(s.as_str()),
        None => Vec::new(),
    }
}

fn bool_type(parsed: &Docs, base: ParamType, context: &str) -> (r: Result<ParamType, SchemaError>)
    ensures
        match r {
            Ok(t) => spec_bool_type(parsed@, base, context@) == Ok::<ParamType, SchemaErrorView>(t),
            Err(e) => spec_bool_type(parsed@, base, context@) == Err::<ParamType, SchemaErrorView>(e@),
        },
{
    match parsed.get("bool") {
        None => Ok(base),
        Some(annotation) => {
            if annotation.args.len() != 0 {
                return Err(annotation_args(context, "bool", "no arguments"));
            }
            if base != ParamType::U32 {
                return Err(SchemaError::BoolType { context: String::from_str(context) });
            }
            Ok(ParamType::Bool)
        },
    }
}

fn param_field(module: &ReflectedModule, mem: &StructMember) -> (r: Result<ParamField, SchemaError>)
    ensures
        match r {
            Ok(f) => spec_param_field(*module, *mem) == Ok::<ParamFieldView, SchemaErrorView>(f@),
            Err(e) => spec_param_field(*module, *mem) == Err::<ParamFieldView, SchemaErrorView>(e@),
        },
{
    let name = member_name(mem);
    let context = concat3("param `", name.as_slice(), "`");
    let parsed = match parse_docs(mem.docs.as_slice()) {
        Ok(d) => d,
        Err(err) => {
            return Err(SchemaError::Annot { context, err });
        },
    };
    let known = member_annotations();
    check_known(&parsed, &known, context.as_str())?;
    let base = match param_type_of(module, mem.ty) {
        Some(b) => b,
        None => {
            return Err(SchemaError::ParamType { field: crate::text::string_of(name.as_slice()) });
        },
    };
    let ty = bool_type(&parsed, base, context.as_str())?;
    let ui = ui_hints(&parsed, ty, context.as_str())?;
    Ok(ParamField { name: crate::text::string_of(name.as_slice()), ty, offset: mem.offset, ui })
}

/// The params schema of a `@group(1)` uniform struct.
pub fn params_schema(module: &ReflectedModule, var_name: &str, members: &Vec<StructMember>, span: u32) -> (r:
    Result<ParamsSchema, SchemaError>)
    ensures
        match r {
            Ok(p) => spec_params_schema(*module, var_name@, members@, span) == Ok::<ParamsSchemaView, SchemaErrorView>(p@),
            Err(e) => spec_params_schema(*module, var_name@, members@, span) == Err::<ParamsSchemaView, SchemaErrorView>(e@),
        },
{
    let mut fields: Vec<ParamField> = Vec::new();
    let mut k: usize = 0;
    proof {
        assert(fields_view(fields@) =~= Seq::<ParamFieldView>::empty());
        lemma_prepend_ok_empty(spec_param_fields_from(*module, members@, 0));
    }
    while k < members.len()
        invariant
            k <= members@.len(),
            spec_param_fields_from(*module, members@, 0) == prepend_ok(fields_view(fields@), spec_param_fields_from(*module, members@, k as int)),
        decreases members@.len() - k,
    {
        let f = param_field(module, &members[k])?;
        let ghost old_f = fields@;
        fields.push(f);
        proof {
            assert(fields_view(fields@) =~= fields_view(old_f).push(f@));
            lemma_prepend_ok_push(fields_view(old_f), f@, spec_param_fields_from(*module, members@, k + 1));
        }
        k += 1;
    }
    proof {
        assert(fields_view(fields@) + Seq::<ParamFieldView>::empty() =~= fields_view(fields@));
    }
    Ok(ParamsSchema { name: String::from_str(var_name), size: uniform_size(span), fields })
}

/// The recognized globals member names, in declaration order.
pub open spec fn spec_global_names() -> Seq<Seq<char>> {
    seq![
        "resolution"@,
        "time"@,
        "time_delta"@,
        "frame"@,
        "pass_index"@,
        "mouse"@,
        "date"@,
    ]
}

/// One globals member: a recognized name, declared with its type, unannotated.
pub open spec fn spec_globals_member(m: ReflectedModule, mem: StructMember) -> Result<
    (GlobalKind, u32),
    SchemaErrorView,
> {
    let name = spec_member_name(mem);
    match spec_kind_from_name(name) {
        None => Err(
            SchemaErrorView::UnknownGlobal { name, valid: spec_join(spec_global_names(), ", "@) },
        ),
        Some(kind) => if spec_param_type_of(m, mem.ty as int) != Some(spec_global_param_ty(kind)) {
            Err(
                SchemaErrorView::GlobalType {
                    name,
                    expected: spec_wgsl_name(spec_global_param_ty(kind)),
                },
            )
        } else {
            let ctx = "globals member `"@ + name + "`"@;
            match spec_parse_docs(strings_view(mem.docs@)) {
                Err(e) => Err(SchemaErrorView::Annot { context: ctx, err: e }),
                Ok(d) => match spec_check_known(d.annotations, Seq::empty(), ctx) {
                    Err(e) => Err(e),
                    Ok(_) => Ok((kind, mem.offset)),
                },
            }
        },
    }
}

/// The globals members from index `k` on.
pub open spec fn spec_globals_fields_from(m: ReflectedModule, members: Seq<StructMember>, k: int) -> Result<
    Seq<(GlobalKind, u32)>,
    SchemaErrorView,
>
    decreases members.len() - k,
{
    if k >= members.len() || k < 0 {
        Ok(Seq::empty())
    } else {
        match spec_globals_member(m, members[k]) {
            Err(e) => Err(e),
            Ok(f) => prepend_ok(seq![f], spec_globals_fields_from(m, members, k + 1)),
        }
    }
}

/// The globals schema of the `@group(0) @binding(0)` uniform struct.
pub open spec fn spec_globals_schema(m: ReflectedModule, members: Seq<StructMember>, span: u32) -> Result<
    GlobalsSchemaView,
    SchemaErrorView,
> {
    match spec_globals_fields_from(m, members, 0) {
        Err(e) => Err(e),
        Ok(fields) => Ok(GlobalsSchemaView { size: spec_uniform_size(span), fields }),
    }
}

fn globals_member(module: &ReflectedModule, mem: &StructMember) -> (r: Result<(GlobalKind, u32), SchemaError>)
    ensures
        match r {
            Ok(f) => spec_globals_member(*module, *mem) == Ok::<(GlobalKind, u32), SchemaErrorView>(f),
            Err(e) => spec_globals_member(*module, *mem) == Err::<(GlobalKind, u32), SchemaErrorView>(e@),
        },
{
    let name = member_name(mem);
    let name_str = crate::text::string_of(name.as_slice());
    let kind = match GlobalKind::from_name(name_str.as_str()) {
        Some(k) => k,
        None => {
            let names = ["resolution", "time", "time_delta", "frame", "pass_index", "mouse", "date"];
            proof {
                assert(strs_view(names@) =~= spec_global_names());
            }
            return Err(SchemaError::UnknownGlobal { name: name_str, valid: join_strs(&names, ", ") });
        },
    };
    if param_type_of(module, mem.ty) != Some(kind.param_ty()) {
        return Err(SchemaError::GlobalType { name: name_str, expected: kind.param_ty().wgsl_name() });
    }
    let context = concat3("globals member `", name.as_slice(), "`");
    let parsed = match parse_docs(mem.docs.as_slice()) {
        Ok(d) => d,
        Err(err) => {
            return Err(SchemaError::Annot { context, err });
        },
    };
    let none: [&str; 0] = [];
    proof {
        assert(strs_view(none@) =~= Seq::<Seq<char>>::empty());
    }
    check_known(&parsed, &none, context.as_str())?;
    Ok((kind, mem.offset))
}

/// The globals schema of the `@group(0) @binding(0)` uniform struct.
pub fn globals_schema(module: &ReflectedModule, members: &Vec<StructMember>, span: u32) -> (r: Result<
    GlobalsSchema,
    SchemaError,
>)
    ensures
        match r {
            Ok(g) => spec_globals_schema(*module, members@, span) == Ok::<GlobalsSchemaView, SchemaErrorView>(g@),
            Err(e) => spec_globals_schema(*module, members@, span) == Err::<GlobalsSchemaView, SchemaErrorView>(e@),
        },
{
    let mut fields: Vec<(GlobalKind, u32)> = Vec::new();
    let mut k: usize = 0;
    proof {
        lemma_prepend_ok_empty(spec_globals_fields_from(*module, members@, 0));
    }
    while k < members.len()
        invariant
            k <= members@.len(),
            spec_globals_fields_from(*module, members@, 0) == prepend_ok(fields@, spec_globals_fields_from(*module, members@, k as int)),
        decreases members@.len() - k,
    {
        let f = globals_member(module, &members[k])?;
        let ghost old_f = fields@;
        fields.push(f);
        proof {
            lemma_prepend_ok_push(old_f, f, spec_globals_fields_from(*module, members@, k + 1));
        }
        k += 1;
    }
    proof {
        assert(fields@ + Seq::<(GlobalKind, u32)>::empty() =~= fields@);
    }
    Ok(GlobalsSchema { size: uniform_size(span), fields })
}

/// `@values` applies to the integer members, `i32` and `u32`, and to no
/// other: on one of them, numeric arguments give the values, each number
/// converted with `as i64`, in order; `ValuesType` comes exactly when the
/// annotation is on a member of another type. Without `@values` there are no
/// values.
pub proof fn lemma_values_hint(d: DocsView, ty: ParamType, ctx: Seq<char>)
    ensures
        spec_get(d, "values"@) is None ==> spec_values_hint(d, ty, ctx) == Ok::<Seq<i64>, SchemaErrorView>(
            Seq::empty(),
        ),
        (spec_values_hint(d, ty, ctx) == Err::<Seq<i64>, SchemaErrorView>(
            SchemaErrorView::ValuesType { context: ctx },
        )) <==> (spec_get(d, "values"@) is Some && ty != ParamType::I32 && ty != ParamType::U32),
        match spec_get(d, "values"@) {
            Some(a) => (ty == ParamType::I32 || ty == ParamType::U32) && spec_all_pos_numbers(a.args) ==> match spec_values_hint(d, ty, ctx) {
                Ok(v) => v.len() == a.args.len() && forall|i: int|
                    0 <= i < a.args.len() ==> (#[trigger] a.args[i] matches crate::annot::ArgView::Pos(
                        crate::annot::ValueView::Number(n),
                    ) ==> v[i] == spec_as_i64(n)),
                Err(_) => false,
            },
            None => true,
        },
{
}

/// `@color` takes no arguments and applies to `vec3<f32>` and `vec4<f32>`
/// members: there it makes the member a color picker; `ColorType` comes
/// exactly when it is on a member of another type. Without `@color` the
/// member is no color.
pub proof fn lemma_color_hint(d: DocsView, ty: ParamType, ctx: Seq<char>)
    ensures
        spec_get(d, "color"@) is None ==> spec_color_hint(d, ty, ctx) == Ok::<bool, SchemaErrorView>(false),
        match spec_get(d, "color"@) {
            Some(a) => a.args.len() == 0 ==> ((spec_color_hint(d, ty, ctx) == Ok::<bool, SchemaErrorView>(true)) <==> (
            ty == ParamType::Vec3 || ty == ParamType::Vec4)),
            None => true,
        },
        (spec_color_hint(d, ty, ctx) == Err::<bool, SchemaErrorView>(SchemaErrorView::ColorType { context: ctx }))
            <==> (match spec_get(d, "color"@) {
            Some(a) => a.args.len() == 0 && ty != ParamType::Vec3 && ty != ParamType::Vec4,
            None => false,
        }),
{
}

/// The hints of a member: a member's hints fail with `ColorType` only off
/// `vec3`/`vec4` members and with `ValuesType` only off `i32`/`u32` members;
/// accepted hints are a color picker exactly where `@color` is given, and hold
/// the `@values` numbers, each converted with `as i64`.
pub proof fn lemma_ui_hints_types(d: DocsView, ty: ParamType, ctx: Seq<char>)
    ensures
        spec_ui_hints(d, ty, ctx) matches Err(SchemaErrorView::ColorType { .. }) ==> ty != ParamType::Vec3 && ty
            != ParamType::Vec4 && spec_get(d, "color"@) is Some,
        spec_ui_hints(d, ty, ctx) matches Err(SchemaErrorView::ValuesType { .. }) ==> ty != ParamType::I32 && ty
            != ParamType::U32 && spec_get(d, "values"@) is Some,
        spec_ui_hints(d, ty, ctx) matches Ok(h) ==> (h.color <==> spec_get(d, "color"@) is Some),
        spec_ui_hints(d, ty, ctx) matches Ok(h) ==> match spec_get(d, "values"@) {
            None => h.values.len() == 0,
            Some(a) => h.values.len() == a.args.len() && forall|i: int|
                0 <= i < a.args.len() ==> (#[trigger] a.args[i] matches crate::annot::ArgView::Pos(
                    crate::annot::ValueView::Number(n),
                ) ==> h.values[i] == spec_as_i64(n)),
        },
{
    lemma_values_hint(d, ty, ctx);
    lemma_color_hint(d, ty, ctx);
}

} // verus!
