//! Sizing of intermediate pass targets and compute dispatches.
//!
//! Each pass with a named target renders into an image of the size its
//! `$WIDTH`/`$HEIGHT` expressions give for the current view size (the view
//! size itself by default); a compute pass dispatches either its explicit
//! `dispatch` expressions, evaluated against its target size, or enough
//! workgroups to cover the target. What the plan of a target holds decides
//! when its images must be reallocated.
//!
//! Expressions are evaluated by `evalexpr`, whose outcome is not a function of
//! the expression alone; the contracts here hold for some outcome of each
//! evaluation, listed in the order the evaluations are made. Each expression
//! is resolved against the stated base size, and one that resolves to a
//! decimal integer gives that integer whatever the outcome.

use crate::schema::size::{eval_size, size_result_view, spec_eval_size, EvalOutcomeView, UVec2};
use crate::schema::{PassSchema, PassSchemaView, PassStage, TargetSchema, TargetSchemaView, TextureFormat};
use vstd::prelude::*;

verus! {

/// The size `expr` gives against `base`, where `o` stands for what evalexpr
/// returns, or `fallback` when it gives none.
pub open spec fn spec_eval_or(expr: Seq<char>, base: UVec2, o: EvalOutcomeView, fallback: u32) -> u32 {
    match spec_eval_size(expr, base, o) {
        Ok(v) => v,
        Err(_) => fallback,
    }
}

/// `a.div_ceil(b)`: `a / b` rounded up.
pub open spec fn spec_div_ceil(a: u32, b: u32) -> u32 {
    if a % b == 0 {
        (a / b) as u32
    } else {
        (a / b + 1) as u32
    }
}

/// `b`, or 1 when it is 0.
pub open spec fn spec_at_least_one(b: u32) -> u32 {
    if b == 0 {
        1
    } else {
        b
    }
}

/// A compute pass's workgroup counts for its target size: its `dispatch`
/// expressions evaluated against the target size, with outcomes `outs` (1 for
/// one that gives no size), or `ceil(target / workgroup)` in x and y and 1 in z.
pub open spec fn spec_dispatch_size(pass: PassSchemaView, target_size: UVec2, outs: Seq<EvalOutcomeView>) -> Seq<
    u32,
> {
    match pass.dispatch {
        Some(e) => seq![
            spec_eval_or(e[0], target_size, outs[0], 1),
            spec_eval_or(e[1], target_size, outs[1], 1),
            spec_eval_or(e[2], target_size, outs[2], 1),
        ],
        None => seq![
            spec_div_ceil(target_size.x, spec_at_least_one(pass.workgroup_size[0])),
            spec_div_ceil(target_size.y, spec_at_least_one(pass.workgroup_size[1])),
            1,
        ],
    }
}

/// A target's size for the view size: each of width and height given by its
/// expression evaluated against the view size, with outcomes `ow` and `oh`, or
/// the view's own when the target has no expression or it gives no size.
pub open spec fn spec_target_size(target: TargetSchemaView, view_size: UVec2, ow: EvalOutcomeView, oh: EvalOutcomeView) -> UVec2 {
    UVec2 {
        x: match target.width {
            Some(e) => spec_eval_or(e, view_size, ow, view_size.x),
            None => view_size.x,
        },
        y: match target.height {
            Some(e) => spec_eval_or(e, view_size, oh, view_size.y),
            None => view_size.y,
        },
    }
}

/// The size `expr` gives at `base`, or `fallback`.
fn eval_or(expr: &String, base: UVec2, fallback: u32) -> (r: u32)
    ensures
        exists|o: EvalOutcomeView| r == #[trigger] spec_eval_or(expr@, base, o, fallback),
{
    let e = eval_size(expr.as_str(), base);
    let ghost o = choose|o: EvalOutcomeView| spec_eval_size(expr@, base, o) == size_result_view(e);
    let r = match e {
        Ok(v) => v,
        Err(_) => fallback,
    };
    proof {
        assert(r == spec_eval_or(expr@, base, o, fallback));
    }
    r
}

fn div_ceil(a: u32, b: u32) -> (r: u32)
    requires
        b > 0,
    ensures
        r == spec_div_ceil(a, b),
{
    if a % b == 0 {
        a / b
    } else {
        assert(a / b < 0xFFFF_FFFF) by (nonlinear_arith)
            requires
                b > 0,
                a % b != 0,
                a <= 0xFFFF_FFFF,
        {
            if b == 1 {
                assert(a % b == 0);
            }
        }
        a / b + 1
    }
}

/// A compute pass's workgroup counts for its target size.
pub fn dispatch_size(pass: &PassSchema, target_size: UVec2) -> (r: [u32; 3])
    ensures
        exists|outs: Seq<EvalOutcomeView>| outs.len() == 3 && r@ == #[trigger] spec_dispatch_size(pass@, target_size, outs),
{
    match &pass.dispatch {
        Some(exprs) => {
            let a = eval_or(&exprs[0], target_size, 1);
            let b = eval_or(&exprs[1], target_size, 1);
            let c = eval_or(&exprs[2], target_size, 1);
            let r = [a, b, c];
            proof {
                let oa = choose|o: EvalOutcomeView| a == spec_eval_or(exprs@[0]@, target_size, o, 1);
                let ob = choose|o: EvalOutcomeView| b == spec_eval_or(exprs@[1]@, target_size, o, 1);
                let oc = choose|o: EvalOutcomeView| c == spec_eval_or(exprs@[2]@, target_size, o, 1);
                let outs = seq![oa, ob, oc];
                assert(r@ =~= spec_dispatch_size(pass@, target_size, outs));
            }
            r
        },
        None => {
            let x = if pass.workgroup_size[0] == 0 {
                1
            } else {
                pass.workgroup_size[0]
            };
            let y = if pass.workgroup_size[1] == 0 {
                1
            } else {
                pass.workgroup_size[1]
            };
            let r = [div_ceil(target_size.x, x), div_ceil(target_size.y, y), 1];
            proof {
                let outs = Seq::<EvalOutcomeView>::new(3, |i: int| EvalOutcomeView::Int(1));
                assert(r@ =~= spec_dispatch_size(pass@, target_size, outs));
            }
            r
        },
    }
}

/// A target's pixel size for the given view size.
pub fn target_size(target: &TargetSchema, view_size: UVec2) -> (r: UVec2)
    ensures
        exists|ow: EvalOutcomeView, oh: EvalOutcomeView| r == #[trigger] spec_target_size(target@, view_size, ow, oh),
{
    let ghost mut ow = EvalOutcomeView::Int(1);
    let ghost mut oh = EvalOutcomeView::Int(1);
    let x = match &target.width {
        Some(e) => {
            let v = eval_or(e, view_size, view_size.x);
            proof {
                ow = choose|o: EvalOutcomeView| v == spec_eval_or(e@, view_size, o, view_size.x);
            }
            v
        },
        None => view_size.x,
    };
    let y = match &target.height {
        Some(e) => {
            let v = eval_or(e, view_size, view_size.y);
            proof {
                oh = choose|o: EvalOutcomeView| v == spec_eval_or(e@, view_size, o, view_size.y);
            }
            v
        },
        None => view_size.y,
    };
    let r = UVec2 { x, y };
    proof {
        assert(r == spec_target_size(target@, view_size, ow, oh));
    }
    r
}

/// What a pass's target images must be for one view size: their size and
/// format, whether they are cleared before the pass (targets that are not
/// persistent), the workgroup counts of a compute pass, and whether the pass
/// reads its own previous output (two images used in turn).
#[derive(Clone, Copy, Debug, PartialEq, Eq)]
pub struct TargetPlan {
    pub size: UVec2,
    pub clear: bool,
    pub dispatch: Option<[u32; 3]>,
    pub ping_pong: bool,
    pub format: TextureFormat,
}

/// The plan of a pass's target, `None` for the final pass; `outs` are the
/// outcomes of its width, height and dispatch expressions.
pub open spec fn spec_target_plan(pass: PassSchemaView, view_size: UVec2, outs: Seq<EvalOutcomeView>) -> Option<
    (UVec2, bool, Option<Seq<u32>>, bool, TextureFormat),
> {
    match pass.target {
        None => None,
        Some(t) => {
            let size = spec_target_size(t, view_size, outs[0], outs[1]);
            Some(
                (
                    size,
                    !t.persistent,
                    if pass.stage == PassStage::Compute {
                        Some(spec_dispatch_size(pass, size, outs.subrange(2, 5)))
                    } else {
                        None
                    },
                    pass.self_feedback,
                    t.format,
                ),
            )
        },
    }
}

/// The parts of a plan.
pub open spec fn plan_parts(p: TargetPlan) -> (UVec2, bool, Option<Seq<u32>>, bool, TextureFormat) {
    (
        p.size,
        p.clear,
        match p.dispatch {
            Some(d) => Some(d@),
            None => None,
        },
        p.ping_pong,
        p.format,
    )
}

/// The plan of a pass's target for the view size (`None` for the final pass).
pub fn target_plan(pass: &PassSchema, view_size: UVec2) -> (r: Option<TargetPlan>)
    ensures
        exists|outs: Seq<EvalOutcomeView>|
            outs.len() == 5 && #[trigger] spec_target_plan(pass@, view_size, outs) == match r {
                Some(p) => Some(plan_parts(p)),
                None => None::<(UVec2, bool, Option<Seq<u32>>, bool, TextureFormat)>,
            },
{
    match &pass.target {
        None => {
            proof {
                let outs = Seq::<EvalOutcomeView>::new(5, |i: int| EvalOutcomeView::Int(1));
                assert(spec_target_plan(pass@, view_size, outs) is None);
            }
            None
        },
        Some(t) => {
            let size = target_size(t, view_size);
            let ghost (ow, oh) = choose|ow: EvalOutcomeView, oh: EvalOutcomeView|
                size == spec_target_size(t@, view_size, ow, oh);
            let ghost mut dispatch_outs = Seq::<EvalOutcomeView>::new(3, |i: int| EvalOutcomeView::Int(1));
            let dispatch = if pass.stage == PassStage::Compute {
                let d = dispatch_size(pass, size);
                proof {
                    dispatch_outs = choose|outs: Seq<EvalOutcomeView>|
                        outs.len() == 3 && d@ == spec_dispatch_size(pass@, size, outs);
                }
                Some(d)
            } else {
                None
            };
            let p = TargetPlan { size, clear: !t.persistent, dispatch, ping_pong: pass.self_feedback, format: t.format };
            proof {
                let outs = seq![ow, oh] + dispatch_outs;
                assert(outs.subrange(2, 5) =~= dispatch_outs);
                assert(spec_target_plan(pass@, view_size, outs) == Some(plan_parts(p)));
            }
            Some(p)
        },
    }
}

/// Whether images allocated for plan `existing` can serve plan `wanted`: the
/// two plans agree in every part.
pub fn plan_is_current(existing: &TargetPlan, wanted: &TargetPlan) -> (r: bool)
    ensures
        r == (plan_parts(*existing) == plan_parts(*wanted)),
{
    let same_dispatch = match (existing.dispatch, wanted.dispatch) {
        (None, None) => true,
        (Some(a), Some(b)) => {
            let same = a[0] == b[0] && a[1] == b[1] && a[2] == b[2];
            proof {
                if same {
                    assert(a@ =~= b@);
                }
            }
            same
        },
        _ => false,
    };
    existing.size.x == wanted.size.x && existing.size.y == wanted.size.y && existing.clear == wanted.clear
        && same_dispatch && existing.ping_pong == wanted.ping_pong && existing.format == wanted.format
}

/// What to do with a pass's target images this frame.
#[derive(Clone, Copy, Debug, PartialEq, Eq)]
pub enum TargetStep {
    /// The pass has no target: drop any images.
    Clear,
    /// The images serve the plan: keep them, swapping the roles of a
    /// ping-pong pair (`flip`) so the pass reads its previous output.
    Keep { flip: bool },
    /// (Re)allocate the images for the plan: two used in turn for a
    /// ping-pong target, else one.
    Allocate { ping_pong: bool },
}

/// What to do with a pass's target images, given the plan the current images
/// were allocated for and whether they still exist in the planned format
/// (`None` without images), and the plan wanted now (`None` for the final
/// pass).
pub open spec fn spec_target_step(current: Option<(TargetPlan, bool)>, wanted: Option<TargetPlan>) -> TargetStep {
    match wanted {
        None => TargetStep::Clear,
        Some(w) => match current {
            Some((p, usable)) => if usable && plan_parts(p) == plan_parts(w) {
                TargetStep::Keep { flip: w.ping_pong }
            } else {
                TargetStep::Allocate { ping_pong: w.ping_pong }
            },
            None => TargetStep::Allocate { ping_pong: w.ping_pong },
        },
    }
}

/// What to do with a pass's target images this frame.
pub fn target_step(current: Option<(TargetPlan, bool)>, wanted: Option<TargetPlan>) -> (r: TargetStep)
    ensures
        r == spec_target_step(current, wanted),
{
    match wanted {
        None => TargetStep::Clear,
        Some(w) => match current {
            Some((p, usable)) => if usable && plan_is_current(&p, &w) {
                TargetStep::Keep { flip: w.ping_pong }
            } else {
                TargetStep::Allocate { ping_pong: w.ping_pong }
            },
            None => TargetStep::Allocate { ping_pong: w.ping_pong },
        },
    }
}

/// `a.div_ceil(b)` workgroups of `b` cover `a`, and one fewer would not.
pub proof fn lemma_div_ceil_covers(a: u32, b: u32)
    requires
        b > 0,
    ensures
        spec_div_ceil(a, b) * b >= a,
        (spec_div_ceil(a, b) - 1) * b < a || a == 0,
{
    vstd::arithmetic::div_mod::lemma_fundamental_div_mod(a as int, b as int);
    vstd::arithmetic::div_mod::lemma_mod_bound(a as int, b as int);
    let q = a as int / b as int;
    let r = a as int % b as int;
    assert(b * q + r == a);
    assert(q * b + r == a) by (nonlinear_arith)
        requires
            b * q + r == a,
    ;
    if r == 0 {
        assert(spec_div_ceil(a, b) == q);
        assert((q - 1) * b == q * b - b) by (nonlinear_arith);
    } else {
        assert(q + 1 <= 0xFFFF_FFFF) by (nonlinear_arith)
            requires
                q * b + r == a,
                0 < r < b,
                a <= 0xFFFF_FFFF,
                q >= 0,
        {
            if b == 1 {
            }
        }
        assert(spec_div_ceil(a, b) == q + 1);
        assert((q + 1) * b == q * b + b) by (nonlinear_arith);
    }
}

/// Without `dispatch` expressions, a compute pass dispatches just enough
/// workgroups to cover its target in x and y, and one in z.
pub proof fn lemma_dispatch_covers_target(pass: PassSchemaView, target_size: UVec2, outs: Seq<EvalOutcomeView>)
    requires
        pass.dispatch is None,
        pass.workgroup_size.len() == 3,
    ensures
        ({
            let d = spec_dispatch_size(pass, target_size, outs);
            &&& d[0] * spec_at_least_one(pass.workgroup_size[0]) >= target_size.x
            &&& d[1] * spec_at_least_one(pass.workgroup_size[1]) >= target_size.y
            &&& d[2] == 1
        }),
{
    lemma_div_ceil_covers(target_size.x, spec_at_least_one(pass.workgroup_size[0]));
    lemma_div_ceil_covers(target_size.y, spec_at_least_one(pass.workgroup_size[1]));
}

} // verus!
