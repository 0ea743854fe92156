//! `$WIDTH`/`$HEIGHT` size expressions of pass targets and compute dispatches.
//!
//! An expression is resolved against a base size (the two placeholders become
//! decimal integers), evaluated by `evalexpr`, and must yield a number of at
//! least 1; the size is that number truncated toward zero, saturating at
//! `u32::MAX`.

use crate::schema::{SizeExprError, SizeExprErrorView};
use crate::text::{chars_of, concat3, decimal, replace, spec_decimal, spec_replace, string_of};
use vstd::prelude::*;

verus! {

/// A two-dimensional size in pixels (or workgroups).
#[derive(Clone, Copy, Debug, PartialEq, Eq, Structural)]
pub struct UVec2 {
    pub x: u32,
    pub y: u32,
}

impl UVec2 {
    pub fn new(x: u32, y: u32) -> (r: UVec2)
        ensures
            r == (UVec2 { x, y }),
    {
        UVec2 { x, y }
    }
}

/// What evaluating an expression gave, as plain values: an integer, a float (by
/// its IEEE-754 binary64 bit pattern), another kind of value (by its display
/// text), or an evaluation error (by its message).
#[derive(Clone, Debug, PartialEq)]
pub enum EvalOutcome {
    Int(i64),
    Float(u64),
    Other(String),
    Failed(String),
}

pub enum EvalOutcomeView {
    Int(i64),
    Float(u64),
    Other(Seq<char>),
    Failed(Seq<char>),
}

impl View for EvalOutcome {
    type V = EvalOutcomeView;

    open spec fn view(&self) -> EvalOutcomeView {
        match self {
            EvalOutcome::Int(i) => EvalOutcomeView::Int(*i),
            EvalOutcome::Float(b) => EvalOutcomeView::Float(*b),
            EvalOutcome::Other(s) => EvalOutcomeView::Other(s@),
            EvalOutcome::Failed(s) => EvalOutcomeView::Failed(s@),
        }
    }
}

/// Evaluates `expr` with `evalexpr::eval` (the default numeric types, `i64` and
/// `f64`, and an empty context). evalexpr's built-in float functions
/// (`math::sin`, `math::exp`, `math::ln`, ...) use std's float functions, whose
/// precision varies by platform, so the outcome is not a function of the
/// expression in general, and is left unsaid. What is stated: a string of
/// decimal digits that fits in `i64` is one integer literal, and evaluates to
/// that integer.
#[verifier::external_body]
fn evaluate(expr: &str) -> (r: EvalOutcome)
    ensures
        forall|n: nat| n <= i64::MAX && expr@ == spec_decimal(n) ==> r@ == EvalOutcomeView::Int(n as i64),
{
    match evalexpr::eval(expr) {
        Ok(evalexpr::Value::Int(i)) => EvalOutcome::Int(i),
        Ok(evalexpr::Value::Float(f)) => EvalOutcome::Float(f.to_bits()),
        Ok(other) => EvalOutcome::Other(other.to_string()),
        Err(err) => EvalOutcome::Failed(err.to_string()),
    }
}

pub open spec fn pow2(n: nat) -> nat
    decreases n,
{
    if n == 0 {
        1
    } else {
        2 * pow2((n - 1) as nat)
    }
}

pub proof fn lemma_pow2_monotone(a: nat, b: nat)
    requires
        a <= b,
    ensures
        pow2(a) <= pow2(b),
    decreases b,
{
    if a < b {
        lemma_pow2_monotone(a, (b - 1) as nat);
    }
}

/// This `pow2` agrees with vstd's.
pub proof fn lemma_pow2_agrees(n: nat)
    ensures
        pow2(n) == vstd::arithmetic::power2::pow2(n),
    decreases n,
{
    if n > 0 {
        lemma_pow2_agrees((n - 1) as nat);
        vstd::arithmetic::power2::lemma_pow2_unfold(n);
    } else {
        vstd::arithmetic::power2::lemma2_to64();
    }
}

pub proof fn lemma_pow2_constants()
    ensures
        pow2(21) == 0x20_0000,
        pow2(52) == 0x10_0000_0000_0000,
        pow2(63) == 0x8000_0000_0000_0000,
{
    vstd::arithmetic::power2::lemma2_to64();
    vstd::arithmetic::power2::lemma2_to64_rest();
    lemma_pow2_agrees(21);
    lemma_pow2_agrees(52);
    lemma_pow2_agrees(63);
}

/// The size an integer value gives: `None` below 1, else the value saturated
/// at `u32::MAX` (what `i as f64`, checked against `1.0`, then `as u32` gives).
pub open spec fn spec_int_size(i: i64) -> Option<u32> {
    if i < 1 {
        None
    } else if i > u32::MAX {
        Some(u32::MAX)
    } else {
        Some(i as u32)
    }
}

/// The size a binary64 value gives, decoded from its bits: `None` for a value
/// that is not finite or is below 1 (negative values, zeros and subnormals
/// among them), else the value truncated toward zero, saturating at `u32::MAX`
/// (values of 2^32 and more).
pub open spec fn spec_float_size(bits: u64) -> Option<u32> {
    let b = bits as nat;
    let biased = (b / pow2(52)) % 2048;
    let negative = b >= pow2(63);
    if biased == 2047 || negative || biased < 1023 {
        None
    } else if biased >= 1023 + 32 {
        Some(u32::MAX)
    } else {
        Some(((b % pow2(52) + pow2(52)) / pow2((1075 - biased) as nat)) as u32)
    }
}

/// The size, or the error, that an evaluation outcome gives for `expr`.
pub open spec fn spec_size_from_outcome(expr: Seq<char>, o: EvalOutcomeView) -> Result<
    u32,
    SizeExprErrorView,
> {
    match o {
        EvalOutcomeView::Int(i) => match spec_int_size(i) {
            Some(v) => Ok(v),
            None => Err(SizeExprErrorView::NonPositive { expr }),
        },
        EvalOutcomeView::Float(b) => match spec_float_size(b) {
            Some(v) => Ok(v),
            None => Err(SizeExprErrorView::NonPositive { expr }),
        },
        EvalOutcomeView::Other(s) => Err(
            SizeExprErrorView::Eval { expr, err: "expected a number, found `"@ + s + "`"@ },
        ),
        EvalOutcomeView::Failed(s) => Err(SizeExprErrorView::Eval { expr, err: s }),
    }
}

/// `expr` with `$WIDTH` and `$HEIGHT` replaced by the decimal base size.
pub open spec fn spec_resolve(expr: Seq<char>, base: UVec2) -> Seq<char> {
    spec_replace(
        spec_replace(expr, "$WIDTH"@, spec_decimal(base.x as nat)),
        "$HEIGHT"@,
        spec_decimal(base.y as nat),
    )
}

/// A size result by its view.
pub open spec fn size_result_view(r: Result<u32, SizeExprError>) -> Result<u32, SizeExprErrorView> {
    match r {
        Ok(v) => Ok(v),
        Err(e) => Err(e@),
    }
}

/// Whether `s` is the decimal form of an integer that fits in `i64`.
pub open spec fn spec_is_decimal_i64(s: Seq<char>) -> bool {
    exists|n: nat| n <= i64::MAX && #[trigger] spec_decimal(n) == s
}

/// The outcome that evaluating `resolved` gives, where `o` stands for what
/// evalexpr returns: the integer itself when `resolved` is a decimal integer
/// that fits in `i64`, else `o`.
pub open spec fn spec_outcome_for(resolved: Seq<char>, o: EvalOutcomeView) -> EvalOutcomeView {
    if spec_is_decimal_i64(resolved) {
        EvalOutcomeView::Int((choose|n: nat| n <= i64::MAX && spec_decimal(n) == resolved) as i64)
    } else {
        o
    }
}

/// What evaluating `expr` against `base` gives, where `o` stands for what
/// evalexpr returns for `resolve(expr, base)`.
pub open spec fn spec_eval_size(expr: Seq<char>, base: UVec2, o: EvalOutcomeView) -> Result<u32, SizeExprErrorView> {
    spec_size_from_outcome(expr, spec_outcome_for(spec_resolve(expr, base), o))
}

fn float_size(bits: u64) -> (r: Option<u32>)
    ensures
        r == spec_float_size(bits),
{
    proof {
        lemma_pow2_constants();
    }
    let biased = (bits / 0x10_0000_0000_0000) % 2048;
    if biased == 2047 || bits >= 0x8000_0000_0000_0000 || biased < 1023 {
        return None;
    }
    if biased >= 1023 + 32 {
        return Some(u32::MAX);
    }
    let mantissa = bits % 0x10_0000_0000_0000 + 0x10_0000_0000_0000;
    let shift = 1075 - biased;
    let mut divisor: u64 = 1;
    let mut k: u64 = 0;
    while k < shift
        invariant
            shift <= 52,
            k <= shift,
            divisor == pow2(k as nat),
        decreases shift - k,
    {
        proof {
            lemma_pow2_constants();
            lemma_pow2_monotone((k + 1) as nat, 52);
        }
        divisor = divisor * 2;
        k += 1;
    }
    proof {
        lemma_pow2_monotone(0, k as nat);
        assert(k == shift);
    }
    Some((mantissa / divisor) as u32)
}

/// The size, or the error, that an evaluation outcome gives for `expr`: at
/// least 1, truncated toward zero and saturating at `u32::MAX`.
pub fn size_from_outcome(expr: &str, outcome: EvalOutcome) -> (r: Result<u32, SizeExprError>)
    ensures
        match r {
            Ok(v) => spec_size_from_outcome(expr@, outcome@) == Ok::<u32, SizeExprErrorView>(v),
            Err(e) => spec_size_from_outcome(expr@, outcome@) == Err::<u32, SizeExprErrorView>(e@),
        },
{
    let size = match outcome {
        EvalOutcome::Int(i) => {
            if i < 1 {
                None
            } else if i > 0xFFFF_FFFF {
                Some(u32::MAX)
            } else {
                Some(i as u32)
            }
        },
        EvalOutcome::Float(bits) => float_size(bits),
        EvalOutcome::Other(text) => {
            let t = chars_of(text.as_str());
            return Err(
                SizeExprError::Eval {
                    expr: String::from_str(expr),
                    err: concat3("expected a number, found `", t.as_slice(), "`"),
                },
            );
        },
        EvalOutcome::Failed(message) => {
            return Err(SizeExprError::Eval { expr: String::from_str(expr), err: message });
        },
    };
    match size {
        Some(v) => Ok(v),
        None => Err(SizeExprError::NonPositive { expr: String::from_str(expr) }),
    }
}

/// `expr` with `$WIDTH` and `$HEIGHT` replaced by the decimal base size.
pub fn resolve(expr: &str, base: UVec2) -> (r: String)
    ensures
        r@ == spec_resolve(expr@, base),
{
    let e = chars_of(expr);
    let width_pat = chars_of("$WIDTH");
    let height_pat = chars_of("$HEIGHT");
    proof {
        reveal_strlit("$WIDTH");
        reveal_strlit("$HEIGHT");
    }
    let w = decimal(base.x as u64);
    let h = decimal(base.y as u64);
    let once = replace(e.as_slice(), width_pat.as_slice(), w.as_slice());
    let twice = replace(once.as_slice(), height_pat.as_slice(), h.as_slice());
    string_of(twice.as_slice())
}

/// Evaluates a `$WIDTH`/`$HEIGHT` size expression against the given base size:
/// `resolve(expr, base)` (see [`spec_resolve`]) is handed to `evalexpr`, and
/// what comes back is read by [`size_from_outcome`]. The result is that of
/// some evaluation outcome; where the resolved expression is a decimal number,
/// that of the number.
pub fn eval_size(expr: &str, base: UVec2) -> (r: Result<u32, SizeExprError>)
    ensures
        exists|o: EvalOutcomeView| #[trigger] spec_eval_size(expr@, base, o) == size_result_view(r),
{
    let resolved = resolve(expr, base);
    let outcome = evaluate(resolved.as_str());
    let ghost o = outcome@;
    let r = size_from_outcome(expr, outcome);
    proof {
        if spec_is_decimal_i64(resolved@) {
            let n = choose|n: nat| n <= i64::MAX && spec_decimal(n) == resolved@;
            assert(o == EvalOutcomeView::Int(n as i64));
        }
        assert(spec_outcome_for(resolved@, o) == o);
        assert(spec_eval_size(expr@, base, o) == size_result_view(r));
    }
    r
}

/// Whatever an evaluation gives, a size expression that gives a size gives at
/// least 1.
pub proof fn lemma_eval_size_positive(expr: Seq<char>, base: UVec2, o: EvalOutcomeView)
    ensures
        spec_eval_size(expr, base, o) matches Ok(v) ==> v >= 1,
{
    if let EvalOutcomeView::Float(bits) = spec_outcome_for(spec_resolve(expr, base), o) {
        let b = bits as nat;
        let biased = (b / pow2(52)) % 2048;
        if biased != 2047 && b < pow2(63) && 1023 <= biased < 1023 + 32 {
            let shift = (1075 - biased) as nat;
            let mantissa = b % pow2(52) + pow2(52);
            lemma_pow2_constants();
            lemma_pow2_monotone(shift, 52);
            lemma_pow2_monotone(21, shift);
            assert(pow2(shift) > 0);
            assert(mantissa / pow2(shift) >= 1) by (nonlinear_arith)
                requires
                    mantissa >= pow2(52),
                    pow2(shift) <= pow2(52),
                    pow2(shift) > 0,
            {
                vstd::arithmetic::div_mod::lemma_div_is_ordered(pow2(shift) as int, mantissa as int, pow2(shift) as int);
            }
            assert(mantissa / pow2(shift) < 0x1_0000_0000) by (nonlinear_arith)
                requires
                    mantissa < 2 * pow2(52),
                    pow2(shift) >= 0x20_0000,
                    pow2(52) == 0x10_0000_0000_0000,
            {
                vstd::arithmetic::div_mod::lemma_div_is_ordered_by_denominator(mantissa as int, 0x20_0000, pow2(shift) as int);
                assert(mantissa / 0x20_0000 < 0x1_0000_0000);
            }
        }
    }
}

} // verus!
