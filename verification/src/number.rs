//! Numeric annotation literals.
//!
//! An annotation number is kept as its literal text, exactly as written. The
//! literal grammar is that of `f64::from_str`:
//!
//! ```text
//! Float  ::= Sign? ( 'inf' | 'infinity' | 'nan' | Number )
//! Number ::= ( Digit+ | Digit+ '.' Digit* | Digit* '.' Digit+ ) Exp?
//! Exp    ::= 'e' Sign? Digit+
//! Sign   ::= [+-]
//! Digit  ::= [0-9]
//! ```
//!
//! with letters matched case-insensitively.

use crate::text::{chars_of, string_of};
use vstd::prelude::*;

verus! {

/// A numeric literal from an annotation argument.
#[derive(Clone, Debug, PartialEq)]
pub struct Number {
    literal: String,
}

impl View for Number {
    type V = Seq<char>;

    closed spec fn view(&self) -> Seq<char> {
        self.literal@
    }
}

pub open spec fn spec_is_digit(c: char) -> bool {
    '0' <= c && c <= '9'
}

/// The first index at or after `i` that is not an ASCII digit, or the length.
pub open spec fn spec_digits_end(s: Seq<char>, i: int) -> int
    decreases s.len() - i,
{
    if i >= s.len() || i < 0 {
        if i < 0 { 0 } else { s.len() as int }
    } else if spec_is_digit(s[i]) {
        spec_digits_end(s, i + 1)
    } else {
        i
    }
}

pub proof fn lemma_digits_end_bounds(s: Seq<char>, i: int)
    requires
        0 <= i <= s.len(),
    ensures
        i <= spec_digits_end(s, i) <= s.len(),
        spec_digits_end(s, i) < s.len() ==> !spec_is_digit(s[spec_digits_end(s, i)]),
        forall|k: int| i <= k < spec_digits_end(s, i) ==> spec_is_digit(s[k]),
    decreases s.len() - i,
{
    if i < s.len() && spec_is_digit(s[i]) {
        lemma_digits_end_bounds(s, i + 1);
    }
}

pub open spec fn spec_is_sign(c: char) -> bool {
    c == '+' || c == '-'
}

/// The length of the optional leading sign.
pub open spec fn spec_sign_len(s: Seq<char>) -> int {
    if s.len() > 0 && spec_is_sign(s[0]) {
        1
    } else {
        0
    }
}

/// `t` equals the lower-case word `lo` (upper-case `up`) ignoring ASCII case.
pub open spec fn spec_eq_ignore_case(t: Seq<char>, lo: Seq<char>, up: Seq<char>) -> bool {
    &&& t.len() == lo.len()
    &&& lo.len() == up.len()
    &&& forall|k: int| 0 <= k < t.len() ==> t[k] == lo[k] || t[k] == up[k]
}

/// The end of the mantissa of a decimal number `t` (`Digit* ('.' Digit*)?`).
pub open spec fn spec_mantissa_end(t: Seq<char>) -> int {
    let a = spec_digits_end(t, 0);
    if a < t.len() && t[a] == '.' {
        spec_digits_end(t, a + 1)
    } else {
        a
    }
}

/// Whether the mantissa of `t` holds at least one digit.
pub open spec fn spec_mantissa_has_digit(t: Seq<char>) -> bool {
    let a = spec_digits_end(t, 0);
    a > 0 || (a < t.len() && t[a] == '.' && spec_digits_end(t, a + 1) > a + 1)
}

/// Whether `t` is an exponent part (`('e' | 'E') Sign? Digit+`).
pub open spec fn spec_is_exponent(t: Seq<char>) -> bool {
    &&& t.len() > 0
    &&& (t[0] == 'e' || t[0] == 'E')
    &&& {
        let c = 1 + spec_sign_len(t.skip(1));
        let d = spec_digits_end(t, c);
        d > c && d == t.len()
    }
}

/// Whether `t` is an unsigned decimal number.
pub open spec fn spec_is_decimal(t: Seq<char>) -> bool {
    let m = spec_mantissa_end(t);
    &&& spec_mantissa_has_digit(t)
    &&& (m == t.len() || spec_is_exponent(t.skip(m)))
}

/// Whether `s` is accepted by `f64::from_str`.
pub open spec fn spec_is_float_literal(s: Seq<char>) -> bool {
    let t = s.skip(spec_sign_len(s));
    ||| spec_eq_ignore_case(t, seq!['i', 'n', 'f'], seq!['I', 'N', 'F'])
    ||| spec_eq_ignore_case(
        t,
        seq!['i', 'n', 'f', 'i', 'n', 'i', 't', 'y'],
        seq!['I', 'N', 'F', 'I', 'N', 'I', 'T', 'Y'],
    )
    ||| spec_eq_ignore_case(t, seq!['n', 'a', 'n'], seq!['N', 'A', 'N'])
    ||| spec_is_decimal(t)
}

/// The first index at or after `i` that is not an ASCII digit.
pub fn digits_end(s: &[char], i: usize) -> (r: usize)
    requires
        i <= s@.len(),
    ensures
        r == spec_digits_end(s@, i as int),
        i <= r <= s@.len(),
{
    let mut j = i;
    while j < s.len() && '0' <= s[j] && s[j] <= '9'
        invariant
            i <= j <= s@.len(),
            spec_digits_end(s@, i as int) == spec_digits_end(s@, j as int),
        decreases s@.len() - j,
    {
        j += 1;
    }
    j
}

fn eq_ignore_case(t: &[char], lo: &[char], up: &[char]) -> (r: bool)
    requires
        lo@.len() == up@.len(),
    ensures
        r == spec_eq_ignore_case(t@, lo@, up@),
{
    if t.len() != lo.len() {
        return false;
    }
    let mut k: usize = 0;
    while k < t.len()
        invariant
            t@.len() == lo@.len() == up@.len(),
            k <= t@.len(),
            forall|j: int| 0 <= j < k ==> t@[j] == lo@[j] || t@[j] == up@[j],
        decreases t@.len() - k,
    {
        if t[k] != lo[k] && t[k] != up[k] {
            return false;
        }
        k += 1;
    }
    true
}

fn is_decimal(t: &[char]) -> (r: bool)
    ensures
        r == spec_is_decimal(t@),
{
    let a = digits_end(t, 0);
    let mut m = a;
    let mut has_digit = a > 0;
    if a < t.len() && t[a] == '.' {
        m = digits_end(t, a + 1);
        has_digit = has_digit || m > a + 1;
    }
    if !has_digit {
        return false;
    }
    if m == t.len() {
        return true;
    }
    let e = &t[m..t.len()];
    proof {
        assert(e@ =~= t@.skip(m as int));
    }
    if !(e[0] == 'e' || e[0] == 'E') {
        return false;
    }
    let mut c: usize = 1;
    if e.len() > 1 && (e[1] == '+' || e[1] == '-') {
        c = 2;
    }
    proof {
        assert(e@.skip(1).len() > 0 ==> e@.skip(1)[0] == e@[1]);
    }
    let d = digits_end(e, c);
    d > c && d == e.len()
}

/// Whether `s` is accepted by `f64::from_str`.
pub fn is_float_literal(s: &[char]) -> (r: bool)
    ensures
        r == spec_is_float_literal(s@),
{
    let b: usize = if s.len() > 0 && (s[0] == '+' || s[0] == '-') {
        1
    } else {
        0
    };
    let t = &s[b..s.len()];
    proof {
        assert(t@ =~= s@.skip(spec_sign_len(s@)));
    }
    let inf_lo = ['i', 'n', 'f'];
    let inf_up = ['I', 'N', 'F'];
    let infinity_lo = ['i', 'n', 'f', 'i', 'n', 'i', 't', 'y'];
    let infinity_up = ['I', 'N', 'F', 'I', 'N', 'I', 'T', 'Y'];
    let nan_lo = ['n', 'a', 'n'];
    let nan_up = ['N', 'A', 'N'];
    proof {
        assert(inf_lo@ =~= seq!['i', 'n', 'f']);
        assert(inf_up@ =~= seq!['I', 'N', 'F']);
        assert(infinity_lo@ =~= seq!['i', 'n', 'f', 'i', 'n', 'i', 't', 'y']);
        assert(infinity_up@ =~= seq!['I', 'N', 'F', 'I', 'N', 'I', 'T', 'Y']);
        assert(nan_lo@ =~= seq!['n', 'a', 'n']);
        assert(nan_up@ =~= seq!['N', 'A', 'N']);
    }
    eq_ignore_case(t, &inf_lo, &inf_up) || eq_ignore_case(t, &infinity_lo, &infinity_up)
        || eq_ignore_case(t, &nan_lo, &nan_up) || is_decimal(t)
}

impl Number {
    /// The number written as `s`.
    pub fn from_literal(s: &[char]) -> (n: Number)
        requires
            spec_is_float_literal(s@),
        ensures
            n@ == s@,
    {
        let literal = string_of(s);
        proof {
            assert(spec_is_float_literal(literal@));
        }
        Number { literal }
    }

    /// A copy of the number.
    pub fn copied(&self) -> (n: Number)
        ensures
            n@ == self@,
    {
        Number { literal: self.literal.clone() }
    }

    /// The literal text of the number.
    pub fn literal(&self) -> (s: String)
        ensures
            s@ == self@,
    {
        self.literal.clone()
    }
}


// ---------------------------------------------------------------------------
// The value of a literal
// ---------------------------------------------------------------------------

/// Whether the literal starts with `-`.
pub open spec fn spec_num_neg(s: Seq<char>) -> bool {
    s.len() > 0 && s[0] == '-'
}

/// The literal without its sign.
pub open spec fn spec_num_body(s: Seq<char>) -> Seq<char> {
    s.skip(spec_sign_len(s))
}

/// Whether the literal is `nan` (any case, any sign).
pub open spec fn spec_num_is_nan(s: Seq<char>) -> bool {
    spec_eq_ignore_case(spec_num_body(s), seq!['n', 'a', 'n'], seq!['N', 'A', 'N'])
}

/// Whether the literal is `inf` or `infinity` (any case, any sign).
pub open spec fn spec_num_is_inf(s: Seq<char>) -> bool {
    ||| spec_eq_ignore_case(spec_num_body(s), seq!['i', 'n', 'f'], seq!['I', 'N', 'F'])
    ||| spec_eq_ignore_case(
        spec_num_body(s),
        seq!['i', 'n', 'f', 'i', 'n', 'i', 't', 'y'],
        seq!['I', 'N', 'F', 'I', 'N', 'I', 'T', 'Y'],
    )
}

/// The value of an ASCII digit.
pub open spec fn spec_digit(c: char) -> int {
    (c as u32) as int - ('0' as u32) as int
}

/// The natural number written by the decimal digits `ds`.
pub open spec fn spec_digits_value(ds: Seq<char>) -> nat
    decreases ds.len(),
{
    if ds.len() == 0 {
        0
    } else {
        let d = spec_digit(ds.last());
        (spec_digits_value(ds.drop_last()) * 10 + (if d < 0 { 0 } else { d })) as nat
    }
}

/// The mantissa digits of an unsigned decimal `t` (integer then fraction digits).
pub open spec fn spec_mantissa_digits(t: Seq<char>) -> Seq<char> {
    let a = spec_digits_end(t, 0);
    if a < t.len() && t[a] == '.' {
        t.take(a) + t.subrange(a + 1, spec_digits_end(t, a + 1))
    } else {
        t.take(a)
    }
}

/// The decimal exponent of an unsigned decimal `t` (0 without an exponent part).
pub open spec fn spec_exponent(t: Seq<char>) -> int {
    let m = spec_mantissa_end(t);
    if m >= t.len() || m < 0 {
        0
    } else {
        let e = t.skip(m);
        let neg = e.len() > 1 && e[1] == '-';
        let c = 1 + spec_sign_len(e.skip(1));
        let mag = spec_digits_value(e.skip(c)) as int;
        if neg {
            -mag
        } else {
            mag
        }
    }
}

/// Where the decimal point falls within the mantissa digits once the exponent
/// is applied: the value is `0.D * 10^point` for mantissa digits `D`.
pub open spec fn spec_point(t: Seq<char>) -> int {
    spec_digits_end(t, 0) + spec_exponent(t)
}

/// The mantissa digit at position `k`, with zeros on either side.
pub open spec fn spec_digit_at(ds: Seq<char>, k: int) -> char {
    if 0 <= k < ds.len() {
        ds[k]
    } else {
        '0'
    }
}

/// The integer-part digits of `0.D * 10^p`.
pub open spec fn spec_int_digits(ds: Seq<char>, p: int) -> Seq<char> {
    if p <= 0 {
        Seq::empty()
    } else {
        Seq::new(p as nat, |i: int| spec_digit_at(ds, i))
    }
}

/// The magnitude of the literal truncated toward zero (finite literals).
pub open spec fn spec_trunc(s: Seq<char>) -> nat {
    let t = spec_num_body(s);
    spec_digits_value(spec_int_digits(spec_mantissa_digits(t), spec_point(t)))
}

/// Whether the finite literal denotes an integer: every mantissa digit after
/// the decimal point is `0`.
pub open spec fn spec_is_integral(s: Seq<char>) -> bool {
    let t = spec_num_body(s);
    let ds = spec_mantissa_digits(t);
    let p = spec_point(t);
    forall|k: int| 0 <= k < ds.len() && k >= p ==> ds[k] == '0'
}

/// The literal's value as a positive `u32`, when it denotes one exactly. The
/// value is read from the decimal digits exactly; a reading through `f64`
/// rounds literals beyond its precision first (`0.99999999999999999` is 1
/// there); that rounding is floating point and is not modelled here.
pub open spec fn spec_positive_u32(s: Seq<char>) -> Option<u32> {
    if !spec_is_float_literal(s) || spec_num_is_nan(s) || spec_num_is_inf(s) || spec_num_neg(s) || !spec_is_integral(s) {
        None
    } else if 1 <= spec_trunc(s) <= u32::MAX {
        Some(spec_trunc(s) as u32)
    } else {
        None
    }
}

/// The literal's value converted with `as i64`: truncated toward zero and
/// saturated to the `i64` range; NaN gives 0. The value is read from the
/// decimal digits exactly, not first rounded to the nearest `f64`
/// (`9007199254740993` stays odd here).
pub open spec fn spec_as_i64(s: Seq<char>) -> i64 {
    if !spec_is_float_literal(s) || spec_num_is_nan(s) {
        0
    } else if spec_num_is_inf(s) {
        if spec_num_neg(s) {
            i64::MIN
        } else {
            i64::MAX
        }
    } else if spec_num_neg(s) {
        if spec_trunc(s) >= 0x8000_0000_0000_0000 {
            i64::MIN
        } else {
            (-(spec_trunc(s) as int)) as i64
        }
    } else if spec_trunc(s) >= 0x7fff_ffff_ffff_ffff {
        i64::MAX
    } else {
        spec_trunc(s) as i64
    }
}

/// `x` capped at `cap`.
pub open spec fn sat(x: int, cap: int) -> int {
    if x > cap {
        cap
    } else {
        x
    }
}

/// Ten to the power `k`.
pub open spec fn pow10(k: nat) -> nat
    decreases k,
{
    if k == 0 {
        1
    } else {
        10 * pow10((k - 1) as nat)
    }
}

/// `k` zero digits.
pub open spec fn zeros(k: nat) -> Seq<char> {
    Seq::new(k, |i: int| '0')
}

pub proof fn lemma_digits_value_push(ds: Seq<char>, c: char)
    requires
        spec_is_digit(c),
    ensures
        spec_digits_value(ds.push(c)) == spec_digits_value(ds) * 10 + spec_digit(c),
{
    assert(ds.push(c).drop_last() =~= ds);
}

pub proof fn lemma_digits_value_zeros(x: Seq<char>, k: nat)
    ensures
        spec_digits_value(x + zeros(k)) == spec_digits_value(x) * pow10(k),
    decreases k,
{
    if k == 0 {
        assert(x + zeros(0) =~= x);
        assert(pow10(0) == 1);
        assert(spec_digits_value(x) * 1 == spec_digits_value(x));
    } else {
        lemma_digits_value_zeros(x, (k - 1) as nat);
        let y = x + zeros(k);
        let y1 = x + zeros((k - 1) as nat);
        assert(y.drop_last() =~= y1);
        assert(y.last() == '0');
        assert(spec_digit('0') == 0);
        let v = spec_digits_value(x);
        let q = pow10((k - 1) as nat);
        assert(spec_digits_value(y1) == v * q);
        assert(spec_digits_value(y) == spec_digits_value(y1) * 10);
        assert(pow10(k) == 10 * q);
        assert(v * q * 10 == v * (10 * q)) by (nonlinear_arith);
        assert(spec_digits_value(y) == v * pow10(k));
    }
}

pub proof fn lemma_sat_step(x: int, d: int, cap: int)
    requires
        0 <= x,
        0 <= d <= 9,
        0 <= cap,
    ensures
        sat(10 * x + d, cap) == sat(10 * sat(x, cap) + d, cap),
{
}

/// The exponent magnitude bound past which only the side of the digits matters.
pub open spec fn exp_cap() -> int {
    0x1_0000_0000_0000_0000_0000_0000
}

/// The value of digits `s[start..end]`, capped at `cap`.
fn digits_value_saturating(s: &[char], start: usize, end: usize, cap: u128) -> (r: u128)
    requires
        start <= end <= s@.len(),
        forall|k: int| start <= k < end ==> spec_is_digit(s@[k]),
        cap < 0x1_0000_0000_0000_0000_0000_0000_0000,
    ensures
        r == sat(spec_digits_value(s@.subrange(start as int, end as int)) as int, cap as int),
{
    let mut acc: u128 = 0;
    let mut j = start;
    proof {
        assert(s@.subrange(start as int, start as int) =~= Seq::<char>::empty());
    }
    while j < end
        invariant
            start <= j <= end <= s@.len(),
            forall|k: int| start <= k < end ==> spec_is_digit(s@[k]),
            cap < 0x1_0000_0000_0000_0000_0000_0000_0000,
            acc == sat(spec_digits_value(s@.subrange(start as int, j as int)) as int, cap as int),
        decreases end - j,
    {
        let d = (s[j] as u32 - '0' as u32) as u128;
        proof {
            let pre = s@.subrange(start as int, j as int);
            assert(s@.subrange(start as int, j + 1) =~= pre.push(s@[j as int]));
            lemma_digits_value_push(pre, s@[j as int]);
            lemma_sat_step(spec_digits_value(pre) as int, d as int, cap as int);
        }
        let next = acc * 10 + d;
        acc = if next > cap {
            cap
        } else {
            next
        };
        j += 1;
    }
    acc
}

/// The mantissa digits and decimal point of an unsigned decimal `t`, the
/// exponent magnitude capped at `exp_cap()`.
fn decompose(t: &[char]) -> (r: (Vec<char>, i128))
    requires
        spec_is_decimal(t@),
    ensures
        r.0@ == spec_mantissa_digits(t@),
        r.0@.len() <= t@.len(),
        forall|k: int| 0 <= k < r.0@.len() ==> spec_is_digit(r.0@[k]),
        (r.1 as int) == spec_digits_end(t@, 0) + (if spec_exponent(t@) > exp_cap() {
            exp_cap()
        } else if spec_exponent(t@) < -exp_cap() {
            -exp_cap()
        } else {
            spec_exponent(t@)
        }),
{
    let a = digits_end(t, 0);
    proof {
        lemma_digits_end_bounds(t@, 0);
    }
    let mut ds: Vec<char> = crate::text::copy_range(t, 0, a);
    proof {
        assert(t@.subrange(0, a as int) =~= t@.take(a as int));
    }
    let mut m = a;
    if a < t.len() && t[a] == '.' {
        m = digits_end(t, a + 1);
        proof {
            lemma_digits_end_bounds(t@, a + 1);
        }
        crate::text::append_range(&mut ds, t, a + 1, m);
    }
    proof {
        assert(ds@ =~= spec_mantissa_digits(t@));
        assert forall|k: int| 0 <= k < ds@.len() implies spec_is_digit(ds@[k]) by {
            if k < a {
                assert(ds@[k] == t@[k]);
            } else {
                assert(ds@[k] == t@[k + 1]);
            }
        }
    }
    let mut e: i128 = 0;
    if m < t.len() {
        let ex = &t[m..t.len()];
        proof {
            assert(ex@ =~= t@.skip(m as int));
        }
        let neg = ex.len() > 1 && ex[1] == '-';
        let c: usize = if ex.len() > 1 && (ex[1] == '+' || ex[1] == '-') {
            2
        } else {
            1
        };
        proof {
            assert(ex@.skip(1).len() > 0 ==> ex@.skip(1)[0] == ex@[1]);
            assert(spec_is_exponent(ex@));
            lemma_digits_end_bounds(ex@, c as int);
            assert(ex@.skip(c as int) =~= ex@.subrange(c as int, ex@.len() as int));
        }
        let cap: u128 = 0x1_0000_0000_0000_0000_0000_0000;
        let mag = digits_value_saturating(ex, c, ex.len(), cap);
        let mag = mag as i128;
        e = if neg {
            -mag
        } else {
            mag
        };
    }
    (ds, a as i128 + e)
}


pub proof fn lemma_pow10_monotone(a: nat, b: nat)
    requires
        a <= b,
    ensures
        pow10(a) <= pow10(b),
    decreases b,
{
    if a < b {
        lemma_pow10_monotone(a, (b - 1) as nat);
    }
}

/// The integer digits far past the mantissa only add zeros.
pub proof fn lemma_int_digits_high(ds: Seq<char>, p: int, cap: int)
    requires
        p > ds.len() + 20,
        0 <= cap < 100_000_000_000_000_000_000,
    ensures
        sat(spec_digits_value(spec_int_digits(ds, p)) as int, cap) == (if spec_digits_value(
            spec_int_digits(ds, ds.len() as int),
        ) == 0 {
            0
        } else {
            cap
        }),
{
    let base = spec_int_digits(ds, ds.len() as int);
    let k = (p - ds.len()) as nat;
    if ds.len() == 0 {
        assert(base =~= Seq::<char>::empty());
    }
    assert(spec_int_digits(ds, p) =~= base + zeros(k));
    lemma_digits_value_zeros(base, k);
    lemma_pow10_monotone(20, k);
    assert(pow10(20) == 100_000_000_000_000_000_000) by {
        reveal_with_fuel(pow10, 21);
    }
    let v = spec_digits_value(base);
    let q = pow10(k);
    if v != 0 {
        assert(v * q >= q) by (nonlinear_arith)
            requires
                v >= 1,
                q >= 0,
        ;
    } else {
        assert(v * q == 0) by (nonlinear_arith)
            requires
                v == 0,
        ;
    }
}

/// The integer part of `0.D * 10^p`, capped at `cap`.
fn int_part_saturating(ds: &[char], p: i128, cap: u128) -> (r: u128)
    requires
        forall|k: int| 0 <= k < ds@.len() ==> spec_is_digit(ds@[k]),
        cap < 100_000_000_000_000_000_000,
        ds@.len() < 0x1_0000_0000_0000_0000,
    ensures
        r == sat(spec_digits_value(spec_int_digits(ds@, p as int)) as int, cap as int),
{
    if p <= 0 {
        return 0;
    }
    let limit: i128 = ds.len() as i128 + 20;
    let bound: i128 = if p < limit {
        p
    } else {
        limit
    };
    let mut acc: u128 = 0;
    let mut j: i128 = 0;
    proof {
        assert(spec_int_digits(ds@, 0) =~= Seq::<char>::empty());
    }
    while j < bound
        invariant
            0 <= j <= bound,
            bound <= p,
            bound <= ds@.len() + 20,
            forall|k: int| 0 <= k < ds@.len() ==> spec_is_digit(ds@[k]),
            cap < 100_000_000_000_000_000_000,
            acc == sat(spec_digits_value(spec_int_digits(ds@, j as int)) as int, cap as int),
        decreases bound - j,
    {
        let c = if j < ds.len() as i128 {
            ds[j as usize]
        } else {
            '0'
        };
        let d = (c as u32 - '0' as u32) as u128;
        proof {
            let pre = spec_int_digits(ds@, j as int);
            assert(c == spec_digit_at(ds@, j as int));
            if j == 0 {
                assert(spec_int_digits(ds@, 1) =~= pre.push(c));
            } else {
                assert(spec_int_digits(ds@, j + 1) =~= pre.push(c));
            }
            lemma_digits_value_push(pre, c);
            lemma_sat_step(spec_digits_value(pre) as int, d as int, cap as int);
        }
        let next = acc * 10 + d;
        acc = if next > cap {
            cap
        } else {
            next
        };
        j += 1;
    }
    if bound < p {
        proof {
            let base = spec_int_digits(ds@, ds@.len() as int);
            let pre = spec_int_digits(ds@, j as int);
            let k20 = 20nat;
            if ds@.len() == 0 {
                assert(base =~= Seq::<char>::empty());
            }
            assert(pre =~= base + zeros(k20));
            lemma_digits_value_zeros(base, k20);
            assert(pow10(20) == 100_000_000_000_000_000_000) by {
                reveal_with_fuel(pow10, 21);
            }
            let v = spec_digits_value(base);
            if v != 0 {
                assert(v * pow10(20) >= pow10(20)) by (nonlinear_arith)
                    requires
                        v >= 1,
                ;
            }
            lemma_int_digits_high(ds@, p as int, cap as int);
        }
    }
    acc
}

/// Whether every mantissa digit from index `p` on is `0`.
fn frac_is_zero(ds: &[char], p: i128) -> (r: bool)
    ensures
        r == forall|k: int| 0 <= k < ds@.len() && k >= p ==> ds@[k] == '0',
{
    let mut k: usize = if p <= 0 {
        0
    } else if p >= ds.len() as i128 {
        ds.len()
    } else {
        p as usize
    };
    while k < ds.len()
        invariant
            k <= ds@.len(),
            p <= 0 ==> k == 0 || forall|j: int| 0 <= j < k ==> ds@[j] == '0',
            p > 0 ==> k >= p || k == ds@.len(),
            forall|j: int| 0 <= j < k && j >= p ==> ds@[j] == '0',
        decreases ds@.len() - k,
    {
        if ds[k] != '0' {
            return false;
        }
        k += 1;
    }
    true
}

/// How a literal reads: its sign, its class, and for a decimal its mantissa
/// digits and (capped) decimal point.
fn classify(s: &[char]) -> (r: (bool, u8, Vec<char>, i128))
    requires
        spec_is_float_literal(s@),
    ensures
        r.0 == spec_num_neg(s@),
        r.1 == 0 <==> spec_num_is_nan(s@),
        r.1 == 1 <==> spec_num_is_inf(s@),
        r.1 == 2 <==> !spec_num_is_nan(s@) && !spec_num_is_inf(s@),
        r.1 == 2 ==> spec_is_decimal(spec_num_body(s@)),
        r.1 == 2 ==> r.2@ == spec_mantissa_digits(spec_num_body(s@)),
        r.1 == 2 ==> r.2@.len() <= s@.len(),
        r.1 == 2 ==> forall|k: int| 0 <= k < r.2@.len() ==> spec_is_digit(r.2@[k]),
        r.1 == 2 ==> (r.3 as int) == spec_digits_end(spec_num_body(s@), 0) + (if spec_exponent(
            spec_num_body(s@),
        ) > exp_cap() {
            exp_cap()
        } else if spec_exponent(spec_num_body(s@)) < -exp_cap() {
            -exp_cap()
        } else {
            spec_exponent(spec_num_body(s@))
        }),
{
    let neg = s.len() > 0 && s[0] == '-';
    let b: usize = if s.len() > 0 && (s[0] == '+' || s[0] == '-') {
        1
    } else {
        0
    };
    let t = &s[b..s.len()];
    proof {
        assert(t@ =~= spec_num_body(s@));
    }
    let inf_lo = ['i', 'n', 'f'];
    let inf_up = ['I', 'N', 'F'];
    let infinity_lo = ['i', 'n', 'f', 'i', 'n', 'i', 't', 'y'];
    let infinity_up = ['I', 'N', 'F', 'I', 'N', 'I', 'T', 'Y'];
    let nan_lo = ['n', 'a', 'n'];
    let nan_up = ['N', 'A', 'N'];
    proof {
        assert(inf_lo@ =~= seq!['i', 'n', 'f']);
        assert(inf_up@ =~= seq!['I', 'N', 'F']);
        assert(infinity_lo@ =~= seq!['i', 'n', 'f', 'i', 'n', 'i', 't', 'y']);
        assert(infinity_up@ =~= seq!['I', 'N', 'F', 'I', 'N', 'I', 'T', 'Y']);
        assert(nan_lo@ =~= seq!['n', 'a', 'n']);
        assert(nan_up@ =~= seq!['N', 'A', 'N']);
        if spec_eq_ignore_case(t@, seq!['n', 'a', 'n'], seq!['N', 'A', 'N']) {
            assert(t@[0] == 'n' || t@[0] == 'N');
            assert(!spec_num_is_inf(s@));
        }
    }
    if eq_ignore_case(t, &nan_lo, &nan_up) {
        return (neg, 0, Vec::new(), 0);
    }
    if eq_ignore_case(t, &inf_lo, &inf_up) || eq_ignore_case(t, &infinity_lo, &infinity_up) {
        return (neg, 1, Vec::new(), 0);
    }
    let (ds, p) = decompose(t);
    (neg, 2, ds, p)
}

impl Number {
    /// The value as a positive `u32`, when the literal denotes one exactly
    /// (as `n >= 1 && n.fract() == 0 && n <= u32::MAX` then `n as u32`).
    pub fn as_positive_u32(&self) -> (r: Option<u32>)
        ensures
            r == spec_positive_u32(self@),
    {
        let s = chars_of(self.literal.as_str());
        if !is_float_literal(s.as_slice()) {
            return None;
        }
        let (neg, class, ds, p) = classify(s.as_slice());
        if class != 2 || neg {
            return None;
        }
        let ghost t = spec_num_body(s@);
        proof {
            let e = spec_exponent(t);
            let a = spec_digits_end(t, 0);
            lemma_digits_end_bounds(t, 0);
            assert(s@.len() == s.len());
            if e > exp_cap() {
                lemma_int_digits_high(ds@, p as int, 0x1_0000_0000);
                lemma_int_digits_high(ds@, spec_point(t), 0x1_0000_0000);
            } else if e < -exp_cap() {
                assert(spec_int_digits(ds@, spec_point(t)) =~= Seq::<char>::empty());
            }
        }
        if !frac_is_zero(ds.as_slice(), p) {
            return None;
        }
        let v = int_part_saturating(ds.as_slice(), p, 0x1_0000_0000);
        if v >= 1 && v <= 0xffff_ffff {
            Some(v as u32)
        } else {
            None
        }
    }

    /// The value converted with `as i64`: truncated toward zero, saturated to
    /// the `i64` range, NaN giving 0.
    pub fn as_i64(&self) -> (r: i64)
        ensures
            r == spec_as_i64(self@),
    {
        let s = chars_of(self.literal.as_str());
        if !is_float_literal(s.as_slice()) {
            return 0;
        }
        let (neg, class, ds, p) = classify(s.as_slice());
        if class == 0 {
            return 0;
        }
        if class == 1 {
            return if neg {
                i64::MIN
            } else {
                i64::MAX
            };
        }
        let ghost t = spec_num_body(s@);
        proof {
            let e = spec_exponent(t);
            lemma_digits_end_bounds(t, 0);
            assert(s@.len() == s.len());
            if e > exp_cap() {
                lemma_int_digits_high(ds@, p as int, 0x8000_0000_0000_0000);
                lemma_int_digits_high(ds@, spec_point(t), 0x8000_0000_0000_0000);
            } else if e < -exp_cap() {
                assert(spec_int_digits(ds@, spec_point(t)) =~= Seq::<char>::empty());
            }
        }
        let v = int_part_saturating(ds.as_slice(), p, 0x8000_0000_0000_0000);
        if neg {
            if v >= 0x8000_0000_0000_0000 {
                i64::MIN
            } else {
                -(v as i64)
            }
        } else if v >= 0x7fff_ffff_ffff_ffff {
            i64::MAX
        } else {
            v as i64
        }
    }
}


// ---------------------------------------------------------------------------
// Display
// ---------------------------------------------------------------------------

/// The first index at or after `i` whose digit is not `0`, or the length.
pub open spec fn spec_first_nonzero(ds: Seq<char>, i: int) -> int
    decreases ds.len() - i,
{
    if i >= ds.len() || i < 0 {
        if i < 0 { 0 } else { ds.len() as int }
    } else if ds[i] != '0' {
        i
    } else {
        spec_first_nonzero(ds, i + 1)
    }
}

/// The end of `ds.take(j)` once trailing `0` digits are dropped.
pub open spec fn spec_nonzero_end(ds: Seq<char>, j: int) -> int
    decreases j,
{
    if j <= 0 || j > ds.len() {
        0
    } else if ds[j - 1] != '0' {
        j
    } else {
        spec_nonzero_end(ds, j - 1)
    }
}

/// The decimal text of `0.D * 10^p` (without sign), in `f64` `Display` form.
pub open spec fn spec_finite_display(ds: Seq<char>, p: int) -> Seq<char> {
    let f = spec_first_nonzero(ds, 0);
    let l = spec_nonzero_end(ds, ds.len() as int);
    if f >= ds.len() {
        seq!['0']
    } else if p - f > 309 {
        seq!['i', 'n', 'f']
    } else if f - p >= 324 {
        seq!['0']
    } else {
        let int_str = if p <= f {
            seq!['0']
        } else {
            Seq::new((p - f) as nat, |i: int| spec_digit_at(ds, f + i))
        };
        let frac = if p >= l {
            Seq::<char>::empty()
        } else {
            seq!['.'] + Seq::new((l - p) as nat, |i: int| spec_digit_at(ds, p + i))
        };
        int_str + frac
    }
}

/// The decimal text of the literal's value in the form `f64`'s `Display`
/// writes it: no exponent, no leading zeros in the integer part (`0` when it
/// is empty), no trailing zeros in the fraction (no `.` when it is empty), `-`
/// before a negative value (and before zero written with `-`), `inf`/`-inf`
/// past 309 integer digits, `0` when the first significant digit lies 324 or
/// more places after the point, and `inf`, `-inf` and `NaN` for the named
/// literals.
pub open spec fn spec_display(s: Seq<char>) -> Seq<char> {
    let sign = if spec_num_neg(s) {
        seq!['-']
    } else {
        Seq::<char>::empty()
    };
    if !spec_is_float_literal(s) {
        s
    } else if spec_num_is_nan(s) {
        seq!['N', 'a', 'N']
    } else if spec_num_is_inf(s) {
        sign + seq!['i', 'n', 'f']
    } else {
        let t = spec_num_body(s);
        sign + spec_finite_display(spec_mantissa_digits(t), spec_point(t))
    }
}

pub proof fn lemma_first_nonzero_bounds(ds: Seq<char>, i: int)
    requires
        0 <= i <= ds.len(),
    ensures
        i <= spec_first_nonzero(ds, i) <= ds.len(),
        spec_first_nonzero(ds, i) < ds.len() ==> ds[spec_first_nonzero(ds, i)] != '0',
    decreases ds.len() - i,
{
    if i < ds.len() && ds[i] == '0' {
        lemma_first_nonzero_bounds(ds, i + 1);
    }
}

pub proof fn lemma_nonzero_end_bounds(ds: Seq<char>, j: int)
    requires
        0 <= j <= ds.len(),
    ensures
        0 <= spec_nonzero_end(ds, j) <= j,
        spec_nonzero_end(ds, j) > 0 ==> ds[spec_nonzero_end(ds, j) - 1] != '0',
        forall|k: int| spec_nonzero_end(ds, j) <= k < j ==> ds[k] == '0',
    decreases j,
{
    if j > 0 && ds[j - 1] == '0' {
        lemma_nonzero_end_bounds(ds, j - 1);
    }
}

/// Appends `ds`'s digits at positions `from..to`, zeros outside `ds`.
fn push_digits(out: &mut Vec<char>, ds: &[char], from: i128, to: i128)
    requires
        from <= to,
        to - from < 0x1_0000_0000_0000_0000_0000_0000,
    ensures
        final(out)@ == old(out)@ + Seq::new((to - from) as nat, |i: int| spec_digit_at(ds@, from + i)),
{
    let ghost base = out@;
    let mut k = from;
    while k < to
        invariant
            from <= k <= to,
            out@ == base + Seq::new((k - from) as nat, |i: int| spec_digit_at(ds@, from + i)),
        decreases to - k,
    {
        let c = if 0 <= k && k < ds.len() as i128 {
            ds[k as usize]
        } else {
            '0'
        };
        out.push(c);
        proof {
            assert(c == spec_digit_at(ds@, k as int));
            assert(Seq::new((k + 1 - from) as nat, |i: int| spec_digit_at(ds@, from + i)) =~= Seq::new(
                (k - from) as nat,
                |i: int| spec_digit_at(ds@, from + i),
            ).push(c));
        }
        k += 1;
    }
}

/// The decimal text of `0.D * 10^p` (see [`spec_finite_display`]).
fn finite_display(ds: &[char], p: i128) -> (r: Vec<char>)
    requires
        ds@.len() < 0x1_0000_0000_0000_0000,
        -0x1_0000_0000_0000_0000_0000_0000_0000 < p < 0x1_0000_0000_0000_0000_0000_0000_0000,
    ensures
        r@ == spec_finite_display(ds@, p as int),
{
    let mut out: Vec<char> = Vec::new();
    let mut f: usize = 0;
    while f < ds.len() && ds[f] == '0'
        invariant
            f <= ds@.len(),
            spec_first_nonzero(ds@, 0) == spec_first_nonzero(ds@, f as int),
        decreases ds@.len() - f,
    {
        f += 1;
    }
    let mut l: usize = ds.len();
    while l > 0 && ds[l - 1] == '0'
        invariant
            l <= ds@.len(),
            spec_nonzero_end(ds@, ds@.len() as int) == spec_nonzero_end(ds@, l as int),
        decreases l,
    {
        l -= 1;
    }
    proof {
        lemma_nonzero_end_bounds(ds@, ds@.len() as int);
        lemma_first_nonzero_bounds(ds@, 0);
    }
    if f >= ds.len() {
        out.push('0');
        proof {
            assert(out@ =~= seq!['0']);
        }
        return out;
    }
    let fi = f as i128;
    if p - fi > 309 {
        out.push('i');
        out.push('n');
        out.push('f');
        proof {
            assert(out@ =~= seq!['i', 'n', 'f']);
        }
        return out;
    }
    if fi - p >= 324 {
        out.push('0');
        proof {
            assert(out@ =~= seq!['0']);
        }
        return out;
    }
    if p <= fi {
        out.push('0');
    } else {
        push_digits(&mut out, ds, fi, p);
    }
    let ghost mid = out@;
    let li = l as i128;
    if p < li {
        out.push('.');
        push_digits(&mut out, ds, p, li);
    }
    proof {
        let int_str = if p <= f {
            seq!['0']
        } else {
            Seq::new((p - f) as nat, |i: int| spec_digit_at(ds@, f + i))
        };
        let frac = if p >= l {
            Seq::<char>::empty()
        } else {
            seq!['.'] + Seq::new((l - p) as nat, |i: int| spec_digit_at(ds@, p + i))
        };
        assert(mid =~= int_str);
        assert(out@ =~= int_str + frac);
    }
    out
}

/// Capping the exponent does not change the displayed text.
proof fn lemma_finite_display_capped(ds: Seq<char>, a: int, e: int)
    requires
        0 <= a <= ds.len() < 0x1_0000_0000_0000_0000,
    ensures
        spec_finite_display(ds, a + (if e > exp_cap() {
            exp_cap()
        } else if e < -exp_cap() {
            -exp_cap()
        } else {
            e
        })) == spec_finite_display(ds, a + e),
{
    lemma_first_nonzero_bounds(ds, 0);
}

impl Number {
    /// The value written as `f64`'s `Display` does (see [`spec_display`]).
    pub fn to_display_string(&self) -> (r: String)
        ensures
            r@ == spec_display(self@),
    {
        let s = chars_of(self.literal.as_str());
        if !is_float_literal(s.as_slice()) {
            return self.literal.clone();
        }
        let (neg, class, ds, p) = classify(s.as_slice());
        let mut out: Vec<char> = Vec::new();
        if class == 0 {
            out.push('N');
            out.push('a');
            out.push('N');
            proof {
                assert(out@ =~= seq!['N', 'a', 'N']);
            }
            return string_of(out.as_slice());
        }
        if neg {
            out.push('-');
        }
        let ghost sign = out@;
        proof {
            if neg {
                assert(sign =~= seq!['-']);
            } else {
                assert(sign =~= Seq::<char>::empty());
            }
        }
        if class == 1 {
            out.push('i');
            out.push('n');
            out.push('f');
            proof {
                assert(out@ =~= sign + seq!['i', 'n', 'f']);
            }
            return string_of(out.as_slice());
        }
        proof {
            let t = spec_num_body(s@);
            assert(s@.len() == s.len());
            lemma_digits_end_bounds(t, 0);
            lemma_finite_display_capped(ds@, spec_digits_end(t, 0), spec_exponent(t));
        }
        let body = finite_display(ds.as_slice(), p);
        crate::text::append_range(&mut out, body.as_slice(), 0, body.len());
        proof {
            assert(body@.subrange(0, body@.len() as int) =~= body@);
        }
        string_of(out.as_slice())
    }
}

} // verus!
