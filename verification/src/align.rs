//! Pad wisp's uniform structs to a 16-byte multiple before compilation.
//!
//! Devices without `DownlevelFlags::BUFFER_BINDINGS_NOT_16_BYTE_ALIGNED` -
//! notably WebGL2 - reject a uniform buffer binding whose *type* size is not a
//! multiple of 16 bytes. wisp's globals/params structs can be smaller (a single
//! `f32` is 4 bytes), so the pipeline would fail validation there.
//!
//! Before compiling, [`pad_uniform_structs`] appends trailing `f32` padding
//! members to each uniform struct (`@group(0)`/`@group(1)` `@binding(0)`) whose
//! size is not a multiple of 16. The schema rounds its reported size to match
//! (see [`crate::schema::hints::spec_uniform_size`]), so the buffer, the bind
//! group layout and the compiled shader all agree. Padding is harmless on
//! devices that don't need it.
//!
//! Padding uses individual `f32` members rather than an array: WGSL requires
//! array elements in the uniform address space to have a 16-byte stride, so an
//! `array<f32, N>` would not pack tightly (or validate) here.
//!
//! Source positions from the module are byte offsets; the source is handled
//! as characters, each of which takes its UTF-8 length in bytes.

use crate::reflect::{
    spec_type_at, spec_type_span_end, GlobalVariable, ReflectedModule, TypeInner, VarSpace,
};
use crate::schema::assemble::{spec_insert_pos, spec_sort_by_key};
use crate::text::{append_range, chars_of, decimal, spec_decimal, string_of};
use vstd::prelude::*;

verus! {

/// The number of UTF-8 bytes of a character.
pub open spec fn spec_utf8_len(c: char) -> int {
    if (c as u32) < 0x80 {
        1
    } else if (c as u32) < 0x800 {
        2
    } else if (c as u32) < 0x10000 {
        3
    } else {
        4
    }
}

/// The character index at which byte offset `end` falls, scanning from
/// character `k` whose byte offset is `at`; `None` when `end` is past the end
/// of `s` or inside a character (where `str::get(..end)` gives `None`).
pub open spec fn spec_boundary_from(s: Seq<char>, end: int, k: int, at: int) -> Option<int>
    decreases s.len() - k,
{
    if at == end {
        Some(k)
    } else if at > end || k >= s.len() || k < 0 {
        None
    } else {
        spec_boundary_from(s, end, k + 1, at + spec_utf8_len(s[k]))
    }
}

/// The last index of `c` in `s.take(k)`, when there is one.
pub open spec fn spec_rfind(s: Seq<char>, c: char, k: int) -> Option<int>
    decreases k,
{
    if k <= 0 {
        None
    } else if s[k - 1] == c {
        Some(k - 1)
    } else {
        spec_rfind(s, c, k - 1)
    }
}

/// Where to pad the uniform struct of a variable, and with how many `f32`
/// members: for a `@group(0)`/`@group(1)` `@binding(0)` uniform struct whose
/// size is not a multiple of 16, the position of the last `}` within the
/// struct's source span (its closing brace) and the missing bytes over 4.
pub open spec fn spec_pad_target(source: Seq<char>, m: ReflectedModule, var: GlobalVariable) -> Option<(int, u32)> {
    if var.space != VarSpace::Uniform {
        None
    } else {
        match var.binding {
            None => None,
            Some(rb) => if rb.binding != 0 || rb.group > 1 {
                None
            } else {
                match spec_type_at(m, var.ty as int) {
                    TypeInner::Struct { span, .. } => {
                        let rem = span % 16;
                        if rem == 0 {
                            None
                        } else {
                            match spec_type_span_end(m, var.ty as int) {
                                None => None,
                                Some(end) => match spec_boundary_from(source, end as int, 0, 0) {
                                    None => None,
                                    Some(k) => match spec_rfind(source, '}', k) {
                                        None => None,
                                        Some(close) => Some((close, ((16 - rem) / 4) as u32)),
                                    },
                                },
                            }
                        }
                    },
                    _ => None,
                }
            },
        }
    }
}

/// The padding targets of the variables from index `g` on, in order.
pub open spec fn spec_pad_targets_from(source: Seq<char>, m: ReflectedModule, g: int) -> Seq<(int, u32)>
    decreases m.global_variables@.len() - g,
{
    if g >= m.global_variables@.len() || g < 0 {
        Seq::empty()
    } else {
        match spec_pad_target(source, m, m.global_variables@[g]) {
            Some(t) => seq![t] + spec_pad_targets_from(source, m, g + 1),
            None => spec_pad_targets_from(source, m, g + 1),
        }
    }
}

/// The name prefix of every padding member.
pub open spec fn spec_pad_field() -> Seq<char> {
    "_wisp_align_pad"@
}

/// The padding members `0..n`, each on a line of its own.
pub open spec fn spec_pad_members(n: nat) -> Seq<char>
    decreases n,
{
    if n == 0 {
        Seq::empty()
    } else {
        spec_pad_members((n - 1) as nat) + "\n    "@ + spec_pad_field() + "_"@ + spec_decimal((n - 1) as nat)
            + ": f32,"@
    }
}

/// What is inserted before a closing brace: the padding members, then a
/// line break.
pub open spec fn spec_pad_text(n: nat) -> Seq<char> {
    spec_pad_members(n) + "\n"@
}

/// The key ordering targets from the latest position to the earliest.
pub open spec fn reverse_position_key() -> spec_fn((int, u32)) -> int {
    |t: (int, u32)| -t.0
}

/// `s` with the padding of each target inserted at its position, in the order
/// of the targets.
pub open spec fn spec_insert_all(s: Seq<char>, targets: Seq<(int, u32)>) -> Seq<char>
    decreases targets.len(),
{
    if targets.len() == 0 {
        s
    } else {
        let prev = spec_insert_all(s, targets.drop_last());
        let (at, n) = targets.last();
        prev.take(at) + spec_pad_text(n as nat) + prev.skip(at)
    }
}

/// The padded source: every target's padding inserted, the latest position
/// first so that earlier positions stay valid.
pub open spec fn spec_pad_uniform_structs(source: Seq<char>, m: ReflectedModule) -> Seq<char> {
    spec_insert_all(source, spec_sort_by_key(spec_pad_targets_from(source, m, 0), reverse_position_key()))
}

fn utf8_len(c: char) -> (r: usize)
    ensures
        r == spec_utf8_len(c),
{
    if (c as u32) < 0x80 {
        1
    } else if (c as u32) < 0x800 {
        2
    } else if (c as u32) < 0x10000 {
        3
    } else {
        4
    }
}

fn boundary(s: &[char], end: usize) -> (r: Option<usize>)
    ensures
        match r {
            Some(k) => spec_boundary_from(s@, end as int, 0, 0) == Some(k as int),
            None => spec_boundary_from(s@, end as int, 0, 0) is None,
        },
{
    let mut k: usize = 0;
    let mut at: usize = 0;
    while k < s.len() && at < end
        invariant
            k <= s@.len(),
            at <= end,
            spec_boundary_from(s@, end as int, 0, 0) == spec_boundary_from(s@, end as int, k as int, at as int),
        decreases s@.len() - k,
    {
        let w = utf8_len(s[k]);
        if w > end - at {
            proof {
                assert(spec_boundary_from(s@, end as int, k + 1, at + w) is None);
            }
            return None;
        }
        at = at + w;
        k += 1;
    }
    if at == end {
        Some(k)
    } else {
        None
    }
}

fn rfind(s: &[char], c: char, k: usize) -> (r: Option<usize>)
    requires
        k <= s@.len(),
    ensures
        match r {
            Some(i) => spec_rfind(s@, c, k as int) == Some(i as int),
            None => spec_rfind(s@, c, k as int) is None,
        },
{
    let mut j = k;
    while j > 0 && s[j - 1] != c
        invariant
            j <= k,
            k <= s@.len(),
            spec_rfind(s@, c, k as int) == spec_rfind(s@, c, j as int),
        decreases j,
    {
        j -= 1;
    }
    if j > 0 {
        Some(j - 1)
    } else {
        None
    }
}

/// The closing-brace position and `f32` padding count for a uniform struct
/// that needs padding, or `None` if it is already 16-byte aligned (or not a
/// wisp uniform).
pub fn pad_target(source: &[char], module: &ReflectedModule, var: &GlobalVariable) -> (r: Option<(usize, u32)>)
    ensures
        match r {
            Some((close, n)) => spec_pad_target(source@, *module, *var) == Some((close as int, n)),
            None => spec_pad_target(source@, *module, *var) is None,
        },
{
    if var.space != VarSpace::Uniform {
        return None;
    }
    let rb = match var.binding {
        Some(rb) => rb,
        None => {
            return None;
        },
    };
    if rb.binding != 0 || rb.group > 1 {
        return None;
    }
    let span = match module.type_at(var.ty) {
        Some(TypeInner::Struct { span, .. }) => *span,
        _ => {
            return None;
        },
    };
    let rem = span % 16;
    if rem == 0 {
        return None;
    }
    let end = match module.type_span_end(var.ty) {
        Some(e) => e,
        None => {
            return None;
        },
    };
    let k = match boundary(source, end) {
        Some(k) => k,
        None => {
            return None;
        },
    };
    proof {
        lemma_boundary_bound(source@, end as int, 0, 0);
    }
    match rfind(source, '}', k) {
        Some(close) => Some((close, (16 - rem) / 4)),
        None => None,
    }
}

pub proof fn lemma_boundary_bound(s: Seq<char>, end: int, k: int, at: int)
    requires
        0 <= k,
    ensures
        spec_boundary_from(s, end, k, at) matches Some(i) ==> k <= i <= s.len() || (i == k && k > s.len()),
    decreases s.len() - k,
{
    if at != end && !(at > end || k >= s.len() || k < 0) {
        lemma_boundary_bound(s, end, k + 1, at + spec_utf8_len(s[k]));
    }
}

/// The views of padding targets.
pub open spec fn targets_view(v: Seq<(usize, u32)>) -> Seq<(int, u32)> {
    v.map_values(|t: (usize, u32)| (t.0 as int, t.1))
}

pub proof fn lemma_rfind_bound(s: Seq<char>, c: char, k: int)
    ensures
        spec_rfind(s, c, k) matches Some(i) ==> 0 <= i < k,
    decreases k,
{
    if k > 0 && s[k - 1] != c {
        lemma_rfind_bound(s, c, k - 1);
    }
}

/// The padding members `0..n` and the closing line break.
fn pad_text(n: u32) -> (r: Vec<char>)
    ensures
        r@ == spec_pad_text(n as nat),
{
    let mut out: Vec<char> = Vec::new();
    let prefix = chars_of("\n    _wisp_align_pad_");
    let suffix = chars_of(": f32,");
    proof {
        reveal_strlit("\n    ");
        reveal_strlit("_wisp_align_pad");
        reveal_strlit("_");
        reveal_strlit("\n    _wisp_align_pad_");
        assert(prefix@ =~= "\n    "@ + spec_pad_field() + "_"@);
        assert(out@ =~= spec_pad_members(0));
    }
    let mut i: u32 = 0;
    while i < n
        invariant
            i <= n,
            prefix@ == "\n    "@ + spec_pad_field() + "_"@,
            suffix@ == ": f32,"@,
            out@ == spec_pad_members(i as nat),
        decreases n - i,
    {
        let ghost before = out@;
        append_range(&mut out, prefix.as_slice(), 0, prefix.len());
        let digits = decimal(i as u64);
        append_range(&mut out, digits.as_slice(), 0, digits.len());
        append_range(&mut out, suffix.as_slice(), 0, suffix.len());
        proof {
            assert(prefix@.subrange(0, prefix@.len() as int) =~= prefix@);
            assert(digits@.subrange(0, digits@.len() as int) =~= digits@);
            assert(suffix@.subrange(0, suffix@.len() as int) =~= suffix@);
            assert(out@ =~= before + ("\n    "@ + spec_pad_field() + "_"@) + spec_decimal(i as nat) + ": f32,"@);
            assert(spec_pad_members((i + 1) as nat) =~= spec_pad_members(i as nat) + "\n    "@ + spec_pad_field()
                + "_"@ + spec_decimal(i as nat) + ": f32,"@);
        }
        i += 1;
    }
    out.push('\n');
    proof {
        reveal_strlit("\n");
        assert(out@ =~= spec_pad_members(n as nat) + "\n"@);
    }
    out
}

/// `source` with `\n`-ended `f32` padding members inserted before the closing
/// brace of each `@binding(0)` uniform struct of `@group(0)`/`@group(1)`
/// whose byte size is not a multiple of 16. `module` is meant to be the
/// reflection of `source`.
pub fn pad_uniform_structs(source: &str, module: &ReflectedModule) -> (r: String)
    ensures
        r@ == spec_pad_uniform_structs(source@, *module),
{
    let s = chars_of(source);
    let ghost all = spec_pad_targets_from(s@, *module, 0);
    let mut targets: Vec<(usize, u32)> = Vec::new();
    let mut g: usize = 0;
    proof {
        assert(targets_view(targets@) + all =~= all);
    }
    while g < module.global_variables.len()
        invariant
            g <= module.global_variables@.len(),
            s@ == source@,
            all == spec_pad_targets_from(s@, *module, 0),
            all == targets_view(targets@) + spec_pad_targets_from(s@, *module, g as int),
            forall|i: int| 0 <= i < targets@.len() ==> #[trigger] targets@[i].0 < s@.len(),
        decreases module.global_variables@.len() - g,
    {
        match pad_target(s.as_slice(), module, &module.global_variables[g]) {
            Some(t) => {
                let ghost before = targets@;
                proof {
                    let v = module.global_variables@[g as int];
                    if let Some(rb) = v.binding {
                        if let TypeInner::Struct { span, .. } = spec_type_at(*module, v.ty as int) {
                            if let Some(end) = spec_type_span_end(*module, v.ty as int) {
                                if let Some(k) = spec_boundary_from(s@, end as int, 0, 0) {
                                    lemma_boundary_bound(s@, end as int, 0, 0);
                                    lemma_rfind_bound(s@, '}', k);
                                }
                            }
                        }
                    }
                }
                targets.push(t);
                proof {
                    assert(targets_view(targets@) =~= targets_view(before).push((t.0 as int, t.1)));
                    assert(targets_view(before) + (seq![(t.0 as int, t.1)] + spec_pad_targets_from(
                        s@,
                        *module,
                        g + 1,
                    )) =~= targets_view(targets@) + spec_pad_targets_from(s@, *module, g + 1));
                }
            },
            None => {},
        }
        g += 1;
    }
    proof {
        assert(targets_view(targets@) + Seq::<(int, u32)>::empty() =~= targets_view(targets@));
    }
    // Order the targets from the latest position to the earliest (stably).
    let ghost tv = targets_view(targets@);
    let mut sorted: Vec<(usize, u32)> = Vec::new();
    let mut k: usize = 0;
    proof {
        assert(tv.take(0) =~= Seq::<(int, u32)>::empty());
        assert(targets_view(sorted@) =~= Seq::<(int, u32)>::empty());
    }
    while k < targets.len()
        invariant
            k <= targets@.len(),
            tv == targets_view(targets@),
            tv.len() == targets@.len(),
            targets_view(sorted@) == spec_sort_by_key(tv.take(k as int), reverse_position_key()),
        decreases targets@.len() - k,
    {
        let x = targets[k];
        let ghost sv = targets_view(sorted@);
        let mut i: usize = 0;
        while i < sorted.len() && sorted[i].0 >= x.0
            invariant
                i <= sorted@.len(),
                sv == targets_view(sorted@),
                spec_insert_pos(sv, -(x.0 as int), reverse_position_key(), 0) == spec_insert_pos(
                    sv,
                    -(x.0 as int),
                    reverse_position_key(),
                    i as int,
                ),
            decreases sorted@.len() - i,
        {
            i += 1;
        }
        sorted.insert(i, x);
        proof {
            assert(tv.take(k + 1).drop_last() =~= tv.take(k as int));
            assert(tv.take(k + 1).last() == (x.0 as int, x.1));
            assert(targets_view(sorted@) =~= sv.insert(i as int, (x.0 as int, x.1)));
        }
        k += 1;
    }
    proof {
        assert(tv.take(targets@.len() as int) =~= tv);
        crate::schema::assemble::lemma_sort_by_key(tv, reverse_position_key());
    }
    let ghost sorted_v = targets_view(sorted@);
    let mut out = s;
    let mut j: usize = 0;
    proof {
        assert(sorted_v.take(0) =~= Seq::<(int, u32)>::empty());
        assert forall|i: int| 0 <= i < sorted_v.len() implies #[trigger] sorted_v[i].0 < source@.len() by {
            let x = sorted_v[i];
            assert(sorted_v.contains(x));
            assert(tv.contains(x)) by {
                broadcast use vstd::seq_lib::group_to_multiset_ensures;
                assert(sorted_v.to_multiset().count(x) > 0);
            }
            let i2 = choose|i2: int| 0 <= i2 < tv.len() && tv[i2] == x;
            assert(targets@[i2].0 < s@.len());
        }
    }
    while j < sorted.len()
        invariant
            j <= sorted@.len(),
            sorted_v == targets_view(sorted@),
            forall|i: int| 0 <= i < sorted_v.len() ==> #[trigger] sorted_v[i].0 < source@.len(),
            out@.len() >= source@.len(),
            out@ == spec_insert_all(source@, sorted_v.take(j as int)),
        decreases sorted@.len() - j,
    {
        let (at, n) = sorted[j];
        proof {
            assert(sorted_v[j as int].0 == at as int);
        }
        let text = pad_text(n);
        let mut next: Vec<char> = Vec::new();
        append_range(&mut next, out.as_slice(), 0, at);
        append_range(&mut next, text.as_slice(), 0, text.len());
        append_range(&mut next, out.as_slice(), at, out.len());
        proof {
            assert(sorted_v.take(j + 1).drop_last() =~= sorted_v.take(j as int));
            assert(sorted_v.take(j + 1).last() == (at as int, n));
            assert(text@.subrange(0, text@.len() as int) =~= text@);
            assert(next@ =~= out@.take(at as int) + spec_pad_text(n as nat) + out@.skip(at as int));
        }
        out = next;
        j += 1;
    }
    proof {
        assert(sorted_v.take(sorted@.len() as int) =~= sorted_v);
    }
    string_of(out.as_slice())
}

} // verus!
