//! The render-side layout of a schema: bind groups, the per-pass globals
//! buffer, which image a pass samples or writes for each binding, and where
//! each pass renders.

use crate::globals::{pack_globals, spec_fields_fit, spec_pack_fields, GlobalsSchema, GlobalsValues};
use crate::schema::{BindingDesc, PassSchema, PassStage, TextureRole, TextureSchema};
use crate::targets::TargetPlan;
use vstd::prelude::*;

verus! {

// ---------------------------------------------------------------------------
// Bind groups
// ---------------------------------------------------------------------------

/// The number of bind groups: one past the highest group (none without
/// bindings).
pub open spec fn spec_group_count(bs: Seq<BindingDesc>) -> int
    decreases bs.len(),
{
    if bs.len() == 0 {
        0
    } else {
        let rest = spec_group_count(bs.drop_last());
        if bs.last().group + 1 > rest {
            bs.last().group + 1
        } else {
            rest
        }
    }
}

/// The bindings of group `g`, in order.
pub open spec fn spec_group_members(bs: Seq<BindingDesc>, g: int) -> Seq<BindingDesc> {
    bs.filter(|b: BindingDesc| b.group == g)
}

/// The bindings split into their bind groups: group `g` holds the bindings
/// declared in it, in order; groups run from 0 to the highest one.
pub open spec fn spec_binding_groups(bs: Seq<BindingDesc>) -> Seq<Seq<BindingDesc>> {
    Seq::new(spec_group_count(bs) as nat, |g: int| spec_group_members(bs, g))
}

pub proof fn lemma_group_count_bounds(bs: Seq<BindingDesc>)
    ensures
        0 <= spec_group_count(bs),
        forall|i: int| 0 <= i < bs.len() ==> #[trigger] bs[i].group < spec_group_count(bs),
        bs.len() > 0 ==> exists|i: int| 0 <= i < bs.len() && #[trigger] bs[i].group + 1 == spec_group_count(bs),
    decreases bs.len(),
{
    if bs.len() > 0 {
        lemma_group_count_bounds(bs.drop_last());
        assert forall|i: int| 0 <= i < bs.len() implies #[trigger] bs[i].group < spec_group_count(bs) by {
            if i < bs.len() - 1 {
                assert(bs[i] == bs.drop_last()[i]);
            }
        }
        if bs.len() > 1 && spec_group_count(bs) == spec_group_count(bs.drop_last()) {
            let i = choose|i: int| 0 <= i < bs.drop_last().len() && #[trigger] bs.drop_last()[i].group + 1
                == spec_group_count(bs.drop_last());
            assert(bs[i] == bs.drop_last()[i]);
        }
    }
}

fn group_members(bs: &Vec<BindingDesc>, g: u32) -> (r: Vec<BindingDesc>)
    ensures
        r@ == spec_group_members(bs@, g as int),
{
    let mut out: Vec<BindingDesc> = Vec::new();
    let mut k: usize = 0;
    proof {
        assert(bs@.take(0).filter(|b: BindingDesc| b.group == g as int) =~= Seq::<BindingDesc>::empty());
    }
    while k < bs.len()
        invariant
            k <= bs@.len(),
            out@ == bs@.take(k as int).filter(|b: BindingDesc| b.group == g as int),
        decreases bs@.len() - k,
    {
        let b = bs[k];
        proof {
            assert(bs@.take(k + 1).drop_last() =~= bs@.take(k as int));
            assert(bs@.take(k + 1).last() == b);
            reveal(Seq::filter);
        }
        if b.group == g {
            out.push(b);
        }
        k += 1;
    }
    proof {
        assert(bs@.take(bs@.len() as int) =~= bs@);
    }
    out
}

/// The bindings split into their bind groups, from group 0 to the highest.
pub fn binding_groups(bindings: &Vec<BindingDesc>) -> (r: Vec<Vec<BindingDesc>>)
    requires
        forall|i: int| 0 <= i < bindings@.len() ==> #[trigger] bindings@[i].group < u32::MAX,
    ensures
        r@.len() == spec_group_count(bindings@),
        forall|g: int| 0 <= g < r@.len() ==> #[trigger] r@[g]@ == spec_group_members(bindings@, g),
{
    let mut count: u32 = 0;
    let mut k: usize = 0;
    proof {
        assert(bindings@.take(0) =~= Seq::<BindingDesc>::empty());
    }
    while k < bindings.len()
        invariant
            k <= bindings@.len(),
            forall|i: int| 0 <= i < bindings@.len() ==> #[trigger] bindings@[i].group < u32::MAX,
            count == spec_group_count(bindings@.take(k as int)),
        decreases bindings@.len() - k,
    {
        proof {
            assert(bindings@.take(k + 1).drop_last() =~= bindings@.take(k as int));
            assert(bindings@.take(k + 1).last() == bindings@[k as int]);
        }
        if bindings[k].group + 1 > count {
            count = bindings[k].group + 1;
        }
        k += 1;
    }
    proof {
        assert(bindings@.take(bindings@.len() as int) =~= bindings@);
    }
    let mut groups: Vec<Vec<BindingDesc>> = Vec::new();
    let mut g: u32 = 0;
    while g < count
        invariant
            g <= count,
            count == spec_group_count(bindings@),
            groups@.len() == g,
            forall|j: int| 0 <= j < g ==> #[trigger] groups@[j]@ == spec_group_members(bindings@, j),
        decreases count - g,
    {
        groups.push(group_members(bindings, g));
        g += 1;
    }
    groups
}

// ---------------------------------------------------------------------------
// The globals buffer
// ---------------------------------------------------------------------------

/// `n.next_multiple_of(align)`.
pub open spec fn spec_round_up(n: int, align: int) -> int {
    if n % align == 0 {
        n
    } else {
        n - n % align + align
    }
}

/// The globals of each pass packed one after another, each chunk padded with
/// zeroes to a multiple of `align`; gives the buffer and the offset of each
/// pass's chunk. Each chunk holds what [`pack_globals`] gives for the pass.
pub fn pack_globals_chunks(schema: &GlobalsSchema, values: &Vec<GlobalsValues>, align: usize) -> (r: (
    Vec<u8>,
    Vec<u32>,
))
    requires
        align > 0,
        spec_fields_fit(schema.fields@, schema.size),
        values@.len() * spec_round_up(schema.size as int, align as int) <= usize::MAX,
    ensures
        ({
            let stride = spec_round_up(schema.size as int, align as int);
            let (bytes, offsets) = r;
            &&& offsets@.len() == values@.len()
            &&& bytes@.len() == values@.len() * stride
            &&& forall|i: int|
                0 <= i < values@.len() ==> {
                    &&& #[trigger] offsets@[i] == (i * stride) as u32
                    &&& (bytes@.subrange(i * stride, i * stride + schema.size) == spec_pack_fields(
                        schema.fields@,
                        values@[i],
                        true,
                        schema.size as nat,
                    ) || bytes@.subrange(i * stride, i * stride + schema.size) == spec_pack_fields(
                        schema.fields@,
                        values@[i],
                        false,
                        schema.size as nat,
                    ))
                    &&& forall|j: int| i * stride + schema.size <= j < (i + 1) * stride ==> #[trigger] bytes@[j] == 0
                }
        }),
{
    let ghost stride = spec_round_up(schema.size as int, align as int);
    let mut bytes: Vec<u8> = Vec::new();
    let mut offsets: Vec<u32> = Vec::new();
    let mut p: usize = 0;
    proof {
        vstd::arithmetic::div_mod::lemma_mod_bound(schema.size as int, align as int);
        assert(stride >= schema.size);
    }
    while p < values.len()
        invariant
            align > 0,
            p <= values@.len(),
            stride == spec_round_up(schema.size as int, align as int),
            stride >= schema.size,
            values@.len() * stride <= usize::MAX,
            spec_fields_fit(schema.fields@, schema.size),
            offsets@.len() == p,
            bytes@.len() == p * stride,
            forall|i: int|
                0 <= i < p ==> {
                    &&& #[trigger] offsets@[i] == (i * stride) as u32
                    &&& (bytes@.subrange(i * stride, i * stride + schema.size) == spec_pack_fields(
                        schema.fields@,
                        values@[i],
                        true,
                        schema.size as nat,
                    ) || bytes@.subrange(i * stride, i * stride + schema.size) == spec_pack_fields(
                        schema.fields@,
                        values@[i],
                        false,
                        schema.size as nat,
                    ))
                    &&& forall|j: int| i * stride + schema.size <= j < (i + 1) * stride ==> #[trigger] bytes@[j] == 0
                },
        decreases values@.len() - p,
    {
        proof {
            assert((p + 1) * stride <= values@.len() * stride) by (nonlinear_arith)
                requires
                    p + 1 <= values@.len(),
                    stride >= 0,
            ;
            assert((p + 1) * stride == p * stride + stride) by (nonlinear_arith);
        }
        let ghost before = bytes@;
        let ghost prev_off = offsets@;
        offsets.push(bytes.len() as u32);
        let chunk = pack_globals(schema, &values[p]);
        let mut c: usize = 0;
        while c < chunk.len()
            invariant
                c <= chunk@.len(),
                chunk@.len() == schema.size,
                bytes@ == before + chunk@.take(c as int),
                before.len() == p * stride,
                p * stride + stride <= usize::MAX,
                stride >= schema.size,
            decreases chunk@.len() - c,
        {
            bytes.push(chunk[c]);
            proof {
                assert(chunk@.take(c + 1) =~= chunk@.take(c as int).push(chunk@[c as int]));
            }
            c += 1;
        }
        proof {
            assert(chunk@.take(chunk@.len() as int) =~= chunk@);
            assert(bytes@ =~= before + chunk@);
        }
        let ghost packed = bytes@;
        let rem = bytes.len() % align;
        proof {
            vstd::arithmetic::div_mod::lemma_fundamental_div_mod(bytes@.len() as int, align as int);
            vstd::arithmetic::div_mod::lemma_div_pos_is_pos(bytes@.len() as int, align as int);
            assert(rem <= bytes@.len()) by (nonlinear_arith)
                requires
                    bytes@.len() == align * (bytes@.len() as int / align as int) + rem,
                    bytes@.len() as int / align as int >= 0,
                    align > 0,
                    rem >= 0,
            ;
            assert(p * stride + schema.size == bytes@.len());
            vstd::arithmetic::div_mod::lemma_mod_bound(bytes@.len() as int, align as int);
            lemma_round_up_shift(p as int, stride, schema.size as int, align as int);
            assert(spec_round_up(bytes@.len() as int, align as int) == p * stride + stride);
        }
        let target = if rem == 0 {
            bytes.len()
        } else {
            assert(bytes.len() - rem + align == p * stride + stride);
            assert(p * stride + stride <= usize::MAX);
            bytes.len() - rem + align
        };
        while bytes.len() < target
            invariant
                bytes@.len() <= target,
                target == p * stride + stride,
                bytes@.take(packed.len() as int) == packed,
                packed.len() <= bytes@.len(),
                forall|j: int| packed.len() <= j < bytes@.len() ==> #[trigger] bytes@[j] == 0,
            decreases target - bytes@.len(),
        {
            bytes.push(0);
            proof {
                assert(bytes@.take(packed.len() as int) =~= packed);
            }
        }
        proof {
            assert forall|j: int| 0 <= j < before.len() implies #[trigger] bytes@[j] == before[j] by {
                assert(bytes@.take(packed.len() as int)[j] == packed[j]);
            }
            assert forall|j: int| 0 <= j < chunk@.len() implies #[trigger] bytes@[before.len() + j] == chunk@[j] by {
                assert(bytes@.take(packed.len() as int)[before.len() + j] == packed[before.len() + j]);
            }
            assert forall|i: int|
                0 <= i < p + 1 implies {
                    &&& #[trigger] offsets@[i] == (i * stride) as u32
                    &&& (bytes@.subrange(i * stride, i * stride + schema.size) == spec_pack_fields(
                        schema.fields@,
                        values@[i],
                        true,
                        schema.size as nat,
                    ) || bytes@.subrange(i * stride, i * stride + schema.size) == spec_pack_fields(
                        schema.fields@,
                        values@[i],
                        false,
                        schema.size as nat,
                    ))
                    &&& forall|j: int| i * stride + schema.size <= j < (i + 1) * stride ==> #[trigger] bytes@[j] == 0
                } by {
                if i < p {
                    assert(prev_off[i] == (i * stride) as u32);
                    assert(offsets@[i] == prev_off[i]);
                    assert((i + 1) * stride <= p * stride) by (nonlinear_arith)
                        requires
                            i + 1 <= p,
                            stride >= 0,
                    ;
                    assert(i * stride + schema.size <= p * stride) by (nonlinear_arith)
                        requires
                            i + 1 <= p,
                            stride >= schema.size,
                    ;
                    assert(i * stride >= 0) by (nonlinear_arith)
                        requires
                            i >= 0,
                            stride >= 0,
                    ;
                    assert(bytes@.subrange(i * stride, i * stride + schema.size) =~= before.subrange(
                        i * stride,
                        i * stride + schema.size,
                    ));
                    assert forall|j: int| i * stride + schema.size <= j < (i + 1) * stride implies #[trigger] bytes@[j]
                        == 0 by {
                        assert(bytes@[j] == before[j]);
                    }
                } else {
                    assert(i == p);
                    assert(i * stride == before.len());
                    assert forall|k: int| 0 <= k < schema.size implies bytes@.subrange(i * stride, i * stride
                        + schema.size)[k] == chunk@[k] by {
                        assert(bytes@[before.len() + k] == chunk@[k]);
                    }
                    assert(bytes@.subrange(i * stride, i * stride + schema.size) =~= chunk@);
                }
            }
        }
        p += 1;
    }
    (bytes, offsets)
}

proof fn lemma_round_up_shift(p: int, stride: int, size: int, align: int)
    requires
        p >= 0,
        align > 0,
        stride == spec_round_up(size, align),
        size >= 0,
    ensures
        spec_round_up(p * stride + size, align) == p * stride + stride,
{
    vstd::arithmetic::div_mod::lemma_fundamental_div_mod(size, align);
    vstd::arithmetic::div_mod::lemma_mod_bound(size, align);
    let q = size / align;
    let r = size % align;
    assert(stride % align == 0) by {
        if r == 0 {
            vstd::arithmetic::div_mod::lemma_mod_multiples_vanish(q, 0, align);
        } else {
            assert(stride == align * (q + 1)) by (nonlinear_arith)
                requires
                    size == align * q + r,
                    stride == size - r + align,
            ;
            vstd::arithmetic::div_mod::lemma_mod_multiples_vanish(q + 1, 0, align);
        }
    }
    vstd::arithmetic::div_mod::lemma_fundamental_div_mod(stride, align);
    let s = stride / align;
    assert(p * stride == align * (p * s)) by (nonlinear_arith)
        requires
            stride == align * s + 0,
    ;
    vstd::arithmetic::div_mod::lemma_mod_multiples_vanish(p * s, size, align);
}

// ---------------------------------------------------------------------------
// Sampling pass targets
// ---------------------------------------------------------------------------

/// Which image of a pass target a pass samples.
#[derive(Clone, Copy, Debug, PartialEq, Eq, Structural)]
pub enum TargetSample {
    /// The image written this frame (the target's pass already ran).
    Written,
    /// The image holding the previous frame.
    Previous,
    /// The placeholder: the pass renders into the target's only image.
    Placeholder,
}

/// Which image of the target of pass `target_pass` pass `pass_index` samples:
/// passes already rendered this frame are read fresh; a pass reads its own
/// target's previous frame when it has two images, and the placeholder when
/// its only image is its colour attachment; later passes' targets are read
/// from the previous frame.
pub open spec fn spec_target_sample(target_pass: usize, pass_index: usize, ping_pong: bool) -> TargetSample {
    if target_pass < pass_index {
        TargetSample::Written
    } else if target_pass == pass_index && !ping_pong {
        TargetSample::Placeholder
    } else {
        TargetSample::Previous
    }
}

/// Which image of the target of pass `target_pass` pass `pass_index` samples.
pub fn target_sample(target_pass: usize, pass_index: usize, ping_pong: bool) -> (r: TargetSample)
    ensures
        r == spec_target_sample(target_pass, pass_index, ping_pong),
{
    if target_pass < pass_index {
        TargetSample::Written
    } else if target_pass == pass_index && !ping_pong {
        TargetSample::Placeholder
    } else {
        TargetSample::Previous
    }
}

/// Whether any pass of the schema is a compute pass (and so needs compute
/// shader support).
pub fn requires_compute(passes: &Vec<PassSchema>) -> (r: bool)
    ensures
        r == exists|i: int| 0 <= i < passes@.len() && #[trigger] passes@[i].stage == PassStage::Compute,
{
    let mut i: usize = 0;
    while i < passes.len()
        invariant
            i <= passes@.len(),
            forall|j: int| 0 <= j < i ==> #[trigger] passes@[j].stage != PassStage::Compute,
        decreases passes@.len() - i,
    {
        if passes[i].stage == PassStage::Compute {
            return true;
        }
        i += 1;
    }
    false
}

// ---------------------------------------------------------------------------
// What each binding of a pass binds, and where the pass writes
// ---------------------------------------------------------------------------

/// The error reported for each compute pass of a shader on a device without
/// compute shader support.
pub const COMPUTE_UNSUPPORTED: &'static str = "compute shaders are not supported by this device (e.g. under WebGL2); run with a WebGPU or native backend to use compute passes";

/// The first position from `i` of a texture declared at `(group, binding)`
/// (the length if none).
pub open spec fn spec_texture_at_from(textures: Seq<TextureSchema>, group: u32, binding: u32, i: int) -> int
    decreases textures.len() - i,
{
    if i < 0 || i >= textures.len() {
        textures.len() as int
    } else if textures[i].group == group && textures[i].binding == binding {
        i
    } else {
        spec_texture_at_from(textures, group, binding, i + 1)
    }
}

/// The position of the texture declared at `(group, binding)`, if any.
pub fn texture_at(textures: &Vec<TextureSchema>, group: u32, binding: u32) -> (r: Option<usize>)
    ensures
        r == (if spec_texture_at_from(textures@, group, binding, 0) < textures@.len() {
            Some(spec_texture_at_from(textures@, group, binding, 0) as usize)
        } else {
            None::<usize>
        }),
{
    let mut i: usize = 0;
    while i < textures.len()
        invariant
            i <= textures@.len(),
            spec_texture_at_from(textures@, group, binding, 0) == spec_texture_at_from(textures@, group, binding, i as int),
        decreases textures@.len() - i,
    {
        if textures[i].group == group && textures[i].binding == binding {
            return Some(i);
        }
        i += 1;
    }
    None
}

/// What a pass binds for a sampled texture.
#[derive(Clone, Copy, Debug, PartialEq, Eq, Structural)]
pub enum TextureSource {
    /// The image input (or audio texture) of the texture's name.
    Input,
    /// The target of pass `pass`: the image that [`TargetSample`] names.
    Target { pass: usize, sample: TargetSample },
    /// The placeholder image.
    Placeholder,
}

/// What pass `pass_index` binds for a sampled texture of the role, where
/// `ping_pong` says whether the target a `PassTarget` role reads has two
/// images.
pub open spec fn spec_texture_source(role: TextureRole, pass_index: usize, ping_pong: bool) -> TextureSource {
    match role {
        TextureRole::ImageInput | TextureRole::AudioWaveform { .. } | TextureRole::AudioFft { .. } => TextureSource::Input,
        TextureRole::PassTarget { pass } => TextureSource::Target {
            pass,
            sample: spec_target_sample(pass, pass_index, ping_pong),
        },
        TextureRole::StorageTarget { .. } => TextureSource::Placeholder,
    }
}

/// What pass `pass_index` binds for a sampled texture of the role. Audio
/// textures are kept as image inputs; a storage role never reaches a sampled
/// binding.
pub fn texture_source(role: TextureRole, pass_index: usize, ping_pong: bool) -> (r: TextureSource)
    ensures
        r == spec_texture_source(role, pass_index, ping_pong),
{
    match role {
        TextureRole::ImageInput | TextureRole::AudioWaveform { .. } | TextureRole::AudioFft { .. } => TextureSource::Input,
        TextureRole::PassTarget { pass } => TextureSource::Target {
            pass,
            sample: target_sample(pass, pass_index, ping_pong),
        },
        TextureRole::StorageTarget { .. } => TextureSource::Placeholder,
    }
}

/// Whether pass `pass_index` binds the real write view of its target for a
/// storage texture of the role: only the pass that owns the target does;
/// every other pass binds a placeholder, so that the image can be sampled
/// elsewhere in the same usage scope.
pub fn binds_own_storage(role: TextureRole, pass_index: usize) -> (r: bool)
    ensures
        r == (role matches TextureRole::StorageTarget { pass } && pass == pass_index),
{
    match role {
        TextureRole::StorageTarget { pass } => pass == pass_index,
        _ => false,
    }
}

/// Where a pass writes.
#[derive(Clone, Copy, Debug, PartialEq, Eq)]
pub enum PassAttachment {
    /// The final pass renders to the camera's view.
    View,
    /// An intermediate fragment pass renders to its target's write image,
    /// cleared first or not.
    Target { clear: bool },
    /// A compute pass writes through its storage binding, dispatched with
    /// these workgroup counts.
    Compute { dispatch: [u32; 3] },
}

/// Where a pass writes, given the plan its target images were built for
/// (`None` while none is built): a compute pass needs a built target with a
/// dispatch size; a fragment pass with a target needs it built. `None` when
/// the pass cannot run yet.
pub open spec fn spec_pass_attachment(pass: PassSchema, built: Option<TargetPlan>) -> Option<PassAttachment> {
    match pass.stage {
        PassStage::Compute => match built {
            Some(plan) => match plan.dispatch {
                Some(d) => Some(PassAttachment::Compute { dispatch: d }),
                None => None,
            },
            None => None,
        },
        PassStage::Fragment => match built {
            Some(plan) => Some(PassAttachment::Target { clear: plan.clear }),
            None => if pass.target is Some {
                None
            } else {
                Some(PassAttachment::View)
            },
        },
    }
}

/// Where a pass writes, given the plan its target images were built for.
pub fn pass_attachment(pass: &PassSchema, built: Option<&TargetPlan>) -> (r: Option<PassAttachment>)
    ensures
        r == spec_pass_attachment(
            *pass,
            match built {
                Some(p) => Some(*p),
                None => None,
            },
        ),
{
    match pass.stage {
        PassStage::Compute => match built {
            Some(plan) => match plan.dispatch {
                Some(d) => Some(PassAttachment::Compute { dispatch: d }),
                None => None,
            },
            None => None,
        },
        PassStage::Fragment => match built {
            Some(plan) => Some(PassAttachment::Target { clear: plan.clear }),
            None => if pass.target.is_some() {
                None
            } else {
                Some(PassAttachment::View)
            },
        },
    }
}

/// The dynamic offset a pass binds group `group_index` with: its own globals
/// chunk's offset for the globals group, none for the others.
pub fn dynamic_offset(dynamic_group: Option<usize>, group_index: usize, offsets: &Vec<u32>, pass_index: usize) -> (r:
    Option<u32>)
    ensures
        r == (if dynamic_group == Some(group_index) && pass_index < offsets@.len() {
            Some(offsets@[pass_index as int])
        } else {
            None::<u32>
        }),
{
    match dynamic_group {
        Some(dynamic) => if dynamic == group_index && pass_index < offsets.len() {
            Some(offsets[pass_index])
        } else {
            None
        },
        None => None,
    }
}

} // verus!
