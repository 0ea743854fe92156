//! Runtime values for a wisp shader's inputs.
//!
//! The inputs of a shader are its params fields and its image inputs, keyed by
//! name. They start at the fields' `@default`s (and the placeholder image), may
//! be changed freely, are re-matched by name and kind when the shader is
//! reloaded so that tweaks survive edits, and are packed into the params
//! uniform's bytes at the reflected offsets.
//!
//! Float components are held as the bits of their IEEE-754 binary32 values
//! (`f32::to_bits`), and an image is held as an id; which image an id stands
//! for is up to the caller, [`DEFAULT_IMAGE`] being the placeholder. The
//! default of a field is computed from its `@default` numbers by the caller and
//! handed in, one per params field.

use crate::globals::{
    lemma_span_bytes, lemma_words_bytes_len, lemma_write, spec_words_bytes, spec_write,
    words_to_bytes, write_bytes,
};
use crate::schema::{spec_arity, ParamField, ParamType, ParamsSchema, TextureRole, TextureSchema, WispSchema};
use crate::text::str_eq;
use vstd::prelude::*;

verus! {

/// The id of the placeholder image that image inputs start with.
pub const DEFAULT_IMAGE: u64 = 0;

/// A single input value.
#[derive(Clone, Copy, Debug, Eq, PartialEq)]
pub enum WispValue {
    Bool(bool),
    I32(i32),
    U32(u32),
    /// The bits of an `f32`.
    F32(u32),
    /// The bits of the components of a `vec2<f32>`.
    Vec2([u32; 2]),
    /// The bits of the components of a `vec3<f32>`.
    Vec3([u32; 3]),
    /// The bits of the components of a `vec4<f32>`.
    Vec4([u32; 4]),
    /// The id of an image.
    Image(u64),
}

/// The variant of a value, as its position in the declaration.
pub open spec fn spec_kind(v: WispValue) -> nat {
    match v {
        WispValue::Bool(_) => 0,
        WispValue::I32(_) => 1,
        WispValue::U32(_) => 2,
        WispValue::F32(_) => 3,
        WispValue::Vec2(_) => 4,
        WispValue::Vec3(_) => 5,
        WispValue::Vec4(_) => 6,
        WispValue::Image(_) => 7,
    }
}

/// The variant of the values of a param type.
pub open spec fn spec_type_kind(t: ParamType) -> nat {
    match t {
        ParamType::Bool => 0,
        ParamType::I32 => 1,
        ParamType::U32 => 2,
        ParamType::F32 => 3,
        ParamType::Vec2 => 4,
        ParamType::Vec3 => 5,
        ParamType::Vec4 => 6,
    }
}

/// The 32-bit words a value is written as in a uniform: a bool as 1 or 0, an
/// `i32` as its two's complement bits, floats as their bits. An image is not
/// written (it is bound as a texture).
pub open spec fn spec_value_words(v: WispValue) -> Seq<u32> {
    match v {
        WispValue::Bool(b) => seq![if b { 1u32 } else { 0u32 }],
        WispValue::I32(x) => seq![x as u32],
        WispValue::U32(x) => seq![x],
        WispValue::F32(x) => seq![x],
        WispValue::Vec2(a) => a@,
        WispValue::Vec3(a) => a@,
        WispValue::Vec4(a) => a@,
        WispValue::Image(_) => Seq::empty(),
    }
}

impl WispValue {
    /// Whether two values are the same variant, regardless of contents.
    pub fn same_kind(&self, other: &WispValue) -> (r: bool)
        ensures
            r == (spec_kind(*self) == spec_kind(*other)),
    {
        let a: u8 = self.kind_index();
        let b: u8 = other.kind_index();
        a == b
    }

    fn kind_index(&self) -> (r: u8)
        ensures
            r as nat == spec_kind(*self),
    {
        match self {
            WispValue::Bool(_) => 0,
            WispValue::I32(_) => 1,
            WispValue::U32(_) => 2,
            WispValue::F32(_) => 3,
            WispValue::Vec2(_) => 4,
            WispValue::Vec3(_) => 5,
            WispValue::Vec4(_) => 6,
            WispValue::Image(_) => 7,
        }
    }

    /// The words the value is written as in a uniform.
    pub fn words(&self) -> (r: Vec<u32>)
        ensures
            r@ == spec_value_words(*self),
    {
        let r = match self {
            WispValue::Bool(b) => vec![if *b { 1u32 } else { 0u32 }],
            WispValue::I32(x) => vec![*x as u32],
            WispValue::U32(x) => vec![*x],
            WispValue::F32(x) => vec![*x],
            WispValue::Vec2(a) => vec![a[0], a[1]],
            WispValue::Vec3(a) => vec![a[0], a[1], a[2]],
            WispValue::Vec4(a) => vec![a[0], a[1], a[2], a[3]],
            WispValue::Image(_) => Vec::new(),
        };
        proof {
            assert(r@ =~= spec_value_words(*self));
        }
        r
    }
}

/// A value of the kind of a param type writes as many words as the type has
/// components.
pub proof fn lemma_value_words_len(v: WispValue, t: ParamType)
    requires
        spec_kind(v) == spec_type_kind(t),
    ensures
        spec_value_words(v).len() == spec_arity(t),
{
}

// ---------------------------------------------------------------------------
// The inputs map
// ---------------------------------------------------------------------------

/// The name of the entry at `i`.
pub open spec fn key_at(s: Seq<(String, WispValue)>, i: int) -> Seq<char> {
    s[i].0@
}

/// Whether no two entries have the same name.
pub open spec fn keys_unique(s: Seq<(String, WispValue)>) -> bool {
    forall|i: int, j: int|
        0 <= i < s.len() && 0 <= j < s.len() && #[trigger] key_at(s, i) == #[trigger] key_at(s, j) ==> i == j
}

/// Whether some entry has the name.
pub open spec fn has_key(s: Seq<(String, WispValue)>, k: Seq<char>) -> bool {
    exists|i: int| 0 <= i < s.len() && #[trigger] key_at(s, i) == k
}

/// The map from names to values that entries with distinct names hold.
pub open spec fn entries_map(s: Seq<(String, WispValue)>) -> Map<Seq<char>, WispValue> {
    Map::new(
        |k: Seq<char>| has_key(s, k),
        |k: Seq<char>| s[choose|i: int| 0 <= i < s.len() && #[trigger] key_at(s, i) == k].1,
    )
}

/// With distinct names, the map holds each entry's value under its name.
pub proof fn lemma_entries_map_at(s: Seq<(String, WispValue)>, i: int)
    requires
        keys_unique(s),
        0 <= i < s.len(),
    ensures
        entries_map(s).contains_key(key_at(s, i)),
        entries_map(s)[key_at(s, i)] == s[i].1,
{
    let k = key_at(s, i);
    assert(has_key(s, k));
    let j = choose|j: int| 0 <= j < s.len() && #[trigger] key_at(s, j) == k;
    assert(key_at(s, j) == key_at(s, i));
}

/// The current input values for a wisp shader, keyed by name.
pub struct WispInputs {
    entries: Vec<(String, WispValue)>,
}

impl View for WispInputs {
    type V = Map<Seq<char>, WispValue>;

    closed spec fn view(&self) -> Map<Seq<char>, WispValue> {
        entries_map(self.entries@)
    }
}

impl WispInputs {
    /// Whether the entries have distinct names; every inputs value made by
    /// this module has.
    pub closed spec fn wf(&self) -> bool {
        keys_unique(self.entries@)
    }

    /// No inputs.
    pub fn new() -> (r: WispInputs)
        ensures
            r.wf(),
            r@ == Map::<Seq<char>, WispValue>::empty(),
    {
        let r = WispInputs { entries: Vec::new() };
        proof {
            assert(r@ =~= Map::<Seq<char>, WispValue>::empty());
        }
        r
    }

    /// The position of the entry with the name.
    fn find(&self, name: &str) -> (r: Option<usize>)
        ensures
            match r {
                Some(i) => i < self.entries@.len() && key_at(self.entries@, i as int) == name@,
                None => !has_key(self.entries@, name@),
            },
    {
        let mut i: usize = 0;
        while i < self.entries.len()
            invariant
                i <= self.entries@.len(),
                forall|j: int| 0 <= j < i ==> key_at(self.entries@, j) != name@,
            decreases self.entries@.len() - i,
        {
            if str_eq(self.entries[i].0.as_str(), name) {
                return Some(i);
            }
            i += 1;
        }
        None
    }

    /// The value under the name.
    pub fn get(&self, name: &str) -> (r: Option<WispValue>)
        requires
            self.wf(),
        ensures
            r == (if self@.contains_key(name@) {
                Some(self@[name@])
            } else {
                None::<WispValue>
            }),
    {
        match self.find(name) {
            Some(i) => {
                proof {
                    lemma_entries_map_at(self.entries@, i as int);
                }
                Some(self.entries[i].1)
            },
            None => None,
        }
    }

    /// Sets the value under the name, replacing any previous one.
    pub fn insert(&mut self, name: String, value: WispValue)
        requires
            old(self).wf(),
        ensures
            final(self).wf(),
            final(self)@ == old(self)@.insert(name@, value),
    {
        let ghost before = self.entries@;
        let ghost k = name@;
        match self.find(name.as_str()) {
            Some(i) => {
                self.entries.set(i, (name, value));
                let ghost after = self.entries@;
                proof {
                    assert forall|a: int, b: int|
                        0 <= a < after.len() && 0 <= b < after.len() && #[trigger] key_at(after, a)
                            == #[trigger] key_at(after, b) implies a == b by {
                        assert(key_at(after, a) == key_at(before, a));
                        assert(key_at(after, b) == key_at(before, b));
                    }
                    assert forall|x: Seq<char>| has_key(after, x) == (has_key(before, x) || x == k) by {
                        if has_key(before, x) {
                            let j = choose|j: int| 0 <= j < before.len() && #[trigger] key_at(before, j) == x;
                            assert(key_at(after, j) == x);
                        }
                        if has_key(after, x) {
                            let j = choose|j: int| 0 <= j < after.len() && #[trigger] key_at(after, j) == x;
                            assert(key_at(before, j) == x);
                        }
                        if x == k {
                            assert(key_at(after, i as int) == x);
                        }
                    }
                    assert forall|x: Seq<char>| #[trigger] has_key(after, x) implies entries_map(after)[x]
                        == before_insert(before, k, value, x) by {
                        let j = choose|j: int| 0 <= j < after.len() && #[trigger] key_at(after, j) == x;
                        lemma_entries_map_at(after, j);
                        if j != i {
                            lemma_entries_map_at(before, j);
                        }
                    }
                    assert(entries_map(after) =~= entries_map(before).insert(k, value));
                }
            },
            None => {
                self.entries.push((name, value));
                let ghost after = self.entries@;
                proof {
                    assert forall|a: int, b: int|
                        0 <= a < after.len() && 0 <= b < after.len() && #[trigger] key_at(after, a)
                            == #[trigger] key_at(after, b) implies a == b by {
                        if a < before.len() {
                            assert(key_at(after, a) == key_at(before, a));
                        }
                        if b < before.len() {
                            assert(key_at(after, b) == key_at(before, b));
                        }
                    }
                    assert forall|x: Seq<char>| has_key(after, x) == (has_key(before, x) || x == k) by {
                        if has_key(before, x) {
                            let j = choose|j: int| 0 <= j < before.len() && #[trigger] key_at(before, j) == x;
                            assert(key_at(after, j) == x);
                        }
                        if has_key(after, x) {
                            let j = choose|j: int| 0 <= j < after.len() && #[trigger] key_at(after, j) == x;
                            if j < before.len() {
                                assert(key_at(before, j) == x);
                            }
                        }
                        if x == k {
                            assert(key_at(after, before.len() as int) == x);
                        }
                    }
                    assert forall|x: Seq<char>| #[trigger] has_key(after, x) implies entries_map(after)[x]
                        == before_insert(before, k, value, x) by {
                        let j = choose|j: int| 0 <= j < after.len() && #[trigger] key_at(after, j) == x;
                        lemma_entries_map_at(after, j);
                        if j < before.len() {
                            assert(key_at(before, j) == x);
                            lemma_entries_map_at(before, j);
                        }
                    }
                    assert(entries_map(after) =~= entries_map(before).insert(k, value));
                }
            },
        }
    }

    /// The entries, each name once, in no particular order.
    pub fn entries(&self) -> (r: &[(String, WispValue)])
        requires
            self.wf(),
        ensures
            keys_unique(r@),
            entries_map(r@) == self@,
    {
        self.entries.as_slice()
    }
}

// ---------------------------------------------------------------------------
// Inputs of a schema
// ---------------------------------------------------------------------------

/// The schema's params fields (none without a params uniform).
pub open spec fn spec_param_fields(schema: WispSchema) -> Seq<ParamField> {
    match schema.params {
        Some(p) => p.fields@,
        None => Seq::empty(),
    }
}

/// The names of the first `n` fields mapped to their defaults, put in in
/// order (a later field replaces an earlier one of the same name).
pub open spec fn spec_field_defaults(fields: Seq<ParamField>, defaults: Seq<WispValue>, n: int) -> Map<
    Seq<char>,
    WispValue,
>
    decreases n,
{
    if n <= 0 {
        Map::empty()
    } else {
        spec_field_defaults(fields, defaults, n - 1).insert(fields[n - 1].name@, defaults[n - 1])
    }
}

/// `m` with the names of the image inputs among the first `n` textures put
/// under the placeholder image, in order.
pub open spec fn spec_with_images(m: Map<Seq<char>, WispValue>, textures: Seq<TextureSchema>, n: int) -> Map<
    Seq<char>,
    WispValue,
>
    decreases n,
{
    if n <= 0 {
        m
    } else {
        let prev = spec_with_images(m, textures, n - 1);
        match textures[n - 1].role {
            TextureRole::ImageInput => prev.insert(textures[n - 1].name@, WispValue::Image(DEFAULT_IMAGE)),
            _ => prev,
        }
    }
}

/// The initial inputs of a schema: every params field at its default, then
/// every image input at the placeholder image.
pub open spec fn spec_initial_inputs(schema: WispSchema, defaults: Seq<WispValue>) -> Map<Seq<char>, WispValue> {
    let fields = spec_param_fields(schema);
    spec_with_images(
        spec_field_defaults(fields, defaults, fields.len() as int),
        schema.textures@,
        schema.textures@.len() as int,
    )
}

/// Initial inputs for a schema: params fields at their defaults (`defaults[i]`
/// for `fields[i]`) plus image inputs at the placeholder image.
pub fn inputs_from_schema(schema: &WispSchema, defaults: &Vec<WispValue>) -> (r: WispInputs)
    requires
        spec_defaults_fit(spec_param_fields(*schema), defaults@),
    ensures
        r.wf(),
        r@ == spec_initial_inputs(*schema, defaults@),
{
    let mut inputs = WispInputs::new();
    match &schema.params {
        Some(params) => {
            let mut i: usize = 0;
            while i < params.fields.len()
                invariant
                    i <= params.fields@.len(),
                    defaults@.len() == params.fields@.len(),
                    inputs.wf(),
                    inputs@ == spec_field_defaults(params.fields@, defaults@, i as int),
                decreases params.fields@.len() - i,
            {
                let name = params.fields[i].name.clone();
                inputs.insert(name, defaults[i]);
                i += 1;
            }
        },
        None => {},
    }
    let ghost fields_map = inputs@;
    proof {
        assert(fields_map == spec_field_defaults(
            spec_param_fields(*schema),
            defaults@,
            spec_param_fields(*schema).len() as int,
        ));
    }
    let mut t: usize = 0;
    while t < schema.textures.len()
        invariant
            t <= schema.textures@.len(),
            inputs.wf(),
            inputs@ == spec_with_images(fields_map, schema.textures@, t as int),
        decreases schema.textures@.len() - t,
    {
        let texture = &schema.textures[t];
        match texture.role {
            TextureRole::ImageInput => {
                inputs.insert(texture.name.clone(), WispValue::Image(DEFAULT_IMAGE));
            },
            _ => {},
        }
        t += 1;
    }
    inputs
}

/// Whether one of the first `n` fields has the name.
pub open spec fn spec_is_field_name(fields: Seq<ParamField>, k: Seq<char>, n: int) -> bool {
    exists|j: int| 0 <= j < n && (#[trigger] fields[j]).name@ == k
}

/// Whether one of the first `n` textures is an image input of the name.
pub open spec fn spec_is_image_name(textures: Seq<TextureSchema>, k: Seq<char>, n: int) -> bool {
    exists|t: int| 0 <= t < n && (#[trigger] textures[t]).role is ImageInput && textures[t].name@ == k
}

proof fn lemma_field_defaults(fields: Seq<ParamField>, defaults: Seq<WispValue>, n: int)
    requires
        0 <= n <= fields.len(),
        n <= defaults.len(),
    ensures
        forall|k: Seq<char>|
            #[trigger] spec_field_defaults(fields, defaults, n).contains_key(k) == spec_is_field_name(fields, k, n),
        forall|k: Seq<char>|
            #[trigger] spec_field_defaults(fields, defaults, n).contains_key(k) ==> exists|j: int|
                0 <= j < n && (#[trigger] fields[j]).name@ == k && spec_field_defaults(fields, defaults, n)[k]
                    == defaults[j],
    decreases n,
{
    if n > 0 {
        lemma_field_defaults(fields, defaults, n - 1);
        let prev = spec_field_defaults(fields, defaults, n - 1);
        let m = spec_field_defaults(fields, defaults, n);
        assert forall|k: Seq<char>| #[trigger] m.contains_key(k) == spec_is_field_name(fields, k, n) by {
            if spec_is_field_name(fields, k, n) && k != fields[n - 1].name@ {
                let j = choose|j: int| 0 <= j < n && (#[trigger] fields[j]).name@ == k;
                assert(j < n - 1);
                assert(spec_is_field_name(fields, k, n - 1));
            }
            if prev.contains_key(k) {
                let j = choose|j: int| 0 <= j < n - 1 && (#[trigger] fields[j]).name@ == k;
                assert(0 <= j < n);
            }
            if k == fields[n - 1].name@ {
                assert(fields[n - 1].name@ == k);
            }
        }
        assert forall|k: Seq<char>| #[trigger] m.contains_key(k) implies exists|j: int|
            0 <= j < n && (#[trigger] fields[j]).name@ == k && m[k] == defaults[j] by {
            if k == fields[n - 1].name@ {
                assert(fields[n - 1].name@ == k && m[k] == defaults[n - 1]);
            } else {
                assert(prev.contains_key(k));
                let j = choose|j: int| 0 <= j < n - 1 && (#[trigger] fields[j]).name@ == k && prev[k] == defaults[j];
                assert(fields[j].name@ == k && m[k] == defaults[j]);
            }
        }
    }
}

proof fn lemma_with_images(m: Map<Seq<char>, WispValue>, textures: Seq<TextureSchema>, n: int)
    requires
        0 <= n <= textures.len(),
    ensures
        forall|k: Seq<char>|
            #[trigger] spec_with_images(m, textures, n).contains_key(k) == (m.contains_key(k) || spec_is_image_name(
                textures,
                k,
                n,
            )),
        forall|k: Seq<char>|
            spec_is_image_name(textures, k, n) ==> #[trigger] spec_with_images(m, textures, n)[k] == WispValue::Image(
                DEFAULT_IMAGE,
            ),
        forall|k: Seq<char>|
            !spec_is_image_name(textures, k, n) ==> #[trigger] spec_with_images(m, textures, n)[k] == m[k],
    decreases n,
{
    if n > 0 {
        lemma_with_images(m, textures, n - 1);
        let t = textures[n - 1];
        let prev = spec_with_images(m, textures, n - 1);
        let r = spec_with_images(m, textures, n);
        assert forall|k: Seq<char>| spec_is_image_name(textures, k, n) == (spec_is_image_name(textures, k, n - 1) || (
        t.role is ImageInput && t.name@ == k)) by {
            if spec_is_image_name(textures, k, n) {
                let i = choose|i: int| 0 <= i < n && (#[trigger] textures[i]).role is ImageInput && textures[i].name@ == k;
                if i < n - 1 {
                    assert(spec_is_image_name(textures, k, n - 1));
                }
            }
            if spec_is_image_name(textures, k, n - 1) {
                let i = choose|i: int| 0 <= i < n - 1 && (#[trigger] textures[i]).role is ImageInput && textures[i].name@
                    == k;
                assert(0 <= i < n);
            }
            if t.role is ImageInput && t.name@ == k {
                assert(textures[n - 1].role is ImageInput && textures[n - 1].name@ == k);
            }
        }
    }
}

/// The initial inputs hold each params field and each image input by name and
/// nothing else: an image input holds the placeholder image, and any other
/// name the default of a field of that name, which is of that field's kind.
pub proof fn lemma_initial_inputs(schema: WispSchema, defaults: Seq<WispValue>)
    requires
        spec_defaults_fit(spec_param_fields(schema), defaults),
    ensures
        forall|k: Seq<char>|
            #[trigger] spec_initial_inputs(schema, defaults).contains_key(k) == (spec_is_field_name(
                spec_param_fields(schema),
                k,
                spec_param_fields(schema).len() as int,
            ) || spec_is_image_name(schema.textures@, k, schema.textures@.len() as int)),
        forall|k: Seq<char>|
            spec_is_image_name(schema.textures@, k, schema.textures@.len() as int) ==> #[trigger] spec_initial_inputs(
                schema,
                defaults,
            )[k] == WispValue::Image(DEFAULT_IMAGE),
        forall|k: Seq<char>|
            #[trigger] spec_initial_inputs(schema, defaults).contains_key(k) && !spec_is_image_name(
                schema.textures@,
                k,
                schema.textures@.len() as int,
            ) ==> exists|j: int|
                0 <= j < spec_param_fields(schema).len() && (#[trigger] spec_param_fields(schema)[j]).name@ == k
                    && spec_initial_inputs(schema, defaults)[k] == defaults[j] && spec_kind(
                    spec_initial_inputs(schema, defaults)[k],
                ) == spec_type_kind(spec_param_fields(schema)[j].ty),
{
    let fields = spec_param_fields(schema);
    let fm = spec_field_defaults(fields, defaults, fields.len() as int);
    lemma_field_defaults(fields, defaults, fields.len() as int);
    lemma_with_images(fm, schema.textures@, schema.textures@.len() as int);
    let m = spec_initial_inputs(schema, defaults);
    assert forall|k: Seq<char>|
        #[trigger] m.contains_key(k) && !spec_is_image_name(schema.textures@, k, schema.textures@.len() as int) implies exists|j: int|
        0 <= j < fields.len() && (#[trigger] fields[j]).name@ == k && m[k] == defaults[j] && spec_kind(m[k])
            == spec_type_kind(fields[j].ty) by {
        assert(fm.contains_key(k));
        let j = choose|j: int| 0 <= j < fields.len() && (#[trigger] fields[j]).name@ == k && fm[k] == defaults[j];
        assert(m[k] == fm[k]);
        assert(spec_kind(defaults[j]) == spec_type_kind(fields[j].ty));
    }
}

proof fn lemma_field_default_last(fields: Seq<ParamField>, defaults: Seq<WispValue>, n: int, j: int)
    requires
        0 <= j < n <= fields.len(),
        n <= defaults.len(),
        forall|i: int| j < i < n ==> (#[trigger] fields[i]).name@ != fields[j].name@,
    ensures
        spec_field_defaults(fields, defaults, n).contains_key(fields[j].name@),
        spec_field_defaults(fields, defaults, n)[fields[j].name@] == defaults[j],
    decreases n,
{
    if n - 1 > j {
        assert(fields[n - 1].name@ != fields[j].name@);
        lemma_field_default_last(fields, defaults, n - 1, j);
    }
}

/// In the initial inputs each params field, when no later field and no image
/// input shares its name, holds its own default, which is of the field's kind.
pub proof fn lemma_initial_field(schema: WispSchema, defaults: Seq<WispValue>, j: int)
    requires
        spec_defaults_fit(spec_param_fields(schema), defaults),
        0 <= j < spec_param_fields(schema).len(),
        forall|i: int|
            j < i < spec_param_fields(schema).len() ==> (#[trigger] spec_param_fields(schema)[i]).name@
                != spec_param_fields(schema)[j].name@,
        !spec_is_image_name(schema.textures@, spec_param_fields(schema)[j].name@, schema.textures@.len() as int),
    ensures
        ({
            let k = spec_param_fields(schema)[j].name@;
            let m = spec_initial_inputs(schema, defaults);
            &&& m.contains_key(k)
            &&& m[k] == defaults[j]
            &&& spec_kind(m[k]) == spec_type_kind(spec_param_fields(schema)[j].ty)
        }),
{
    let fields = spec_param_fields(schema);
    let fm = spec_field_defaults(fields, defaults, fields.len() as int);
    lemma_field_default_last(fields, defaults, fields.len() as int, j);
    lemma_with_images(fm, schema.textures@, schema.textures@.len() as int);
    assert(spec_kind(defaults[j]) == spec_type_kind(fields[j].ty));
}

/// Reloading twice against the same schema is reloading once.
pub proof fn lemma_rematch_idempotent(old: Map<Seq<char>, WispValue>, fresh: Map<Seq<char>, WispValue>)
    ensures
        spec_rematch(spec_rematch(old, fresh), fresh) == spec_rematch(old, fresh),
{
    let r = spec_rematch(old, fresh);
    assert forall|k: Seq<char>| #[trigger] fresh.contains_key(k) implies spec_kept_value(r, k, fresh[k]) == r[k] by {
        assert(r.contains_key(k));
        assert(spec_kind(r[k]) == spec_kind(fresh[k]));
    }
    assert(spec_rematch(r, fresh) =~= r);
}

/// What a name holds after a reload: the previous value where the name had
/// one of the same kind, else the fresh one.
pub open spec fn spec_kept_value(old: Map<Seq<char>, WispValue>, k: Seq<char>, fresh: WispValue) -> WispValue {
    if old.contains_key(k) && spec_kind(old[k]) == spec_kind(fresh) {
        old[k]
    } else {
        fresh
    }
}

/// The names of `fresh`, each with the value that survives from `old`.
pub open spec fn spec_rematch(old: Map<Seq<char>, WispValue>, fresh: Map<Seq<char>, WispValue>) -> Map<
    Seq<char>,
    WispValue,
> {
    Map::new(|k: Seq<char>| fresh.contains_key(k), |k: Seq<char>| spec_kept_value(old, k, fresh[k]))
}

/// Inputs for a (re)loaded schema, preserving previous values where the name
/// and kind still match.
pub fn rematch_inputs(old: &WispInputs, schema: &WispSchema, defaults: &Vec<WispValue>) -> (r: WispInputs)
    requires
        old.wf(),
        spec_defaults_fit(spec_param_fields(*schema), defaults@),
    ensures
        r.wf(),
        r@ == spec_rematch(old@, spec_initial_inputs(*schema, defaults@)),
{
    let fresh = inputs_from_schema(schema, defaults);
    let ghost fs = fresh.entries@;
    let mut out: Vec<(String, WispValue)> = Vec::new();
    let mut i: usize = 0;
    while i < fresh.entries.len()
        invariant
            fs == fresh.entries@,
            i <= fs.len(),
            out@.len() == i,
            old.wf(),
            forall|j: int| 0 <= j < i ==> #[trigger] key_at(out@, j) == key_at(fs, j),
            forall|j: int| 0 <= j < i ==> out@[j].1 == spec_kept_value(old@, key_at(fs, j), fs[j].1),
        decreases fs.len() - i,
    {
        let name = &fresh.entries[i].0;
        let value = fresh.entries[i].1;
        let kept = match old.get(name.as_str()) {
            Some(prev) => {
                if prev.same_kind(&value) {
                    prev
                } else {
                    value
                }
            },
            None => value,
        };
        let ghost prev = out@;
        out.push((name.clone(), kept));
        proof {
            assert(key_at(out@, i as int) == key_at(fs, i as int));
            assert forall|j: int| 0 <= j < i implies #[trigger] key_at(out@, j) == key_at(prev, j) by {
                assert(out@[j] == prev[j]);
            }
        }
        i += 1;
    }
    let r = WispInputs { entries: out };
    proof {
        let os = out@;
        assert forall|a: int, b: int|
            0 <= a < os.len() && 0 <= b < os.len() && #[trigger] key_at(os, a) == #[trigger] key_at(os, b) implies a
            == b by {
            assert(key_at(fs, a) == key_at(fs, b));
        }
        assert forall|x: Seq<char>| has_key(os, x) == has_key(fs, x) by {
            if has_key(os, x) {
                let j = choose|j: int| 0 <= j < os.len() && #[trigger] key_at(os, j) == x;
                assert(key_at(fs, j) == x);
            }
            if has_key(fs, x) {
                let j = choose|j: int| 0 <= j < fs.len() && #[trigger] key_at(fs, j) == x;
                assert(key_at(os, j) == x);
            }
        }
        assert forall|x: Seq<char>| #[trigger] has_key(os, x) implies entries_map(os)[x] == spec_kept_value(
            old@,
            x,
            entries_map(fs)[x],
        ) by {
            let j = choose|j: int| 0 <= j < os.len() && #[trigger] key_at(os, j) == x;
            lemma_entries_map_at(os, j);
            lemma_entries_map_at(fs, j);
        }
        assert(entries_map(os) =~= spec_rematch(old@, fresh@));
    }
    r
}

/// Reloading inputs against the schema they were made from keeps every value.
pub proof fn lemma_rematch_unchanged(inputs: Map<Seq<char>, WispValue>)
    ensures
        spec_rematch(inputs, inputs) == inputs,
{
    assert(spec_rematch(inputs, inputs) =~= inputs);
}

// ---------------------------------------------------------------------------
// Packing the params uniform
// ---------------------------------------------------------------------------

/// Whether there is one default per field, each of the kind of its field's type.
pub open spec fn spec_defaults_fit(fields: Seq<ParamField>, defaults: Seq<WispValue>) -> bool {
    &&& defaults.len() == fields.len()
    &&& forall|i: int| 0 <= i < fields.len() ==> spec_kind(#[trigger] defaults[i]) == spec_type_kind(fields[i].ty)
}

/// Whether every field lies within the struct.
pub open spec fn spec_params_fit(fields: Seq<ParamField>, size: u32) -> bool {
    forall|i: int| 0 <= i < fields.len() ==> #[trigger] fields[i].offset + 4 * spec_arity(fields[i].ty) <= size
}

/// A zeroed buffer of `size` bytes with each field's value written, in order,
/// at its offset: the input under the field's name where it is of the
/// default's kind, else the default.
pub open spec fn spec_pack_params(
    fields: Seq<ParamField>,
    inputs: Map<Seq<char>, WispValue>,
    defaults: Seq<WispValue>,
    little: bool,
    size: nat,
) -> Seq<u8>
    decreases fields.len(),
{
    if fields.len() == 0 {
        Seq::new(size, |i: int| 0u8)
    } else {
        let n = fields.len() - 1;
        spec_write(
            spec_pack_params(fields.drop_last(), inputs, defaults, little, size),
            fields[n].offset as int,
            spec_words_bytes(spec_value_words(spec_kept_value(inputs, fields[n].name@, defaults[n])), little),
        )
    }
}

/// The words of the packed values of the first `f` fields, one after another.
spec fn spec_all_words(
    fields: Seq<ParamField>,
    inputs: Map<Seq<char>, WispValue>,
    defaults: Seq<WispValue>,
    f: int,
) -> Seq<u32>
    decreases f,
{
    if f <= 0 {
        Seq::empty()
    } else {
        spec_all_words(fields, inputs, defaults, f - 1) + spec_value_words(
            spec_kept_value(inputs, fields[f - 1].name@, defaults[f - 1]),
        )
    }
}

proof fn lemma_all_words_part(
    fields: Seq<ParamField>,
    inputs: Map<Seq<char>, WispValue>,
    defaults: Seq<WispValue>,
    j: int,
    f: int,
)
    requires
        0 <= j < f,
    ensures
        spec_all_words(fields, inputs, defaults, j).len() <= spec_all_words(fields, inputs, defaults, j + 1).len()
            <= spec_all_words(fields, inputs, defaults, f).len(),
        spec_all_words(fields, inputs, defaults, f).subrange(
            spec_all_words(fields, inputs, defaults, j).len() as int,
            spec_all_words(fields, inputs, defaults, j + 1).len() as int,
        ) == spec_value_words(spec_kept_value(inputs, fields[j].name@, defaults[j])),
    decreases f,
{
    let a = spec_all_words(fields, inputs, defaults, j);
    let w = spec_value_words(spec_kept_value(inputs, fields[j].name@, defaults[j]));
    if f == j + 1 {
        assert((a + w).subrange(a.len() as int, (a + w).len() as int) =~= w);
    } else {
        lemma_all_words_part(fields, inputs, defaults, j, f - 1);
        let prev = spec_all_words(fields, inputs, defaults, f - 1);
        let x = spec_value_words(spec_kept_value(inputs, fields[f - 1].name@, defaults[f - 1]));
        let end = spec_all_words(fields, inputs, defaults, j + 1).len() as int;
        assert((prev + x).subrange(a.len() as int, end) =~= prev.subrange(a.len() as int, end));
    }
}

/// Packs the params inputs into a byte buffer matching the reflected layout,
/// each word in the machine's byte order.
///
/// Missing or mismatched values fall back to the field's default
/// (`defaults[i]` for `fields[i]`), so the result is always well-formed.
pub fn pack_params(schema: &ParamsSchema, inputs: &WispInputs, defaults: &Vec<WispValue>) -> (r: Vec<u8>)
    requires
        inputs.wf(),
        spec_defaults_fit(schema.fields@, defaults@),
        spec_params_fit(schema.fields@, schema.size),
    ensures
        r@ == spec_pack_params(schema.fields@, inputs@, defaults@, true, schema.size as nat) || r@
            == spec_pack_params(schema.fields@, inputs@, defaults@, false, schema.size as nat),
        r@.len() == schema.size,
{
    let ghost fields = schema.fields@;
    let ghost m = inputs@;
    let ghost ds = defaults@;
    let mut all: Vec<u32> = Vec::new();
    let mut starts: Vec<usize> = Vec::new();
    let mut ends: Vec<usize> = Vec::new();
    let mut f: usize = 0;
    while f < schema.fields.len()
        invariant
            fields == schema.fields@,
            m == inputs@,
            ds == defaults@,
            inputs.wf(),
            spec_defaults_fit(fields, ds),
            f <= fields.len(),
            all@ == spec_all_words(fields, m, ds, f as int),
            starts@.len() == f,
            ends@.len() == f,
            forall|j: int| 0 <= j < f ==> #[trigger] starts@[j] == spec_all_words(fields, m, ds, j).len(),
            forall|j: int| 0 <= j < f ==> #[trigger] ends@[j] == spec_all_words(fields, m, ds, j + 1).len(),
        decreases fields.len() - f,
    {
        let field = &schema.fields[f];
        let default = defaults[f];
        let value = match inputs.get(field.name.as_str()) {
            Some(v) => {
                if v.same_kind(&default) {
                    v
                } else {
                    default
                }
            },
            None => default,
        };
        proof {
            assert(value == spec_kept_value(m, fields[f as int].name@, ds[f as int]));
        }
        starts.push(all.len());
        let mut ws = value.words();
        all.append(&mut ws);
        ends.push(all.len());
        f += 1;
    }
    let encoded = words_to_bytes(all.as_slice());
    let encoded_len = encoded.len();
    let ghost little = encoded@ == spec_words_bytes(all@, true);
    proof {
        lemma_words_bytes_len(all@, little);
    }
    let mut bytes: Vec<u8> = Vec::new();
    let mut i: usize = 0;
    while i < schema.size as usize
        invariant
            i <= schema.size,
            bytes@ == Seq::new(i as nat, |j: int| 0u8),
        decreases schema.size - i,
    {
        bytes.push(0);
        proof {
            assert(bytes@ =~= Seq::new((i + 1) as nat, |j: int| 0u8));
        }
        i += 1;
    }
    proof {
        assert(fields.take(0) =~= Seq::<ParamField>::empty());
    }
    let mut f: usize = 0;
    while f < schema.fields.len()
        invariant
            fields == schema.fields@,
            m == inputs@,
            ds == defaults@,
            spec_defaults_fit(fields, ds),
            spec_params_fit(fields, schema.size),
            f <= fields.len(),
            all@ == spec_all_words(fields, m, ds, fields.len() as int),
            starts@.len() == fields.len(),
            ends@.len() == fields.len(),
            forall|j: int| 0 <= j < fields.len() ==> #[trigger] starts@[j] == spec_all_words(fields, m, ds, j).len(),
            forall|j: int|
                0 <= j < fields.len() ==> #[trigger] ends@[j] == spec_all_words(fields, m, ds, j + 1).len(),
            encoded@ == spec_words_bytes(all@, little),
            encoded@.len() == 4 * all@.len(),
            encoded_len == encoded@.len(),
            bytes@.len() == schema.size,
            bytes@ == spec_pack_params(fields.take(f as int), m, ds, little, schema.size as nat),
        decreases fields.len() - f,
    {
        let start = starts[f];
        let end = ends[f];
        let offset = schema.fields[f].offset;
        let ghost value = spec_kept_value(m, fields[f as int].name@, ds[f as int]);
        proof {
            lemma_all_words_part(fields, m, ds, f as int, fields.len() as int);
            lemma_value_words_len(value, fields[f as int].ty);
            lemma_span_bytes(all@, start as int, end - start, little);
            assert(fields[f as int].offset + 4 * spec_arity(fields[f as int].ty) <= schema.size);
        }
        write_bytes(&mut bytes, offset as usize, encoded.as_slice(), 4 * start, 4 * (end - start));
        proof {
            assert(fields.take(f + 1).drop_last() =~= fields.take(f as int));
            assert(fields.take(f + 1)[f as int] == fields[f as int]);
        }
        f += 1;
    }
    proof {
        assert(fields.take(fields.len() as int) =~= fields);
    }
    bytes
}

impl Default for WispInputs {
    /// No inputs.
    fn default() -> (r: WispInputs)
        ensures
            r.wf(),
            r@ == Map::<Seq<char>, WispValue>::empty(),
    {
        WispInputs::new()
    }
}

/// The bytes a field's packed value takes.
pub open spec fn spec_field_bytes(
    fields: Seq<ParamField>,
    inputs: Map<Seq<char>, WispValue>,
    defaults: Seq<WispValue>,
    little: bool,
    j: int,
) -> Seq<u8> {
    spec_words_bytes(spec_value_words(spec_kept_value(inputs, fields[j].name@, defaults[j])), little)
}

/// Whether no two fields share a byte.
pub open spec fn spec_fields_disjoint(fields: Seq<ParamField>) -> bool {
    forall|a: int, b: int|
        0 <= a < b < fields.len() ==> (#[trigger] fields[a]).offset + 4 * spec_arity(fields[a].ty) <= (
        #[trigger] fields[b]).offset || fields[b].offset + 4 * spec_arity(fields[b].ty) <= fields[a].offset
}

/// Whether byte `i` belongs to some field.
pub open spec fn spec_in_some_field(fields: Seq<ParamField>, i: int) -> bool {
    exists|j: int| 0 <= j < fields.len() && (#[trigger] fields[j]).offset <= i < fields[j].offset + 4 * spec_arity(fields[j].ty)
}

/// The packed buffer reads back: where no two fields share a byte, each
/// field's bytes hold its packed value (the input of its name where that is
/// of its kind, else its default), and every byte outside the fields is zero.
pub proof fn lemma_pack_params_reads_back(
    fields: Seq<ParamField>,
    inputs: Map<Seq<char>, WispValue>,
    defaults: Seq<WispValue>,
    little: bool,
    size: u32,
)
    requires
        spec_defaults_fit(fields, defaults),
        spec_params_fit(fields, size),
        spec_fields_disjoint(fields),
    ensures
        spec_pack_params(fields, inputs, defaults, little, size as nat).len() == size,
        forall|j: int|
            0 <= j < fields.len() ==> spec_pack_params(fields, inputs, defaults, little, size as nat).subrange(
                (#[trigger] fields[j]).offset as int,
                fields[j].offset + 4 * spec_arity(fields[j].ty),
            ) == spec_field_bytes(fields, inputs, defaults, little, j),
        forall|i: int|
            0 <= i < size && !spec_in_some_field(fields, i) ==> #[trigger] spec_pack_params(
                fields,
                inputs,
                defaults,
                little,
                size as nat,
            )[i] == 0,
{
    lemma_pack_prefix_reads_back(fields, inputs, defaults, little, size, fields.len() as int);
    assert(fields.take(fields.len() as int) =~= fields);
}

proof fn lemma_pack_prefix_reads_back(
    fields: Seq<ParamField>,
    inputs: Map<Seq<char>, WispValue>,
    defaults: Seq<WispValue>,
    little: bool,
    size: u32,
    n: int,
)
    requires
        0 <= n <= fields.len(),
        spec_defaults_fit(fields, defaults),
        spec_params_fit(fields, size),
        spec_fields_disjoint(fields),
    ensures
        spec_pack_params(fields.take(n), inputs, defaults, little, size as nat).len() == size,
        forall|j: int|
            0 <= j < n ==> spec_pack_params(fields.take(n), inputs, defaults, little, size as nat).subrange(
                (#[trigger] fields[j]).offset as int,
                fields[j].offset + 4 * spec_arity(fields[j].ty),
            ) == spec_field_bytes(fields, inputs, defaults, little, j),
        forall|i: int|
            0 <= i < size && !(exists|j: int|
                0 <= j < n && (#[trigger] fields[j]).offset <= i < fields[j].offset + 4 * spec_arity(fields[j].ty))
                ==> #[trigger] spec_pack_params(fields.take(n), inputs, defaults, little, size as nat)[i] == 0,
    decreases n,
{
    let prefix = fields.take(n);
    let packed = spec_pack_params(prefix, inputs, defaults, little, size as nat);
    if n == 0 {
        assert(prefix =~= Seq::<ParamField>::empty());
    } else {
        lemma_pack_prefix_reads_back(fields, inputs, defaults, little, size, n - 1);
        let last = n - 1;
        let prev = spec_pack_params(fields.take(last), inputs, defaults, little, size as nat);
        assert(prefix.drop_last() =~= fields.take(last));
        assert(prefix[last] == fields[last]);
        let value = spec_kept_value(inputs, fields[last].name@, defaults[last]);
        let src = spec_field_bytes(fields, inputs, defaults, little, last);
        let off = fields[last].offset as int;
        lemma_value_words_len(value, fields[last].ty);
        lemma_words_bytes_len(spec_value_words(value), little);
        assert(off + 4 * spec_arity(fields[last].ty) <= size);
        assert(packed == spec_write(prev, off, src));
        lemma_write(prev, off, src);
        assert forall|j: int| 0 <= j < n implies packed.subrange(
            (#[trigger] fields[j]).offset as int,
            fields[j].offset + 4 * spec_arity(fields[j].ty),
        ) == spec_field_bytes(fields, inputs, defaults, little, j) by {
            if j < last {
                let lo = fields[j].offset as int;
                let hi = fields[j].offset + 4 * spec_arity(fields[j].ty);
                assert(hi <= size);
                assert(packed.subrange(lo, hi) =~= prev.subrange(lo, hi)) by {
                    assert forall|i: int| lo <= i < hi implies packed[i] == prev[i] by {
                        assert(!(off <= i < off + src.len()));
                    }
                }
            }
        }
        assert forall|i: int|
            0 <= i < size && !(exists|j: int|
                0 <= j < n && (#[trigger] fields[j]).offset <= i < fields[j].offset + 4 * spec_arity(fields[j].ty))
            implies #[trigger] packed[i] == 0 by {
            assert(!(off <= i < off + src.len())) by {
                if off <= i < off + src.len() {
                    assert(fields[last].offset <= i < fields[last].offset + 4 * spec_arity(fields[last].ty));
                }
            }
            assert(packed[i] == prev[i]);
        }
    }
}

/// Packing depends on the inputs only through the value each field packs.
pub proof fn lemma_pack_same_values(
    fields: Seq<ParamField>,
    a: Map<Seq<char>, WispValue>,
    b: Map<Seq<char>, WispValue>,
    defaults: Seq<WispValue>,
    little: bool,
    size: nat,
)
    requires
        forall|j: int|
            0 <= j < fields.len() ==> spec_kept_value(a, (#[trigger] fields[j]).name@, defaults[j]) == spec_kept_value(
                b,
                fields[j].name@,
                defaults[j],
            ),
    ensures
        spec_pack_params(fields, a, defaults, little, size) == spec_pack_params(fields, b, defaults, little, size),
    decreases fields.len(),
{
    if fields.len() > 0 {
        let prev = fields.drop_last();
        assert forall|j: int| 0 <= j < prev.len() implies spec_kept_value(a, (#[trigger] prev[j]).name@, defaults[j])
            == spec_kept_value(b, prev[j].name@, defaults[j]) by {
            assert(prev[j] == fields[j]);
        }
        lemma_pack_same_values(prev, a, b, defaults, little, size);
        let n = fields.len() - 1;
        assert(spec_kept_value(a, fields[n].name@, defaults[n]) == spec_kept_value(b, fields[n].name@, defaults[n]));
    }
}

/// A value of another kind than the defaults of the fields of its name packs
/// as if the name held nothing: those fields fall back to their defaults.
pub proof fn lemma_pack_mismatch_is_default(
    fields: Seq<ParamField>,
    inputs: Map<Seq<char>, WispValue>,
    defaults: Seq<WispValue>,
    k: Seq<char>,
    v: WispValue,
    little: bool,
    size: nat,
)
    requires
        forall|j: int| 0 <= j < fields.len() && (#[trigger] fields[j]).name@ == k ==> spec_kind(v) != spec_kind(defaults[j]),
    ensures
        spec_pack_params(fields, inputs.insert(k, v), defaults, little, size) == spec_pack_params(
            fields,
            inputs.remove(k),
            defaults,
            little,
            size,
        ),
{
    assert forall|j: int| 0 <= j < fields.len() implies spec_kept_value(
        inputs.insert(k, v),
        (#[trigger] fields[j]).name@,
        defaults[j],
    ) == spec_kept_value(inputs.remove(k), fields[j].name@, defaults[j]) by {}
    lemma_pack_same_values(fields, inputs.insert(k, v), inputs.remove(k), defaults, little, size);
}

/// Where no two fields share a name, the fields at their defaults pack as no
/// inputs at all.
pub proof fn lemma_pack_defaults_is_empty(
    fields: Seq<ParamField>,
    defaults: Seq<WispValue>,
    little: bool,
    size: nat,
)
    requires
        defaults.len() == fields.len(),
        forall|a: int, b: int| 0 <= a < b < fields.len() ==> (#[trigger] fields[a]).name@ != (#[trigger] fields[b]).name@,
    ensures
        spec_pack_params(fields, spec_field_defaults(fields, defaults, fields.len() as int), defaults, little, size)
            == spec_pack_params(fields, Map::empty(), defaults, little, size),
{
    let m = spec_field_defaults(fields, defaults, fields.len() as int);
    lemma_field_defaults(fields, defaults, fields.len() as int);
    assert forall|j: int| 0 <= j < fields.len() implies spec_kept_value(m, (#[trigger] fields[j]).name@, defaults[j])
        == spec_kept_value(Map::empty(), fields[j].name@, defaults[j]) by {
        let k = fields[j].name@;
        assert(spec_is_field_name(fields, k, fields.len() as int));
        assert(m.contains_key(k));
        let i = choose|i: int| 0 <= i < fields.len() && (#[trigger] fields[i]).name@ == k && m[k] == defaults[i];
        if i < j {
            assert(fields[i].name@ != fields[j].name@);
        } else if j < i {
            assert(fields[j].name@ != fields[i].name@);
        }
    }
    lemma_pack_same_values(fields, m, Map::empty(), defaults, little, size);
}

/// The value under `x` once `v` is put under `k`.
spec fn before_insert(before: Seq<(String, WispValue)>, k: Seq<char>, v: WispValue, x: Seq<char>) -> WispValue {
    entries_map(before).insert(k, v)[x]
}

} // verus!
