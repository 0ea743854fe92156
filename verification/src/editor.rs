//! The state of a live-coding editor for wisp shaders, and its decisions.
//!
//! The editor lists the bundled shaders (compiled into a binary) and the
//! shaders a user saved in a key-value store; a saved shader shadows the
//! bundled one of the same name. It holds the selected shader's source in an
//! edit buffer, saves to the store (a bundled shader is saved as a stored copy
//! that shadows it) and creates new shaders. What touches the store, the asset
//! server or the screen is the caller's; this module keeps the state and
//! decides what changes, from the outcome of each of those steps.

use crate::text::{append_range, chars_of, concat3, replace, spec_replace, spec_trim, string_of, strings_view, trim};
use vstd::prelude::*;

verus! {

// ---------------------------------------------------------------------------
// Names, keys and paths
// ---------------------------------------------------------------------------

/// The store key under which the index of user shader names is kept. The
/// store cannot enumerate its keys, so the names are listed there alongside
/// the per-shader source entries (see [`shader_source_key`]).
pub const SHADER_INDEX_KEY: &'static str = "shaders";

/// The name of the shader selected at start, where there is one of that name.
pub const INITIAL_SHADER: &'static str = "test_inputs";

/// The store key holding a single user shader's source.
pub fn shader_source_key(name: &str) -> (r: String)
    ensures
        r@ == "shader/"@ + name@,
{
    let n = chars_of(name);
    let r = concat3("shader/", n.as_slice(), "");
    proof {
        reveal_strlit("");
        assert(r@ =~= "shader/"@ + name@);
    }
    r
}

/// The `embedded://` asset path a bundled shader of the given name loads from.
pub fn bundled_asset_path(name: &str) -> (r: String)
    ensures
        r@ == "embedded://wisp/"@ + name@ + ".wgsl"@,
{
    let n = chars_of(name);
    concat3("embedded://wisp/", n.as_slice(), ".wgsl")
}

/// The `embedded://` asset path a user shader of the given name loads from.
/// The `user/` sub-path keeps it from colliding with a bundled shader's path,
/// so a stored shader can shadow a bundled one in the picker while both
/// remain loadable.
pub fn user_asset_path(name: &str) -> (r: String)
    ensures
        r@ == "embedded://wisp/user/"@ + name@ + ".wgsl"@,
{
    let n = chars_of(name);
    concat3("embedded://wisp/user/", n.as_slice(), ".wgsl")
}

/// The path within the embedded asset source of a bundled shader's source.
pub fn bundled_source_path(name: &str) -> (r: String)
    ensures
        r@ == "wisp/"@ + name@ + ".wgsl"@,
{
    let n = chars_of(name);
    concat3("wisp/", n.as_slice(), ".wgsl")
}

/// The path within the embedded asset source of a user shader's source.
pub fn user_source_path(name: &str) -> (r: String)
    ensures
        r@ == "wisp/user/"@ + name@ + ".wgsl"@,
{
    let n = chars_of(name);
    concat3("wisp/user/", n.as_slice(), ".wgsl")
}

/// The name a new shader gets from what was typed: trimmed, with every space
/// made an underscore.
pub open spec fn spec_new_shader_name(typed: Seq<char>) -> Seq<char> {
    spec_replace(spec_trim(typed), " "@, "_"@)
}

/// The name a new shader gets from what was typed.
pub fn new_shader_name(typed: &str) -> (r: String)
    ensures
        r@ == spec_new_shader_name(typed@),
{
    let chars = chars_of(typed);
    let t = trim(chars.as_slice());
    let space = [' '];
    let underscore = ['_'];
    proof {
        reveal_strlit(" ");
        reveal_strlit("_");
        assert(space@ =~= " "@);
        assert(underscore@ =~= "_"@);
    }
    let out = replace(t, &space, &underscore);
    string_of(out.as_slice())
}

/// Adds the name to the index of stored shaders unless it is there already;
/// says whether it added it.
pub fn add_to_index(names: &mut Vec<String>, name: &str) -> (added: bool)
    ensures
        added == !(exists|i: int| 0 <= i < old(names)@.len() && (#[trigger] old(names)@[i])@ == name@),
        added ==> final(names)@.len() == old(names)@.len() + 1 && final(names)@.drop_last() == old(names)@
            && final(names)@.last()@ == name@,
        !added ==> final(names)@ == old(names)@,
{
    let mut i: usize = 0;
    while i < names.len()
        invariant
            i <= names@.len(),
            forall|j: int| 0 <= j < i ==> (#[trigger] names@[j])@ != name@,
        decreases names@.len() - i,
    {
        if crate::text::str_eq(names[i].as_str(), name) {
            return false;
        }
        i += 1;
    }
    let n = chars_of(name);
    let owned = string_of(n.as_slice());
    let ghost before = names@;
    names.push(owned);
    proof {
        assert(names@.drop_last() =~= before);
    }
    true
}

// ---------------------------------------------------------------------------
// Shader files
// ---------------------------------------------------------------------------

/// Where a shader's source comes from.
#[derive(Clone, Copy, Debug, PartialEq, Eq)]
pub enum ShaderSource {
    /// Compiled into the binary; the source text.
    Bundled(&'static str),
    /// Saved by the user in the store, under the file's name.
    User,
}

/// A shader the editor lists.
#[derive(Debug)]
pub struct ShaderFile {
    pub name: String,
    pub source: ShaderSource,
}

/// A shader file as plain values.
pub struct FileView {
    pub name: Seq<char>,
    pub source: ShaderSource,
}

impl View for ShaderFile {
    type V = FileView;

    open spec fn view(&self) -> FileView {
        FileView { name: self.name@, source: self.source }
    }
}

/// The views of files.
pub open spec fn files_view(files: Seq<ShaderFile>) -> Seq<FileView> {
    files.map_values(|f: ShaderFile| f@)
}

/// A copy of a file.
fn copy_file(f: &ShaderFile) -> (r: ShaderFile)
    ensures
        r@ == f@,
{
    ShaderFile { name: f.name.clone(), source: f.source }
}

/// The first position from `i` of a file with the name (the length if none).
pub open spec fn spec_position_from(files: Seq<FileView>, name: Seq<char>, i: int) -> int
    decreases files.len() - i,
{
    if i < 0 || i >= files.len() {
        files.len() as int
    } else if files[i].name == name {
        i
    } else {
        spec_position_from(files, name, i + 1)
    }
}

/// The first position of a file with the name (the length if none).
pub open spec fn spec_position(files: Seq<FileView>, name: Seq<char>) -> int {
    spec_position_from(files, name, 0)
}

pub proof fn lemma_position_from(files: Seq<FileView>, name: Seq<char>, i: int)
    requires
        0 <= i <= files.len(),
    ensures
        i <= spec_position_from(files, name, i) <= files.len(),
        spec_position_from(files, name, i) < files.len() ==> files[spec_position_from(files, name, i)].name == name,
        forall|j: int| i <= j < spec_position_from(files, name, i) ==> files[j].name != name,
    decreases files.len() - i,
{
    if i < files.len() && files[i].name != name {
        lemma_position_from(files, name, i + 1);
    }
}

/// The position of the first file with the name, if any.
pub fn position(files: &Vec<ShaderFile>, name: &str) -> (r: Option<usize>)
    ensures
        r == (if spec_position(files_view(files@), name@) < files@.len() {
            Some(spec_position(files_view(files@), name@) as usize)
        } else {
            None::<usize>
        }),
{
    let ghost fv = files_view(files@);
    let mut i: usize = 0;
    while i < files.len()
        invariant
            fv == files_view(files@),
            i <= files@.len(),
            spec_position(fv, name@) == spec_position_from(fv, name@, i as int),
        decreases files@.len() - i,
    {
        if crate::text::str_eq(files[i].name.as_str(), name) {
            return Some(i);
        }
        i += 1;
    }
    None
}

// ---------------------------------------------------------------------------
// Listing the shaders
// ---------------------------------------------------------------------------

/// The files of the bundled shaders (name and source text), in order.
pub open spec fn spec_bundled_files(bundled: Seq<(&'static str, &'static str)>) -> Seq<FileView> {
    bundled.map_values(|b: (&'static str, &'static str)| FileView { name: b.0@, source: ShaderSource::Bundled(b.1) })
}

/// `files` with the stored names taken in order: the first file of each name
/// becomes a stored one, and a name no file has is added as a stored file.
pub open spec fn spec_merge(files: Seq<FileView>, stored: Seq<Seq<char>>) -> Seq<FileView>
    decreases stored.len(),
{
    if stored.len() == 0 {
        files
    } else {
        let prev = spec_merge(files, stored.drop_last());
        let name = stored.last();
        let p = spec_position(prev, name);
        let f = FileView { name, source: ShaderSource::User };
        if p < prev.len() {
            prev.update(p, f)
        } else {
            prev.push(f)
        }
    }
}

/// Whether `a` comes no later than `b` in the lexicographic order of their
/// characters from position `i` on (a prefix first).
pub open spec fn spec_name_le_from(a: Seq<char>, b: Seq<char>, i: int) -> bool
    decreases a.len() - i,
{
    if i >= a.len() {
        true
    } else if i >= b.len() {
        false
    } else if a[i] != b[i] {
        a[i] < b[i]
    } else {
        spec_name_le_from(a, b, i + 1)
    }
}

/// Whether `a` comes no later than `b` in the lexicographic order of their
/// characters: the order of `String`'s `Ord`, whose byte order is that of the
/// code points.
pub open spec fn spec_name_le(a: Seq<char>, b: Seq<char>) -> bool {
    spec_name_le_from(a, b, 0)
}

/// The first position from `i` of a file whose name comes after `x`'s.
pub open spec fn spec_insert_pos(s: Seq<FileView>, x: FileView, i: int) -> int
    decreases s.len() - i,
{
    if i < 0 || i >= s.len() {
        s.len() as int
    } else if !spec_name_le(s[i].name, x.name) {
        i
    } else {
        spec_insert_pos(s, x, i + 1)
    }
}

/// `s` stably sorted by name.
pub open spec fn spec_sort_files(s: Seq<FileView>) -> Seq<FileView>
    decreases s.len(),
{
    if s.len() == 0 {
        s
    } else {
        let r = spec_sort_files(s.drop_last());
        r.insert(spec_insert_pos(r, s.last(), 0), s.last())
    }
}

/// The listed shaders: the bundled ones and the stored ones, a stored shader
/// shadowing the bundled one of the same name, sorted by name.
pub open spec fn spec_scan(bundled: Seq<(&'static str, &'static str)>, stored: Seq<Seq<char>>) -> Seq<FileView> {
    spec_sort_files(spec_merge(spec_bundled_files(bundled), stored))
}

/// Whether `a` comes no later than `b` by name.
pub fn name_le(a: &str, b: &str) -> (r: bool)
    ensures
        r == spec_name_le(a@, b@),
{
    let x = chars_of(a);
    let y = chars_of(b);
    let mut i: usize = 0;
    while i < x.len() && i < y.len()
        invariant
            i <= x@.len(),
            i <= y@.len(),
            x@ == a@,
            y@ == b@,
            spec_name_le(x@, y@) == spec_name_le_from(x@, y@, i as int),
        decreases x@.len() - i,
    {
        if x[i] != y[i] {
            let r = x[i] < y[i];
            proof {
                assert(x@[i as int] != y@[i as int]);
                assert(spec_name_le_from(x@, y@, i as int) == (x@[i as int] < y@[i as int]));
                assert(r == (x@[i as int] < y@[i as int]));
            }
            return r;
        }
        i += 1;
    }
    i >= x.len()
}

/// The bundled shaders plus the stored ones (`stored` being the index of
/// stored names), sorted by name. A stored shader shadows the bundled shader
/// of the same name.
pub fn scan(bundled: &[(&'static str, &'static str)], stored: &Vec<String>) -> (r: Vec<ShaderFile>)
    ensures
        files_view(r@) == spec_scan(bundled@, strings_view(stored@)),
{
    let ghost base = spec_bundled_files(bundled@);
    let mut files: Vec<ShaderFile> = Vec::new();
    let mut i: usize = 0;
    while i < bundled.len()
        invariant
            i <= bundled@.len(),
            base == spec_bundled_files(bundled@),
            files@.len() == i,
            files_view(files@) == base.take(i as int),
        decreases bundled@.len() - i,
    {
        let (name, source) = bundled[i];
        let chars = chars_of(name);
        let ghost before = files@;
        files.push(ShaderFile { name: string_of(chars.as_slice()), source: ShaderSource::Bundled(source) });
        proof {
            assert forall|j: int| 0 <= j <= i implies #[trigger] files_view(files@)[j] == base.take(i + 1)[j] by {
                if j < i {
                    assert(files@[j] == before[j]);
                    assert(files_view(before)[j] == base.take(i as int)[j]);
                }
            }
            assert(files_view(files@) =~= base.take(i + 1));
        }
        i += 1;
    }
    proof {
        assert(base.take(bundled@.len() as int) =~= base);
        assert(strings_view(stored@).take(0) =~= Seq::<Seq<char>>::empty());
    }
    let ghost names = strings_view(stored@);
    let mut k: usize = 0;
    while k < stored.len()
        invariant
            k <= stored@.len(),
            names == strings_view(stored@),
            files_view(files@) == spec_merge(base, names.take(k as int)),
            files_view(files@).len() == files@.len(),
        decreases stored@.len() - k,
    {
        let ghost prev = files_view(files@);
        proof {
            assert(names.take(k + 1).drop_last() =~= names.take(k as int));
            assert(names.take(k + 1).last() == stored@[k as int]@);
            lemma_position_from(prev, stored@[k as int]@, 0);
        }
        let ghost before = files@;
        let ghost name = stored@[k as int]@;
        let ghost f = FileView { name, source: ShaderSource::User };
        let ghost pos = spec_position(prev, name);
        let count = files.len();
        proof {
            assert(pos <= count);
        }
        match position(&files, stored[k].as_str()) {
            Some(p) => {
                files.set(p, ShaderFile { name: stored[k].clone(), source: ShaderSource::User });
                proof {
                    assert(p as int == pos);
                    assert forall|j: int| 0 <= j < before.len() implies #[trigger] files_view(files@)[j]
                        == prev.update(pos, f)[j] by {
                        if j != pos {
                            assert(files@[j] == before[j]);
                        }
                    }
                    assert(files_view(files@) =~= prev.update(pos, f));
                }
            },
            None => {
                files.push(ShaderFile { name: stored[k].clone(), source: ShaderSource::User });
                proof {
                    assert forall|j: int| 0 <= j <= before.len() implies #[trigger] files_view(files@)[j]
                        == prev.push(f)[j] by {
                        if j < before.len() {
                            assert(files@[j] == before[j]);
                        }
                    }
                    assert(files_view(files@) =~= prev.push(f));
                }
            },
        }
        k += 1;
    }
    proof {
        assert(names.take(stored@.len() as int) =~= names);
    }
    let ghost merged = files_view(files@);
    let mut out: Vec<ShaderFile> = Vec::new();
    proof {
        assert(merged.take(0) =~= Seq::<FileView>::empty());
    }
    let mut k: usize = 0;
    while k < files.len()
        invariant
            k <= files@.len(),
            merged == files_view(files@),
            files_view(out@) == spec_sort_files(merged.take(k as int)),
        decreases files@.len() - k,
    {
        let x = copy_file(&files[k]);
        let ghost sorted = files_view(out@);
        let mut p: usize = 0;
        while p < out.len() && name_le(out[p].name.as_str(), x.name.as_str())
            invariant
                p <= out@.len(),
                sorted == files_view(out@),
                spec_insert_pos(sorted, x@, 0) == spec_insert_pos(sorted, x@, p as int),
            decreases out@.len() - p,
        {
            p += 1;
        }
        proof {
            assert(merged.take(k + 1).drop_last() =~= merged.take(k as int));
            assert(merged.take(k + 1).last() == x@);
        }
        out.insert(p, x);
        proof {
            assert(files_view(out@) =~= sorted.insert(p as int, x@));
        }
        k += 1;
    }
    proof {
        assert(merged.take(files@.len() as int) =~= merged);
    }
    out
}

/// Whether the files are in order of their names.
pub open spec fn spec_sorted_by_name(s: Seq<FileView>) -> bool {
    forall|i: int, j: int| 0 <= i <= j < s.len() ==> spec_name_le(#[trigger] s[i].name, #[trigger] s[j].name)
}

/// The order of names is total.
pub proof fn lemma_name_le_total(a: Seq<char>, b: Seq<char>, i: int)
    ensures
        spec_name_le_from(a, b, i) || spec_name_le_from(b, a, i),
    decreases a.len() - i,
{
    if i < a.len() && i < b.len() && a[i] == b[i] {
        lemma_name_le_total(a, b, i + 1);
    }
}

/// The order of names is transitive.
pub proof fn lemma_name_le_transitive(a: Seq<char>, b: Seq<char>, c: Seq<char>, i: int)
    requires
        spec_name_le_from(a, b, i),
        spec_name_le_from(b, c, i),
    ensures
        spec_name_le_from(a, c, i),
    decreases a.len() - i,
{
    if i < a.len() && a[i] == b[i] && b[i] == c[i] {
        lemma_name_le_transitive(a, b, c, i + 1);
    }
}

/// The order of names is reflexive.
pub proof fn lemma_name_le_reflexive(a: Seq<char>, i: int)
    ensures
        spec_name_le_from(a, a, i),
    decreases a.len() - i,
{
    if i < a.len() {
        lemma_name_le_reflexive(a, i + 1);
    }
}

proof fn lemma_insert_pos(s: Seq<FileView>, x: FileView, i: int)
    requires
        0 <= i <= s.len(),
    ensures
        i <= spec_insert_pos(s, x, i) <= s.len(),
        forall|j: int| i <= j < spec_insert_pos(s, x, i) ==> spec_name_le(#[trigger] s[j].name, x.name),
        spec_insert_pos(s, x, i) < s.len() ==> !spec_name_le(s[spec_insert_pos(s, x, i)].name, x.name),
    decreases s.len() - i,
{
    if i < s.len() && spec_name_le(s[i].name, x.name) {
        lemma_insert_pos(s, x, i + 1);
    }
}

/// Sorting orders the files by name and keeps them all.
pub proof fn lemma_sort_files(s: Seq<FileView>)
    ensures
        spec_sorted_by_name(spec_sort_files(s)),
        spec_sort_files(s).to_multiset() == s.to_multiset(),
    decreases s.len(),
{
    if s.len() > 0 {
        let r = spec_sort_files(s.drop_last());
        let x = s.last();
        let p = spec_insert_pos(r, x, 0);
        lemma_sort_files(s.drop_last());
        lemma_insert_pos(r, x, 0);
        let out = r.insert(p, x);
        if p < r.len() {
            lemma_name_le_total(r[p].name, x.name, 0);
        }
        assert forall|i: int, j: int| 0 <= i <= j < out.len() implies spec_name_le(
            #[trigger] out[i].name,
            #[trigger] out[j].name,
        ) by {
            lemma_name_le_reflexive(x.name, 0);
            if i < p && j < p {
                assert(out[i] == r[i] && out[j] == r[j]);
            } else if i < p && j == p {
                assert(out[i] == r[i]);
            } else if i < p && j > p {
                assert(out[i] == r[i] && out[j] == r[j - 1]);
                assert(spec_name_le(r[i].name, x.name));
                assert(spec_name_le(x.name, r[p].name));
                assert(spec_name_le(r[p].name, r[j - 1].name));
                lemma_name_le_transitive(x.name, r[p].name, r[j - 1].name, 0);
                lemma_name_le_transitive(r[i].name, x.name, r[j - 1].name, 0);
            } else if i == p && j == p {
            } else if i == p {
                assert(out[j] == r[j - 1]);
                assert(spec_name_le(r[p].name, r[j - 1].name));
                lemma_name_le_transitive(x.name, r[p].name, r[j - 1].name, 0);
            } else {
                assert(out[i] == r[i - 1]);
                assert(out[j] == r[j - 1]);
            }
        }
        assert(s =~= s.drop_last().push(x));
        vstd::seq_lib::to_multiset_insert(r, p, x);
        vstd::seq_lib::to_multiset_build(s.drop_last(), x);
    }
}

/// Merging the stored names lists each of them as a stored file, keeps the
/// name of every file, and where the files' names are distinct, keeps them
/// distinct and leaves no bundled file whose name is stored.
pub proof fn lemma_merge(files: Seq<FileView>, stored: Seq<Seq<char>>)
    ensures
        forall|k: int|
            0 <= k < stored.len() ==> exists|i: int|
                0 <= i < spec_merge(files, stored).len() && spec_merge(files, stored)[i] == (FileView {
                    name: #[trigger] stored[k],
                    source: ShaderSource::User,
                }),
        forall|i: int|
            0 <= i < files.len() ==> exists|j: int|
                0 <= j < spec_merge(files, stored).len() && spec_merge(files, stored)[j].name == (#[trigger] files[i]).name,
        spec_names_distinct(files) ==> spec_names_distinct(spec_merge(files, stored)),
        spec_names_distinct(files) ==> forall|j: int, k: int|
            0 <= j < spec_merge(files, stored).len() && 0 <= k < stored.len() && (#[trigger] spec_merge(files, stored)[j]).name
                == #[trigger] stored[k] ==> spec_merge(files, stored)[j].source == ShaderSource::User,
    decreases stored.len(),
{
    if stored.len() > 0 {
        let prev_stored = stored.drop_last();
        lemma_merge(files, prev_stored);
        let prev = spec_merge(files, prev_stored);
        let name = stored.last();
        let p = spec_position(prev, name);
        let f = FileView { name, source: ShaderSource::User };
        let m = spec_merge(files, stored);
        lemma_position_from(prev, name, 0);
        assert(m[if p < prev.len() { p } else { prev.len() as int }] == f);
        assert forall|k: int| 0 <= k < stored.len() implies exists|i: int|
            0 <= i < m.len() && m[i] == (FileView { name: #[trigger] stored[k], source: ShaderSource::User }) by {
            if k < stored.len() - 1 {
                assert(stored[k] == prev_stored[k]);
                let i = choose|i: int|
                    0 <= i < prev.len() && prev[i] == (FileView {
                        name: #[trigger] prev_stored[k],
                        source: ShaderSource::User,
                    });
                if p < prev.len() && i == p {
                    assert(m[i] == f);
                    assert(prev[p].name == name);
                } else {
                    assert(m[i] == prev[i]);
                }
            } else {
                let i = if p < prev.len() { p } else { prev.len() as int };
                assert(m[i] == f);
            }
        }
        assert forall|i: int| 0 <= i < files.len() implies exists|j: int|
            0 <= j < m.len() && m[j].name == (#[trigger] files[i]).name by {
            let j = choose|j: int| 0 <= j < prev.len() && prev[j].name == files[i].name;
            if p < prev.len() && j == p {
                assert(m[j].name == name);
            } else {
                assert(m[j] == prev[j]);
            }
        }
        if spec_names_distinct(files) {
            assert forall|a: int, b: int| 0 <= a < b < m.len() implies (#[trigger] m[a]).name != (#[trigger] m[b]).name by {
                if p < prev.len() {
                    if a != p {
                        assert(m[a] == prev[a]);
                    }
                    if b != p {
                        assert(m[b] == prev[b]);
                    }
                } else {
                    if b < prev.len() {
                        assert(m[a] == prev[a] && m[b] == prev[b]);
                    } else {
                        assert(m[a] == prev[a]);
                        assert(prev[a].name != name);
                    }
                }
            }
            assert forall|j: int, k: int|
                0 <= j < m.len() && 0 <= k < stored.len() && (#[trigger] m[j]).name == #[trigger] stored[k] implies m[j].source
                == ShaderSource::User by {
                if p < prev.len() && j == p {
                } else if p >= prev.len() && j == prev.len() {
                } else {
                    assert(m[j] == prev[j]);
                    if k < stored.len() - 1 {
                        assert(stored[k] == prev_stored[k]);
                    } else {
                        assert(prev[j].name == name);
                        assert(p < prev.len());
                        assert(prev[p].name == name);
                    }
                }
            }
        }
    }
}

/// Every merged file is one of `files` as it was, or a stored file of a
/// stored name.
pub proof fn lemma_merge_origin(files: Seq<FileView>, stored: Seq<Seq<char>>)
    ensures
        forall|j: int|
            0 <= j < spec_merge(files, stored).len() ==> files.contains(#[trigger] spec_merge(files, stored)[j]) || (
            spec_merge(files, stored)[j].source == ShaderSource::User && stored.contains(spec_merge(files, stored)[j].name)),
    decreases stored.len(),
{
    if stored.len() > 0 {
        let prev_stored = stored.drop_last();
        lemma_merge_origin(files, prev_stored);
        let prev = spec_merge(files, prev_stored);
        let name = stored.last();
        let m = spec_merge(files, stored);
        let p = spec_position(prev, name);
        lemma_position_from(prev, name, 0);
        assert forall|j: int| 0 <= j < m.len() implies files.contains(#[trigger] m[j]) || (m[j].source
            == ShaderSource::User && stored.contains(m[j].name)) by {
            if (p < prev.len() && j == p) || (p >= prev.len() && j == prev.len()) {
                assert(m[j].name == stored[stored.len() - 1]);
            } else {
                assert(m[j] == prev[j]);
                if !files.contains(prev[j]) {
                    let k = choose|k: int| 0 <= k < prev_stored.len() && prev_stored[k] == prev[j].name;
                    assert(stored[k] == prev_stored[k]);
                }
            }
        }
    }
}

/// What one of two sequences with the same elements holds, the other holds.
proof fn lemma_perm_contains(a: Seq<FileView>, b: Seq<FileView>, x: FileView)
    requires
        a.to_multiset() == b.to_multiset(),
        a.contains(x),
    ensures
        b.contains(x),
{
    a.to_multiset_ensures();
    b.to_multiset_ensures();
    assert(a.to_multiset().count(x) > 0);
    assert(b.to_multiset().count(x) > 0);
}

/// Sorting keeps names distinct.
pub proof fn lemma_sort_distinct(s: Seq<FileView>)
    requires
        spec_names_distinct(s),
    ensures
        spec_names_distinct(spec_sort_files(s)),
    decreases s.len(),
{
    if s.len() > 0 {
        let d = s.drop_last();
        assert(spec_names_distinct(d)) by {
            assert forall|a: int, b: int| 0 <= a < b < d.len() implies (#[trigger] d[a]).name != (#[trigger] d[b]).name by {
                assert(d[a] == s[a] && d[b] == s[b]);
            }
        }
        lemma_sort_distinct(d);
        lemma_sort_files(d);
        let r = spec_sort_files(d);
        let x = s.last();
        let p = spec_insert_pos(r, x, 0);
        lemma_insert_pos(r, x, 0);
        let out = r.insert(p, x);
        assert forall|i: int| 0 <= i < r.len() implies (#[trigger] r[i]).name != x.name by {
            assert(r.contains(r[i]));
            lemma_perm_contains(r, d, r[i]);
            let k = choose|k: int| 0 <= k < d.len() && d[k] == r[i];
            assert(s[k] == d[k]);
        }
        assert forall|a: int, b: int| 0 <= a < b < out.len() implies (#[trigger] out[a]).name != (#[trigger] out[b]).name by {
            if a < p && b < p {
                assert(out[a] == r[a] && out[b] == r[b]);
            } else if a < p && b == p {
                assert(out[a] == r[a]);
            } else if a < p {
                assert(out[a] == r[a] && out[b] == r[b - 1]);
            } else if a == p {
                assert(out[b] == r[b - 1]);
            } else {
                assert(out[a] == r[a - 1] && out[b] == r[b - 1]);
            }
        }
    }
}

/// Whether a file of the name is listed.
pub open spec fn spec_lists_name(s: Seq<FileView>, k: Seq<char>) -> bool {
    exists|i: int| 0 <= i < s.len() && #[trigger] s[i].name == k
}

/// The names of the bundled shaders.
pub open spec fn spec_bundled_names(bundled: Seq<(&'static str, &'static str)>) -> Seq<Seq<char>> {
    bundled.map_values(|b: (&'static str, &'static str)| b.0@)
}

/// Where the bundled names are distinct, the listed shaders have strictly
/// increasing names, each bundled or stored name once and no other; a shader
/// is a stored one exactly when its name is stored, and a bundled one has the
/// source bundled under its name.
pub proof fn lemma_scan(bundled: Seq<(&'static str, &'static str)>, stored: Seq<Seq<char>>)
    requires
        forall|a: int, b: int| 0 <= a < b < bundled.len() ==> (#[trigger] bundled[a]).0@ != (#[trigger] bundled[b]).0@,
    ensures
        forall|i: int, j: int|
            0 <= i < j < spec_scan(bundled, stored).len() ==> spec_name_le(
                (#[trigger] spec_scan(bundled, stored)[i]).name,
                (#[trigger] spec_scan(bundled, stored)[j]).name,
            ) && spec_scan(bundled, stored)[i].name != spec_scan(bundled, stored)[j].name,
        forall|k: Seq<char>|
            #[trigger] spec_lists_name(spec_scan(bundled, stored), k) <==> (spec_bundled_names(bundled).contains(k)
                || stored.contains(k)),
        forall|i: int|
            0 <= i < spec_scan(bundled, stored).len() ==> ((#[trigger] spec_scan(bundled, stored)[i]).source
                == ShaderSource::User <==> stored.contains(spec_scan(bundled, stored)[i].name)),
        forall|i: int|
            0 <= i < spec_scan(bundled, stored).len() ==> ((#[trigger] spec_scan(bundled, stored)[i]).source is Bundled
                ==> exists|b: int|
                0 <= b < bundled.len() && bundled[b].0@ == spec_scan(bundled, stored)[i].name && ShaderSource::Bundled(
                    bundled[b].1,
                ) == spec_scan(bundled, stored)[i].source),
{
    let files = spec_bundled_files(bundled);
    let m = spec_merge(files, stored);
    let out = spec_scan(bundled, stored);
    assert(spec_names_distinct(files)) by {
        assert forall|a: int, b: int| 0 <= a < b < files.len() implies (#[trigger] files[a]).name != (#[trigger] files[b]).name by {
            assert(files[a].name == bundled[a].0@);
            assert(files[b].name == bundled[b].0@);
        }
    }
    lemma_merge(files, stored);
    lemma_merge_origin(files, stored);
    lemma_sort_files(m);
    lemma_sort_distinct(m);
    assert forall|i: int, j: int| 0 <= i < j < out.len() implies spec_name_le((#[trigger] out[i]).name, (#[trigger] out[j]).name)
        && out[i].name != out[j].name by {}
    assert forall|k: Seq<char>|
        #[trigger] spec_lists_name(out, k) <==> (spec_bundled_names(bundled).contains(k) || stored.contains(k)) by {
        if spec_lists_name(out, k) {
            let i = choose|i: int| 0 <= i < out.len() && #[trigger] out[i].name == k;
            assert(out.contains(out[i]));
            lemma_perm_contains(out, m, out[i]);
            let j = choose|j: int| 0 <= j < m.len() && m[j] == out[i];
            if files.contains(m[j]) {
                let b = choose|b: int| 0 <= b < files.len() && files[b] == m[j];
                assert(spec_bundled_names(bundled)[b] == k);
            }
        }
        if spec_bundled_names(bundled).contains(k) {
            let b = choose|b: int| 0 <= b < bundled.len() && spec_bundled_names(bundled)[b] == k;
            assert(files[b].name == k);
            let j = choose|j: int| 0 <= j < m.len() && m[j].name == (#[trigger] files[b]).name;
            assert(m.contains(m[j]));
            lemma_perm_contains(m, out, m[j]);
            let i = choose|i: int| 0 <= i < out.len() && out[i] == m[j];
            assert(out[i].name == k);
        }
        if stored.contains(k) {
            let t = choose|t: int| 0 <= t < stored.len() && stored[t] == k;
            let j = choose|j: int| 0 <= j < m.len() && m[j] == (FileView { name: #[trigger] stored[t], source: ShaderSource::User });
            assert(m.contains(m[j]));
            lemma_perm_contains(m, out, m[j]);
            let i = choose|i: int| 0 <= i < out.len() && out[i] == m[j];
            assert(out[i].name == k);
        }
    }
    assert forall|i: int| 0 <= i < out.len() implies ((#[trigger] out[i]).source == ShaderSource::User <==> stored.contains(
        out[i].name,
    )) && (out[i].source is Bundled ==> exists|b: int|
        0 <= b < bundled.len() && bundled[b].0@ == out[i].name && ShaderSource::Bundled(bundled[b].1) == out[i].source) by {
        assert(out.contains(out[i]));
        lemma_perm_contains(out, m, out[i]);
        let j = choose|j: int| 0 <= j < m.len() && m[j] == out[i];
        if stored.contains(out[i].name) {
            let t = choose|t: int| 0 <= t < stored.len() && stored[t] == out[i].name;
            assert(m[j].name == stored[t]);
        }
        if files.contains(m[j]) {
            let b = choose|b: int| 0 <= b < files.len() && files[b] == m[j];
            assert(files[b].source == ShaderSource::Bundled(bundled[b].1));
        }
    }
}

/// Whether no two files have the same name.
pub open spec fn spec_names_distinct(s: Seq<FileView>) -> bool {
    forall|a: int, b: int| 0 <= a < b < s.len() ==> (#[trigger] s[a]).name != (#[trigger] s[b]).name
}

// ---------------------------------------------------------------------------
// The editor's state
// ---------------------------------------------------------------------------

/// What the editor holds: the listed shaders, the selected one, the edit
/// buffer with its unsaved-changes flag, the name typed for a new shader and
/// the last error to show.
#[derive(Debug)]
pub struct Editor {
    pub files: Vec<ShaderFile>,
    pub selected: Option<usize>,
    pub buffer: String,
    pub dirty: bool,
    pub new_name: String,
    pub status: Option<String>,
}

/// The views of an optional string.
pub open spec fn opt_chars(o: Option<String>) -> Option<Seq<char>> {
    match o {
        Some(s) => Some(s@),
        None => None,
    }
}

/// The message shown when a stored shader's source is missing.
pub open spec fn spec_missing_message(name: Seq<char>) -> Seq<char> {
    "stored shader `"@ + name + "` is missing"@
}

/// The message shown when saving or creating a shader failed.
pub open spec fn spec_failed_message(verb: Seq<char>, name: Seq<char>, err: Seq<char>) -> Seq<char> {
    "failed to "@ + verb + " `"@ + name + "`: "@ + err
}

/// `a` followed by `b`, as one string.
fn concat(a: &str, b: &str) -> (r: String)
    ensures
        r@ == a@ + b@,
{
    let mut v = chars_of(a);
    let w = chars_of(b);
    append_range(&mut v, w.as_slice(), 0, w.len());
    proof {
        assert(w@.subrange(0, w@.len() as int) =~= w@);
    }
    string_of(v.as_slice())
}

fn failed_message(verb: &str, name: &str, err: &str) -> (r: String)
    ensures
        r@ == spec_failed_message(verb@, name@, err@),
{
    let v = chars_of(verb);
    let head = concat3("failed to ", v.as_slice(), " `");
    let n = chars_of(name);
    let mid = concat3(head.as_str(), n.as_slice(), "`: ");
    let r = concat(mid.as_str(), err);
    proof {
        assert(r@ =~= spec_failed_message(verb@, name@, err@));
    }
    r
}

impl Editor {
    /// The editor over the listed files, with nothing selected.
    pub fn new(files: Vec<ShaderFile>) -> (r: Editor)
        ensures
            r.files@ == files@,
            r.selected == None::<usize>,
            r.buffer@ == Seq::<char>::empty(),
            !r.dirty,
            r.new_name@ == Seq::<char>::empty(),
            r.status == None::<String>,
    {
        Editor { files, selected: None, buffer: String::new(), dirty: false, new_name: String::new(), status: None }
    }

    /// The shader to select at start: the one named [`INITIAL_SHADER`], else
    /// the first, if there is any.
    pub fn initial_selection(&self) -> (r: Option<usize>)
        ensures
            r == (if spec_position(files_view(self.files@), INITIAL_SHADER@) < self.files@.len() {
                Some(spec_position(files_view(self.files@), INITIAL_SHADER@) as usize)
            } else if self.files@.len() > 0 {
                Some(0usize)
            } else {
                None::<usize>
            }),
    {
        match position(&self.files, INITIAL_SHADER) {
            Some(i) => Some(i),
            None => if self.files.len() == 0 {
                None
            } else {
                Some(0)
            },
        }
    }

    /// The label of a shader in the picker: its name.
    pub fn label(&self, index: usize) -> (r: String)
        requires
            index < self.files@.len(),
        ensures
            r@ == self.files@[index as int].name@,
    {
        self.files[index].name.clone()
    }

    /// The name a shader created now gets, and the position of an existing
    /// shader of that name, which is selected instead so that nothing is
    /// overwritten.
    pub fn create_target(&self) -> (r: (String, Option<usize>))
        ensures
            r.0@ == spec_new_shader_name(self.new_name@),
            r.1 == (if spec_position(files_view(self.files@), r.0@) < self.files@.len() {
                Some(spec_position(files_view(self.files@), r.0@) as usize)
            } else {
                None::<usize>
            }),
    {
        let name = new_shader_name(self.new_name.as_str());
        let existing = position(&self.files, name.as_str());
        (name, existing)
    }

    /// Whether a new shader can be created from the typed name: it is not
    /// blank.
    pub fn can_create(&self) -> (r: bool)
        ensures
            r == (spec_trim(self.new_name@).len() > 0),
    {
        let chars = chars_of(self.new_name.as_str());
        trim(chars.as_slice()).len() > 0
    }

    /// The shader at `index` was loaded with the source: it is selected, with
    /// the source in the buffer and nothing unsaved or failed.
    pub fn loaded(&mut self, index: usize, source: String)
        requires
            index < old(self).files@.len(),
        ensures
            final(self).files@ == old(self).files@,
            final(self).selected == Some(index),
            final(self).buffer@ == source@,
            !final(self).dirty,
            final(self).new_name@ == old(self).new_name@,
            final(self).status == None::<String>,
    {
        self.buffer = source;
        self.selected = Some(index);
        self.dirty = false;
        self.status = None;
    }

    /// The stored source of the shader at `index` is missing: that is the
    /// error to show, and nothing else changes.
    pub fn source_missing(&mut self, index: usize)
        requires
            index < old(self).files@.len(),
        ensures
            final(self).files@ == old(self).files@,
            final(self).selected == old(self).selected,
            final(self).buffer@ == old(self).buffer@,
            final(self).dirty == old(self).dirty,
            final(self).new_name@ == old(self).new_name@,
            opt_chars(final(self).status) == Some(spec_missing_message(old(self).files@[index as int].name@)),
    {
        let n = chars_of(self.files[index].name.as_str());
        self.status = Some(concat3("stored shader `", n.as_slice(), "` is missing"));
    }

    /// The shader at `index` was saved to the store: nothing is unsaved or
    /// failed, and a bundled shader becomes a stored one, which shadows it.
    /// Says whether it was bundled (so that the stored copy is loaded from
    /// now on).
    pub fn saved(&mut self, index: usize) -> (was_bundled: bool)
        requires
            index < old(self).files@.len(),
        ensures
            was_bundled == (old(self).files@[index as int].source is Bundled),
            files_view(final(self).files@) == files_view(old(self).files@).update(
                index as int,
                FileView { name: old(self).files@[index as int].name@, source: ShaderSource::User },
            ),
            final(self).selected == old(self).selected,
            final(self).buffer@ == old(self).buffer@,
            !final(self).dirty,
            final(self).new_name@ == old(self).new_name@,
            final(self).status == None::<String>,
    {
        self.dirty = false;
        self.status = None;
        let was_bundled = match self.files[index].source {
            ShaderSource::Bundled(_) => true,
            ShaderSource::User => false,
        };
        let ghost before = self.files@;
        let name = self.files[index].name.clone();
        self.files.set(index, ShaderFile { name, source: ShaderSource::User });
        proof {
            assert(files_view(self.files@) =~= files_view(before).update(
                index as int,
                FileView { name: before[index as int].name@, source: ShaderSource::User },
            ));
        }
        was_bundled
    }

    /// Saving the shader failed with the error: that is the error to show.
    pub fn save_failed(&mut self, name: &str, err: &str)
        ensures
            final(self).files@ == old(self).files@,
            final(self).selected == old(self).selected,
            final(self).buffer@ == old(self).buffer@,
            final(self).dirty == old(self).dirty,
            final(self).new_name@ == old(self).new_name@,
            opt_chars(final(self).status) == Some(spec_failed_message("save"@, name@, err@)),
    {
        self.status = Some(failed_message("save", name, err));
    }

    /// A new shader of the name was stored: the typed name is cleared and the
    /// shader is listed last, as a stored one. Returns its position.
    pub fn created(&mut self, name: String) -> (index: usize)
        ensures
            index == old(self).files@.len(),
            files_view(final(self).files@) == files_view(old(self).files@).push(
                FileView { name: name@, source: ShaderSource::User },
            ),
            final(self).selected == old(self).selected,
            final(self).buffer@ == old(self).buffer@,
            final(self).dirty == old(self).dirty,
            final(self).new_name@ == Seq::<char>::empty(),
            final(self).status == old(self).status,
    {
        self.new_name = String::new();
        let ghost before = self.files@;
        let index = self.files.len();
        self.files.push(ShaderFile { name, source: ShaderSource::User });
        proof {
            assert(files_view(self.files@) =~= files_view(before).push(
                FileView { name: name@, source: ShaderSource::User },
            ));
        }
        index
    }

    /// Creating the shader failed with the error: that is the error to show.
    pub fn create_failed(&mut self, name: &str, err: &str)
        ensures
            final(self).files@ == old(self).files@,
            final(self).selected == old(self).selected,
            final(self).buffer@ == old(self).buffer@,
            final(self).dirty == old(self).dirty,
            final(self).new_name@ == old(self).new_name@,
            opt_chars(final(self).status) == Some(spec_failed_message("create"@, name@, err@)),
    {
        self.status = Some(failed_message("create", name, err));
    }
}

// ---------------------------------------------------------------------------
// The default image
// ---------------------------------------------------------------------------

/// The RGBA8 pixel at `(x, y)` of a checkerboard of `cell`-sized squares over
/// a gradient: red on alternate squares, green rising to the right and blue
/// downwards.
pub open spec fn spec_checker_pixel(x: int, y: int, size: int, cell: int) -> Seq<u8> {
    let on = ((x / cell) + (y / cell)) % 2 == 0;
    seq![if on { 230u8 } else { 30u8 }, (x * 255 / size) as u8, (y * 255 / size) as u8, 255u8]
}

/// The first `n` pixels of row `y`.
pub open spec fn spec_checker_row(y: int, size: int, cell: int, n: int) -> Seq<u8>
    decreases n,
{
    if n <= 0 {
        Seq::empty()
    } else {
        spec_checker_row(y, size, cell, n - 1) + spec_checker_pixel(n - 1, y, size, cell)
    }
}

/// The first `n` rows of a `size` by `size` checkerboard, row by row.
pub open spec fn spec_checkerboard(size: int, cell: int, n: int) -> Seq<u8>
    decreases n,
{
    if n <= 0 {
        Seq::empty()
    } else {
        spec_checkerboard(size, cell, n - 1) + spec_checker_row(n - 1, size, cell, size)
    }
}

proof fn lemma_gradient(x: u32, size: u32)
    requires
        x < size,
        size <= 32768,
    ensures
        x * 255 <= u32::MAX,
        x * 255 / (size as int) < 256,
{
    assert(x * 255 <= 32768 * 255) by (nonlinear_arith)
        requires
            x < 32768,
    ;
    assert(x * 255 / (size as int) < 256) by (nonlinear_arith)
        requires
            x < size,
            0 < size,
    ;
}

/// The pixels of a `size` by `size` RGBA8 checkerboard of `cell`-sized
/// squares over a gradient, row by row (the default `@image` input).
pub fn checkerboard_pixels(size: u32, cell: u32) -> (r: Vec<u8>)
    requires
        cell > 0,
        size * size * 4 <= u32::MAX,
    ensures
        r@ == spec_checkerboard(size as int, cell as int, size as int),
        r@.len() == 4 * size * size,
{
    assert(size <= 32768) by (nonlinear_arith)
        requires
            size * size * 4 <= u32::MAX,
    ;
    let mut data: Vec<u8> = Vec::new();
    let mut y: u32 = 0;
    while y < size
        invariant
            y <= size,
            size <= 32768,
            cell > 0,
            data@ == spec_checkerboard(size as int, cell as int, y as int),
        decreases size - y,
    {
        let ghost start = data@;
        let mut x: u32 = 0;
        while x < size
            invariant
                x <= size,
                y < size,
                size <= 32768,
                cell > 0,
                data@ == start + spec_checker_row(y as int, size as int, cell as int, x as int),
            decreases size - x,
        {
            proof {
                lemma_gradient(x, size);
                lemma_gradient(y, size);
            }
            let on = ((x / cell) + (y / cell)) % 2 == 0;
            let r: u8 = if on {
                230
            } else {
                30
            };
            let g = (x * 255 / size) as u8;
            let b = (y * 255 / size) as u8;
            data.push(r);
            data.push(g);
            data.push(b);
            data.push(255);
            proof {
                assert(data@ =~= start + spec_checker_row(y as int, size as int, cell as int, x + 1));
            }
            x += 1;
        }
        y += 1;
    }
    proof {
        lemma_checkerboard_len(size as int, cell as int, size as int);
    }
    data
}

/// A checkerboard has four bytes per pixel.
pub proof fn lemma_checkerboard_len(size: int, cell: int, n: int)
    requires
        size >= 0,
        n >= 0,
    ensures
        spec_checkerboard(size, cell, n).len() == 4 * size * n,
    decreases n,
{
    if n > 0 {
        lemma_checkerboard_len(size, cell, n - 1);
        lemma_checker_row_len(n - 1, size, cell, size);
        assert(4 * size * (n - 1) + 4 * size == 4 * size * n) by (nonlinear_arith);
    } else {
        assert(4 * size * n == 0) by (nonlinear_arith)
            requires
                n == 0,
        ;
    }
}

proof fn lemma_checker_row_len(y: int, size: int, cell: int, n: int)
    requires
        n >= 0,
    ensures
        spec_checker_row(y, size, cell, n).len() == 4 * n,
    decreases n,
{
    if n > 0 {
        lemma_checker_row_len(y, size, cell, n - 1);
    }
}

// ---------------------------------------------------------------------------
// Audio capture
// ---------------------------------------------------------------------------

/// The device capture should run from: none while capture is disabled, else
/// the selected device's name, or the empty name (the host default) when
/// nothing is listed at the selected position.
pub open spec fn spec_capture_target(enabled: bool, devices: Seq<Seq<char>>, selected: int) -> Option<Seq<char>> {
    if !enabled {
        None
    } else if 0 <= selected < devices.len() {
        Some(devices[selected])
    } else {
        Some(Seq::empty())
    }
}

/// The device capture should run from.
pub fn capture_target(enabled: bool, devices: &Vec<String>, selected: usize) -> (r: Option<String>)
    ensures
        opt_chars(r) == spec_capture_target(enabled, strings_view(devices@), selected as int),
{
    if !enabled {
        None
    } else if selected < devices.len() {
        Some(devices[selected].clone())
    } else {
        Some(String::new())
    }
}

/// The first position of a name among the devices (the length if none).
pub open spec fn spec_name_position(names: Seq<Seq<char>>, name: Seq<char>, i: int) -> int
    decreases names.len() - i,
{
    if i < 0 || i >= names.len() {
        names.len() as int
    } else if names[i] == name {
        i
    } else {
        spec_name_position(names, name, i + 1)
    }
}

/// The device selected at start: the host's default device where it is
/// listed, else the first.
pub open spec fn spec_initial_device(devices: Seq<Seq<char>>, default_name: Option<Seq<char>>) -> int {
    match default_name {
        Some(n) => if spec_name_position(devices, n, 0) < devices.len() {
            spec_name_position(devices, n, 0)
        } else {
            0
        },
        None => 0,
    }
}

/// The device selected at start.
pub fn initial_device(devices: &Vec<String>, default_name: Option<&str>) -> (r: usize)
    ensures
        r as int == spec_initial_device(
            strings_view(devices@),
            match default_name {
                Some(n) => Some(n@),
                None => None,
            },
        ),
{
    let ghost names = strings_view(devices@);
    match default_name {
        Some(name) => {
            let mut i: usize = 0;
            while i < devices.len()
                invariant
                    names == strings_view(devices@),
                    default_name == Some(name),
                    i <= devices@.len(),
                    spec_name_position(names, name@, 0) == spec_name_position(names, name@, i as int),
                decreases devices@.len() - i,
            {
                proof {
                    assert(names.len() == devices@.len());
                }
                if crate::text::str_eq(devices[i].as_str(), name) {
                    proof {
                        assert(names[i as int] == devices@[i as int]@);
                        assert(names.len() == devices@.len());
                        assert(spec_name_position(names, name@, i as int) == i);
                    }
                    return i;
                }
                proof {
                    assert(names[i as int] == devices@[i as int]@);
                }
                i += 1;
            }
            0
        },
        None => 0,
    }
}

} // verus!
