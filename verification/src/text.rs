//! Character-level text helpers with the semantics of the std string methods
//! that the annotation parser relies on (`char::is_whitespace`, `str::trim`,
//! `str::lines`, `str::split_whitespace`, `join`).
//!
//! Text is handled as sequences of `char`s; positions are character indices.

use vstd::prelude::*;

verus! {

/// Unicode `White_Space`, the property behind `char::is_whitespace`.
pub open spec fn spec_is_whitespace(c: char) -> bool {
    ||| c == ' '
    ||| ('\t' <= c && c <= '\r')
    ||| c == '\u{85}'
    ||| c == '\u{A0}'
    ||| c == '\u{1680}'
    ||| ('\u{2000}' <= c && c <= '\u{200A}')
    ||| c == '\u{2028}'
    ||| c == '\u{2029}'
    ||| c == '\u{202F}'
    ||| c == '\u{205F}'
    ||| c == '\u{3000}'
}

/// Whether `c` is Unicode white space.
pub fn is_whitespace(c: char) -> (r: bool)
    ensures
        r == spec_is_whitespace(c),
{
    c == ' ' || ('\t' <= c && c <= '\r') || c == '\u{85}' || c == '\u{A0}' || c == '\u{1680}'
        || ('\u{2000}' <= c && c <= '\u{200A}') || c == '\u{2028}' || c == '\u{2029}'
        || c == '\u{202F}' || c == '\u{205F}' || c == '\u{3000}'
}

/// The characters of a string slice.
pub fn chars_of(s: &str) -> (v: Vec<char>)
    ensures
        v@ == s@,
{
    let mut v: Vec<char> = Vec::new();
    for c in it: s.chars()
        invariant
            v@ == it.seq().take(it.index() as int),
            it.seq() == s@,
    {
        v.push(c);
    }
    v
}

/// `String::push`: appends one character.
#[verifier::external_body]
fn push_char(s: &mut String, c: char)
    ensures
        final(s)@ == old(s)@.push(c),
{
    s.push(c);
}

/// The string made of the given characters.
pub fn string_of(v: &[char]) -> (s: String)
    ensures
        s@ == v@,
{
    let mut s = String::new();
    let mut i: usize = 0;
    while i < v.len()
        invariant
            i <= v@.len(),
            s@ == v@.take(i as int),
        decreases v@.len() - i,
    {
        push_char(&mut s, v[i]);
        proof {
            assert(v@.take(i + 1) =~= v@.take(i as int).push(v@[i as int]));
        }
        i += 1;
    }
    proof {
        assert(v@.take(v@.len() as int) =~= v@);
    }
    s
}

/// A copy of `v[start..end]`.
pub fn copy_range(v: &[char], start: usize, end: usize) -> (r: Vec<char>)
    requires
        start <= end <= v@.len(),
    ensures
        r@ == v@.subrange(start as int, end as int),
{
    let mut r: Vec<char> = Vec::new();
    let mut i = start;
    while i < end
        invariant
            start <= i <= end <= v@.len(),
            r@ == v@.subrange(start as int, i as int),
        decreases end - i,
    {
        r.push(v[i]);
        proof {
            assert(v@.subrange(start as int, i + 1) =~= v@.subrange(start as int, i as int).push(
                v@[i as int],
            ));
        }
        i += 1;
    }
    r
}

/// Appends `v[start..end]` to `out`.
pub fn append_range(out: &mut Vec<char>, v: &[char], start: usize, end: usize)
    requires
        start <= end <= v@.len(),
    ensures
        final(out)@ == old(out)@ + v@.subrange(start as int, end as int),
{
    let mut i = start;
    while i < end
        invariant
            start <= i <= end <= v@.len(),
            out@ == old(out)@ + v@.subrange(start as int, i as int),
        decreases end - i,
    {
        out.push(v[i]);
        proof {
            assert(v@.subrange(start as int, i + 1) =~= v@.subrange(start as int, i as int).push(
                v@[i as int],
            ));
        }
        i += 1;
    }
}

/// The first index at or after `i` holding `c`, or the length if there is none.
pub open spec fn spec_find_from(s: Seq<char>, c: char, i: int) -> int
    decreases s.len() - i,
{
    if i >= s.len() {
        s.len() as int
    } else if s[i] == c {
        i
    } else {
        spec_find_from(s, c, i + 1)
    }
}

pub proof fn lemma_find_from_bounds(s: Seq<char>, c: char, i: int)
    requires
        0 <= i <= s.len(),
    ensures
        i <= spec_find_from(s, c, i) <= s.len(),
        spec_find_from(s, c, i) < s.len() ==> s[spec_find_from(s, c, i)] == c,
        forall|k: int| i <= k < spec_find_from(s, c, i) ==> s[k] != c,
    decreases s.len() - i,
{
    if i < s.len() && s[i] != c {
        lemma_find_from_bounds(s, c, i + 1);
    }
}

/// The first index at or after `i` holding `c`, or the length if there is none.
pub fn find_from(s: &[char], c: char, i: usize) -> (r: usize)
    requires
        i <= s@.len(),
    ensures
        r == spec_find_from(s@, c, i as int),
        i <= r <= s@.len(),
{
    let mut j = i;
    while j < s.len() && s[j] != c
        invariant
            i <= j <= s@.len(),
            spec_find_from(s@, c, i as int) == spec_find_from(s@, c, j as int),
        decreases s@.len() - j,
    {
        j += 1;
    }
    j
}

/// The first index at or after `i` that is not white space, or the length.
pub open spec fn spec_skip_ws_from(s: Seq<char>, i: int) -> int
    decreases s.len() - i,
{
    if i >= s.len() {
        s.len() as int
    } else if spec_is_whitespace(s[i]) {
        spec_skip_ws_from(s, i + 1)
    } else {
        i
    }
}

/// The first index at or after `i` that is white space, or the length.
pub open spec fn spec_find_ws_from(s: Seq<char>, i: int) -> int
    decreases s.len() - i,
{
    if i >= s.len() {
        s.len() as int
    } else if spec_is_whitespace(s[i]) {
        i
    } else {
        spec_find_ws_from(s, i + 1)
    }
}

/// The end of `s.take(j)` once trailing white space is dropped.
pub open spec fn spec_trim_end_len(s: Seq<char>, j: int) -> int
    decreases j,
{
    if j <= 0 {
        0
    } else if spec_is_whitespace(s[j - 1]) {
        spec_trim_end_len(s, j - 1)
    } else {
        j
    }
}

/// `str::trim_start`.
pub open spec fn spec_trim_start(s: Seq<char>) -> Seq<char> {
    s.skip(spec_skip_ws_from(s, 0))
}

/// `str::trim_end`.
pub open spec fn spec_trim_end(s: Seq<char>) -> Seq<char> {
    s.take(spec_trim_end_len(s, s.len() as int))
}

/// `str::trim`: drops leading and trailing white space.
pub open spec fn spec_trim(s: Seq<char>) -> Seq<char> {
    spec_trim_end(spec_trim_start(s))
}

pub proof fn lemma_skip_ws_bounds(s: Seq<char>, i: int)
    requires
        0 <= i <= s.len(),
    ensures
        i <= spec_skip_ws_from(s, i) <= s.len(),
        spec_skip_ws_from(s, i) < s.len() ==> !spec_is_whitespace(s[spec_skip_ws_from(s, i)]),
        forall|k: int| i <= k < spec_skip_ws_from(s, i) ==> spec_is_whitespace(s[k]),
    decreases s.len() - i,
{
    if i < s.len() && spec_is_whitespace(s[i]) {
        lemma_skip_ws_bounds(s, i + 1);
    }
}

pub proof fn lemma_find_ws_bounds(s: Seq<char>, i: int)
    requires
        0 <= i <= s.len(),
    ensures
        i <= spec_find_ws_from(s, i) <= s.len(),
        spec_find_ws_from(s, i) < s.len() ==> spec_is_whitespace(s[spec_find_ws_from(s, i)]),
        forall|k: int| i <= k < spec_find_ws_from(s, i) ==> !spec_is_whitespace(s[k]),
    decreases s.len() - i,
{
    if i < s.len() && !spec_is_whitespace(s[i]) {
        lemma_find_ws_bounds(s, i + 1);
    }
}

pub proof fn lemma_trim_end_len_bounds(s: Seq<char>, j: int)
    requires
        0 <= j <= s.len(),
    ensures
        0 <= spec_trim_end_len(s, j) <= j,
        spec_trim_end_len(s, j) > 0 ==> !spec_is_whitespace(s[spec_trim_end_len(s, j) - 1]),
        forall|k: int| spec_trim_end_len(s, j) <= k < j ==> spec_is_whitespace(s[k]),
    decreases j,
{
    if j > 0 && spec_is_whitespace(s[j - 1]) {
        lemma_trim_end_len_bounds(s, j - 1);
    }
}

/// The first index at or after `i` that is not white space, or the length.
pub fn skip_ws_from(s: &[char], i: usize) -> (r: usize)
    requires
        i <= s@.len(),
    ensures
        r == spec_skip_ws_from(s@, i as int),
        i <= r <= s@.len(),
{
    let mut j = i;
    while j < s.len() && is_whitespace(s[j])
        invariant
            i <= j <= s@.len(),
            spec_skip_ws_from(s@, i as int) == spec_skip_ws_from(s@, j as int),
        decreases s@.len() - j,
    {
        j += 1;
    }
    j
}

/// The first index at or after `i` that is white space, or the length.
pub fn find_ws_from(s: &[char], i: usize) -> (r: usize)
    requires
        i <= s@.len(),
    ensures
        r == spec_find_ws_from(s@, i as int),
        i <= r <= s@.len(),
{
    let mut j = i;
    while j < s.len() && !is_whitespace(s[j])
        invariant
            i <= j <= s@.len(),
            spec_find_ws_from(s@, i as int) == spec_find_ws_from(s@, j as int),
        decreases s@.len() - j,
    {
        j += 1;
    }
    j
}

/// `str::trim`.
pub fn trim(s: &[char]) -> (r: &[char])
    ensures
        r@ == spec_trim(s@),
{
    let a = skip_ws_from(s, 0);
    let t = &s[a..s.len()];
    proof {
        assert(t@ =~= spec_trim_start(s@));
    }
    let mut b = t.len();
    while b > 0 && is_whitespace(t[b - 1])
        invariant
            b <= t@.len(),
            spec_trim_end_len(t@, t@.len() as int) == spec_trim_end_len(t@, b as int),
        decreases b,
    {
        b -= 1;
    }
    &t[0..b]
}

/// Whether `p` is a prefix of `s`.
pub open spec fn spec_starts_with(s: Seq<char>, p: Seq<char>) -> bool {
    p.len() <= s.len() && s.take(p.len() as int) == p
}

/// Whether `p` is a suffix of `s`.
pub open spec fn spec_ends_with(s: Seq<char>, p: Seq<char>) -> bool {
    p.len() <= s.len() && s.skip(s.len() - p.len()) == p
}

/// Whether `p` is a prefix of `s`.
pub fn starts_with(s: &[char], p: &[char]) -> (r: bool)
    ensures
        r == spec_starts_with(s@, p@),
{
    if p.len() > s.len() {
        return false;
    }
    let mut i: usize = 0;
    while i < p.len()
        invariant
            p@.len() <= s@.len(),
            i <= p@.len(),
            forall|k: int| 0 <= k < i ==> s@[k] == p@[k],
        decreases p@.len() - i,
    {
        if s[i] != p[i] {
            proof {
                assert(s@.take(p@.len() as int)[i as int] != p@[i as int]);
            }
            return false;
        }
        i += 1;
    }
    proof {
        assert(s@.take(p@.len() as int) =~= p@);
    }
    true
}

/// Whether `p` is a suffix of `s`.
pub fn ends_with(s: &[char], p: &[char]) -> (r: bool)
    ensures
        r == spec_ends_with(s@, p@),
{
    if p.len() > s.len() {
        return false;
    }
    let off = s.len() - p.len();
    let slen = s.len();
    let mut i: usize = 0;
    while i < p.len()
        invariant
            p@.len() <= s@.len(),
            off == s@.len() - p@.len(),
            slen == s@.len(),
            i <= p@.len(),
            forall|k: int| 0 <= k < i ==> s@[off + k] == p@[k],
        decreases p@.len() - i,
    {
        if s[off + i] != p[i] {
            proof {
                assert(s@.skip(off as int)[i as int] != p@[i as int]);
            }
            return false;
        }
        i += 1;
    }
    proof {
        assert(s@.skip(off as int) =~= p@);
    }
    true
}

/// Drops one trailing `'\r'`, if any.
pub open spec fn spec_strip_cr(l: Seq<char>) -> Seq<char> {
    if l.len() > 0 && l.last() == '\r' {
        l.drop_last()
    } else {
        l
    }
}

/// `str::lines` from index `i`: lines end at `'\n'` (with a preceding `'\r'`
/// dropped); a final line ending is optional.
pub open spec fn spec_lines_from(s: Seq<char>, i: int) -> Seq<Seq<char>>
    decreases s.len() - i,
{
    if i >= s.len() || i < 0 {
        Seq::empty()
    } else {
        let j = spec_find_from(s, '\n', i);
        if j >= s.len() || j < i {
            seq![s.subrange(i, s.len() as int)]
        } else {
            seq![spec_strip_cr(s.subrange(i, j))] + spec_lines_from(s, j + 1)
        }
    }
}

/// `str::lines`.
pub open spec fn spec_lines(s: Seq<char>) -> Seq<Seq<char>> {
    spec_lines_from(s, 0)
}

/// `str::split_whitespace` from index `i`.
pub open spec fn spec_words_from(s: Seq<char>, i: int) -> Seq<Seq<char>>
    decreases s.len() - i,
{
    if i >= s.len() || i < 0 {
        Seq::empty()
    } else {
        let a = spec_skip_ws_from(s, i);
        if a >= s.len() || a < i {
            Seq::empty()
        } else {
            let b = spec_find_ws_from(s, a);
            if b <= i || b > s.len() {
                Seq::empty()
            } else {
                seq![s.subrange(a, b)] + spec_words_from(s, b)
            }
        }
    }
}

/// `str::split_whitespace`: the maximal runs of non-white-space characters.
pub open spec fn spec_words(s: Seq<char>) -> Seq<Seq<char>> {
    spec_words_from(s, 0)
}

/// `join`: the pieces with `sep` between consecutive ones.
pub open spec fn spec_join(pieces: Seq<Seq<char>>, sep: Seq<char>) -> Seq<char>
    decreases pieces.len(),
{
    if pieces.len() == 0 {
        Seq::empty()
    } else if pieces.len() == 1 {
        pieces[0]
    } else {
        spec_join(pieces.drop_last(), sep) + sep + pieces.last()
    }
}

/// The white space of `s` collapsed: words joined by single spaces.
pub open spec fn spec_normalize_ws(s: Seq<char>) -> Seq<char> {
    spec_join(spec_words(s), seq![' '])
}

proof fn lemma_skip_ws_push_space(s: Seq<char>, i: int)
    requires
        0 <= i <= s.len(),
    ensures
        spec_skip_ws_from(s.push(' '), i) == (if spec_skip_ws_from(s, i) < s.len() {
            spec_skip_ws_from(s, i)
        } else {
            s.len() + 1int
        }),
    decreases s.len() - i,
{
    let t = s.push(' ');
    if i == s.len() {
        assert(spec_is_whitespace(t[i]));
        assert(spec_skip_ws_from(t, i + 1) == t.len());
    } else {
        assert(t[i] == s[i]);
        if spec_is_whitespace(s[i]) {
            lemma_skip_ws_push_space(s, i + 1);
        }
    }
}

proof fn lemma_find_ws_push_space(s: Seq<char>, i: int)
    requires
        0 <= i <= s.len(),
    ensures
        spec_find_ws_from(s.push(' '), i) == spec_find_ws_from(s, i),
    decreases s.len() - i,
{
    let t = s.push(' ');
    if i == s.len() {
        assert(spec_is_whitespace(t[i]));
    } else {
        assert(t[i] == s[i]);
        if !spec_is_whitespace(s[i]) {
            lemma_find_ws_push_space(s, i + 1);
        }
    }
}

proof fn lemma_words_push_space_from(s: Seq<char>, i: int)
    requires
        0 <= i <= s.len(),
    ensures
        spec_words_from(s.push(' '), i) == spec_words_from(s, i),
    decreases s.len() - i,
{
    let t = s.push(' ');
    lemma_skip_ws_push_space(s, i);
    lemma_skip_ws_bounds(s, i);
    let a = spec_skip_ws_from(s, i);
    if a < s.len() {
        lemma_find_ws_push_space(s, a);
        lemma_find_ws_bounds(s, a);
        let b = spec_find_ws_from(s, a);
        if b > i && b <= s.len() {
            lemma_words_push_space_from(s, b);
            assert(t.subrange(a, b) =~= s.subrange(a, b));
        }
    }
}

/// A trailing space changes no word, so not the collapsed text either.
pub proof fn lemma_normalize_ws_push_space(s: Seq<char>)
    ensures
        spec_normalize_ws(s.push(' ')) == spec_normalize_ws(s),
{
    lemma_words_push_space_from(s, 0);
}

/// The views of a sequence of character vectors.
pub open spec fn views(v: Seq<Vec<char>>) -> Seq<Seq<char>> {
    v.map_values(|x: Vec<char>| x@)
}

pub proof fn lemma_views_push(v: Seq<Vec<char>>, x: Vec<char>)
    ensures
        views(v.push(x)) == views(v).push(x@),
{
    assert(views(v.push(x)) =~= views(v).push(x@));
}

/// The words of `s` (`str::split_whitespace`).
pub fn words(s: &[char]) -> (r: Vec<Vec<char>>)
    ensures
        views(r@) == spec_words(s@),
{
    let mut r: Vec<Vec<char>> = Vec::new();
    let mut i: usize = 0;
    proof {
        assert(views(r@) =~= Seq::<Seq<char>>::empty());
    }
    loop
        invariant
            i <= s@.len(),
            spec_words(s@) == views(r@) + spec_words_from(s@, i as int),
        decreases s@.len() - i,
    {
        let a = skip_ws_from(s, i);
        if a >= s.len() {
            proof {
                assert(spec_words_from(s@, i as int) =~= Seq::<Seq<char>>::empty());
                assert(views(r@) + Seq::<Seq<char>>::empty() =~= views(r@));
            }
            return r;
        }
        let b = find_ws_from(s, a);
        proof {
            lemma_find_ws_bounds(s@, a as int);
            lemma_skip_ws_bounds(s@, i as int);
        }
        let w = copy_range(s, a, b);
        let ghost old_r = r@;
        r.push(w);
        proof {
            lemma_views_push(old_r, w);
            assert(spec_words_from(s@, i as int) == seq![s@.subrange(a as int, b as int)]
                + spec_words_from(s@, b as int));
            assert(views(r@) + spec_words_from(s@, b as int) =~= views(old_r) + (seq![
                s@.subrange(a as int, b as int),
            ] + spec_words_from(s@, b as int)));
        }
        i = b;
    }
}

/// The pieces joined with `sep` between consecutive ones.
pub fn join(pieces: &Vec<Vec<char>>, sep: &[char]) -> (r: Vec<char>)
    ensures
        r@ == spec_join(views(pieces@), sep@),
{
    let mut r: Vec<char> = Vec::new();
    let mut k: usize = 0;
    while k < pieces.len()
        invariant
            k <= pieces@.len(),
            r@ == spec_join(views(pieces@).take(k as int), sep@),
        decreases pieces@.len() - k,
    {
        let ghost vs = views(pieces@);
        proof {
            assert(vs.take(k + 1).drop_last() =~= vs.take(k as int));
            assert(vs.take(k + 1).last() == pieces@[k as int]@);
        }
        if k > 0 {
            append_range(&mut r, sep, 0, sep.len());
            proof {
                assert(sep@.subrange(0, sep@.len() as int) =~= sep@);
            }
        } else {
            proof {
                assert(vs.take(1)[0] == pieces@[0]@);
            }
        }
        let p = &pieces[k];
        append_range(&mut r, p.as_slice(), 0, p.len());
        proof {
            assert(p@.subrange(0, p@.len() as int) =~= p@);
            if k == 0 {
                assert(r@ =~= spec_join(vs.take(1), sep@));
            }
        }
        k += 1;
    }
    proof {
        assert(views(pieces@).take(pieces@.len() as int) =~= views(pieces@));
    }
    r
}

/// White space collapsed: the words of `s` joined by single spaces.
pub fn normalize_ws(s: &[char]) -> (r: Vec<char>)
    ensures
        r@ == spec_normalize_ws(s@),
{
    let ws = words(s);
    let sep = [' '];
    let r = join(&ws, &sep);
    proof {
        assert(sep@ =~= seq![' ']);
    }
    r
}

/// `str::lines`, as character vectors.
pub fn lines(s: &[char]) -> (r: Vec<Vec<char>>)
    ensures
        views(r@) == spec_lines(s@),
{
    let mut r: Vec<Vec<char>> = Vec::new();
    let mut i: usize = 0;
    proof {
        assert(views(r@) =~= Seq::<Seq<char>>::empty());
    }
    loop
        invariant
            i <= s@.len(),
            spec_lines(s@) == views(r@) + spec_lines_from(s@, i as int),
        decreases s@.len() - i,
    {
        if i >= s.len() {
            proof {
                assert(views(r@) + spec_lines_from(s@, i as int) =~= views(r@));
            }
            return r;
        }
        let j = find_from(s, '\n', i);
        let ghost old_r = r@;
        if j >= s.len() {
            let w = copy_range(s, i, s.len());
            r.push(w);
            proof {
                lemma_views_push(old_r, w);
                assert(views(r@) =~= views(old_r) + spec_lines_from(s@, i as int));
            }
            return r;
        }
        let mut end = j;
        if end > i && s[end - 1] == '\r' {
            end = end - 1;
        }
        let w = copy_range(s, i, end);
        r.push(w);
        proof {
            lemma_views_push(old_r, w);
            assert(w@ == spec_strip_cr(s@.subrange(i as int, j as int)));
            assert(views(r@) + spec_lines_from(s@, j + 1) =~= views(old_r) + (seq![
                spec_strip_cr(s@.subrange(i as int, j as int)),
            ] + spec_lines_from(s@, j + 1)));
        }
        i = j + 1;
    }
}

} // verus!

verus! {

/// Whether two character sequences are equal.
pub fn chars_eq(a: &[char], b: &[char]) -> (r: bool)
    ensures
        r == (a@ == b@),
{
    if a.len() != b.len() {
        return false;
    }
    let mut i: usize = 0;
    while i < a.len()
        invariant
            a@.len() == b@.len(),
            i <= a@.len(),
            forall|k: int| 0 <= k < i ==> a@[k] == b@[k],
        decreases a@.len() - i,
    {
        if a[i] != b[i] {
            return false;
        }
        i += 1;
    }
    proof {
        assert(a@ =~= b@);
    }
    true
}

/// Whether two string slices are equal.
pub fn str_eq(a: &str, b: &str) -> (r: bool)
    ensures
        r == (a@ == b@),
{
    let x = chars_of(a);
    let y = chars_of(b);
    chars_eq(x.as_slice(), y.as_slice())
}

/// The views of a sequence of strings.
pub open spec fn strings_view(v: Seq<String>) -> Seq<Seq<char>> {
    v.map_values(|x: String| x@)
}

/// Names what `char::is_alphanumeric` returns: whether `c` has the Unicode
/// `Alphabetic` or `Numeric` property.
pub uninterp spec fn spec_char_is_alphanumeric(c: char) -> bool;

/// Whether `c` is an ASCII letter or an ASCII digit.
pub open spec fn spec_ascii_alphanumeric(c: char) -> bool {
    let u = c as u32;
    (0x30 <= u && u <= 0x39) || (0x41 <= u && u <= 0x5a) || (0x61 <= u && u <= 0x7a)
}

/// Whether `c` is alphanumeric: spelled out on ASCII, named beyond it.
pub open spec fn spec_is_alphanumeric(c: char) -> bool {
    if (c as u32) < 0x80 {
        spec_ascii_alphanumeric(c)
    } else {
        spec_char_is_alphanumeric(c)
    }
}

/// `char::is_alphanumeric`. The Unicode tables behind it are not restated here:
/// the contract names the result, and states the ASCII range, where std
/// documents it as the letters `a`-`z`, `A`-`Z` and the digits `0`-`9`.
#[verifier::external_body]
pub(crate) fn char_is_alphanumeric(c: char) -> (r: bool)
    ensures
        r == spec_char_is_alphanumeric(c),
        (c as u32) < 0x80 ==> (r <==> spec_ascii_alphanumeric(c)),
{
    c.is_alphanumeric()
}

/// The first index at or after `i` that does not hold `c`, or the length.
pub open spec fn spec_skip_char_from(s: Seq<char>, c: char, i: int) -> int
    decreases s.len() - i,
{
    if i >= s.len() || i < 0 {
        if i < 0 { 0 } else { s.len() as int }
    } else if s[i] == c {
        spec_skip_char_from(s, c, i + 1)
    } else {
        i
    }
}

/// `str::trim_start_matches` with a single character.
pub open spec fn spec_trim_start_matches(s: Seq<char>, c: char) -> Seq<char> {
    s.skip(spec_skip_char_from(s, c, 0))
}

/// `str::trim_start_matches` with a single character.
pub fn trim_start_matches(s: &[char], c: char) -> (r: &[char])
    ensures
        r@ == spec_trim_start_matches(s@, c),
{
    let mut j: usize = 0;
    while j < s.len() && s[j] == c
        invariant
            j <= s@.len(),
            spec_skip_char_from(s@, c, 0) == spec_skip_char_from(s@, c, j as int),
        decreases s@.len() - j,
    {
        j += 1;
    }
    &s[j..s.len()]
}

} // verus!

verus! {

/// The char of a decimal digit.
pub open spec fn spec_digit_char(d: nat) -> char {
    if d == 0 { '0' } else if d == 1 { '1' } else if d == 2 { '2' } else if d == 3 { '3' }
    else if d == 4 { '4' } else if d == 5 { '5' } else if d == 6 { '6' } else if d == 7 { '7' }
    else if d == 8 { '8' } else { '9' }
}

/// The decimal digits of `n` (`n.to_string()` for an unsigned integer).
pub open spec fn spec_decimal(n: nat) -> Seq<char>
    decreases n,
{
    if n < 10 {
        seq![spec_digit_char(n)]
    } else {
        spec_decimal(n / 10).push(spec_digit_char(n % 10))
    }
}

fn digit_char(d: u64) -> (c: char)
    requires
        d < 10,
    ensures
        c == spec_digit_char(d as nat),
{
    if d == 0 { '0' } else if d == 1 { '1' } else if d == 2 { '2' } else if d == 3 { '3' }
    else if d == 4 { '4' } else if d == 5 { '5' } else if d == 6 { '6' } else if d == 7 { '7' }
    else if d == 8 { '8' } else { '9' }
}

/// The decimal digits of `n`.
pub fn decimal(n: u64) -> (r: Vec<char>)
    ensures
        r@ == spec_decimal(n as nat),
    decreases n,
{
    if n < 10 {
        let mut r: Vec<char> = Vec::new();
        r.push(digit_char(n));
        proof {
            assert(r@ =~= seq![spec_digit_char(n as nat)]);
        }
        r
    } else {
        let mut r = decimal(n / 10);
        r.push(digit_char(n % 10));
        r
    }
}

} // verus!

verus! {

/// `prefix`, then `middle`, then `suffix`, as one string.
pub fn concat3(prefix: &str, middle: &[char], suffix: &str) -> (r: String)
    ensures
        r@ == prefix@ + middle@ + suffix@,
{
    let mut v = chars_of(prefix);
    append_range(&mut v, middle, 0, middle.len());
    let s = chars_of(suffix);
    append_range(&mut v, s.as_slice(), 0, s.len());
    proof {
        assert(middle@.subrange(0, middle@.len() as int) =~= middle@);
        assert(s@.subrange(0, s@.len() as int) =~= s@);
    }
    string_of(v.as_slice())
}

/// The views of a sequence of string slices.
pub open spec fn strs_view(v: Seq<&str>) -> Seq<Seq<char>> {
    v.map_values(|x: &str| x@)
}

/// The string slices joined with `sep` between consecutive ones.
pub fn join_strs(pieces: &[&str], sep: &str) -> (r: String)
    ensures
        r@ == spec_join(strs_view(pieces@), sep@),
{
    let mut vs: Vec<Vec<char>> = Vec::new();
    let mut k: usize = 0;
    while k < pieces.len()
        invariant
            k <= pieces@.len(),
            views(vs@) == strs_view(pieces@).take(k as int),
        decreases pieces@.len() - k,
    {
        let c = chars_of(pieces[k]);
        let ghost old_vs = vs@;
        vs.push(c);
        proof {
            lemma_views_push(old_vs, c);
            assert(strs_view(pieces@).take(k + 1) =~= strs_view(pieces@).take(k as int).push(
                pieces@[k as int]@,
            ));
        }
        k += 1;
    }
    proof {
        assert(strs_view(pieces@).take(pieces@.len() as int) =~= strs_view(pieces@));
    }
    let sep_chars = chars_of(sep);
    let joined = join(&vs, sep_chars.as_slice());
    string_of(joined.as_slice())
}

} // verus!

verus! {

/// `str::replace`: every non-overlapping occurrence of `pat`, scanned left to
/// right from index `i`, replaced by `rep` (`pat` is meant to be non-empty).
pub open spec fn spec_replace_from(s: Seq<char>, pat: Seq<char>, rep: Seq<char>, i: int) -> Seq<char>
    decreases s.len() - i,
{
    if i >= s.len() || i < 0 || pat.len() == 0 {
        s.subrange(if 0 <= i <= s.len() { i } else { s.len() as int }, s.len() as int)
    } else if i + pat.len() <= s.len() && s.subrange(i, i + pat.len()) == pat {
        rep + spec_replace_from(s, pat, rep, i + pat.len())
    } else {
        seq![s[i]] + spec_replace_from(s, pat, rep, i + 1)
    }
}

/// `s.replace(pat, rep)`.
pub open spec fn spec_replace(s: Seq<char>, pat: Seq<char>, rep: Seq<char>) -> Seq<char> {
    spec_replace_from(s, pat, rep, 0)
}

/// Whether `pat` occurs in `s` at index `i`.
fn matches_at(s: &[char], pat: &[char], i: usize) -> (r: bool)
    requires
        i <= s@.len(),
    ensures
        r == (i + pat@.len() <= s@.len() && s@.subrange(i as int, i + pat@.len()) == pat@),
{
    if pat.len() > s.len() - i {
        return false;
    }
    let mut k: usize = 0;
    while k < pat.len()
        invariant
            i + pat.len() <= s.len(),
            k <= pat@.len(),
            forall|j: int| 0 <= j < k ==> s@[i + j] == pat@[j],
        decreases pat@.len() - k,
    {
        if s[i + k] != pat[k] {
            proof {
                assert(s@.subrange(i as int, i + pat@.len())[k as int] != pat@[k as int]);
            }
            return false;
        }
        k += 1;
    }
    proof {
        assert(s@.subrange(i as int, i + pat@.len()) =~= pat@);
    }
    true
}

/// `s` with every non-overlapping occurrence of the non-empty `pat` replaced by
/// `rep`, scanning left to right.
pub fn replace(s: &[char], pat: &[char], rep: &[char]) -> (r: Vec<char>)
    requires
        pat@.len() > 0,
    ensures
        r@ == spec_replace(s@, pat@, rep@),
{
    let mut out: Vec<char> = Vec::new();
    let mut i: usize = 0;
    proof {
        assert(out@ + spec_replace_from(s@, pat@, rep@, 0) =~= spec_replace_from(s@, pat@, rep@, 0));
    }
    while i < s.len()
        invariant
            pat@.len() > 0,
            i <= s@.len(),
            spec_replace(s@, pat@, rep@) == out@ + spec_replace_from(s@, pat@, rep@, i as int),
        decreases s@.len() - i,
    {
        let ghost old_out = out@;
        if matches_at(s, pat, i) {
            append_range(&mut out, rep, 0, rep.len());
            proof {
                assert(rep@.subrange(0, rep@.len() as int) =~= rep@);
                assert(old_out + (rep@ + spec_replace_from(s@, pat@, rep@, i + pat@.len()))
                    =~= (old_out + rep@) + spec_replace_from(s@, pat@, rep@, i + pat@.len()));
            }
            i = i + pat.len();
        } else {
            out.push(s[i]);
            proof {
                assert(old_out + (seq![s@[i as int]] + spec_replace_from(s@, pat@, rep@, i + 1))
                    =~= old_out.push(s@[i as int]) + spec_replace_from(s@, pat@, rep@, i + 1));
            }
            i = i + 1;
        }
    }
    proof {
        assert(spec_replace_from(s@, pat@, rep@, i as int) =~= Seq::<char>::empty());
        assert(out@ + Seq::<char>::empty() =~= out@);
    }
    out
}

} // verus!

verus! {

/// `str::split` on a character, from index `i`: the pieces between occurrences
/// of `c` (one more piece than there are occurrences).
pub open spec fn spec_split_from(s: Seq<char>, c: char, i: int) -> Seq<Seq<char>>
    decreases s.len() - i,
{
    if i < 0 || i > s.len() {
        Seq::empty()
    } else {
        let j = spec_find_from(s, c, i);
        if j >= s.len() {
            seq![s.subrange(i, s.len() as int)]
        } else {
            proof {
                lemma_find_from_bounds(s, c, i);
            }
            seq![s.subrange(i, j)] + spec_split_from(s, c, j + 1)
        }
    }
}

/// `s.split(c)`.
pub open spec fn spec_split(s: Seq<char>, c: char) -> Seq<Seq<char>> {
    spec_split_from(s, c, 0)
}

/// The pieces of `s` between occurrences of `c`.
pub fn split(s: &[char], c: char) -> (r: Vec<Vec<char>>)
    ensures
        views(r@) == spec_split(s@, c),
{
    let mut r: Vec<Vec<char>> = Vec::new();
    let mut i: usize = 0;
    proof {
        assert(views(r@) + spec_split_from(s@, c, 0) =~= spec_split_from(s@, c, 0));
    }
    loop
        invariant
            i <= s@.len(),
            spec_split(s@, c) == views(r@) + spec_split_from(s@, c, i as int),
        decreases s@.len() - i,
    {
        let j = find_from(s, c, i);
        let ghost old_r = r@;
        if j >= s.len() {
            let piece = copy_range(s, i, s.len());
            r.push(piece);
            proof {
                lemma_views_push(old_r, piece);
                assert(views(r@) =~= views(old_r) + spec_split_from(s@, c, i as int));
            }
            return r;
        }
        let piece = copy_range(s, i, j);
        r.push(piece);
        proof {
            lemma_views_push(old_r, piece);
            assert(views(old_r) + (seq![s@.subrange(i as int, j as int)] + spec_split_from(s@, c, j + 1))
                =~= views(r@) + spec_split_from(s@, c, j + 1));
        }
        i = j + 1;
    }
}

} // verus!
