//! Parsing of `///` doc-comment annotations.
//!
//! Wisp shaders carry their metadata in WGSL doc comments: free description text
//! interleaved with `@name`/`@name(args)` annotations, e.g.
//!
//! ```wgsl
//! /// Overall strength of the effect.
//! /// @min(0.0) @max(1.0) @default(0.5)
//! level: f32,
//! ```
//!
//! This module is pure string processing; which annotations are meaningful where
//! is decided by [`crate::schema`]. Positions are character indices.

use crate::number::{spec_is_float_literal, is_float_literal, Number};
use crate::text::{
    append_range, char_is_alphanumeric, chars_of, copy_range, ends_with, find_from, join,
    lemma_find_from_bounds, lemma_normalize_ws_push_space, lemma_skip_ws_bounds, lemma_trim_end_len_bounds,
    lemma_views_push, lines, normalize_ws, spec_is_alphanumeric, spec_skip_char_from, spec_skip_ws_from,
    spec_strip_cr, spec_trim_start, spec_lines_from,
    spec_ends_with, spec_find_from, spec_join, spec_lines, spec_normalize_ws, spec_starts_with,
    spec_trim, spec_trim_start_matches, starts_with, str_eq, string_of, strings_view, trim,
    trim_start_matches, views,
};
use vstd::prelude::*;

verus! {

/// A single `@name` or `@name(args)` annotation.
#[derive(Clone, Debug, PartialEq)]
pub struct Annotation {
    pub name: String,
    pub args: Vec<Arg>,
}

/// One argument within an annotation's parentheses.
#[derive(Clone, Debug, PartialEq)]
pub enum Arg {
    /// A `key = value` pair, e.g. `target = "buffer_a"`.
    Named(String, Value),
    /// A bare value, e.g. the `0.5` in `@default(0.5)` or the flag `persistent`.
    Pos(Value),
}

/// An annotation argument value.
#[derive(Clone, Debug, PartialEq)]
pub enum Value {
    /// A bare word, e.g. `persistent`.
    Ident(String),
    /// A numeric literal, e.g. `0.5` or `-3`.
    Number(Number),
    /// A double-quoted string, e.g. `"buffer_a"`.
    Str(String),
}

/// A parsed doc-comment block: free description text plus annotations.
#[derive(Clone, Debug, Default, PartialEq)]
pub struct Docs {
    pub description: String,
    pub annotations: Vec<Annotation>,
}

/// Errors produced when a doc comment's annotations are malformed.
#[derive(Clone, Debug, PartialEq)]
pub enum AnnotError {
    BadArg { annotation: String, arg: String },
    UnterminatedArgs { annotation: String },
    UnterminatedString { annotation: String },
}

/// What is left open when no matching `)` is found.
#[derive(Clone, Copy, Debug, PartialEq, Eq)]
pub enum Unclosed {
    Args,
    Str,
}

// ---------------------------------------------------------------------------
// Views
// ---------------------------------------------------------------------------

pub enum ValueView {
    Ident(Seq<char>),
    Number(Seq<char>),
    Str(Seq<char>),
}

pub enum ArgView {
    Named(Seq<char>, ValueView),
    Pos(ValueView),
}

pub struct AnnotationView {
    pub name: Seq<char>,
    pub args: Seq<ArgView>,
}

pub struct DocsView {
    pub description: Seq<char>,
    pub annotations: Seq<AnnotationView>,
}

pub enum AnnotErrorView {
    BadArg { annotation: Seq<char>, arg: Seq<char> },
    UnterminatedArgs { annotation: Seq<char> },
    UnterminatedString { annotation: Seq<char> },
}

impl View for Value {
    type V = ValueView;

    open spec fn view(&self) -> ValueView {
        match self {
            Value::Ident(s) => ValueView::Ident(s@),
            Value::Number(n) => ValueView::Number(n@),
            Value::Str(s) => ValueView::Str(s@),
        }
    }
}

impl View for Arg {
    type V = ArgView;

    open spec fn view(&self) -> ArgView {
        match self {
            Arg::Named(k, v) => ArgView::Named(k@, v@),
            Arg::Pos(v) => ArgView::Pos(v@),
        }
    }
}

/// The views of a sequence of arguments.
pub open spec fn args_view(v: Seq<Arg>) -> Seq<ArgView> {
    v.map_values(|a: Arg| a@)
}

impl View for Annotation {
    type V = AnnotationView;

    open spec fn view(&self) -> AnnotationView {
        AnnotationView { name: self.name@, args: args_view(self.args@) }
    }
}

/// The views of a sequence of annotations.
pub open spec fn anns_view(v: Seq<Annotation>) -> Seq<AnnotationView> {
    v.map_values(|a: Annotation| a@)
}

impl View for Docs {
    type V = DocsView;

    open spec fn view(&self) -> DocsView {
        DocsView { description: self.description@, annotations: anns_view(self.annotations@) }
    }
}

impl View for AnnotError {
    type V = AnnotErrorView;

    open spec fn view(&self) -> AnnotErrorView {
        match self {
            AnnotError::BadArg { annotation, arg } => AnnotErrorView::BadArg {
                annotation: annotation@,
                arg: arg@,
            },
            AnnotError::UnterminatedArgs { annotation } => AnnotErrorView::UnterminatedArgs {
                annotation: annotation@,
            },
            AnnotError::UnterminatedString { annotation } => AnnotErrorView::UnterminatedString {
                annotation: annotation@,
            },
        }
    }
}

// ---------------------------------------------------------------------------
// Identifiers
// ---------------------------------------------------------------------------

pub open spec fn spec_is_ident_start(c: char) -> bool {
    ('a' <= c && c <= 'z') || ('A' <= c && c <= 'Z') || c == '_'
}

pub open spec fn spec_is_ident_continue(c: char) -> bool {
    spec_is_ident_start(c) || ('0' <= c && c <= '9')
}

pub open spec fn spec_ident_len_from(s: Seq<char>, i: int) -> int
    decreases s.len() - i,
{
    if i >= s.len() || i < 0 {
        i
    } else if (if i == 0 {
        spec_is_ident_start(s[i])
    } else {
        spec_is_ident_continue(s[i])
    }) {
        spec_ident_len_from(s, i + 1)
    } else {
        i
    }
}

/// The length of the leading ASCII identifier of `s` (0 if there is none).
pub open spec fn spec_ident_len(s: Seq<char>) -> int {
    spec_ident_len_from(s, 0)
}

/// Whether all of `s` is one ASCII identifier.
pub open spec fn spec_is_ident(s: Seq<char>) -> bool {
    s.len() > 0 && spec_ident_len(s) == s.len()
}

pub proof fn lemma_ident_len_from_bounds(s: Seq<char>, i: int)
    requires
        0 <= i <= s.len(),
    ensures
        i <= spec_ident_len_from(s, i) <= s.len(),
    decreases s.len() - i,
{
    if i < s.len() {
        lemma_ident_len_from_bounds(s, i + 1);
    }
}

/// The length of the leading identifier in `s`, or 0 if there is none.
pub fn ident_len(s: &[char]) -> (r: usize)
    ensures
        r == spec_ident_len(s@),
        r <= s@.len(),
{
    let mut len: usize = 0;
    while len < s.len()
        invariant
            len <= s@.len(),
            spec_ident_len_from(s@, 0) == spec_ident_len_from(s@, len as int),
        decreases s@.len() - len,
    {
        let c = s[len];
        let start = ('a' <= c && c <= 'z') || ('A' <= c && c <= 'Z') || c == '_';
        let ok = if len == 0 {
            start
        } else {
            start || ('0' <= c && c <= '9')
        };
        if !ok {
            return len;
        }
        len += 1;
    }
    len
}

/// Whether `s` is a non-empty identifier.
pub fn is_ident(s: &[char]) -> (r: bool)
    ensures
        r == spec_is_ident(s@),
{
    s.len() > 0 && ident_len(s) == s.len()
}

// ---------------------------------------------------------------------------
// Matching parentheses and top-level splitting
// ---------------------------------------------------------------------------

/// The scan for the `)` closing the `(` at index 0, from index `i` with the
/// given nesting depth and string state.
pub open spec fn spec_find_close_from(s: Seq<char>, i: int, depth: int, in_str: bool) -> Result<
    int,
    Unclosed,
>
    decreases s.len() - i,
{
    if i >= s.len() || i < 0 {
        Err(
            if in_str {
                Unclosed::Str
            } else {
                Unclosed::Args
            },
        )
    } else if in_str {
        spec_find_close_from(s, i + 1, depth, s[i] != '"')
    } else if s[i] == '"' {
        spec_find_close_from(s, i + 1, depth, true)
    } else if s[i] == '(' {
        spec_find_close_from(s, i + 1, depth + 1, false)
    } else if s[i] == ')' {
        if depth - 1 == 0 {
            Ok(i)
        } else {
            spec_find_close_from(s, i + 1, depth - 1, false)
        }
    } else {
        spec_find_close_from(s, i + 1, depth, false)
    }
}

/// Given `s` starting with `(`, the index of the matching `)`: parentheses
/// inside double-quoted strings do not count.
pub open spec fn spec_find_close(s: Seq<char>) -> Result<int, Unclosed> {
    spec_find_close_from(s, 0, 0, false)
}

pub proof fn lemma_find_close_from_bounds(s: Seq<char>, i: int, depth: int, in_str: bool)
    requires
        0 <= i <= s.len(),
    ensures
        spec_find_close_from(s, i, depth, in_str) matches Ok(k) ==> i <= k < s.len() && s[k]
            == ')',
    decreases s.len() - i,
{
    if i < s.len() {
        if in_str {
            lemma_find_close_from_bounds(s, i + 1, depth, s[i] != '"');
        } else if s[i] == '"' {
            lemma_find_close_from_bounds(s, i + 1, depth, true);
        } else if s[i] == '(' {
            lemma_find_close_from_bounds(s, i + 1, depth + 1, false);
        } else if s[i] == ')' {
            if depth - 1 != 0 {
                lemma_find_close_from_bounds(s, i + 1, depth - 1, false);
            }
        } else {
            lemma_find_close_from_bounds(s, i + 1, depth, false);
        }
    }
}

/// Given `s` starting with `(`, the index of the matching `)`.
pub fn find_close(s: &[char]) -> (r: Result<usize, Unclosed>)
    requires
        s@.len() > 0,
        s@[0] == '(',
    ensures
        match r {
            Ok(k) => spec_find_close(s@) == Ok::<int, Unclosed>(k as int) && k < s@.len() && s@[k as int]
                == ')',
            Err(u) => spec_find_close(s@) == Err::<int, Unclosed>(u),
        },
{
    let mut depth: usize = 0;
    let mut in_str = false;
    let mut idx: usize = 0;
    while idx < s.len()
        invariant
            idx <= s@.len(),
            s@.len() > 0,
            s@[0] == '(',
            idx > 0 ==> depth >= 1,
            idx == 0 ==> depth == 0 && !in_str,
            depth <= idx,
            spec_find_close(s@) == spec_find_close_from(s@, idx as int, depth as int, in_str),
        decreases s@.len() - idx,
    {
        let c = s[idx];
        if in_str {
            if c == '"' {
                in_str = false;
            }
        } else if c == '"' {
            in_str = true;
        } else if c == '(' {
            depth += 1;
        } else if c == ')' {
            if depth == 1 {
                return Ok(idx);
            }
            depth -= 1;
        }
        idx += 1;
    }
    if in_str {
        Err(Unclosed::Str)
    } else {
        Err(Unclosed::Args)
    }
}

/// The pieces of `s` split on `sep` at parenthesis depth zero, outside
/// double-quoted strings, scanning from index `i` with the current piece
/// starting at `start`.
pub open spec fn spec_split_from(
    s: Seq<char>,
    sep: char,
    i: int,
    start: int,
    depth: int,
    in_str: bool,
) -> Seq<Seq<char>>
    decreases s.len() - i,
{
    if i >= s.len() || i < 0 {
        seq![s.subrange(start, s.len() as int)]
    } else if in_str {
        spec_split_from(s, sep, i + 1, start, depth, s[i] != '"')
    } else if s[i] == '"' {
        spec_split_from(s, sep, i + 1, start, depth, true)
    } else if s[i] == '(' {
        spec_split_from(s, sep, i + 1, start, depth + 1, false)
    } else if s[i] == ')' {
        spec_split_from(
            s,
            sep,
            i + 1,
            start,
            if depth > 0 {
                depth - 1
            } else {
                0
            },
            false,
        )
    } else if s[i] == sep && depth == 0 {
        seq![s.subrange(start, i)] + spec_split_from(s, sep, i + 1, i + 1, depth, false)
    } else {
        spec_split_from(s, sep, i + 1, start, depth, false)
    }
}

/// Split on `sep` at parenthesis depth zero, outside strings.
pub open spec fn spec_split_top_level(s: Seq<char>, sep: char) -> Seq<Seq<char>> {
    spec_split_from(s, sep, 0, 0, 0, false)
}

/// Joining a first piece to the rest puts the separator between them.
pub proof fn lemma_join_prepend(a: Seq<char>, rest: Seq<Seq<char>>, sep: Seq<char>)
    requires
        rest.len() >= 1,
    ensures
        spec_join(seq![a] + rest, sep) == a + sep + spec_join(rest, sep),
    decreases rest.len(),
{
    let all = seq![a] + rest;
    if rest.len() == 1 {
        assert(all.drop_last() =~= seq![a]);
        assert(all.last() == rest[0]);
        assert(spec_join(seq![a], sep) == a);
        assert(spec_join(rest, sep) == rest[0]);
        assert(spec_join(all, sep) == spec_join(all.drop_last(), sep) + sep + all.last());
    } else {
        lemma_join_prepend(a, rest.drop_last(), sep);
        assert(all.drop_last() =~= seq![a] + rest.drop_last());
        assert(all.last() == rest.last());
        assert(spec_join(all, sep) == spec_join(all.drop_last(), sep) + sep + all.last());
        assert(spec_join(rest, sep) == spec_join(rest.drop_last(), sep) + sep + rest.last());
        assert(a + sep + spec_join(rest.drop_last(), sep) + sep + rest.last() =~= a + sep + (spec_join(
            rest.drop_last(),
            sep,
        ) + sep + rest.last()));
    }
}

proof fn lemma_split_from_rejoins(s: Seq<char>, sep: char, i: int, start: int, depth: int, in_str: bool)
    requires
        0 <= start <= i <= s.len(),
    ensures
        spec_split_from(s, sep, i, start, depth, in_str).len() >= 1,
        spec_join(spec_split_from(s, sep, i, start, depth, in_str), seq![sep]) == s.subrange(start, s.len() as int),
    decreases s.len() - i,
{
    if i >= s.len() {
    } else if in_str {
        lemma_split_from_rejoins(s, sep, i + 1, start, depth, s[i] != '"');
    } else if s[i] == '"' {
        lemma_split_from_rejoins(s, sep, i + 1, start, depth, true);
    } else if s[i] == '(' {
        lemma_split_from_rejoins(s, sep, i + 1, start, depth + 1, false);
    } else if s[i] == ')' {
        lemma_split_from_rejoins(s, sep, i + 1, start, if depth > 0 { depth - 1 } else { 0 }, false);
    } else if s[i] == sep && depth == 0 {
        lemma_split_from_rejoins(s, sep, i + 1, i + 1, depth, false);
        let rest = spec_split_from(s, sep, i + 1, i + 1, depth, false);
        lemma_join_prepend(s.subrange(start, i), rest, seq![sep]);
        assert(s.subrange(start, i) + seq![sep] + s.subrange(i + 1, s.len() as int) =~= s.subrange(start, s.len() as int));
    } else {
        lemma_split_from_rejoins(s, sep, i + 1, start, depth, false);
    }
}

/// The pieces of a split are at least one, and joined with the separator
/// they give back the text.
pub proof fn lemma_split_top_level_rejoins(s: Seq<char>, sep: char)
    ensures
        spec_split_top_level(s, sep).len() >= 1,
        spec_join(spec_split_top_level(s, sep), seq![sep]) == s,
{
    lemma_split_from_rejoins(s, sep, 0, 0, 0, false);
    assert(s.subrange(0, s.len() as int) =~= s);
}

/// The scanner's state (parenthesis depth, inside a string) after character `c`.
pub open spec fn spec_scan_step(st: (int, bool), c: char) -> (int, bool) {
    if st.1 {
        (st.0, c != '"')
    } else if c == '"' {
        (st.0, true)
    } else if c == '(' {
        (st.0 + 1, false)
    } else if c == ')' {
        (if st.0 > 0 { st.0 - 1 } else { 0 }, false)
    } else {
        (st.0, false)
    }
}

/// The scanner's state before index `i`: parenthesis depth (counted left to
/// right, never below 0) and whether inside a double-quoted string.
pub open spec fn spec_scan_state(s: Seq<char>, i: int) -> (int, bool)
    decreases i,
{
    if i <= 0 {
        (0, false)
    } else {
        spec_scan_step(spec_scan_state(s, i - 1), s[i - 1])
    }
}

/// Whether index `j` holds `sep` at depth 0, outside strings.
pub open spec fn spec_is_top_sep(s: Seq<char>, sep: char, j: int) -> bool {
    s[j] == sep && !spec_scan_state(s, j).1 && spec_scan_state(s, j).0 == 0
}

/// The number of indices from `i` on that hold `sep` at depth 0, outside strings.
pub open spec fn spec_count_top_seps(s: Seq<char>, sep: char, i: int) -> nat
    decreases s.len() - i,
{
    if i >= s.len() || i < 0 {
        0
    } else {
        (if spec_is_top_sep(s, sep, i) { 1nat } else { 0nat }) + spec_count_top_seps(s, sep, i + 1)
    }
}

proof fn lemma_split_from_count(s: Seq<char>, sep: char, i: int, start: int, depth: int, in_str: bool)
    requires
        0 <= i <= s.len(),
        (depth, in_str) == spec_scan_state(s, i),
        sep != '"' && sep != '(' && sep != ')',
    ensures
        spec_split_from(s, sep, i, start, depth, in_str).len() == 1 + spec_count_top_seps(s, sep, i),
    decreases s.len() - i,
{
    if i < s.len() {
        let next = spec_scan_step((depth, in_str), s[i]);
        assert(spec_scan_state(s, i + 1) == next);
        if !in_str && s[i] == sep && depth == 0 {
            lemma_split_from_count(s, sep, i + 1, i + 1, next.0, next.1);
        } else {
            lemma_split_from_count(s, sep, i + 1, start, next.0, next.1);
        }
    }
}

/// A split gives one piece more than there are separators at parenthesis
/// depth 0 outside double-quoted strings.
pub proof fn lemma_split_top_level_count(s: Seq<char>, sep: char)
    requires
        sep != '"' && sep != '(' && sep != ')',
    ensures
        spec_split_top_level(s, sep).len() == 1 + spec_count_top_seps(s, sep, 0),
{
    lemma_split_from_count(s, sep, 0, 0, 0, false);
}

/// Split on `sep` at parenthesis depth zero, outside strings.
pub fn split_top_level(s: &[char], sep: char) -> (r: Vec<Vec<char>>)
    ensures
        views(r@) == spec_split_top_level(s@, sep),
{
    let mut pieces: Vec<Vec<char>> = Vec::new();
    let mut start: usize = 0;
    let mut depth: usize = 0;
    let mut in_str = false;
    let mut idx: usize = 0;
    proof {
        assert(views(pieces@) =~= Seq::<Seq<char>>::empty());
    }
    while idx < s.len()
        invariant
            start <= idx <= s@.len(),
            depth <= idx,
            spec_split_top_level(s@, sep) == views(pieces@) + spec_split_from(
                s@,
                sep,
                idx as int,
                start as int,
                depth as int,
                in_str,
            ),
        decreases s@.len() - idx,
    {
        let c = s[idx];
        if in_str {
            if c == '"' {
                in_str = false;
            }
        } else if c == '"' {
            in_str = true;
        } else if c == '(' {
            depth += 1;
        } else if c == ')' {
            if depth > 0 {
                depth -= 1;
            }
        } else if c == sep && depth == 0 {
            let piece = copy_range(s, start, idx);
            let ghost old_p = pieces@;
            pieces.push(piece);
            proof {
                lemma_views_push(old_p, piece);
                assert(views(pieces@) + spec_split_from(
                    s@,
                    sep,
                    idx + 1,
                    idx + 1,
                    depth as int,
                    false,
                ) =~= views(old_p) + (seq![s@.subrange(start as int, idx as int)]
                    + spec_split_from(s@, sep, idx + 1, idx + 1, depth as int, false)));
            }
            start = idx + 1;
        }
        idx += 1;
    }
    let last = copy_range(s, start, s.len());
    let ghost old_p = pieces@;
    pieces.push(last);
    proof {
        lemma_views_push(old_p, last);
        assert(views(pieces@) =~= views(old_p) + seq![s@.subrange(start as int, s@.len() as int)]);
    }
    pieces
}

// ---------------------------------------------------------------------------
// Values and arguments
// ---------------------------------------------------------------------------

/// Parse one trimmed argument value.
pub open spec fn spec_parse_value(s: Seq<char>, annotation: Seq<char>) -> Result<
    ValueView,
    AnnotErrorView,
> {
    if s.len() > 0 && s[0] == '"' {
        let inner = s.skip(1);
        if !(inner.len() > 0 && inner.last() == '"') {
            Err(AnnotErrorView::UnterminatedString { annotation })
        } else if inner.drop_last().contains('"') {
            Err(AnnotErrorView::BadArg { annotation, arg: s })
        } else {
            Ok(ValueView::Str(inner.drop_last()))
        }
    } else if spec_is_float_literal(s) {
        Ok(ValueView::Number(s))
    } else if spec_is_ident(s) {
        Ok(ValueView::Ident(s))
    } else {
        Err(AnnotErrorView::BadArg { annotation, arg: s })
    }
}

/// Parse one argument: a bare value or `key = value`.
pub open spec fn spec_parse_arg(s: Seq<char>, annotation: Seq<char>) -> Result<
    ArgView,
    AnnotErrorView,
> {
    let pieces = spec_split_top_level(s, '=');
    if pieces.len() == 1 {
        match spec_parse_value(s, annotation) {
            Ok(v) => Ok(ArgView::Pos(v)),
            Err(e) => Err(e),
        }
    } else if pieces.len() == 2 && spec_is_ident(spec_trim(pieces[0])) {
        match spec_parse_value(spec_trim(pieces[1]), annotation) {
            Ok(v) => Ok(ArgView::Named(spec_trim(pieces[0]), v)),
            Err(e) => Err(e),
        }
    } else {
        Err(AnnotErrorView::BadArg { annotation, arg: s })
    }
}

/// Parse the comma-separated pieces from index `k`, skipping empty ones.
pub open spec fn spec_parse_pieces(
    pieces: Seq<Seq<char>>,
    k: int,
    annotation: Seq<char>,
) -> Result<Seq<ArgView>, AnnotErrorView>
    decreases pieces.len() - k,
{
    if k >= pieces.len() || k < 0 {
        Ok(Seq::empty())
    } else if spec_trim(pieces[k]).len() == 0 {
        spec_parse_pieces(pieces, k + 1, annotation)
    } else {
        match spec_parse_arg(spec_trim(pieces[k]), annotation) {
            Err(e) => Err(e),
            Ok(a) => match spec_parse_pieces(pieces, k + 1, annotation) {
                Err(e) => Err(e),
                Ok(rest) => Ok(seq![a] + rest),
            },
        }
    }
}

/// Parse the inside of an annotation's parentheses.
pub open spec fn spec_parse_args(s: Seq<char>, annotation: Seq<char>) -> Result<
    Seq<ArgView>,
    AnnotErrorView,
> {
    spec_parse_pieces(spec_split_top_level(s, ','), 0, annotation)
}

/// Whether `c` occurs in `s`.
fn contains_char(s: &[char], c: char) -> (r: bool)
    ensures
        r == s@.contains(c),
{
    let mut i: usize = 0;
    while i < s.len()
        invariant
            i <= s@.len(),
            forall|k: int| 0 <= k < i ==> s@[k] != c,
        decreases s@.len() - i,
    {
        if s[i] == c {
            proof {
                assert(s@[i as int] == c);
            }
            return true;
        }
        i += 1;
    }
    false
}

fn bad_arg(s: &[char], annotation: &[char]) -> (e: AnnotError)
    ensures
        e@ == (AnnotErrorView::BadArg { annotation: annotation@, arg: s@ }),
{
    AnnotError::BadArg { annotation: string_of(annotation), arg: string_of(s) }
}

fn parse_value(s: &[char], annotation: &[char]) -> (r: Result<Value, AnnotError>)
    ensures
        match r {
            Ok(v) => spec_parse_value(s@, annotation@) == Ok::<ValueView, AnnotErrorView>(v@),
            Err(e) => spec_parse_value(s@, annotation@) == Err::<ValueView, AnnotErrorView>(e@),
        },
{
    if s.len() > 0 && s[0] == '"' {
        let inner = &s[1..s.len()];
        proof {
            assert(inner@ =~= s@.skip(1));
        }
        if !(inner.len() > 0 && inner[inner.len() - 1] == '"') {
            return Err(AnnotError::UnterminatedString { annotation: string_of(annotation) });
        }
        let body = &inner[0..inner.len() - 1];
        proof {
            assert(body@ =~= inner@.drop_last());
        }
        if contains_char(body, '"') {
            return Err(bad_arg(s, annotation));
        }
        return Ok(Value::Str(string_of(body)));
    }
    if is_float_literal(s) {
        return Ok(Value::Number(Number::from_literal(s)));
    }
    if is_ident(s) {
        return Ok(Value::Ident(string_of(s)));
    }
    Err(bad_arg(s, annotation))
}

fn parse_arg(s: &[char], annotation: &[char]) -> (r: Result<Arg, AnnotError>)
    ensures
        match r {
            Ok(a) => spec_parse_arg(s@, annotation@) == Ok::<ArgView, AnnotErrorView>(a@),
            Err(e) => spec_parse_arg(s@, annotation@) == Err::<ArgView, AnnotErrorView>(e@),
        },
{
    let pieces = split_top_level(s, '=');
    proof {
        assert(views(pieces@).len() == pieces@.len());
    }
    if pieces.len() == 1 {
        let v = parse_value(s, annotation)?;
        return Ok(Arg::Pos(v));
    }
    if pieces.len() == 2 {
        let key = trim(pieces[0].as_slice());
        proof {
            assert(views(pieces@)[0] == pieces@[0]@);
            assert(views(pieces@)[1] == pieces@[1]@);
        }
        if is_ident(key) {
            let value = trim(pieces[1].as_slice());
            let v = parse_value(value, annotation)?;
            return Ok(Arg::Named(string_of(key), v));
        }
    }
    Err(bad_arg(s, annotation))
}

/// Parse the inside of an annotation's parentheses into arguments.
fn parse_args(s: &[char], annotation: &[char]) -> (r: Result<Vec<Arg>, AnnotError>)
    ensures
        match r {
            Ok(v) => spec_parse_args(s@, annotation@) == Ok::<Seq<ArgView>, AnnotErrorView>(
                args_view(v@),
            ),
            Err(e) => spec_parse_args(s@, annotation@) == Err::<Seq<ArgView>, AnnotErrorView>(
                e@,
            ),
        },
{
    let pieces = split_top_level(s, ',');
    let ghost ps = views(pieces@);
    let mut args: Vec<Arg> = Vec::new();
    let mut k: usize = 0;
    proof {
        assert(args_view(args@) =~= Seq::<ArgView>::empty());
    }
    while k < pieces.len()
        invariant
            k <= pieces@.len(),
            ps == views(pieces@),
            ps == spec_split_top_level(s@, ','),
            spec_parse_args(s@, annotation@) == match spec_parse_pieces(ps, k as int, annotation@) {
                Ok(rest) => Ok(args_view(args@) + rest),
                Err(e) => Err::<Seq<ArgView>, AnnotErrorView>(e),
            },
        decreases pieces@.len() - k,
    {
        let piece = trim(pieces[k].as_slice());
        proof {
            assert(ps[k as int] == pieces@[k as int]@);
        }
        if piece.len() > 0 {
            let a = parse_arg(piece, annotation)?;
            let ghost old_args = args@;
            args.push(a);
            proof {
                assert(args_view(args@) =~= args_view(old_args).push(a@));
                match spec_parse_pieces(ps, k + 1, annotation@) {
                    Ok(rest) => {
                        assert(args_view(old_args) + (seq![a@] + rest) =~= args_view(args@) + rest);
                    },
                    Err(e) => {},
                }
            }
        }
        k += 1;
    }
    proof {
        assert(args_view(args@) + Seq::<ArgView>::empty() =~= args_view(args@));
    }
    Ok(args)
}


// ---------------------------------------------------------------------------
// Lines
// ---------------------------------------------------------------------------

/// Whether the `@` at `at` sits at a word boundary: the character before it,
/// if any, is neither alphanumeric nor `_`.
pub open spec fn spec_prev_ok(line: Seq<char>, at: int) -> bool {
    at <= 0 || !(spec_is_alphanumeric(line[at - 1]) || line[at - 1] == '_')
}

/// Prepends accumulated text and annotations to a line's parse result.
pub open spec fn prepend_line(
    t0: Seq<char>,
    a0: Seq<AnnotationView>,
    r: Result<(Seq<char>, Seq<AnnotationView>), AnnotErrorView>,
) -> Result<(Seq<char>, Seq<AnnotationView>), AnnotErrorView> {
    match r {
        Ok((t, a)) => Ok((t0 + t, a0 + a)),
        Err(e) => Err(e),
    }
}

/// Parse one cleaned line from index `i`: the description text and the
/// annotations found there.
pub open spec fn spec_parse_line_from(line: Seq<char>, i: int) -> Result<
    (Seq<char>, Seq<AnnotationView>),
    AnnotErrorView,
>
    decreases line.len() - i,
{
    if i < 0 || i > line.len() {
        Ok((Seq::empty(), Seq::empty()))
    } else {
        let at = spec_find_from(line, '@', i);
        if at >= line.len() || at < i {
            Ok((line.subrange(i, line.len() as int), Seq::empty()))
        } else {
            let name_len = spec_ident_len(line.skip(at + 1));
            if !spec_prev_ok(line, at) || name_len <= 0 {
                prepend_line(
                    line.subrange(i, at + 1),
                    Seq::empty(),
                    spec_parse_line_from(line, at + 1),
                )
            } else {
                let name = line.subrange(at + 1, at + 1 + name_len);
                let end = at + 1 + name_len;
                if end > line.len() {
                    Ok((Seq::empty(), Seq::empty()))
                } else if end < line.len() && line[end] == '(' {
                    match spec_find_close(line.skip(end)) {
                        Err(Unclosed::Args) => Err(
                            AnnotErrorView::UnterminatedArgs { annotation: name },
                        ),
                        Err(Unclosed::Str) => Err(
                            AnnotErrorView::UnterminatedString { annotation: name },
                        ),
                        Ok(close) => {
                            if close <= 0 || end + close >= line.len() {
                                Ok((Seq::empty(), Seq::empty()))
                            } else {
                                match spec_parse_args(line.subrange(end + 1, end + close), name) {
                                    Err(e) => Err(e),
                                    Ok(args) => prepend_line(
                                        line.subrange(i, at),
                                        seq![AnnotationView { name, args }],
                                        spec_parse_line_from(line, end + close + 1),
                                    ),
                                }
                            }
                        },
                    }
                } else {
                    prepend_line(
                        line.subrange(i, at),
                        seq![AnnotationView { name, args: Seq::empty() }],
                        spec_parse_line_from(line, end),
                    )
                }
            }
        }
    }
}

/// Parse one cleaned line into description text and annotations.
pub open spec fn spec_parse_line(line: Seq<char>) -> Result<
    (Seq<char>, Seq<AnnotationView>),
    AnnotErrorView,
> {
    spec_parse_line_from(line, 0)
}

pub proof fn lemma_prepend_line_assoc(
    t0: Seq<char>,
    a0: Seq<AnnotationView>,
    t1: Seq<char>,
    a1: Seq<AnnotationView>,
    r: Result<(Seq<char>, Seq<AnnotationView>), AnnotErrorView>,
)
    ensures
        prepend_line(t0, a0, prepend_line(t1, a1, r)) == prepend_line(t0 + t1, a0 + a1, r),
{
    match r {
        Ok((t, a)) => {
            assert(t0 + (t1 + t) =~= (t0 + t1) + t);
            assert(a0 + (a1 + a) =~= (a0 + a1) + a);
        },
        Err(e) => {},
    }
}

/// Parse one cleaned line into its description text and annotations.
fn parse_line(line: &[char]) -> (r: Result<(Vec<char>, Vec<Annotation>), AnnotError>)
    ensures
        match r {
            Ok((t, a)) => spec_parse_line(line@) == Ok::<
                (Seq<char>, Seq<AnnotationView>),
                AnnotErrorView,
            >((t@, anns_view(a@))),
            Err(e) => spec_parse_line(line@) == Err::<
                (Seq<char>, Seq<AnnotationView>),
                AnnotErrorView,
            >(e@),
        },
{
    let mut text: Vec<char> = Vec::new();
    let mut annotations: Vec<Annotation> = Vec::new();
    let mut i: usize = 0;
    proof {
        assert(anns_view(annotations@) =~= Seq::<AnnotationView>::empty());
        lemma_prepend_line_assoc(Seq::empty(), Seq::empty(), Seq::empty(), Seq::empty(), spec_parse_line_from(line@, 0));
        assert(prepend_line(Seq::empty(), Seq::empty(), spec_parse_line_from(line@, 0)) =~= spec_parse_line_from(line@, 0)) by {
            match spec_parse_line_from(line@, 0) {
                Ok((t, a)) => {
                    assert(Seq::<char>::empty() + t =~= t);
                    assert(Seq::<AnnotationView>::empty() + a =~= a);
                },
                Err(e) => {},
            }
        }
    }
    loop
        invariant
            i <= line@.len(),
            spec_parse_line(line@) == prepend_line(text@, anns_view(annotations@), spec_parse_line_from(line@, i as int)),
        decreases line@.len() - i,
    {
        let at = find_from(line, '@', i);
        proof {
            lemma_find_from_bounds(line@, '@', i as int);
        }
        if at >= line.len() {
            let ghost t0 = text@;
            append_range(&mut text, line, i, line.len());
            proof {
                assert(anns_view(annotations@) + Seq::<AnnotationView>::empty() =~= anns_view(annotations@));
            }
            return Ok((text, annotations));
        }
        let prev_ok = if at == 0 {
            true
        } else {
            let c = line[at - 1];
            !(char_is_alphanumeric(c) || c == '_')
        };
        let rest = &line[at + 1..line.len()];
        proof {
            assert(rest@ =~= line@.skip(at + 1));
            lemma_ident_len_from_bounds(rest@, 0);
        }
        let name_len = ident_len(rest);
        if !prev_ok || name_len == 0 {
            let ghost t0 = text@;
            append_range(&mut text, line, i, at + 1);
            proof {
                let piece = line@.subrange(i as int, at + 1);
                assert(anns_view(annotations@) + Seq::<AnnotationView>::empty() =~= anns_view(annotations@));
                lemma_prepend_line_assoc(t0, anns_view(annotations@), piece, Seq::empty(), spec_parse_line_from(line@, at + 1));
            }
            i = at + 1;
        } else {
            let end0 = at + 1 + name_len;
            let name_chars = &line[at + 1..end0];
            proof {
                assert(name_chars@ =~= line@.subrange(at + 1, end0 as int));
            }
            let (args, next) = if end0 < line.len() && line[end0] == '(' {
                let tail = &line[end0..line.len()];
                proof {
                    assert(tail@ =~= line@.skip(end0 as int));
                }
                let close = match find_close(tail) {
                    Ok(close) => close,
                    Err(Unclosed::Args) => {
                        return Err(AnnotError::UnterminatedArgs { annotation: string_of(name_chars) });
                    },
                    Err(Unclosed::Str) => {
                        return Err(
                            AnnotError::UnterminatedString { annotation: string_of(name_chars) },
                        );
                    },
                };
                proof {
                    assert(close > 0) by {
                        assert(tail@[0] == '(');
                    }
                }
                let inside = &line[end0 + 1..end0 + close];
                proof {
                    assert(inside@ =~= line@.subrange(end0 + 1, end0 + close));
                }
                let args = parse_args(inside, name_chars)?;
                (args, end0 + close + 1)
            } else {
                let args: Vec<Arg> = Vec::new();
                proof {
                    assert(args_view(args@) =~= Seq::<ArgView>::empty());
                }
                (args, end0)
            };
            let ann = Annotation { name: string_of(name_chars), args };
            let ghost ann_v = ann@;
            let ghost t0 = text@;
            let ghost a0 = anns_view(annotations@);
            append_range(&mut text, line, i, at);
            annotations.push(ann);
            proof {
                let piece = line@.subrange(i as int, at as int);
                assert(anns_view(annotations@) =~= a0.push(ann_v));
                assert(a0.push(ann_v) =~= a0 + seq![ann_v]);
                lemma_prepend_line_assoc(t0, a0, piece, seq![ann_v], spec_parse_line_from(line@, next as int));
            }
            i = next;
        }
    }
}

// ---------------------------------------------------------------------------
// Doc comments
// ---------------------------------------------------------------------------

/// One line of a `/** .. */` block, with its leading `*` decoration dropped.
pub open spec fn spec_clean_block_line(l: Seq<char>) -> Seq<char> {
    spec_trim(spec_trim_start_matches(spec_trim(l), '*'))
}

/// The plain text lines of one raw doc comment, its comment markers stripped.
pub open spec fn spec_clean_comment(raw: Seq<char>) -> Seq<Seq<char>> {
    let c = spec_trim(raw);
    if spec_starts_with(c, seq!['/', '*', '*']) || spec_starts_with(c, seq!['/', '*', '!']) {
        let block = c.skip(3);
        let block = if spec_ends_with(block, seq!['*', '/']) {
            block.take(block.len() - 2)
        } else {
            block
        };
        spec_lines(block).map_values(|l: Seq<char>| spec_clean_block_line(l))
    } else {
        let line = if spec_starts_with(c, seq!['/', '/', '/']) || spec_starts_with(
            c,
            seq!['/', '/', '!'],
        ) {
            c.skip(3)
        } else {
            c
        };
        seq![spec_trim(line)]
    }
}

/// The plain text lines of the raw doc comments from index `k` on.
pub open spec fn spec_clean_lines_from(raw: Seq<Seq<char>>, k: int) -> Seq<Seq<char>>
    decreases raw.len() - k,
{
    if k >= raw.len() || k < 0 {
        Seq::empty()
    } else {
        spec_clean_comment(raw[k]) + spec_clean_lines_from(raw, k + 1)
    }
}

/// The plain text lines of raw doc comments (`///`, `//!` or `/** .. */`).
pub open spec fn spec_clean_lines(raw: Seq<Seq<char>>) -> Seq<Seq<char>> {
    spec_clean_lines_from(raw, 0)
}

/// The description text of raw doc comments, without annotation parsing.
pub open spec fn spec_clean_text(raw: Seq<Seq<char>>) -> Seq<char> {
    spec_normalize_ws(spec_join(spec_clean_lines(raw), seq![' ']))
}

/// Parse cleaned lines from index `k`: text of each line followed by a space.
pub open spec fn spec_parse_lines_from(lines: Seq<Seq<char>>, k: int) -> Result<
    (Seq<char>, Seq<AnnotationView>),
    AnnotErrorView,
>
    decreases lines.len() - k,
{
    if k >= lines.len() || k < 0 {
        Ok((Seq::empty(), Seq::empty()))
    } else {
        match spec_parse_line(lines[k]) {
            Err(e) => Err(e),
            Ok((t, a)) => prepend_line(t + seq![' '], a, spec_parse_lines_from(lines, k + 1)),
        }
    }
}

/// Parse raw doc comments into description text and annotations.
pub open spec fn spec_parse_docs(raw: Seq<Seq<char>>) -> Result<DocsView, AnnotErrorView> {
    match spec_parse_lines_from(spec_clean_lines(raw), 0) {
        Err(e) => Err(e),
        Ok((t, a)) => Ok(DocsView { description: spec_normalize_ws(t), annotations: a }),
    }
}

/// Whether `s` does not hold the character `c`.
pub open spec fn spec_lacks(s: Seq<char>, c: char) -> bool {
    forall|i: int| 0 <= i < s.len() ==> s[i] != c
}

proof fn lemma_trim_lacks(s: Seq<char>, c: char)
    requires
        spec_lacks(s, c),
    ensures
        spec_lacks(spec_trim(s), c),
{
    lemma_skip_ws_bounds(s, 0);
    let t = spec_trim_start(s);
    lemma_trim_end_len_bounds(t, t.len() as int);
    assert forall|i: int| 0 <= i < spec_trim(s).len() implies spec_trim(s)[i] != c by {
        assert(spec_trim(s)[i] == t[i]);
        assert(t[i] == s[spec_skip_ws_from(s, 0) + i]);
    }
}

proof fn lemma_skip_char_bounds(s: Seq<char>, c: char, i: int)
    requires
        0 <= i <= s.len(),
    ensures
        i <= spec_skip_char_from(s, c, i) <= s.len(),
    decreases s.len() - i,
{
    if i < s.len() && s[i] == c {
        lemma_skip_char_bounds(s, c, i + 1);
    }
}

proof fn lemma_clean_block_line_lacks(l: Seq<char>, c: char)
    requires
        spec_lacks(l, c),
    ensures
        spec_lacks(spec_clean_block_line(l), c),
{
    lemma_trim_lacks(l, c);
    let t = spec_trim(l);
    lemma_skip_char_bounds(t, '*', 0);
    let u = spec_trim_start_matches(t, '*');
    assert(spec_lacks(u, c)) by {
        assert forall|i: int| 0 <= i < u.len() implies u[i] != c by {
            assert(u[i] == t[spec_skip_char_from(t, '*', 0) + i]);
        }
    }
    lemma_trim_lacks(u, c);
}

proof fn lemma_lines_lacks(s: Seq<char>, c: char, i: int)
    requires
        spec_lacks(s, c),
        0 <= i,
    ensures
        forall|k: int| 0 <= k < spec_lines_from(s, i).len() ==> spec_lacks(#[trigger] spec_lines_from(s, i)[k], c),
    decreases s.len() - i,
{
    if i < s.len() {
        lemma_find_from_bounds(s, '\n', i);
        let j = spec_find_from(s, '\n', i);
        if j < s.len() {
            lemma_lines_lacks(s, c, j + 1);
            let first = spec_strip_cr(s.subrange(i, j));
            assert(spec_lacks(first, c)) by {
                assert forall|x: int| 0 <= x < first.len() implies first[x] != c by {
                    assert(first[x] == s[i + x]);
                }
            }
            let ls = spec_lines_from(s, i);
            assert forall|k: int| 0 <= k < ls.len() implies spec_lacks(#[trigger] ls[k], c) by {
                if k > 0 {
                    assert(ls[k] == spec_lines_from(s, j + 1)[k - 1]);
                }
            }
        } else {
            let only = s.subrange(i, s.len() as int);
            assert(spec_lacks(only, c)) by {
                assert forall|x: int| 0 <= x < only.len() implies only[x] != c by {
                    assert(only[x] == s[i + x]);
                }
            }
        }
    }
}

proof fn lemma_clean_comment_lacks(raw: Seq<char>, c: char)
    requires
        spec_lacks(raw, c),
    ensures
        forall|k: int| 0 <= k < spec_clean_comment(raw).len() ==> spec_lacks(#[trigger] spec_clean_comment(raw)[k], c),
{
    lemma_trim_lacks(raw, c);
    let t = spec_trim(raw);
    if spec_starts_with(t, seq!['/', '*', '*']) || spec_starts_with(t, seq!['/', '*', '!']) {
        let b0 = t.skip(3);
        assert(spec_lacks(b0, c)) by {
            assert forall|x: int| 0 <= x < b0.len() implies b0[x] != c by {
                assert(b0[x] == t[3 + x]);
            }
        }
        let block = if spec_ends_with(b0, seq!['*', '/']) {
            b0.take(b0.len() - 2)
        } else {
            b0
        };
        assert(spec_lacks(block, c)) by {
            assert forall|x: int| 0 <= x < block.len() implies block[x] != c by {
                assert(block[x] == b0[x]);
            }
        }
        lemma_lines_lacks(block, c, 0);
        let ls = spec_lines(block);
        assert forall|k: int| 0 <= k < spec_clean_comment(raw).len() implies spec_lacks(
            #[trigger] spec_clean_comment(raw)[k],
            c,
        ) by {
            assert(spec_lacks(ls[k], c));
            lemma_clean_block_line_lacks(ls[k], c);
        }
    } else {
        let line = if spec_starts_with(t, seq!['/', '/', '/']) || spec_starts_with(t, seq!['/', '/', '!']) {
            t.skip(3)
        } else {
            t
        };
        assert(spec_lacks(line, c)) by {
            assert forall|x: int| 0 <= x < line.len() implies line[x] != c by {
                if line != t {
                    assert(line[x] == t[3 + x]);
                }
            }
        }
        lemma_trim_lacks(line, c);
    }
}

proof fn lemma_clean_lines_lacks(raw: Seq<Seq<char>>, c: char, k: int)
    requires
        forall|j: int| 0 <= j < raw.len() ==> spec_lacks(#[trigger] raw[j], c),
        0 <= k,
    ensures
        forall|j: int|
            0 <= j < spec_clean_lines_from(raw, k).len() ==> spec_lacks(#[trigger] spec_clean_lines_from(raw, k)[j], c),
    decreases raw.len() - k,
{
    if k < raw.len() {
        lemma_clean_lines_lacks(raw, c, k + 1);
        lemma_clean_comment_lacks(raw[k], c);
        let a = spec_clean_comment(raw[k]);
        let rest = spec_clean_lines_from(raw, k + 1);
        assert forall|j: int| 0 <= j < (a + rest).len() implies spec_lacks(#[trigger] (a + rest)[j], c) by {
            if j < a.len() {
                assert((a + rest)[j] == a[j]);
            } else {
                assert((a + rest)[j] == rest[j - a.len()]);
            }
        }
    }
}

/// The lines from `k` on, each followed by a space.
pub open spec fn spec_spaced_from(lines: Seq<Seq<char>>, k: int) -> Seq<char>
    decreases lines.len() - k,
{
    if k >= lines.len() || k < 0 {
        Seq::empty()
    } else {
        lines[k] + seq![' '] + spec_spaced_from(lines, k + 1)
    }
}

proof fn lemma_parse_lines_plain(lines: Seq<Seq<char>>, k: int)
    requires
        forall|j: int| 0 <= j < lines.len() ==> spec_lacks(#[trigger] lines[j], '@'),
        0 <= k,
    ensures
        spec_parse_lines_from(lines, k) == Ok::<(Seq<char>, Seq<AnnotationView>), AnnotErrorView>(
            (spec_spaced_from(lines, k), Seq::empty()),
        ),
    decreases lines.len() - k,
{
    if k < lines.len() {
        lemma_parse_lines_plain(lines, k + 1);
        let l = lines[k];
        assert(spec_lacks(l, '@'));
        lemma_find_from_bounds(l, '@', 0);
        assert(spec_find_from(l, '@', 0) == l.len());
        assert(l.subrange(0, l.len() as int) =~= l);
        assert(spec_parse_line(l) == Ok::<(Seq<char>, Seq<AnnotationView>), AnnotErrorView>((l, Seq::empty())));
        assert(Seq::<AnnotationView>::empty() + Seq::<AnnotationView>::empty() =~= Seq::<AnnotationView>::empty());
    }
}

proof fn lemma_spaced_join(lines: Seq<Seq<char>>, k: int)
    requires
        0 <= k < lines.len(),
    ensures
        spec_spaced_from(lines, k) == spec_join(lines.skip(k), seq![' ']).push(' '),
    decreases lines.len() - k,
{
    let rest = lines.skip(k);
    assert(spec_spaced_from(lines, k) == lines[k] + seq![' '] + spec_spaced_from(lines, k + 1));
    if k == lines.len() - 1 {
        assert(spec_spaced_from(lines, k + 1) == Seq::<char>::empty());
        assert(rest =~= seq![lines[k]]);
        assert(spec_join(rest, seq![' ']) == lines[k]);
        assert(lines[k] + seq![' '] + Seq::<char>::empty() =~= lines[k].push(' '));
    } else {
        lemma_spaced_join(lines, k + 1);
        assert(rest =~= seq![lines[k]] + lines.skip(k + 1));
        lemma_join_prepend(lines[k], lines.skip(k + 1), seq![' ']);
        assert(spec_join(rest, seq![' ']) == lines[k] + seq![' '] + spec_join(lines.skip(k + 1), seq![' ']));
        assert(lines[k] + seq![' '] + spec_join(lines.skip(k + 1), seq![' ']).push(' ') =~= (lines[k] + seq![' ']
            + spec_join(lines.skip(k + 1), seq![' '])).push(' '));
    }
}

/// Doc comments without an `@` parse to their cleaned text and no
/// annotations.
pub proof fn lemma_parse_docs_plain(raw: Seq<Seq<char>>)
    requires
        forall|j: int| 0 <= j < raw.len() ==> spec_lacks(#[trigger] raw[j], '@'),
    ensures
        spec_parse_docs(raw) == Ok::<DocsView, AnnotErrorView>(
            DocsView { description: spec_clean_text(raw), annotations: Seq::empty() },
        ),
{
    let lines = spec_clean_lines(raw);
    lemma_clean_lines_lacks(raw, '@', 0);
    lemma_parse_lines_plain(lines, 0);
    if lines.len() == 0 {
        assert(spec_join(lines, seq![' ']) == Seq::<char>::empty());
    } else {
        lemma_spaced_join(lines, 0);
        assert(lines.skip(0) =~= lines);
        lemma_normalize_ws_push_space(spec_join(lines, seq![' ']));
    }
}

fn clean_block(block: &[char], out: &mut Vec<Vec<char>>)
    ensures
        views(final(out)@) == views(old(out)@) + spec_lines(block@).map_values(
            |l: Seq<char>| spec_clean_block_line(l),
        ),
{
    let ls = lines(block);
    let ghost out0 = views(out@);
    let ghost cleaned = spec_lines(block@).map_values(|l: Seq<char>| spec_clean_block_line(l));
    let mut k: usize = 0;
    while k < ls.len()
        invariant
            k <= ls@.len(),
            views(ls@) == spec_lines(block@),
            cleaned == spec_lines(block@).map_values(|l: Seq<char>| spec_clean_block_line(l)),
            views(out@) == out0 + cleaned.take(k as int),
        decreases ls@.len() - k,
    {
        let l = &ls[k];
        let t = trim(l.as_slice());
        let u = trim_start_matches(t, '*');
        let v = trim(u);
        let w = copy_range(v, 0, v.len());
        proof {
            assert(views(ls@)[k as int] == ls@[k as int]@);
            assert(w@ =~= v@);
            assert(w@ == cleaned[k as int]);
        }
        let ghost old_out = out@;
        out.push(w);
        proof {
            lemma_views_push(old_out, w);
            assert(cleaned.take(k + 1) =~= cleaned.take(k as int).push(cleaned[k as int]));
        }
        k += 1;
    }
    proof {
        assert(cleaned.take(ls@.len() as int) =~= cleaned);
    }
}

fn clean_comment(raw: &[char], out: &mut Vec<Vec<char>>)
    ensures
        views(final(out)@) == views(old(out)@) + spec_clean_comment(raw@),
{
    let c = trim(raw);
    let p1 = ['/', '*', '*'];
    let p2 = ['/', '*', '!'];
    let p3 = ['/', '/', '/'];
    let p4 = ['/', '/', '!'];
    let sfx = ['*', '/'];
    proof {
        assert(p1@ =~= seq!['/', '*', '*']);
        assert(p2@ =~= seq!['/', '*', '!']);
        assert(p3@ =~= seq!['/', '/', '/']);
        assert(p4@ =~= seq!['/', '/', '!']);
        assert(sfx@ =~= seq!['*', '/']);
    }
    if starts_with(c, &p1) || starts_with(c, &p2) {
        let block = &c[3..c.len()];
        proof {
            assert(block@ =~= c@.skip(3));
        }
        if ends_with(block, &sfx) {
            let inner = &block[0..block.len() - 2];
            proof {
                assert(inner@ =~= block@.take(block@.len() - 2));
            }
            clean_block(inner, out);
        } else {
            clean_block(block, out);
        }
    } else {
        let line = if starts_with(c, &p3) || starts_with(c, &p4) {
            let l = &c[3..c.len()];
            proof {
                assert(l@ =~= c@.skip(3));
            }
            l
        } else {
            c
        };
        let t = trim(line);
        let w = copy_range(t, 0, t.len());
        proof {
            assert(w@ =~= t@);
        }
        let ghost old_out = out@;
        out.push(w);
        proof {
            lemma_views_push(old_out, w);
            assert(views(out@) =~= views(old_out) + seq![w@]);
        }
    }
}

fn clean_lines_chars(raw: &[String]) -> (r: Vec<Vec<char>>)
    ensures
        views(r@) == spec_clean_lines(strings_view(raw@)),
{
    let ghost rv = strings_view(raw@);
    let mut out: Vec<Vec<char>> = Vec::new();
    let mut k: usize = 0;
    proof {
        assert(views(out@) + spec_clean_lines_from(rv, 0) =~= spec_clean_lines_from(rv, 0));
    }
    while k < raw.len()
        invariant
            k <= raw@.len(),
            rv == strings_view(raw@),
            spec_clean_lines(rv) == views(out@) + spec_clean_lines_from(rv, k as int),
        decreases raw@.len() - k,
    {
        let chars = chars_of(raw[k].as_str());
        let ghost before = views(out@);
        clean_comment(chars.as_slice(), &mut out);
        proof {
            assert(rv[k as int] == raw@[k as int]@);
            assert(views(out@) + spec_clean_lines_from(rv, k + 1) =~= before + (spec_clean_comment(
                rv[k as int],
            ) + spec_clean_lines_from(rv, k + 1)));
        }
        k += 1;
    }
    proof {
        assert(views(out@) + spec_clean_lines_from(rv, k as int) =~= views(out@));
    }
    out
}

/// Strip comment markers from raw doc comments and split them into plain text lines.
///
/// `naga` provides doc comments verbatim, including the `///`/`//!` or `/** .. */`
/// markers.
pub fn clean_lines(raw: &[String]) -> (r: Vec<String>)
    ensures
        strings_view(r@) == spec_clean_lines(strings_view(raw@)),
{
    let cs = clean_lines_chars(raw);
    let mut out: Vec<String> = Vec::new();
    let mut k: usize = 0;
    while k < cs.len()
        invariant
            k <= cs@.len(),
            strings_view(out@) == views(cs@).take(k as int),
        decreases cs@.len() - k,
    {
        let s = string_of(cs[k].as_slice());
        let ghost old_out = out@;
        out.push(s);
        proof {
            assert(views(cs@)[k as int] == cs@[k as int]@);
            assert(strings_view(out@) =~= strings_view(old_out).push(s@));
            assert(views(cs@).take(k + 1) =~= views(cs@).take(k as int).push(views(cs@)[k as int]));
            assert(strings_view(out@) =~= views(cs@).take(k + 1));
        }
        k += 1;
    }
    proof {
        assert(views(cs@).take(cs@.len() as int) =~= views(cs@));
    }
    out
}

/// Join raw doc comments into plain description text, without annotation parsing.
pub fn clean_text(raw: &[String]) -> (r: String)
    ensures
        r@ == spec_clean_text(strings_view(raw@)),
{
    let cs = clean_lines_chars(raw);
    let sep = [' '];
    proof {
        assert(sep@ =~= seq![' ']);
    }
    let joined = join(&cs, &sep);
    let n = normalize_ws(joined.as_slice());
    string_of(n.as_slice())
}

/// Parse raw doc comments into description text and annotations.
pub fn parse_docs(raw: &[String]) -> (r: Result<Docs, AnnotError>)
    ensures
        match r {
            Ok(d) => spec_parse_docs(strings_view(raw@)) == Ok::<DocsView, AnnotErrorView>(d@),
            Err(e) => spec_parse_docs(strings_view(raw@)) == Err::<DocsView, AnnotErrorView>(e@),
        },
{
    let ls = clean_lines_chars(raw);
    let ghost lv = views(ls@);
    let mut description: Vec<char> = Vec::new();
    let mut annotations: Vec<Annotation> = Vec::new();
    let mut k: usize = 0;
    proof {
        assert(anns_view(annotations@) =~= Seq::<AnnotationView>::empty());
        assert(prepend_line(Seq::empty(), Seq::empty(), spec_parse_lines_from(lv, 0)) =~= spec_parse_lines_from(lv, 0)) by {
            match spec_parse_lines_from(lv, 0) {
                Ok((t, a)) => {
                    assert(Seq::<char>::empty() + t =~= t);
                    assert(Seq::<AnnotationView>::empty() + a =~= a);
                },
                Err(e) => {},
            }
        }
    }
    while k < ls.len()
        invariant
            k <= ls@.len(),
            lv == views(ls@),
            lv == spec_clean_lines(strings_view(raw@)),
            spec_parse_lines_from(lv, 0) == prepend_line(description@, anns_view(annotations@), spec_parse_lines_from(lv, k as int)),
        decreases ls@.len() - k,
    {
        proof {
            assert(lv[k as int] == ls@[k as int]@);
        }
        let (t, a) = match parse_line(ls[k].as_slice()) {
            Ok(p) => p,
            Err(e) => {
                return Err(e);
            },
        };
        let ghost d0 = description@;
        let ghost a0 = anns_view(annotations@);
        append_range(&mut description, t.as_slice(), 0, t.len());
        description.push(' ');
        let mut j: usize = 0;
        let ghost a1 = anns_view(a@);
        while j < a.len()
            invariant
                j <= a@.len(),
                a1 == anns_view(a@),
                anns_view(annotations@) == a0 + a1.take(j as int),
            decreases a@.len() - j,
        {
            let ghost old_anns = annotations@;
            annotations.push(a[j].clone_annotation());
            proof {
                assert(anns_view(annotations@) =~= anns_view(old_anns).push(a1[j as int]));
                assert(a1.take(j + 1) =~= a1.take(j as int).push(a1[j as int]));
            }
            j += 1;
        }
        proof {
            assert(t@.subrange(0, t@.len() as int) =~= t@);
            assert(description@ =~= d0 + (t@ + seq![' ']));
            assert(a1.take(a@.len() as int) =~= a1);
            lemma_prepend_line_assoc(d0, a0, t@ + seq![' '], a1, spec_parse_lines_from(lv, k + 1));
        }
        k += 1;
    }
    let normalized = normalize_ws(description.as_slice());
    proof {
        match spec_parse_lines_from(lv, k as int) {
            Ok((t, a)) => {
                assert(description@ + t =~= description@);
                assert(anns_view(annotations@) + a =~= anns_view(annotations@));
            },
            Err(e) => {},
        }
    }
    Ok(Docs { description: string_of(normalized.as_slice()), annotations })
}

// ---------------------------------------------------------------------------
// Accessors
// ---------------------------------------------------------------------------

/// The value of the first `key = value` argument with the given key, from index `i`.
pub open spec fn spec_named_from(args: Seq<ArgView>, key: Seq<char>, i: int) -> Option<ValueView>
    decreases args.len() - i,
{
    if i >= args.len() || i < 0 {
        None
    } else {
        match args[i] {
            ArgView::Named(k, v) => if k == key {
                Some(v)
            } else {
                spec_named_from(args, key, i + 1)
            },
            _ => spec_named_from(args, key, i + 1),
        }
    }
}

/// Whether the argument is the bare flag `name`.
pub open spec fn spec_is_flag(a: ArgView, name: Seq<char>) -> bool {
    match a {
        ArgView::Pos(ValueView::Ident(s)) => s == name,
        _ => false,
    }
}

/// Whether the argument is a positional number.
pub open spec fn spec_is_pos_number(a: ArgView) -> bool {
    a matches ArgView::Pos(ValueView::Number(_))
}

/// Whether the argument is a positional string.
pub open spec fn spec_is_pos_string(a: ArgView) -> bool {
    a matches ArgView::Pos(ValueView::Str(_))
}

/// The literal of a positional number argument.
pub open spec fn spec_pos_number(a: ArgView) -> Seq<char> {
    match a {
        ArgView::Pos(ValueView::Number(n)) => n,
        _ => Seq::empty(),
    }
}

/// The content of a positional string argument.
pub open spec fn spec_pos_string(a: ArgView) -> Seq<char> {
    match a {
        ArgView::Pos(ValueView::Str(s)) => s,
        _ => Seq::empty(),
    }
}

/// The index of the first annotation named `name` from index `i`, or the length.
pub open spec fn spec_find_annotation_from(anns: Seq<AnnotationView>, name: Seq<char>, i: int) -> int
    decreases anns.len() - i,
{
    if i >= anns.len() || i < 0 {
        anns.len() as int
    } else if anns[i].name == name {
        i
    } else {
        spec_find_annotation_from(anns, name, i + 1)
    }
}

/// The first annotation with the given name.
pub open spec fn spec_get(d: DocsView, name: Seq<char>) -> Option<AnnotationView> {
    let i = spec_find_annotation_from(d.annotations, name, 0);
    if 0 <= i < d.annotations.len() {
        Some(d.annotations[i])
    } else {
        None
    }
}

pub proof fn lemma_find_annotation_bounds(anns: Seq<AnnotationView>, name: Seq<char>, i: int)
    requires
        0 <= i <= anns.len(),
    ensures
        i <= spec_find_annotation_from(anns, name, i) <= anns.len(),
        spec_find_annotation_from(anns, name, i) < anns.len() ==> anns[spec_find_annotation_from(anns, name, i)].name == name,
        forall|k: int| i <= k < spec_find_annotation_from(anns, name, i) ==> anns[k].name != name,
    decreases anns.len() - i,
{
    if i < anns.len() && anns[i].name != name {
        lemma_find_annotation_bounds(anns, name, i + 1);
    }
}

impl Value {
    /// A copy of the value.
    pub fn clone_value(&self) -> (r: Value)
        ensures
            r@ == self@,
    {
        match self {
            Value::Ident(s) => Value::Ident(s.clone()),
            Value::Number(n) => Value::Number(n.copied()),
            Value::Str(s) => Value::Str(s.clone()),
        }
    }

    /// The content of a `Str` or the word of an `Ident`.
    pub fn as_str(&self) -> (r: Option<&str>)
        ensures
            match self@ {
                ValueView::Str(s) => r matches Some(x) && x@ == s,
                ValueView::Ident(s) => r matches Some(x) && x@ == s,
                ValueView::Number(_) => r is None,
            },
    {
        match self {
            Value::Str(s) => Some(s.as_str()),
            Value::Ident(s) => Some(s.as_str()),
            Value::Number(_) => None,
        }
    }

    /// The number of a `Number`.
    pub fn as_number(&self) -> (r: Option<Number>)
        ensures
            match self@ {
                ValueView::Number(n) => r matches Some(x) && x@ == n,
                _ => r is None,
            },
    {
        match self {
            Value::Number(n) => Some(n.copied()),
            _ => None,
        }
    }
}

impl Arg {
    /// A copy of the argument.
    pub fn clone_arg(&self) -> (r: Arg)
        ensures
            r@ == self@,
    {
        match self {
            Arg::Named(k, v) => Arg::Named(k.clone(), v.clone_value()),
            Arg::Pos(v) => Arg::Pos(v.clone_value()),
        }
    }
}

impl Annotation {
    /// A copy of the annotation.
    pub fn clone_annotation(&self) -> (r: Annotation)
        ensures
            r@ == self@,
    {
        let mut args: Vec<Arg> = Vec::new();
        let mut k: usize = 0;
        while k < self.args.len()
            invariant
                k <= self.args@.len(),
                args_view(args@) == args_view(self.args@).take(k as int),
            decreases self.args@.len() - k,
        {
            let ghost old_args = args@;
            let a = self.args[k].clone_arg();
            args.push(a);
            proof {
                assert(args_view(self.args@)[k as int] == self.args@[k as int]@);
                assert(args_view(args@) =~= args_view(old_args).push(a@));
                assert(args_view(self.args@).take(k + 1) =~= args_view(self.args@).take(k as int).push(
                    args_view(self.args@)[k as int],
                ));
                assert(args_view(args@) =~= args_view(self.args@).take(k + 1));
            }
            k += 1;
        }
        proof {
            assert(args_view(self.args@).take(self.args@.len() as int) =~= args_view(self.args@));
        }
        Annotation { name: self.name.clone(), args }
    }

    /// The value of the `key = value` argument with the given key.
    pub fn named(&self, key: &str) -> (r: Option<&Value>)
        ensures
            match r {
                Some(v) => spec_named_from(self@.args, key@, 0) == Some(v@),
                None => spec_named_from(self@.args, key@, 0) is None,
            },
    {
        let ghost av = self@.args;
        let mut i: usize = 0;
        while i < self.args.len()
            invariant
                i <= self.args@.len(),
                av == args_view(self.args@),
                spec_named_from(av, key@, 0) == spec_named_from(av, key@, i as int),
            decreases self.args@.len() - i,
        {
            proof {
                assert(av[i as int] == self.args@[i as int]@);
            }
            match &self.args[i] {
                Arg::Named(k, v) => {
                    if str_eq(k.as_str(), key) {
                        return Some(v);
                    }
                },
                Arg::Pos(_) => {},
            }
            i += 1;
        }
        None
    }

    /// Whether the bare flag with the given name is present, e.g. `persistent`.
    pub fn flag(&self, name: &str) -> (r: bool)
        ensures
            r == exists|i: int| 0 <= i < self@.args.len() && spec_is_flag(self@.args[i], name@),
    {
        let ghost av = self@.args;
        let mut i: usize = 0;
        while i < self.args.len()
            invariant
                i <= self.args@.len(),
                av == args_view(self.args@),
                forall|k: int| 0 <= k < i ==> !spec_is_flag(av[k], name@),
            decreases self.args@.len() - i,
        {
            proof {
                assert(av[i as int] == self.args@[i as int]@);
            }
            match &self.args[i] {
                Arg::Pos(Value::Ident(s)) => {
                    if str_eq(s.as_str(), name) {
                        proof {
                            assert(self@.args == av);
                            assert(spec_is_flag(self@.args[i as int], name@));
                        }
                        return true;
                    }
                },
                _ => {},
            }
            i += 1;
        }
        false
    }

    /// All positional arguments as numbers, if every argument is a positional number.
    pub fn pos_numbers(&self) -> (r: Option<Vec<Number>>)
        ensures
            match r {
                Some(v) => (forall|i: int| 0 <= i < self@.args.len() ==> spec_is_pos_number(self@.args[i]))
                    && v@.len() == self@.args.len()
                    && forall|i: int| 0 <= i < v@.len() ==> v@[i]@ == spec_pos_number(self@.args[i]),
                None => exists|i: int| 0 <= i < self@.args.len() && !spec_is_pos_number(self@.args[i]),
            },
    {
        let ghost av = self@.args;
        let mut out: Vec<Number> = Vec::new();
        let mut i: usize = 0;
        while i < self.args.len()
            invariant
                i <= self.args@.len(),
                av == args_view(self.args@),
                out@.len() == i,
                forall|k: int| 0 <= k < i ==> spec_is_pos_number(av[k]),
                forall|k: int| 0 <= k < i ==> out@[k]@ == spec_pos_number(av[k]),
            decreases self.args@.len() - i,
        {
            proof {
                assert(av[i as int] == self.args@[i as int]@);
            }
            match &self.args[i] {
                Arg::Pos(Value::Number(n)) => {
                    out.push(n.copied());
                },
                _ => {
                    proof {
                        assert(self@.args == av);
                        assert(!spec_is_pos_number(self@.args[i as int]));
                    }
                    return None;
                },
            }
            i += 1;
        }
        Some(out)
    }

    /// All positional arguments as strings, if every argument is a positional string.
    pub fn pos_strings(&self) -> (r: Option<Vec<String>>)
        ensures
            match r {
                Some(v) => (forall|i: int| 0 <= i < self@.args.len() ==> spec_is_pos_string(self@.args[i]))
                    && v@.len() == self@.args.len()
                    && forall|i: int| 0 <= i < v@.len() ==> v@[i]@ == spec_pos_string(self@.args[i]),
                None => exists|i: int| 0 <= i < self@.args.len() && !spec_is_pos_string(self@.args[i]),
            },
    {
        let ghost av = self@.args;
        let mut out: Vec<String> = Vec::new();
        let mut i: usize = 0;
        while i < self.args.len()
            invariant
                i <= self.args@.len(),
                av == args_view(self.args@),
                out@.len() == i,
                forall|k: int| 0 <= k < i ==> spec_is_pos_string(av[k]),
                forall|k: int| 0 <= k < i ==> out@[k]@ == spec_pos_string(av[k]),
            decreases self.args@.len() - i,
        {
            proof {
                assert(av[i as int] == self.args@[i as int]@);
            }
            match &self.args[i] {
                Arg::Pos(Value::Str(s)) => {
                    out.push(s.clone());
                },
                _ => {
                    proof {
                        assert(self@.args == av);
                        assert(!spec_is_pos_string(self@.args[i as int]));
                    }
                    return None;
                },
            }
            i += 1;
        }
        Some(out)
    }

    /// The sole positional number, if the arguments are exactly that.
    pub fn single_number(&self) -> (r: Option<Number>)
        ensures
            match r {
                Some(n) => self@.args.len() == 1 && spec_is_pos_number(self@.args[0]) && n@
                    == spec_pos_number(self@.args[0]),
                None => !(self@.args.len() == 1 && spec_is_pos_number(self@.args[0])),
            },
    {
        if self.args.len() != 1 {
            return None;
        }
        proof {
            assert(self@.args[0] == self.args@[0]@);
        }
        match &self.args[0] {
            Arg::Pos(Value::Number(n)) => Some(n.copied()),
            _ => None,
        }
    }

    /// The sole positional string, if the arguments are exactly that.
    pub fn single_string(&self) -> (r: Option<String>)
        ensures
            match r {
                Some(s) => self@.args.len() == 1 && spec_is_pos_string(self@.args[0]) && s@
                    == spec_pos_string(self@.args[0]),
                None => !(self@.args.len() == 1 && spec_is_pos_string(self@.args[0])),
            },
    {
        if self.args.len() != 1 {
            return None;
        }
        proof {
            assert(self@.args[0] == self.args@[0]@);
        }
        match &self.args[0] {
            Arg::Pos(Value::Str(s)) => Some(s.clone()),
            _ => None,
        }
    }
}

impl Docs {
    /// The first annotation with the given name.
    pub fn get(&self, name: &str) -> (r: Option<&Annotation>)
        ensures
            match r {
                Some(a) => spec_get(self@, name@) == Some(a@),
                None => spec_get(self@, name@) is None,
            },
    {
        let ghost anns = self@.annotations;
        let mut i: usize = 0;
        proof {
            lemma_find_annotation_bounds(anns, name@, 0);
        }
        while i < self.annotations.len()
            invariant
                i <= self.annotations@.len(),
                anns == anns_view(self.annotations@),
                spec_find_annotation_from(anns, name@, 0) == spec_find_annotation_from(anns, name@, i as int),
            decreases self.annotations@.len() - i,
        {
            proof {
                assert(anns[i as int] == self.annotations@[i as int]@);
            }
            if str_eq(self.annotations[i].name.as_str(), name) {
                return Some(&self.annotations[i]);
            }
            i += 1;
        }
        None
    }

    /// Whether an annotation with the given name is present.
    pub fn has(&self, name: &str) -> (r: bool)
        ensures
            r == spec_get(self@, name@) is Some,
    {
        self.get(name).is_some()
    }
}

} // verus!
