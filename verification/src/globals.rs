//! The wisp-provided globals uniform: recognized member names, layout packing and a
//! date helper.
//!
//! A wisp shader opts into per-frame globals by declaring a uniform struct at
//! `@group(0) @binding(0)` whose members are any subset of the recognized names
//! below. Wisp writes each member at its reflected offset, so declaring only what a
//! shader uses is fine.

use crate::schema::ParamType;
use crate::text::str_eq;
use vstd::prelude::*;

verus! {

/// A recognized member of the wisp globals uniform struct.
#[derive(Clone, Copy, Debug, Eq, Hash, PartialEq, Structural)]
pub enum GlobalKind {
    /// `resolution: vec2<f32>` - size of the current pass target in physical pixels.
    Resolution,
    /// `time: f32` - seconds since the app started.
    Time,
    /// `time_delta: f32` - seconds elapsed since the previous frame.
    TimeDelta,
    /// `frame: u32` - frames rendered since the app started.
    Frame,
    /// `pass_index: u32` - index of the current pass, in declaration order.
    PassIndex,
    /// `mouse: vec4<f32>` - cursor position in physical pixels (xy, matching the
    /// fullscreen `uv` orientation), 1.0 while the primary button is held (z) and
    /// 1.0 on the frame it was pressed (w).
    Mouse,
    /// `date: vec4<f32>` - (year, month, day, seconds since midnight), UTC.
    Date,
}

/// The reflected layout of a shader's globals uniform struct.
#[derive(Clone, Debug, PartialEq)]
pub struct GlobalsSchema {
    /// Total size of the struct in bytes, including trailing padding.
    pub size: u32,
    /// The recognized members with their byte offsets.
    pub fields: Vec<(GlobalKind, u32)>,
}

/// The member name of a kind.
pub open spec fn spec_global_name(k: GlobalKind) -> Seq<char> {
    match k {
        GlobalKind::Resolution => "resolution"@,
        GlobalKind::Time => "time"@,
        GlobalKind::TimeDelta => "time_delta"@,
        GlobalKind::Frame => "frame"@,
        GlobalKind::PassIndex => "pass_index"@,
        GlobalKind::Mouse => "mouse"@,
        GlobalKind::Date => "date"@,
    }
}

/// Every kind, in declaration order.
pub open spec fn spec_all_kinds() -> Seq<GlobalKind> {
    seq![
        GlobalKind::Resolution,
        GlobalKind::Time,
        GlobalKind::TimeDelta,
        GlobalKind::Frame,
        GlobalKind::PassIndex,
        GlobalKind::Mouse,
        GlobalKind::Date,
    ]
}

/// The first kind (in declaration order) with the given name.
pub open spec fn spec_kind_from_name(name: Seq<char>) -> Option<GlobalKind> {
    if name == "resolution"@ {
        Some(GlobalKind::Resolution)
    } else if name == "time"@ {
        Some(GlobalKind::Time)
    } else if name == "time_delta"@ {
        Some(GlobalKind::TimeDelta)
    } else if name == "frame"@ {
        Some(GlobalKind::Frame)
    } else if name == "pass_index"@ {
        Some(GlobalKind::PassIndex)
    } else if name == "mouse"@ {
        Some(GlobalKind::Mouse)
    } else if name == "date"@ {
        Some(GlobalKind::Date)
    } else {
        None
    }
}

/// The WGSL type a member of the kind must be declared with.
pub open spec fn spec_global_param_ty(k: GlobalKind) -> ParamType {
    match k {
        GlobalKind::Resolution => ParamType::Vec2,
        GlobalKind::Time | GlobalKind::TimeDelta => ParamType::F32,
        GlobalKind::Frame | GlobalKind::PassIndex => ParamType::U32,
        GlobalKind::Mouse | GlobalKind::Date => ParamType::Vec4,
    }
}

impl GlobalKind {
    pub const ALL: [GlobalKind; 7] = [
        GlobalKind::Resolution,
        GlobalKind::Time,
        GlobalKind::TimeDelta,
        GlobalKind::Frame,
        GlobalKind::PassIndex,
        GlobalKind::Mouse,
        GlobalKind::Date,
    ];

    /// The kind whose member name is `name`.
    pub fn from_name(name: &str) -> (r: Option<GlobalKind>)
        ensures
            r == spec_kind_from_name(name@),
    {
        if str_eq(name, "resolution") {
            Some(GlobalKind::Resolution)
        } else if str_eq(name, "time") {
            Some(GlobalKind::Time)
        } else if str_eq(name, "time_delta") {
            Some(GlobalKind::TimeDelta)
        } else if str_eq(name, "frame") {
            Some(GlobalKind::Frame)
        } else if str_eq(name, "pass_index") {
            Some(GlobalKind::PassIndex)
        } else if str_eq(name, "mouse") {
            Some(GlobalKind::Mouse)
        } else if str_eq(name, "date") {
            Some(GlobalKind::Date)
        } else {
            None
        }
    }

    /// The member name of the kind.
    pub fn name(self) -> (r: &'static str)
        ensures
            r@ == spec_global_name(self),
    {
        match self {
            GlobalKind::Resolution => "resolution",
            GlobalKind::Time => "time",
            GlobalKind::TimeDelta => "time_delta",
            GlobalKind::Frame => "frame",
            GlobalKind::PassIndex => "pass_index",
            GlobalKind::Mouse => "mouse",
            GlobalKind::Date => "date",
        }
    }

    /// The WGSL type the member must be declared with.
    pub fn param_ty(self) -> (r: ParamType)
        ensures
            r == spec_global_param_ty(self),
    {
        match self {
            GlobalKind::Resolution => ParamType::Vec2,
            GlobalKind::Time | GlobalKind::TimeDelta => ParamType::F32,
            GlobalKind::Frame | GlobalKind::PassIndex => ParamType::U32,
            GlobalKind::Mouse | GlobalKind::Date => ParamType::Vec4,
        }
    }
}

/// Looking a kind up by its own name gives the kind back.
pub proof fn lemma_from_name_of_name(k: GlobalKind)
    ensures
        spec_kind_from_name(spec_global_name(k)) == Some(k),
{
    reveal_strlit("resolution");
    reveal_strlit("time");
    reveal_strlit("time_delta");
    reveal_strlit("frame");
    reveal_strlit("pass_index");
    reveal_strlit("mouse");
    reveal_strlit("date");
    let r = "resolution"@;
    let t = "time"@;
    let td = "time_delta"@;
    let f = "frame"@;
    let p = "pass_index"@;
    let m = "mouse"@;
    let d = "date"@;
    assert(r.len() == 10 && t.len() == 4 && td.len() == 10 && f.len() == 5 && p.len() == 10
        && m.len() == 5 && d.len() == 4);
    assert(r[0] == 'r' && td[0] == 't' && p[0] == 'p');
    assert(t[0] == 't' && d[0] == 'd');
    assert(f[0] == 'f' && m[0] == 'm');
    assert(r != t && r != td && r != f && r != p && r != m && r != d);
    assert(t != td && t != f && t != p && t != m && t != d);
    assert(td != f && td != p && td != m && td != d);
    assert(f != p && f != m && f != d);
    assert(p != m && p != d);
    assert(m != d);
}

} // verus!

verus! {

/// Within a 400-year era counted from March 1st: the year of era `yoe` that
/// day `doe` falls in starts on day `start`, and the day lies in that year.
proof fn lemma_year_of_era(doe: u64, yoe: u64, start: u64)
    by (bit_vector)
    requires
        doe < 146097,
        yoe == (doe - doe / 1460 + doe / 36524 - doe / 146096) / 365,
        start == 365 * yoe + yoe / 4 - yoe / 100,
    ensures
        yoe < 400,
        start <= doe,
        doe - start <= 365,
{
}

/// The 366th day of a year of era exists only when the next calendar year is
/// a leap year.
#[verifier::rlimit(100)]
proof fn lemma_leap_day_of_era(doe: u64, yoe: u64, start: u64, doy: u64, next: u64)
    by (bit_vector)
    requires
        doe < 146097,
        yoe == (doe - doe / 1460 + doe / 36524 - doe / 146096) / 365,
        start == 365 * yoe + yoe / 4 - yoe / 100,
        start <= doe,
        doy == doe - start,
        doy == 365,
        next == yoe + 1,
    ensures
        next % 4 == 0,
        next % 100 != 0 || next % 400 == 0,
{
}

/// Within a year counted from March 1st: day `doy` falls in month `mp` (0 for
/// March), which starts on day `cum` of the year.
proof fn lemma_month_of_year(doy: u64, t: u64, mp: u64, u: u64, cum: u64)
    by (bit_vector)
    requires
        doy <= 365,
        t == 5 * doy + 2,
        mp == t / 153,
        u == 153 * mp + 2,
        cum == u / 5,
    ensures
        mp <= 11,
        cum <= doy,
        doy - cum < 31,
        (mp == 1 || mp == 3 || mp == 6 || mp == 8) ==> doy - cum < 30,
        mp == 11 ==> (doy - cum < 29 || doy == 365),
{
}

/// For a year of era `1 <= yoe < 400`, the leap days before it and the leap
/// day of the year itself, counted two ways.
proof fn lemma_leap_count(yoe: u64, p: u64)
    by (bit_vector)
    requires
        1 <= yoe < 400,
        p == yoe - 1,
    ensures
        (yoe % 4 == 0 && (yoe % 100 != 0 || yoe % 400 == 0)) ==> p / 4 + p / 400 + 1 + yoe / 100
            == yoe / 4 + p / 100,
        !(yoe % 4 == 0 && (yoe % 100 != 0 || yoe % 400 == 0)) ==> p / 4 + p / 400 + yoe / 100
            == yoe / 4 + p / 100,
{
}

// ---------------------------------------------------------------------------
// The proleptic Gregorian calendar
// ---------------------------------------------------------------------------

/// Whether `y` is a leap year.
pub open spec fn spec_is_leap(y: int) -> bool {
    y % 4 == 0 && (y % 100 != 0 || y % 400 == 0)
}

/// The number of days of month `m` (1 to 12) of year `y`.
pub open spec fn spec_days_in_month(y: int, m: int) -> int {
    if m == 2 {
        if spec_is_leap(y) {
            29
        } else {
            28
        }
    } else if m == 4 || m == 6 || m == 9 || m == 11 {
        30
    } else {
        31
    }
}

/// The number of days of year `y` before month `m` (1 to 12) begins.
pub open spec fn spec_days_before_month(y: int, m: int) -> int {
    let common: int = if m <= 1 {
        0
    } else if m == 2 {
        31
    } else if m == 3 {
        59
    } else if m == 4 {
        90
    } else if m == 5 {
        120
    } else if m == 6 {
        151
    } else if m == 7 {
        181
    } else if m == 8 {
        212
    } else if m == 9 {
        243
    } else if m == 10 {
        273
    } else if m == 11 {
        304
    } else {
        334
    };
    if m > 2 && spec_is_leap(y) {
        common + 1
    } else {
        common
    }
}

/// The number of days from January 1st of year 1 to January 1st of year `y`.
pub open spec fn spec_days_before_year(y: int) -> int {
    365 * (y - 1) + (y - 1) / 4 - (y - 1) / 100 + (y - 1) / 400
}

/// Whether `(y, m, d)` is a date.
pub open spec fn spec_valid_date(y: int, m: int, d: int) -> bool {
    1 <= m <= 12 && 1 <= d <= spec_days_in_month(y, m)
}

/// The number of days from 1970-01-01 to the date `(y, m, d)` (negative before).
pub open spec fn spec_days_from_civil(y: int, m: int, d: int) -> int {
    spec_days_before_year(y) + spec_days_before_month(y, m) + d - 1 - spec_days_before_year(1970)
}

proof fn lemma_div_shift(a: int, b: int, d: int)
    requires
        0 < d,
    ensures
        (d * a + b) / d == a + b / d,
{
    vstd::arithmetic::div_mod::lemma_fundamental_div_mod(b, d);
    vstd::arithmetic::div_mod::lemma_mod_bound(b, d);
    vstd::arithmetic::div_mod::lemma_div_multiples_vanish_fancy(a + b / d, b % d, d);
    assert(d * (a + b / d) + b % d == d * a + b) by (nonlinear_arith)
        requires
            b == d * (b / d) + b % d,
    ;
}

/// Whole 400-year eras shift day counts by 146097 days and keep leap years.
proof fn lemma_era_shift(e: int, r: int)
    ensures
        spec_days_before_year(400 * e + r) == 146097 * e + spec_days_before_year(r),
        spec_is_leap(400 * e + r) == spec_is_leap(r),
{
    let x = r - 1;
    lemma_div_shift(100 * e, x, 4);
    lemma_div_shift(4 * e, x, 100);
    lemma_div_shift(e, x, 400);
    assert(4 * (100 * e) == 400 * e && 100 * (4 * e) == 400 * e);
    vstd::arithmetic::div_mod::lemma_mod_multiples_vanish(100 * e, r, 4);
    vstd::arithmetic::div_mod::lemma_mod_multiples_vanish(4 * e, r, 100);
    vstd::arithmetic::div_mod::lemma_mod_multiples_vanish(e, r, 400);
}

/// Howard Hinnant's `civil_from_days` steps, from the day of era on, give the
/// date `z` days after 1970-01-01.
proof fn lemma_civil(z: int, era: int, doe: u64, yoe: u64, start: u64, doy: u64, t: u64, mp: u64, u: u64, cum: u64)
    requires
        z + 719468 == 146097 * era + doe,
        doe < 146097,
        yoe == (doe - doe / 1460 + doe / 36524 - doe / 146096) / 365,
        start == 365 * yoe + yoe / 4 - yoe / 100,
        start <= doe,
        doy == doe - start,
        doy <= 365,
        yoe < 400,
        t == 5 * doy + 2,
        mp == t / 153,
        u == 153 * mp + 2,
        cum == u / 5,
        mp <= 11,
        cum <= doy,
        doy - cum < 31,
        (mp == 1 || mp == 3 || mp == 6 || mp == 8) ==> doy - cum < 30,
        mp == 11 ==> (doy - cum < 29 || doy == 365),
        doy == 365 ==> spec_is_leap(yoe + 1),
    ensures
        ({
            let m: int = if mp < 10 { mp + 3 } else { mp - 9 };
            let y: int = if m <= 2 { 400 * era + yoe + 1 } else { 400 * era + yoe };
            let d: int = doy - cum + 1;
            spec_valid_date(y, m, d) && spec_days_from_civil(y, m, d) == z
        }),
{
    let m: int = if mp < 10 { mp + 3 } else { mp - 9 };
    let d: int = doy - cum + 1;
    assert(spec_days_before_year(1970) == 719162);
    assert(cum == (if mp == 0 { 0int } else if mp == 1 { 31 } else if mp == 2 { 61 } else if mp == 3 {
        92
    } else if mp == 4 { 122 } else if mp == 5 { 153 } else if mp == 6 { 184 } else if mp == 7 {
        214
    } else if mp == 8 { 245 } else if mp == 9 { 275 } else if mp == 10 { 306 } else { 337 }));
    if mp < 10 {
        let y = 400 * era + yoe;
        lemma_era_shift(era, yoe as int);
        if yoe == 0 {
            assert(spec_days_before_year(0) == -366);
        } else {
            lemma_leap_count(yoe, (yoe - 1) as u64);
        }
        assert(spec_days_before_year(yoe as int) + (if spec_is_leap(yoe as int) { 1int } else { 0 }) + 365 == start);
        assert(spec_valid_date(y, m, d));
        assert(spec_days_from_civil(y, m, d) == z);
    } else {
        let y = 400 * era + yoe + 1;
        lemma_era_shift(era, yoe + 1);
        assert(spec_days_before_year(yoe + 1) == start);
        assert(spec_valid_date(y, m, d));
        assert(spec_days_from_civil(y, m, d) == z);
    }
}

/// The date `(year, month, day)` that lies `z` days after 1970-01-01 (before
/// it when negative), in the proleptic Gregorian calendar (Howard Hinnant's
/// `civil_from_days`).
pub fn civil_from_days(z: i64) -> (r: (i64, u32, u32))
    requires
        z <= i64::MAX - 719468,
    ensures
        spec_valid_date(r.0 as int, r.1 as int, r.2 as int),
        spec_days_from_civil(r.0 as int, r.1 as int, r.2 as int) == z,
{
    let z2 = z + 719468;
    let era: i64;
    let doe: u64;
    if z2 >= 0 {
        let n = z2 as u64;
        era = (n / 146097) as i64;
        doe = n % 146097;
        proof {
            vstd::arithmetic::div_mod::lemma_fundamental_div_mod(n as int, 146097);
        }
    } else {
        let n = (-(z2 + 1)) as u64;
        let q = n / 146097;
        era = -(q as i64) - 1;
        doe = 146096 - n % 146097;
        proof {
            vstd::arithmetic::div_mod::lemma_fundamental_div_mod(n as int, 146097);
        }
    }
    assert(z + 719468 == 146097 * era + doe);
    let yoe = (doe - doe / 1460 + doe / 36524 - doe / 146096) / 365;
    proof {
        lemma_year_of_era(doe, yoe, (365 * yoe + yoe / 4 - yoe / 100) as u64);
    }
    let start = 365 * yoe + yoe / 4 - yoe / 100;
    let doy = doe - start;
    let t = 5 * doy + 2;
    let mp = t / 153;
    let u = 153 * mp + 2;
    let cum = u / 5;
    proof {
        lemma_month_of_year(doy, t, mp, u, cum);
        if doy == 365 {
            lemma_leap_day_of_era(doe, yoe, start, doy, (yoe + 1) as u64);
        }
        lemma_civil(z as int, era as int, doe, yoe, start, doy, t, mp, u, cum);
    }
    let d = (doy - cum + 1) as u32;
    let m: u32 = if mp < 10 {
        (mp + 3) as u32
    } else {
        (mp - 9) as u32
    };
    assert(-0x4000_0000_0000 <= era <= 0x4000_0000_0000) by (nonlinear_arith)
        requires
            z + 719468 == 146097 * era + doe,
            0 <= doe < 146097,
            z <= i64::MAX - 719468,
            z >= i64::MIN,
    ;
    let y = yoe as i64 + era * 400;
    if m <= 2 {
        (y + 1, m, d)
    } else {
        (y, m, d)
    }
}

/// `(year, month, day, seconds since midnight)` for the given seconds since
/// the UNIX epoch, UTC.
pub fn date_parts(unix_secs: u64) -> (r: (i64, u32, u32, u32))
    ensures
        spec_valid_date(r.0 as int, r.1 as int, r.2 as int),
        spec_days_from_civil(r.0 as int, r.1 as int, r.2 as int) == unix_secs as int / 86400,
        r.3 == unix_secs % 86400,
{
    let days = (unix_secs / 86400) as i64;
    let secs = (unix_secs % 86400) as u32;
    let (y, m, d) = civil_from_days(days);
    (y, m, d, secs)
}

// ---------------------------------------------------------------------------
// Packing
// ---------------------------------------------------------------------------

/// The per-frame values of the globals uniform. The float members (all but
/// `frame` and `pass_index`) are held as the bits of their IEEE-754 binary32
/// values (`f32::to_bits`).
#[derive(Clone, Copy, Debug, Default, PartialEq)]
pub struct GlobalsValues {
    pub resolution: [u32; 2],
    pub time: u32,
    pub time_delta: u32,
    pub frame: u32,
    pub pass_index: u32,
    pub mouse: [u32; 4],
    pub date: [u32; 4],
}

/// The 32-bit words a member of the kind is made of.
pub open spec fn spec_field_words(k: GlobalKind, v: GlobalsValues) -> Seq<u32> {
    match k {
        GlobalKind::Resolution => v.resolution@,
        GlobalKind::Time => seq![v.time],
        GlobalKind::TimeDelta => seq![v.time_delta],
        GlobalKind::Frame => seq![v.frame],
        GlobalKind::PassIndex => seq![v.pass_index],
        GlobalKind::Mouse => v.mouse@,
        GlobalKind::Date => v.date@,
    }
}

/// The four bytes of a word, least significant first when `little`, most
/// significant first otherwise.
pub open spec fn spec_word_bytes(w: u32, little: bool) -> Seq<u8> {
    let b = seq![(w % 256) as u8, ((w / 256) % 256) as u8, ((w / 65536) % 256) as u8, (w / 16777216) as u8];
    if little {
        b
    } else {
        b.reverse()
    }
}

/// The bytes of consecutive words.
pub open spec fn spec_words_bytes(ws: Seq<u32>, little: bool) -> Seq<u8>
    decreases ws.len(),
{
    if ws.len() == 0 {
        Seq::empty()
    } else {
        spec_words_bytes(ws.drop_last(), little) + spec_word_bytes(ws.last(), little)
    }
}

/// `buf` with `src` written from `offset` on.
pub open spec fn spec_write(buf: Seq<u8>, offset: int, src: Seq<u8>) -> Seq<u8> {
    buf.take(offset) + src + buf.skip(offset + src.len())
}

/// A zeroed buffer of `size` bytes with the members written, in order, at
/// their offsets (a later member overwrites an earlier one where they overlap).
pub open spec fn spec_pack_fields(fields: Seq<(GlobalKind, u32)>, v: GlobalsValues, little: bool, size: nat) -> Seq<u8>
    decreases fields.len(),
{
    if fields.len() == 0 {
        Seq::new(size, |i: int| 0u8)
    } else {
        spec_write(
            spec_pack_fields(fields.drop_last(), v, little, size),
            fields.last().1 as int,
            spec_words_bytes(spec_field_words(fields.last().0, v), little),
        )
    }
}

/// Whether every member lies within the struct.
pub open spec fn spec_fields_fit(fields: Seq<(GlobalKind, u32)>, size: u32) -> bool {
    forall|i: int|
        0 <= i < fields.len() ==> fields[i].1 + 4 * #[trigger] spec_field_words(fields[i].0, GlobalsValues::default_spec()).len() <= size
}

impl GlobalsValues {
    /// All members zero.
    pub open spec fn default_spec() -> GlobalsValues {
        GlobalsValues {
            resolution: [0, 0],
            time: 0,
            time_delta: 0,
            frame: 0,
            pass_index: 0,
            mouse: [0, 0, 0, 0],
            date: [0, 0, 0, 0],
        }
    }
}

pub proof fn lemma_words_bytes_len(ws: Seq<u32>, little: bool)
    ensures
        spec_words_bytes(ws, little).len() == 4 * ws.len(),
    decreases ws.len(),
{
    if ws.len() > 0 {
        lemma_words_bytes_len(ws.drop_last(), little);
    }
}

pub proof fn lemma_words_bytes_concat(a: Seq<u32>, b: Seq<u32>, little: bool)
    ensures
        spec_words_bytes(a + b, little) == spec_words_bytes(a, little) + spec_words_bytes(b, little),
    decreases b.len(),
{
    if b.len() == 0 {
        assert(a + b =~= a);
        assert(spec_words_bytes(a, little) + spec_words_bytes(b, little) =~= spec_words_bytes(a, little));
    } else {
        lemma_words_bytes_concat(a, b.drop_last(), little);
        assert((a + b).drop_last() =~= a + b.drop_last());
        assert((a + b).last() == b.last());
        assert(spec_words_bytes(a, little) + spec_words_bytes(b, little) =~= spec_words_bytes(a, little)
            + spec_words_bytes(b.drop_last(), little) + spec_word_bytes(b.last(), little));
    }
}

/// The packed buffer is exactly as long as the struct.
pub proof fn lemma_pack_fields_len(fields: Seq<(GlobalKind, u32)>, v: GlobalsValues, little: bool, size: u32)
    requires
        spec_fields_fit(fields, size),
    ensures
        spec_pack_fields(fields, v, little, size as nat).len() == size,
    decreases fields.len(),
{
    if fields.len() > 0 {
        let prev = fields.drop_last();
        assert(spec_fields_fit(prev, size)) by {
            assert forall|i: int| 0 <= i < prev.len() implies prev[i].1 + 4 * #[trigger] spec_field_words(
                prev[i].0,
                GlobalsValues::default_spec(),
            ).len() <= size by {
                assert(prev[i] == fields[i]);
            }
        }
        lemma_pack_fields_len(prev, v, little, size);
        let (k, off) = fields.last();
        lemma_words_bytes_len(spec_field_words(k, v), little);
        assert(spec_field_words(k, v).len() == spec_field_words(k, GlobalsValues::default_spec()).len());
        assert(fields[fields.len() - 1] == (k, off));
    }
}

/// Writing leaves the length and every byte outside the written range as
/// they were, and the written range reads back as what was written.
pub proof fn lemma_write(buf: Seq<u8>, offset: int, src: Seq<u8>)
    requires
        0 <= offset,
        offset + src.len() <= buf.len(),
    ensures
        spec_write(buf, offset, src).len() == buf.len(),
        spec_write(buf, offset, src).subrange(offset, offset + src.len()) == src,
        forall|i: int|
            0 <= i < buf.len() && !(offset <= i < offset + src.len()) ==> #[trigger] spec_write(buf, offset, src)[i]
                == buf[i],
{
    let w = spec_write(buf, offset, src);
    assert(w.subrange(offset, offset + src.len()) =~= src);
    assert forall|i: int| 0 <= i < buf.len() && !(offset <= i < offset + src.len()) implies #[trigger] w[i] == buf[i] by {
        if i < offset {
            assert(w[i] == buf.take(offset)[i]);
        } else {
            assert(w[i] == buf.skip(offset + src.len())[i - offset - src.len()]);
        }
    }
}

/// The number of bytes a member of the kind takes.
pub open spec fn spec_member_len(k: GlobalKind) -> int {
    4 * spec_field_words(k, GlobalsValues::default_spec()).len() as int
}

/// The member names of the globals uniform: each names one kind, declared
/// with its WGSL type, packed from its own value (`frame` the frame counter,
/// `pass_index` the pass index, and so on), and named back by that name; any
/// other name is no global.
pub proof fn lemma_global_names(v: GlobalsValues, other: Seq<char>)
    ensures
        spec_kind_from_name("resolution"@) == Some(GlobalKind::Resolution),
        spec_kind_from_name("time"@) == Some(GlobalKind::Time),
        spec_kind_from_name("time_delta"@) == Some(GlobalKind::TimeDelta),
        spec_kind_from_name("frame"@) == Some(GlobalKind::Frame),
        spec_kind_from_name("pass_index"@) == Some(GlobalKind::PassIndex),
        spec_kind_from_name("mouse"@) == Some(GlobalKind::Mouse),
        spec_kind_from_name("date"@) == Some(GlobalKind::Date),
        spec_global_name(GlobalKind::Resolution) == "resolution"@,
        spec_global_name(GlobalKind::Time) == "time"@,
        spec_global_name(GlobalKind::TimeDelta) == "time_delta"@,
        spec_global_name(GlobalKind::Frame) == "frame"@,
        spec_global_name(GlobalKind::PassIndex) == "pass_index"@,
        spec_global_name(GlobalKind::Mouse) == "mouse"@,
        spec_global_name(GlobalKind::Date) == "date"@,
        spec_field_words(GlobalKind::Resolution, v) == v.resolution@,
        spec_field_words(GlobalKind::Time, v) == seq![v.time],
        spec_field_words(GlobalKind::TimeDelta, v) == seq![v.time_delta],
        spec_field_words(GlobalKind::Frame, v) == seq![v.frame],
        spec_field_words(GlobalKind::PassIndex, v) == seq![v.pass_index],
        spec_field_words(GlobalKind::Mouse, v) == v.mouse@,
        spec_field_words(GlobalKind::Date, v) == v.date@,
        spec_global_param_ty(GlobalKind::Resolution) == ParamType::Vec2,
        spec_global_param_ty(GlobalKind::Time) == ParamType::F32,
        spec_global_param_ty(GlobalKind::TimeDelta) == ParamType::F32,
        spec_global_param_ty(GlobalKind::Frame) == ParamType::U32,
        spec_global_param_ty(GlobalKind::PassIndex) == ParamType::U32,
        spec_global_param_ty(GlobalKind::Mouse) == ParamType::Vec4,
        spec_global_param_ty(GlobalKind::Date) == ParamType::Vec4,
        spec_kind_from_name(other) is Some ==> spec_global_name(spec_kind_from_name(other)->Some_0) == other,
{
    reveal_strlit("resolution");
    reveal_strlit("time");
    reveal_strlit("time_delta");
    reveal_strlit("frame");
    reveal_strlit("pass_index");
    reveal_strlit("mouse");
    reveal_strlit("date");
    assert("time"@ != "resolution"@) by { assert("time"@.len() != "resolution"@.len()); }
    assert("time_delta"@ != "resolution"@) by { assert("time_delta"@[0] != "resolution"@[0]); }
    assert("time_delta"@ != "time"@) by { assert("time_delta"@.len() != "time"@.len()); }
    assert("frame"@ != "resolution"@) by { assert("frame"@.len() != "resolution"@.len()); }
    assert("frame"@ != "time"@) by { assert("frame"@.len() != "time"@.len()); }
    assert("frame"@ != "time_delta"@) by { assert("frame"@.len() != "time_delta"@.len()); }
    assert("pass_index"@ != "resolution"@) by { assert("pass_index"@[0] != "resolution"@[0]); }
    assert("pass_index"@ != "time"@) by { assert("pass_index"@.len() != "time"@.len()); }
    assert("pass_index"@ != "time_delta"@) by { assert("pass_index"@[0] != "time_delta"@[0]); }
    assert("pass_index"@ != "frame"@) by { assert("pass_index"@.len() != "frame"@.len()); }
    assert("mouse"@ != "resolution"@) by { assert("mouse"@.len() != "resolution"@.len()); }
    assert("mouse"@ != "time"@) by { assert("mouse"@.len() != "time"@.len()); }
    assert("mouse"@ != "time_delta"@) by { assert("mouse"@.len() != "time_delta"@.len()); }
    assert("mouse"@ != "frame"@) by { assert("mouse"@[0] != "frame"@[0]); }
    assert("mouse"@ != "pass_index"@) by { assert("mouse"@.len() != "pass_index"@.len()); }
    assert("date"@ != "resolution"@) by { assert("date"@.len() != "resolution"@.len()); }
    assert("date"@ != "time"@) by { assert("date"@[0] != "time"@[0]); }
    assert("date"@ != "time_delta"@) by { assert("date"@.len() != "time_delta"@.len()); }
    assert("date"@ != "frame"@) by { assert("date"@.len() != "frame"@.len()); }
    assert("date"@ != "pass_index"@) by { assert("date"@.len() != "pass_index"@.len()); }
    assert("date"@ != "mouse"@) by { assert("date"@.len() != "mouse"@.len()); }
}

/// Whether no two members share a byte.
pub open spec fn spec_members_disjoint(fields: Seq<(GlobalKind, u32)>) -> bool {
    forall|a: int, b: int|
        0 <= a < b < fields.len() ==> (#[trigger] fields[a]).1 + spec_member_len(fields[a].0) <= (
        #[trigger] fields[b]).1 || fields[b].1 + spec_member_len(fields[b].0) <= fields[a].1
}

/// The packed globals read back: where no two members share a byte, each
/// member's bytes hold its value's words, and every byte outside the members
/// is zero.
pub proof fn lemma_pack_globals_reads_back(fields: Seq<(GlobalKind, u32)>, v: GlobalsValues, little: bool, size: u32)
    requires
        spec_fields_fit(fields, size),
        spec_members_disjoint(fields),
    ensures
        spec_pack_fields(fields, v, little, size as nat).len() == size,
        forall|j: int|
            0 <= j < fields.len() ==> spec_pack_fields(fields, v, little, size as nat).subrange(
                (#[trigger] fields[j]).1 as int,
                fields[j].1 + spec_member_len(fields[j].0),
            ) == spec_words_bytes(spec_field_words(fields[j].0, v), little),
        forall|i: int|
            0 <= i < size && !(exists|j: int|
                0 <= j < fields.len() && (#[trigger] fields[j]).1 <= i < fields[j].1 + spec_member_len(fields[j].0))
                ==> #[trigger] spec_pack_fields(fields, v, little, size as nat)[i] == 0,
{
    lemma_pack_globals_prefix(fields, v, little, size, fields.len() as int);
    assert(fields.take(fields.len() as int) =~= fields);
}

proof fn lemma_pack_globals_prefix(
    fields: Seq<(GlobalKind, u32)>,
    v: GlobalsValues,
    little: bool,
    size: u32,
    n: int,
)
    requires
        0 <= n <= fields.len(),
        spec_fields_fit(fields, size),
        spec_members_disjoint(fields),
    ensures
        spec_pack_fields(fields.take(n), v, little, size as nat).len() == size,
        forall|j: int|
            0 <= j < n ==> spec_pack_fields(fields.take(n), v, little, size as nat).subrange(
                (#[trigger] fields[j]).1 as int,
                fields[j].1 + spec_member_len(fields[j].0),
            ) == spec_words_bytes(spec_field_words(fields[j].0, v), little),
        forall|i: int|
            0 <= i < size && !(exists|j: int| 0 <= j < n && (#[trigger] fields[j]).1 <= i < fields[j].1 + spec_member_len(fields[j].0))
                ==> #[trigger] spec_pack_fields(fields.take(n), v, little, size as nat)[i] == 0,
    decreases n,
{
    let prefix = fields.take(n);
    let packed = spec_pack_fields(prefix, v, little, size as nat);
    if n == 0 {
        assert(prefix =~= Seq::<(GlobalKind, u32)>::empty());
    } else {
        lemma_pack_globals_prefix(fields, v, little, size, n - 1);
        let last = n - 1;
        let prev = spec_pack_fields(fields.take(last), v, little, size as nat);
        assert(prefix.drop_last() =~= fields.take(last));
        assert(prefix.last() == fields[last]);
        let (k, off) = fields[last];
        let src = spec_words_bytes(spec_field_words(k, v), little);
        lemma_words_bytes_len(spec_field_words(k, v), little);
        assert(spec_field_words(k, v).len() == spec_field_words(k, GlobalsValues::default_spec()).len());
        assert(off + 4 * spec_field_words(k, GlobalsValues::default_spec()).len() <= size);
        assert(packed == spec_write(prev, off as int, src));
        lemma_write(prev, off as int, src);
        assert forall|j: int| 0 <= j < n implies packed.subrange(
            (#[trigger] fields[j]).1 as int,
            fields[j].1 + spec_member_len(fields[j].0),
        ) == spec_words_bytes(spec_field_words(fields[j].0, v), little) by {
            if j < last {
                let lo = fields[j].1 as int;
                let hi = fields[j].1 + spec_member_len(fields[j].0);
                assert(hi <= size);
                assert(packed.subrange(lo, hi) =~= prev.subrange(lo, hi)) by {
                    assert forall|i: int| lo <= i < hi implies packed[i] == prev[i] by {
                        assert(!(off <= i < off + src.len()));
                    }
                }
            }
        }
        assert forall|i: int|
            0 <= i < size && !(exists|j: int| 0 <= j < n && (#[trigger] fields[j]).1 <= i < fields[j].1 + spec_member_len(fields[j].0))
            implies #[trigger] packed[i] == 0 by {
            assert(!(off <= i < off + src.len())) by {
                if off <= i < off + src.len() {
                    assert(fields[last].1 <= i < fields[last].1 + spec_member_len(fields[last].0));
                }
            }
            assert(packed[i] == prev[i]);
        }
    }
}

/// `bytemuck::cast_slice` from words to bytes, collected: each word's four
/// bytes in the machine's byte order. The contract states that the order is
/// the same for every word and is little- or big-endian; which one is left
/// open.
#[verifier::external_body]
pub(crate) fn words_to_bytes(words: &[u32]) -> (r: Vec<u8>)
    ensures
        r@ == spec_words_bytes(words@, true) || r@ == spec_words_bytes(words@, false),
{
    bytemuck::cast_slice::<u32, u8>(words).to_vec()
}

/// Where the words of the kind start in the all-members word list of
/// `pack_globals`, and how many there are.
pub open spec fn spec_word_span(k: GlobalKind) -> (int, int) {
    match k {
        GlobalKind::Resolution => (0, 2),
        GlobalKind::Time => (2, 1),
        GlobalKind::TimeDelta => (3, 1),
        GlobalKind::Frame => (4, 1),
        GlobalKind::PassIndex => (5, 1),
        GlobalKind::Mouse => (6, 4),
        GlobalKind::Date => (10, 4),
    }
}

fn word_span(k: GlobalKind) -> (r: (usize, usize))
    ensures
        r.0 as int == spec_word_span(k).0 && r.1 as int == spec_word_span(k).1,
{
    match k {
        GlobalKind::Resolution => (0, 2),
        GlobalKind::Time => (2, 1),
        GlobalKind::TimeDelta => (3, 1),
        GlobalKind::Frame => (4, 1),
        GlobalKind::PassIndex => (5, 1),
        GlobalKind::Mouse => (6, 4),
        GlobalKind::Date => (10, 4),
    }
}

pub(crate) proof fn lemma_span_bytes(ws: Seq<u32>, start: int, count: int, little: bool)
    requires
        0 <= start,
        0 <= count,
        start + count <= ws.len(),
    ensures
        spec_words_bytes(ws, little).subrange(4 * start, 4 * (start + count)) == spec_words_bytes(
            ws.subrange(start, start + count),
            little,
        ),
{
    let a = ws.subrange(0, start);
    let b = ws.subrange(start, start + count);
    let c = ws.subrange(start + count, ws.len() as int);
    assert(ws =~= a + b + c);
    lemma_words_bytes_concat(a + b, c, little);
    lemma_words_bytes_concat(a, b, little);
    lemma_words_bytes_len(a, little);
    lemma_words_bytes_len(b, little);
    assert(spec_words_bytes(ws, little).subrange(4 * start, 4 * (start + count)) =~= spec_words_bytes(
        b,
        little,
    ));
}

/// Writes `src[start..start + len]` into `bytes` from `offset` on.
pub(crate) fn write_bytes(bytes: &mut Vec<u8>, offset: usize, src: &[u8], start: usize, len: usize)
    requires
        start + len <= src@.len(),
        offset + len <= old(bytes)@.len(),
        start + len <= usize::MAX,
        offset + len <= usize::MAX,
    ensures
        final(bytes)@ == spec_write(old(bytes)@, offset as int, src@.subrange(start as int, start + len)),
{
    let ghost before = bytes@;
    let ghost piece = src@.subrange(start as int, start + len);
    proof {
        assert(before.take(offset as int) + piece.take(0) + before.skip(offset + 0) =~= before);
    }
    let mut j: usize = 0;
    while j < len
        invariant
            j <= len,
            start + len <= src@.len(),
            offset + len <= before.len(),
            start + len <= usize::MAX,
            offset + len <= usize::MAX,
            bytes@.len() == before.len(),
            piece == src@.subrange(start as int, start + len),
            bytes@ =~= before.take(offset as int) + piece.take(j as int) + before.skip(offset + j),
        decreases len - j,
    {
        bytes.set(offset + j, src[start + j]);
        proof {
            assert(piece[j as int] == src@[start + j]);
        }
        j += 1;
    }
    proof {
        assert(piece.take(len as int) =~= piece);
    }
}

/// Packs the values into a byte buffer matching the reflected layout: each
/// member's words, in the machine's byte order, at its offset.
pub fn pack_globals(schema: &GlobalsSchema, values: &GlobalsValues) -> (r: Vec<u8>)
    requires
        spec_fields_fit(schema.fields@, schema.size),
    ensures
        r@ == spec_pack_fields(schema.fields@, *values, true, schema.size as nat) || r@
            == spec_pack_fields(schema.fields@, *values, false, schema.size as nat),
        r@.len() == schema.size,
{
    let words: [u32; 14] = [
        values.resolution[0],
        values.resolution[1],
        values.time,
        values.time_delta,
        values.frame,
        values.pass_index,
        values.mouse[0],
        values.mouse[1],
        values.mouse[2],
        values.mouse[3],
        values.date[0],
        values.date[1],
        values.date[2],
        values.date[3],
    ];
    let encoded = words_to_bytes(&words);
    let ghost little = encoded@ == spec_words_bytes(words@, true);
    proof {
        lemma_words_bytes_len(words@, little);
        assert forall|k: GlobalKind| #[trigger] spec_field_words(k, *values)
            == words@.subrange(spec_word_span(k).0, spec_word_span(k).0 + spec_word_span(k).1) by {
            assert(spec_field_words(k, *values) =~= words@.subrange(
                spec_word_span(k).0,
                spec_word_span(k).0 + spec_word_span(k).1,
            ));
        }
    }
    let mut bytes: Vec<u8> = Vec::new();
    let mut i: usize = 0;
    while i < schema.size as usize
        invariant
            i <= schema.size,
            bytes@ == Seq::new(i as nat, |j: int| 0u8),
        decreases schema.size - i,
    {
        bytes.push(0);
        proof {
            assert(bytes@ =~= Seq::new((i + 1) as nat, |j: int| 0u8));
        }
        i += 1;
    }
    proof {
        assert(schema.fields@.take(0) =~= Seq::<(GlobalKind, u32)>::empty());
    }
    let mut f: usize = 0;
    while f < schema.fields.len()
        invariant
            f <= schema.fields@.len(),
            spec_fields_fit(schema.fields@, schema.size),
            encoded@ == spec_words_bytes(words@, little),
            encoded@.len() == 4 * words@.len(),
            bytes@.len() == schema.size,
            forall|k: GlobalKind| #[trigger] spec_field_words(k, *values)
                == words@.subrange(spec_word_span(k).0, spec_word_span(k).0 + spec_word_span(k).1),
            bytes@ == spec_pack_fields(schema.fields@.take(f as int), *values, little, schema.size as nat),
        decreases schema.fields@.len() - f,
    {
        let (kind, offset) = schema.fields[f];
        let (start, count) = word_span(kind);
        let ghost src = spec_words_bytes(spec_field_words(kind, *values), little);
        proof {
            lemma_span_bytes(words@, start as int, count as int, little);
            assert(encoded@.subrange(4 * start, 4 * (start + count)) == src);
            assert(spec_field_words(kind, GlobalsValues::default_spec()).len() == count);
            assert(offset + 4 * count <= schema.size) by {
                assert(schema.fields@[f as int] == (kind, offset));
            }
        }
        write_bytes(&mut bytes, offset as usize, encoded.as_slice(), 4 * start, 4 * count);
        proof {
            lemma_words_bytes_len(spec_field_words(kind, *values), little);
            assert(schema.fields@.take(f + 1).drop_last() =~= schema.fields@.take(f as int));
            assert(schema.fields@.take(f + 1).last() == (kind, offset));
        }
        f += 1;
    }
    proof {
        assert(schema.fields@.take(schema.fields@.len() as int) =~= schema.fields@);
    }
    bytes
}

// ---------------------------------------------------------------------------
// Dates and day counts correspond one to one
// ---------------------------------------------------------------------------

/// The number of days of year `y`.
pub open spec fn spec_days_in_year(y: int) -> int {
    if spec_is_leap(y) {
        366
    } else {
        365
    }
}

proof fn lemma_div_step(y: int, d: int)
    requires
        d > 0,
    ensures
        y / d - (y - 1) / d == (if y % d == 0 { 1int } else { 0 }),
{
    vstd::arithmetic::div_mod::lemma_fundamental_div_mod(y, d);
    vstd::arithmetic::div_mod::lemma_fundamental_div_mod(y - 1, d);
    vstd::arithmetic::div_mod::lemma_mod_bound(y, d);
    vstd::arithmetic::div_mod::lemma_mod_bound(y - 1, d);
    let q1 = y / d;
    let q0 = (y - 1) / d;
    assert(q1 - q0 == (if y % d == 0 { 1int } else { 0 })) by (nonlinear_arith)
        requires
            y == d * q1 + y % d,
            y - 1 == d * q0 + (y - 1) % d,
            0 <= y % d < d,
            0 <= (y - 1) % d < d,
            d > 0,
    {
        if q1 - q0 >= 2 {
            assert(d * (q1 - q0) >= 2 * d);
        }
        if q1 - q0 <= -1 {
            assert(d * (q1 - q0) <= -d);
        }
        assert(d * q1 - d * q0 == d * (q1 - q0));
    }
}

/// A year starts as many days after the previous one as that one has.
proof fn lemma_year_length(y: int)
    ensures
        spec_days_before_year(y + 1) == spec_days_before_year(y) + spec_days_in_year(y),
{
    lemma_div_step(y, 4);
    lemma_div_step(y, 100);
    lemma_div_step(y, 400);
    if y % 400 == 0 {
        vstd::arithmetic::div_mod::lemma_fundamental_div_mod(y, 400);
        assert(y % 4 == 0 && y % 100 == 0) by {
            vstd::arithmetic::div_mod::lemma_mod_multiples_vanish(100 * (y / 400), 0, 4);
            vstd::arithmetic::div_mod::lemma_mod_multiples_vanish(4 * (y / 400), 0, 100);
        }
    } else if y % 100 == 0 {
        vstd::arithmetic::div_mod::lemma_fundamental_div_mod(y, 100);
        assert(y % 4 == 0) by {
            vstd::arithmetic::div_mod::lemma_mod_multiples_vanish(25 * (y / 100), 0, 4);
        }
    }
}

proof fn lemma_years_ordered(y1: int, y2: int)
    requires
        y1 < y2,
    ensures
        spec_days_before_year(y1) + spec_days_in_year(y1) <= spec_days_before_year(y2),
    decreases y2 - y1,
{
    lemma_year_length(y1);
    if y1 + 1 < y2 {
        lemma_years_ordered(y1 + 1, y2);
        lemma_year_length(y1 + 1);
    }
}

/// Earlier months of a year end before later ones begin; the year ends with
/// December.
proof fn lemma_months_ordered(y: int, m1: int, m2: int)
    requires
        1 <= m1 < m2 <= 12,
    ensures
        spec_days_before_month(y, m1) + spec_days_in_month(y, m1) <= spec_days_before_month(y, m2),
        spec_days_before_month(y, 12) + spec_days_in_month(y, 12) == spec_days_in_year(y),
{
}

/// The day after the date `(y, m, d)`.
pub open spec fn spec_next_date(y: int, m: int, d: int) -> (int, int, int) {
    if d < spec_days_in_month(y, m) {
        (y, m, d + 1)
    } else if m < 12 {
        (y, m + 1, 1)
    } else {
        (y + 1, 1, 1)
    }
}

/// The day after a date is a date, one day later; so `civil_from_days` of
/// the next day count gives the next date (with
/// [`lemma_days_from_civil_injective`]).
pub proof fn lemma_next_date(y: int, m: int, d: int)
    requires
        spec_valid_date(y, m, d),
    ensures
        spec_valid_date(spec_next_date(y, m, d).0, spec_next_date(y, m, d).1, spec_next_date(y, m, d).2),
        spec_days_from_civil(spec_next_date(y, m, d).0, spec_next_date(y, m, d).1, spec_next_date(y, m, d).2)
            == spec_days_from_civil(y, m, d) + 1,
{
    if d == spec_days_in_month(y, m) && m == 12 {
        lemma_year_length(y);
    }
}

/// The date one day count later than a date is its next date: what
/// `civil_from_days(z + 1)` gives is the day after what `civil_from_days(z)`
/// gives.
pub proof fn lemma_next_day_count(y: int, m: int, d: int, y2: int, m2: int, d2: int)
    requires
        spec_valid_date(y, m, d),
        spec_valid_date(y2, m2, d2),
        spec_days_from_civil(y2, m2, d2) == spec_days_from_civil(y, m, d) + 1,
    ensures
        (y2, m2, d2) == spec_next_date(y, m, d),
{
    lemma_next_date(y, m, d);
    let (ny, nm, nd) = spec_next_date(y, m, d);
    lemma_days_from_civil_injective(y2, m2, d2, ny, nm, nd);
}

/// Two dates with the same day count are the same date.
pub proof fn lemma_days_from_civil_injective(y1: int, m1: int, d1: int, y2: int, m2: int, d2: int)
    requires
        spec_valid_date(y1, m1, d1),
        spec_valid_date(y2, m2, d2),
        spec_days_from_civil(y1, m1, d1) == spec_days_from_civil(y2, m2, d2),
    ensures
        y1 == y2 && m1 == m2 && d1 == d2,
{
    lemma_months_ordered(y1, 1, 12);
    lemma_months_ordered(y2, 1, 12);
    if m1 < 12 {
        lemma_months_ordered(y1, m1, 12);
    }
    if m2 < 12 {
        lemma_months_ordered(y2, m2, 12);
    }
    if y1 < y2 {
        lemma_years_ordered(y1, y2);
    } else if y2 < y1 {
        lemma_years_ordered(y2, y1);
    } else if m1 < m2 {
        lemma_months_ordered(y1, m1, m2);
    } else if m2 < m1 {
        lemma_months_ordered(y1, m2, m1);
    }
}

} // verus!
