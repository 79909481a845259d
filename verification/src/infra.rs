//! Plain data of the workspace infrastructure: the operation directory, the
//! lock file record, encoded file names, timestamps and the stale-lock message.
//! Creating, renaming and deleting files is the caller's business.

use vstd::prelude::*;
use vstd::string::*;
use crate::model::CanonicalPath;
use crate::fmt::{dec, push_padded, zero_pad};
use crate::text::push_char;

verus! {

broadcast use vstd::seq::group_seq_axioms;

#[verifier::external_type_specification]
#[verifier::external_body]
pub struct ExIoError(std::io::Error);

#[verifier::external_type_specification]
#[verifier::external_body]
pub struct ExPathBuf(std::path::PathBuf);

/// A created operation temp directory.
pub struct TempOpDir {
    pub path: std::path::PathBuf,
}

/// Error returned by temp directory operations.
#[derive(Debug)]
pub enum TempError {
    Io(std::io::Error),
}

/// Error returned by an atomic write.
#[derive(Debug)]
pub struct AtomicWriteError(pub std::io::Error);

/// Contents of the workspace lock file.
#[derive(Debug)]
pub struct LockFile {
    pub pid: u32,
    /// ISO 8601 UTC, e.g. `2026-04-15T10:23:00Z`.
    pub started: String,
    pub op: String,
}

// ───────────────────────── encoded file names ─────────────────────────

/// `p` with every `/` written as `__`.
pub open spec fn encode_spec(p: Seq<char>) -> Seq<char>
    decreases p.len(),
{
    if p.len() == 0 {
        seq![]
    } else {
        (if p[0] == '/' {
            seq!['_', '_']
        } else {
            seq![p[0]]
        }) + encode_spec(p.skip(1))
    }
}

/// `s` with every `__` (taken left to right, without overlap) written as `/`.
pub open spec fn decode_spec(s: Seq<char>) -> Seq<char>
    decreases s.len(),
{
    if s.len() >= 2 && s[0] == '_' && s[1] == '_' {
        seq!['/'] + decode_spec(s.skip(2))
    } else if s.len() > 0 {
        seq![s[0]] + decode_spec(s.skip(1))
    } else {
        seq![]
    }
}

/// Encode a canonical path as a file name for `rewrites/`: `/` becomes `__`.
/// `projects/os-council/STATUS.md` gives `projects__os-council__STATUS.md`.
pub fn encode_path(canonical: &CanonicalPath) -> (r: String)
    ensures
        r@ == encode_spec(canonical@),
{
    let s = canonical.as_str();
    let n = s.unicode_len();
    let mut out = String::new();
    let mut i: usize = 0;
    assert(s@.skip(0) =~= s@);
    while i < n
        invariant
            n == s@.len(),
            s@ == canonical@,
            0 <= i <= n,
            out@ + encode_spec(s@.skip(i as int)) == encode_spec(s@),
        decreases n - i,
    {
        let c = s.get_char(i);
        assert(s@.skip(i as int).skip(1) =~= s@.skip(i + 1));
        if c == '/' {
            push_char(&mut out, '_');
            push_char(&mut out, '_');
        } else {
            push_char(&mut out, c);
        }
        assert(out@ + encode_spec(s@.skip(i + 1)) =~= encode_spec(s@));
        i = i + 1;
    }
    assert(s@.skip(n as int) =~= Seq::<char>::empty());
    assert(out@ + Seq::<char>::empty() =~= out@);
    out
}

/// Decode a `rewrites/` file name back into a canonical path: `__` becomes `/`.
pub fn decode_path(encoded: &str) -> (r: CanonicalPath)
    ensures
        r@ == decode_spec(encoded@),
{
    let n = encoded.unicode_len();
    let mut out = String::new();
    let mut i: usize = 0;
    assert(encoded@.skip(0) =~= encoded@);
    while i < n
        invariant
            n == encoded@.len(),
            0 <= i <= n,
            out@ + decode_spec(encoded@.skip(i as int)) == decode_spec(encoded@),
        decreases n - i,
    {
        let c = encoded.get_char(i);
        if c == '_' && i + 1 < n && encoded.get_char(i + 1) == '_' {
            assert(encoded@.skip(i as int).skip(2) =~= encoded@.skip(i + 2));
            push_char(&mut out, '/');
            assert(out@ + decode_spec(encoded@.skip(i + 2)) =~= decode_spec(encoded@));
            i = i + 2;
        } else {
            assert(encoded@.skip(i as int).skip(1) =~= encoded@.skip(i + 1));
            push_char(&mut out, c);
            assert(out@ + decode_spec(encoded@.skip(i + 1)) =~= decode_spec(encoded@));
            i = i + 1;
        }
    }
    assert(encoded@.skip(n as int) =~= Seq::<char>::empty());
    assert(out@ + Seq::<char>::empty() =~= out@);
    out
}

/// Decoding undoes encoding for every path without an underscore.
pub proof fn decode_encode_roundtrip(p: Seq<char>)
    requires
        forall|i: int| 0 <= i < p.len() ==> p[i] != '_',
    ensures
        decode_spec(encode_spec(p)) == p,
    decreases p.len(),
{
    if p.len() > 0 {
        let rest = p.skip(1);
        assert forall|i: int| 0 <= i < rest.len() implies rest[i] != '_' by {
            assert(rest[i] == p[i + 1]);
        }
        decode_encode_roundtrip(rest);
        let e = encode_spec(p);
        if p[0] == '/' {
            assert(e == seq!['_', '_'] + encode_spec(rest));
            assert(e.skip(2) =~= encode_spec(rest));
        } else {
            assert(e == seq![p[0]] + encode_spec(rest));
            assert(e.skip(1) =~= encode_spec(rest));
            assert(e[0] == p[0]);
        }
        assert(p =~= seq![p[0]] + rest);
    }
}

/// An encoded path holds no `/`.
pub proof fn encode_has_no_slash(p: Seq<char>)
    ensures
        forall|i: int| 0 <= i < encode_spec(p).len() ==> encode_spec(p)[i] != '/',
    decreases p.len(),
{
    if p.len() > 0 {
        encode_has_no_slash(p.skip(1));
        let head = if p[0] == '/' {
            seq!['_', '_']
        } else {
            seq![p[0]]
        };
        assert(encode_spec(p) == head + encode_spec(p.skip(1)));
    }
}

} // verus!

verus! {

proof fn lemma_year_of_era(doe: u32)
    requires
        doe <= 146096,
    ensures
        ({
            let yoe = (doe - doe / 1460 + doe / 36524 - doe / 146096) / 365;
            &&& yoe <= 399
            &&& 365 * yoe + yoe / 4 - yoe / 100 <= doe
            &&& doe - (365 * yoe + yoe / 4 - yoe / 100) <= 365
        }),
{
    assert({
        let yoe = (doe - doe / 1460 + doe / 36524 - doe / 146096) / 365;
        &&& yoe <= 399
        &&& 365 * yoe + yoe / 4 - yoe / 100 <= doe
        &&& doe - (365 * yoe + yoe / 4 - yoe / 100) <= 365
    }) by (bit_vector)
        requires
            doe <= 146096,
    ;
}

} // verus!

verus! {

proof fn lemma_month_day(doy: u32)
    requires
        doy <= 365,
    ensures
        ({
            let mp = (5 * doy + 2) / 153;
            &&& mp <= 11
            &&& (153 * mp + 2) / 5 <= doy
            &&& doy - (153 * mp + 2) / 5 + 1 <= 31
        }),
{
    assert({
        let mp = (5 * doy + 2) / 153;
        &&& mp <= 11
        &&& (153 * mp + 2) / 5 <= doy
        &&& doy - (153 * mp + 2) / 5 + 1 <= 31
    }) by (bit_vector)
        requires
            doy <= 365,
    ;
}

/// Year, month and day of the civil (proleptic Gregorian) date that lies
/// `days` days after 1970-01-01, by Howard Hinnant's `civil_from_days`.
pub open spec fn civil_from_days(days: nat) -> (int, int, int) {
    let z = days + 719468;
    let era = z / 146097;
    let doe = z - era * 146097;
    let yoe = (doe - doe / 1460 + doe / 36524 - doe / 146096) / 365;
    let y = yoe + era * 400;
    let doy = doe - (365 * yoe + yoe / 4 - yoe / 100);
    let mp = (5 * doy + 2) / 153;
    let d = doy - (153 * mp + 2) / 5 + 1;
    let m = if mp < 10 {
        mp + 3
    } else {
        mp - 9
    };
    (if m <= 2 {
        y + 1
    } else {
        y
    }, m, d)
}

/// `YYYY-MM-DDTHH:MM:SSZ` for `secs` seconds after the Unix epoch (UTC).
pub open spec fn iso8601_spec(secs: nat) -> Seq<char> {
    let (y, m, d) = civil_from_days(secs / 86400);
    zero_pad(dec(y as nat), 4) + seq!['-'] + zero_pad(dec(m as nat), 2) + seq!['-'] + zero_pad(dec(d as nat), 2)
        + seq!['T'] + zero_pad(dec((secs / 3600 % 24) as nat), 2) + seq![':'] + zero_pad(
        dec((secs / 60 % 60) as nat),
        2,
    ) + seq![':'] + zero_pad(dec((secs % 60) as nat), 2) + seq!['Z']
}

/// Convert Unix epoch seconds to an ISO 8601 UTC string such as `2026-04-15T00:00:00Z`,
/// by Howard Hinnant's `civil_from_days` algorithm.
#[verifier::rlimit(50)]
#[verifier::spinoff_prover]
pub fn unix_secs_to_iso8601(secs: u64) -> (r: String)
    ensures
        r@ == iso8601_spec(secs as nat),
{
    let sec = secs % 60;
    let min = (secs / 60) % 60;
    let hour = (secs / 3600) % 24;
    let days = secs / 86400;
    let z = days + 719468;
    let era = z / 146097;
    proof {
        assert(era * 146097 <= z) by (nonlinear_arith)
            requires
                era == z / 146097,
        ;
        assert(z - era * 146097 < 146097) by (nonlinear_arith)
            requires
                era == z / 146097,
        ;
        assert(era * 400 <= z) by (nonlinear_arith)
            requires
                era == z / 146097,
        ;
    }
    let doe = z - era * 146097;
    proof {
        lemma_year_of_era(doe as u32);
    }
    let yoe = (doe - doe / 1460 + doe / 36524 - doe / 146096) / 365;
    let y = yoe + era * 400;
    let doy = doe - (365 * yoe + yoe / 4 - yoe / 100);
    proof {
        lemma_month_day(doy as u32);
    }
    let mp = (5 * doy + 2) / 153;
    let d = doy - (153 * mp + 2) / 5 + 1;
    let m = if mp < 10 {
        mp + 3
    } else {
        mp - 9
    };
    let yr = if m <= 2 {
        y + 1
    } else {
        y
    };
    let mut out = String::new();
    push_padded(&mut out, yr, 4);
    push_char(&mut out, '-');
    push_padded(&mut out, m, 2);
    push_char(&mut out, '-');
    push_padded(&mut out, d, 2);
    push_char(&mut out, 'T');
    push_padded(&mut out, hour, 2);
    push_char(&mut out, ':');
    push_padded(&mut out, min, 2);
    push_char(&mut out, ':');
    push_padded(&mut out, sec, 2);
    push_char(&mut out, 'Z');
    assert(out@ =~= iso8601_spec(secs as nat));
    out
}

} // verus!

verus! {

/// Every day count maps to a calendar date: a month from 1 to 12 and a day from 1 to 31.
pub proof fn civil_date_in_range(days: nat)
    ensures
        1 <= civil_from_days(days).1 <= 12,
        1 <= civil_from_days(days).2 <= 31,
{
    let z = days + 719468;
    let era = z / 146097;
    let doe = z - era * 146097;
    assert(0 <= doe < 146097) by (nonlinear_arith)
        requires
            era == z / 146097,
            doe == z - era * 146097,
            z >= 0,
    ;
    lemma_year_of_era(doe as u32);
    let yoe = (doe - doe / 1460 + doe / 36524 - doe / 146096) / 365;
    let doy = doe - (365 * yoe + yoe / 4 - yoe / 100);
    lemma_month_day(doy as u32);
}

} // verus!

verus! {

/// The two digits of `n` (below 100).
pub open spec fn two_digits(n: nat) -> Seq<char> {
    seq![crate::fmt::digit_char(n / 10), crate::fmt::digit_char(n % 10)]
}

proof fn lemma_two_digits(n: nat)
    requires
        n < 100,
    ensures
        zero_pad(dec(n), 2) == two_digits(n),
{
    if n < 10 {
        assert(dec(n) == seq![crate::fmt::digit_char(n)]);
        assert(zero_pad(dec(n), 2) =~= two_digits(n));
    } else {
        assert(dec(n / 10) == seq![crate::fmt::digit_char(n / 10)]);
        assert(dec(n) == dec(n / 10) + seq![crate::fmt::digit_char(n % 10)]);
        assert(zero_pad(dec(n), 2) =~= two_digits(n));
    }
}

/// The shape of a timestamp: the year (at least four digits), then month,
/// day, hour, minute and second as two digits each, with `-`, `T`, `:` and
/// a final `Z` between them; the time of day is the seconds within the day.
pub proof fn timestamp_shape(secs: nat)
    ensures
        ({
            let (y, m, d) = civil_from_days(secs / 86400);
            iso8601_spec(secs) == zero_pad(dec(y as nat), 4) + seq!['-'] + two_digits(m as nat) + seq!['-']
                + two_digits(d as nat) + seq!['T'] + two_digits(secs % 86400 / 3600) + seq![':'] + two_digits(
                secs % 3600 / 60,
            ) + seq![':'] + two_digits(secs % 60) + seq!['Z']
        }),
{
    let (y, m, d) = civil_from_days(secs / 86400);
    civil_date_in_range(secs / 86400);
    lemma_two_digits(m as nat);
    lemma_two_digits(d as nat);
    assert(secs / 3600 % 24 == secs % 86400 / 3600) by (nonlinear_arith);
    assert(secs / 60 % 60 == secs % 3600 / 60) by (nonlinear_arith);
    lemma_two_digits(secs % 86400 / 3600);
    lemma_two_digits(secs % 3600 / 60);
    lemma_two_digits(secs % 60);
}

} // verus!

verus! {

// ───────────────────────── timestamps keep the order of time ─────────────────────────

/// Where year `y` of an era starts, in days from the era's start.
spec fn year_start(y: int) -> int {
    365 * y + y / 4 - y / 100
}

proof fn lemma_year_end(doe: u32)
    requires
        doe < 146096,
    ensures
        ({
            let yoe = (doe - doe / 1460 + doe / 36524 - doe / 146096) / 365;
            doe < 365 * (yoe + 1) + (yoe + 1) / 4 - (yoe + 1) / 100
        }),
{
    assert({
        let yoe = (doe - doe / 1460 + doe / 36524 - doe / 146096) / 365;
        doe < 365 * (yoe + 1) + (yoe + 1) / 4 - (yoe + 1) / 100
    }) by (bit_vector)
        requires
            doe < 146096,
    ;
}

#[verifier::rlimit(60)]
#[verifier::spinoff_prover]
proof fn lemma_year_start_grows(a: int, b: int)
    requires
        0 <= a < b,
    ensures
        year_start(a) + 364 <= year_start(b),
{
    assert(a / 4 <= b / 4) by (nonlinear_arith)
        requires
            0 <= a < b,
    ;
    assert(b / 100 - a / 100 <= (b - a) / 100 + 1) by (nonlinear_arith)
        requires
            0 <= a < b,
    ;
    assert((b - a) / 100 <= b - a) by (nonlinear_arith)
        requires
            0 <= a < b,
    ;
}

/// The year of era and the day of year step by one day: the next day of
/// the same year, or the first day of the next year after at least 364 days.
#[verifier::rlimit(60)]
#[verifier::spinoff_prover]
proof fn lemma_doe_step(doe: u32)
    requires
        doe < 146096,
    ensures
        ({
            let yoe = (doe - doe / 1460 + doe / 36524 - doe / 146096) / 365;
            let doy = doe - (365 * yoe + yoe / 4 - yoe / 100);
            let e = (doe + 1) as u32;
            let yoe2 = (e - e / 1460 + e / 36524 - e / 146096) / 365;
            let doy2 = e - (365 * yoe2 + yoe2 / 4 - yoe2 / 100);
            (yoe2 == yoe && doy2 == doy + 1) || (yoe2 == yoe + 1 && doy2 == 0 && doy >= 337)
        }),
{
    let e = (doe + 1) as u32;
    if e == 146096 {
        assert(doe == 146095);
        return;
    }
    lemma_year_of_era(doe);
    lemma_year_of_era(e);
    lemma_year_end(doe);
    lemma_year_end(e);
    let yoe = (doe - doe / 1460 + doe / 36524 - doe / 146096) / 365;
    let yoe2 = (e - e / 1460 + e / 36524 - e / 146096) / 365;
    assert(year_start(yoe as int) <= doe < year_start(yoe + 1));
    assert(year_start(yoe2 as int) <= e < year_start(yoe2 + 1));
    if yoe2 > yoe + 1 {
        lemma_year_start_grows(yoe + 1, yoe2 as int);
    } else if yoe2 < yoe {
        lemma_year_start_grows(yoe2 + 1, yoe as int);
        if yoe2 + 1 == yoe {
        }
    } else if yoe2 == yoe + 1 {
        lemma_year_start_grows(yoe as int, yoe + 1);
    }
}

proof fn lemma_doy_step(doy: u32)
    requires
        doy < 365,
    ensures
        ({
            let mp = (5 * doy + 2) / 153;
            let d = doy - (153 * mp + 2) / 5 + 1;
            let e = (doy + 1) as u32;
            let mp2 = (5 * e + 2) / 153;
            let d2 = e - (153 * mp2 + 2) / 5 + 1;
            (mp2 == mp && d2 == d + 1) || (mp2 == mp + 1 && d2 == 1)
        }),
{
    assert({
        let mp = (5 * doy + 2) / 153;
        let d = doy - (153 * mp + 2) / 5 + 1;
        let e = (doy + 1) as u32;
        let mp2 = (5 * e + 2) / 153;
        let d2 = e - (153 * mp2 + 2) / 5 + 1;
        (mp2 == mp && d2 == d + 1) || (mp2 == mp + 1 && d2 == 1)
    }) by (bit_vector)
        requires
            doy < 365,
    ;
}


/// A date as one number, year, month and day side by side (`YYYYMMDD`).
pub open spec fn date_key(days: nat) -> int {
    let (y, m, d) = civil_from_days(days);
    y * 10000 + m * 100 + d
}

spec fn era_key(yoe: int, mp: int, d: int) -> int {
    (yoe + if mp >= 10 {
        1int
    } else {
        0
    }) * 10000 + (if mp < 10 {
        mp + 3
    } else {
        mp - 9
    }) * 100 + d
}

proof fn lemma_last_months(doy: u32)
    requires
        337 <= doy <= 365,
    ensures
        (5 * doy + 2) / 153 == 11,
{
    assert((5 * doy + 2) / 153 == 11) by (bit_vector)
        requires
            337 <= doy <= 365,
    ;
}

#[verifier::rlimit(60)]
#[verifier::spinoff_prover]
proof fn lemma_date_key_parts(n: nat)
    ensures
        ({
            let z = n + 719468;
            let era = z / 146097;
            let doe = z - era * 146097;
            let yoe = (doe - doe / 1460 + doe / 36524 - doe / 146096) / 365;
            let doy = doe - (365 * yoe + yoe / 4 - yoe / 100);
            let mp = (5 * doy + 2) / 153;
            let d = doy - (153 * mp + 2) / 5 + 1;
            &&& 0 <= doe < 146097
            &&& date_key(n) == era * 4000000 + era_key(yoe, mp, d)
        }),
{
    let z = n + 719468;
    let era = z / 146097;
    let doe = z - era * 146097;
    assert(0 <= doe < 146097) by (nonlinear_arith)
        requires
            era == z / 146097,
            doe == z - era * 146097,
            z >= 0,
    ;
    let yoe = (doe - doe / 1460 + doe / 36524 - doe / 146096) / 365;
    let y = yoe + era * 400;
    assert((y + 1) * 10000 == yoe * 10000 + 10000 + era * 4000000) by (nonlinear_arith)
        requires
            y == yoe + era * 400,
    ;
    assert(y * 10000 == yoe * 10000 + era * 4000000) by (nonlinear_arith)
        requires
            y == yoe + era * 400,
    ;
}

/// Each day's date comes after the day before's.
#[verifier::rlimit(60)]
#[verifier::spinoff_prover]
proof fn lemma_date_step(n: nat)
    ensures
        date_key(n) < date_key(n + 1),
{
    let z = n + 719468;
    let era = z / 146097;
    let doe = z - era * 146097;
    lemma_date_key_parts(n);
    lemma_date_key_parts(n + 1);
    let z2 = z + 1;
    let era2 = z2 / 146097;
    let doe2 = z2 - era2 * 146097;
    if doe < 146096 {
        assert(era2 == era && doe2 == doe + 1) by (nonlinear_arith)
            requires
                era == z / 146097,
                doe == z - era * 146097,
                0 <= doe < 146096,
                z2 == z + 1,
                era2 == z2 / 146097,
                doe2 == z2 - era2 * 146097,
        ;
        lemma_doe_step(doe as u32);
        lemma_year_of_era(doe as u32);
        lemma_year_of_era((doe + 1) as u32);
        let yoe = (doe - doe / 1460 + doe / 36524 - doe / 146096) / 365;
        let doy = doe - (365 * yoe + yoe / 4 - yoe / 100);
        lemma_month_day(doy as u32);
        let mp = (5 * doy + 2) / 153;
        let d = doy - (153 * mp + 2) / 5 + 1;
        let yoe2 = (doe2 - doe2 / 1460 + doe2 / 36524 - doe2 / 146096) / 365;
        let doy2 = doe2 - (365 * yoe2 + yoe2 / 4 - yoe2 / 100);
        if yoe2 == yoe {
            lemma_doy_step(doy as u32);
        } else {
            lemma_last_months(doy as u32);
            assert(doy2 == 0);
        }
    } else {
        assert(doe == 146096);
        assert(era2 == era + 1 && doe2 == 0) by (nonlinear_arith)
            requires
                era == z / 146097,
                doe == z - era * 146097,
                doe == 146096,
                z2 == z + 1,
                era2 == z2 / 146097,
                doe2 == z2 - era2 * 146097,
        ;
    }
}

/// Later days have later dates.
#[verifier::rlimit(60)]
#[verifier::spinoff_prover]
pub proof fn dates_keep_order(a: nat, b: nat)
    requires
        a < b,
    ensures
        date_key(a) < date_key(b),
    decreases b - a,
{
    lemma_date_step(a);
    if a + 1 < b {
        dates_keep_order(a + 1, b);
    }
}

/// A timestamp as one number: the date's `YYYYMMDD`, then `HHMMSS`.
pub open spec fn stamp_key(secs: nat) -> int {
    date_key(secs / 86400) * 1000000 + (secs % 86400 / 3600) * 10000 + (secs % 3600 / 60) * 100 + secs % 60
}

#[verifier::rlimit(60)]
#[verifier::spinoff_prover]
proof fn lemma_time_parts(secs: nat)
    ensures
        secs % 86400 == 3600 * (secs % 86400 / 3600) + 60 * (secs % 3600 / 60) + secs % 60,
        secs % 86400 / 3600 < 24,
        secs % 3600 / 60 < 60,
        secs % 60 < 60,
        secs == 86400 * (secs / 86400) + secs % 86400,
        secs % 86400 < 86400,
{
    assert(secs % 86400 == 3600 * (secs % 86400 / 3600) + 60 * (secs % 3600 / 60) + secs % 60) by (nonlinear_arith);
    assert(secs % 86400 / 3600 < 24) by (nonlinear_arith);
    assert(secs % 3600 / 60 < 60) by (nonlinear_arith);
    assert(secs == 86400 * (secs / 86400) + secs % 86400) by (nonlinear_arith);
}

/// Later seconds have larger timestamp numbers.
#[verifier::rlimit(60)]
#[verifier::spinoff_prover]
proof fn lemma_stamp_order(a: nat, b: nat)
    requires
        a < b,
    ensures
        stamp_key(a) < stamp_key(b),
{
    lemma_time_parts(a);
    lemma_time_parts(b);
    if a / 86400 < b / 86400 {
        dates_keep_order(a / 86400, b / 86400);
    } else {
        assert(a / 86400 == b / 86400);
    }
}

/// `s` and `t` agree before place `i`, where `s` has the smaller character.
pub open spec fn lex_at(s: Seq<char>, t: Seq<char>, i: int) -> bool {
    0 <= i < s.len() && i < t.len() && s.take(i) == t.take(i) && (s[i] as int) < (t[i] as int)
}

/// `s` comes before `t` in dictionary order.
pub open spec fn lex_lt(s: Seq<char>, t: Seq<char>) -> bool {
    exists|i: int| #[trigger] lex_at(s, t, i)
}

proof fn lemma_lex_front(a1: Seq<char>, b1: Seq<char>, a2: Seq<char>, b2: Seq<char>)
    requires
        a1.len() == b1.len(),
        lex_lt(a1, b1),
    ensures
        lex_lt(a1 + a2, b1 + b2),
{
    let i = choose|i: int| #[trigger] lex_at(a1, b1, i);
    assert((a1 + a2).take(i) =~= a1.take(i));
    assert((b1 + b2).take(i) =~= b1.take(i));
    assert(lex_at(a1 + a2, b1 + b2, i));
}

proof fn lemma_lex_back(c: Seq<char>, a: Seq<char>, b: Seq<char>)
    requires
        lex_lt(a, b),
    ensures
        lex_lt(c + a, c + b),
{
    let i = choose|i: int| #[trigger] lex_at(a, b, i);
    assert((c + a).take(c.len() + i) =~= c + a.take(i));
    assert((c + b).take(c.len() + i) =~= c + b.take(i));
    assert(lex_at(c + a, c + b, c.len() + i));
}

proof fn lemma_digit_value(d: nat)
    requires
        d < 10,
    ensures
        crate::fmt::digit_char(d) as int == 48 + d,
{
}

/// The four digits of `n` (below 10000).
pub open spec fn four_digits(n: nat) -> Seq<char> {
    seq![
        crate::fmt::digit_char(n / 1000),
        crate::fmt::digit_char(n / 100 % 10),
        crate::fmt::digit_char(n / 10 % 10),
        crate::fmt::digit_char(n % 10),
    ]
}

#[verifier::rlimit(60)]
#[verifier::spinoff_prover]
proof fn lemma_four_digits(n: nat)
    requires
        1000 <= n < 10000,
    ensures
        zero_pad(dec(n), 4) == four_digits(n),
{
    assert(n / 10 / 10 == n / 100) by (nonlinear_arith);
    assert(n / 100 / 10 == n / 1000) by (nonlinear_arith);
    assert(1 <= n / 1000 < 10) by (nonlinear_arith)
        requires
            1000 <= n < 10000,
    ;
    assert(100 <= n / 10) by (nonlinear_arith)
        requires
            1000 <= n,
    ;
    assert(10 <= n / 100) by (nonlinear_arith)
        requires
            1000 <= n,
    ;
    assert(dec(n / 1000) == seq![crate::fmt::digit_char(n / 1000)]);
    assert(dec(n / 100) == dec(n / 1000) + seq![crate::fmt::digit_char(n / 100 % 10)]);
    assert(dec(n / 10) == dec(n / 100) + seq![crate::fmt::digit_char(n / 10 % 10)]);
    assert(dec(n) == dec(n / 10) + seq![crate::fmt::digit_char(n % 10)]);
    assert(zero_pad(dec(n), 4) =~= four_digits(n));
}

#[verifier::rlimit(60)]
#[verifier::spinoff_prover]
proof fn lemma_two_lt(x: nat, y: nat)
    requires
        x < y < 100,
    ensures
        lex_lt(two_digits(x), two_digits(y)),
{
    assert(x == 10 * (x / 10) + x % 10 && y == 10 * (y / 10) + y % 10) by (nonlinear_arith);
    assert(x / 10 < 10 && y / 10 < 10) by (nonlinear_arith)
        requires
            x < 100,
            y < 100,
    ;
    lemma_digit_value(x / 10);
    lemma_digit_value(y / 10);
    lemma_digit_value(x % 10);
    lemma_digit_value(y % 10);
    let s = two_digits(x);
    let t = two_digits(y);
    if x / 10 < y / 10 {
        assert(s.take(0) =~= t.take(0));
        assert(lex_at(s, t, 0));
    } else {
        assert(s.take(1) =~= t.take(1));
        assert(lex_at(s, t, 1));
    }
}

#[verifier::rlimit(60)]
#[verifier::spinoff_prover]
proof fn lemma_four_lt(x: nat, y: nat)
    requires
        x < y < 10000,
    ensures
        lex_lt(four_digits(x), four_digits(y)),
{
    assert(x == 1000 * (x / 1000) + 100 * (x / 100 % 10) + 10 * (x / 10 % 10) + x % 10) by (nonlinear_arith);
    assert(y == 1000 * (y / 1000) + 100 * (y / 100 % 10) + 10 * (y / 10 % 10) + y % 10) by (nonlinear_arith);
    assert(x / 1000 < 10 && y / 1000 < 10) by (nonlinear_arith)
        requires
            x < 10000,
            y < 10000,
    ;
    assert(x / 100 % 10 < 10 && x / 10 % 10 < 10 && y / 100 % 10 < 10 && y / 10 % 10 < 10);
    lemma_digit_value(x / 1000);
    lemma_digit_value(y / 1000);
    lemma_digit_value(x / 100 % 10);
    lemma_digit_value(y / 100 % 10);
    lemma_digit_value(x / 10 % 10);
    lemma_digit_value(y / 10 % 10);
    lemma_digit_value(x % 10);
    lemma_digit_value(y % 10);
    let s = four_digits(x);
    let t = four_digits(y);
    if x / 1000 != y / 1000 {
        assert(s.take(0) =~= t.take(0));
        assert(lex_at(s, t, 0));
    } else if x / 100 % 10 != y / 100 % 10 {
        assert(s.take(1) =~= t.take(1));
        assert(lex_at(s, t, 1));
    } else if x / 10 % 10 != y / 10 % 10 {
        assert(s.take(2) =~= t.take(2));
        assert(lex_at(s, t, 2));
    } else {
        assert(s.take(3) =~= t.take(3));
        assert(lex_at(s, t, 3));
    }
}

/// A timestamp's text from its parts, built from the right.
pub open spec fn stamp_text(y: nat, m: nat, d: nat, h: nat, mi: nat, s: nat) -> Seq<char> {
    four_digits(y) + (seq!['-'] + (two_digits(m) + (seq!['-'] + (two_digits(d) + (seq!['T'] + (two_digits(h) + (
    seq![':'] + (two_digits(mi) + (seq![':'] + (two_digits(s) + seq!['Z']))))))))))
}

#[verifier::rlimit(60)]
#[verifier::spinoff_prover]
proof fn lemma_stamp_text_lt(a: (nat, nat, nat, nat, nat, nat), b: (nat, nat, nat, nat, nat, nat))
    requires
        a.0 < 10000 && b.0 < 10000,
        a.1 < 100 && a.2 < 100 && a.3 < 100 && a.4 < 100 && a.5 < 100,
        b.1 < 100 && b.2 < 100 && b.3 < 100 && b.4 < 100 && b.5 < 100,
        a.0 < b.0 || (a.0 == b.0 && (a.1 < b.1 || (a.1 == b.1 && (a.2 < b.2 || (a.2 == b.2 && (a.3 < b.3 || (a.3
            == b.3 && (a.4 < b.4 || (a.4 == b.4 && a.5 < b.5))))))))),
    ensures
        lex_lt(stamp_text(a.0, a.1, a.2, a.3, a.4, a.5), stamp_text(b.0, b.1, b.2, b.3, b.4, b.5)),
{
    let r5a = two_digits(a.5) + seq!['Z'];
    let r5b = two_digits(b.5) + seq!['Z'];
    let r4a = two_digits(a.4) + (seq![':'] + r5a);
    let r4b = two_digits(b.4) + (seq![':'] + r5b);
    let r3a = two_digits(a.3) + (seq![':'] + r4a);
    let r3b = two_digits(b.3) + (seq![':'] + r4b);
    let r2a = two_digits(a.2) + (seq!['T'] + r3a);
    let r2b = two_digits(b.2) + (seq!['T'] + r3b);
    let r1a = two_digits(a.1) + (seq!['-'] + r2a);
    let r1b = two_digits(b.1) + (seq!['-'] + r2b);
    if a.0 < b.0 {
        lemma_four_lt(a.0, b.0);
        lemma_lex_front(four_digits(a.0), four_digits(b.0), seq!['-'] + r1a, seq!['-'] + r1b);
    } else {
        if a.1 < b.1 {
            lemma_two_lt(a.1, b.1);
            lemma_lex_front(two_digits(a.1), two_digits(b.1), seq!['-'] + r2a, seq!['-'] + r2b);
        } else {
            if a.2 < b.2 {
                lemma_two_lt(a.2, b.2);
                lemma_lex_front(two_digits(a.2), two_digits(b.2), seq!['T'] + r3a, seq!['T'] + r3b);
            } else {
                if a.3 < b.3 {
                    lemma_two_lt(a.3, b.3);
                    lemma_lex_front(two_digits(a.3), two_digits(b.3), seq![':'] + r4a, seq![':'] + r4b);
                } else {
                    if a.4 < b.4 {
                        lemma_two_lt(a.4, b.4);
                        lemma_lex_front(two_digits(a.4), two_digits(b.4), seq![':'] + r5a, seq![':'] + r5b);
                    } else {
                        lemma_two_lt(a.5, b.5);
                        lemma_lex_front(two_digits(a.5), two_digits(b.5), seq!['Z'], seq!['Z']);
                        assert(lex_lt(r5a, r5b));
                        lemma_lex_back(seq![':'], r5a, r5b);
                        lemma_lex_back(two_digits(a.4), seq![':'] + r5a, seq![':'] + r5b);
                    }
                    assert(lex_lt(r4a, r4b));
                    lemma_lex_back(seq![':'], r4a, r4b);
                    lemma_lex_back(two_digits(a.3), seq![':'] + r4a, seq![':'] + r4b);
                }
                assert(lex_lt(r3a, r3b));
                lemma_lex_back(seq!['T'], r3a, r3b);
                lemma_lex_back(two_digits(a.2), seq!['T'] + r3a, seq!['T'] + r3b);
            }
            assert(lex_lt(r2a, r2b));
            lemma_lex_back(seq!['-'], r2a, r2b);
            lemma_lex_back(two_digits(a.1), seq!['-'] + r2a, seq!['-'] + r2b);
        }
        assert(lex_lt(r1a, r1b));
        lemma_lex_back(seq!['-'], r1a, r1b);
        lemma_lex_back(four_digits(a.0), seq!['-'] + r1a, seq!['-'] + r1b);
    }
}

#[verifier::rlimit(60)]
#[verifier::spinoff_prover]
proof fn lemma_year_range(days: nat)
    requires
        days <= 2932896,
    ensures
        1970 <= civil_from_days(days).0 <= 9999,
{
    assert(civil_from_days(0) == (1970int, 1int, 1int));
    assert(civil_from_days(2932896) == (9999int, 12int, 31int));
    civil_date_in_range(days);
    if days > 0 {
        dates_keep_order(0, days);
    }
    if days < 2932896 {
        dates_keep_order(days, 2932896);
    }
}

#[verifier::rlimit(60)]
#[verifier::spinoff_prover]
proof fn lemma_stamp_text_eq(secs: nat, y: nat, m: nat, d: nat)
    requires
        civil_from_days(secs / 86400) == (y as int, m as int, d as int),
        1000 <= y < 10000,
        1 <= m <= 12,
        1 <= d <= 31,
    ensures
        iso8601_spec(secs) == stamp_text(y, m, d, secs % 86400 / 3600, secs % 3600 / 60, secs % 60),
{
    timestamp_shape(secs);
    lemma_four_digits(y);
    let h = two_digits(secs % 86400 / 3600);
    let mi = two_digits(secs % 3600 / 60);
    let sc = two_digits(secs % 60);
    let w = four_digits(y) + seq!['-'] + two_digits(m) + seq!['-'] + two_digits(d) + seq!['T'] + h + seq![':'] + mi
        + seq![':'] + sc + seq!['Z'];
    assert(iso8601_spec(secs) == w);
    assert(w =~= stamp_text(y, m, d, secs % 86400 / 3600, secs % 3600 / 60, secs % 60));
}

/// The text of a timestamp within years 1970 to 9999, from its parts.
#[verifier::rlimit(60)]
#[verifier::spinoff_prover]
proof fn lemma_stamp_text(secs: nat)
    requires
        secs < 253402300800,
    ensures
        ({
            let (y, m, d) = civil_from_days(secs / 86400);
            &&& 1970 <= y <= 9999
            &&& 1 <= m <= 12
            &&& 1 <= d <= 31
            &&& iso8601_spec(secs) == stamp_text(
                y as nat,
                m as nat,
                d as nat,
                secs % 86400 / 3600,
                secs % 3600 / 60,
                secs % 60,
            )
        }),
{
    assert(secs / 86400 <= 2932896) by (nonlinear_arith)
        requires
            secs < 253402300800,
    ;
    lemma_year_range(secs / 86400);
    civil_date_in_range(secs / 86400);
    let (y, m, d) = civil_from_days(secs / 86400);
    lemma_stamp_text_eq(secs, y as nat, m as nat, d as nat);
}

/// Timestamps sort as the times they stand for: for two instants before the
/// year 10000, the earlier one's text comes first in dictionary order (so
/// two texts are equal exactly when the instants are).
#[verifier::rlimit(60)]
#[verifier::spinoff_prover]
pub proof fn timestamps_keep_order(a: nat, b: nat)
    requires
        a < b,
        b < 253402300800,
    ensures
        lex_lt(iso8601_spec(a), iso8601_spec(b)),
        iso8601_spec(a) != iso8601_spec(b),
{
    lemma_stamp_order(a, b);
    lemma_stamp_text(a);
    lemma_stamp_text(b);
    lemma_time_parts(a);
    lemma_time_parts(b);
    let (ya, ma, da) = civil_from_days(a / 86400);
    let (yb, mb, db) = civil_from_days(b / 86400);
    let ta = (ya as nat, ma as nat, da as nat, a % 86400 / 3600, a % 3600 / 60, a % 60);
    let tb = (yb as nat, mb as nat, db as nat, b % 86400 / 3600, b % 3600 / 60, b % 60);
    assert(ta.0 < tb.0 || (ta.0 == tb.0 && (ta.1 < tb.1 || (ta.1 == tb.1 && (ta.2 < tb.2 || (ta.2 == tb.2 && (ta.3
        < tb.3 || (ta.3 == tb.3 && (ta.4 < tb.4 || (ta.4 == tb.4 && ta.5 < tb.5)))))))))) by (nonlinear_arith)
        requires
            ta.0 * 10000000000 + ta.1 * 100000000 + ta.2 * 1000000 + ta.3 * 10000 + ta.4 * 100 + ta.5 < tb.0
                * 10000000000 + tb.1 * 100000000 + tb.2 * 1000000 + tb.3 * 10000 + tb.4 * 100 + tb.5,
            ta.1 < 100 && ta.2 < 100 && ta.3 < 100 && ta.4 < 100 && ta.5 < 100,
            tb.1 < 100 && tb.2 < 100 && tb.3 < 100 && tb.4 < 100 && tb.5 < 100,
    ;
    lemma_stamp_text_lt(ta, tb);
    let i = choose|i: int| #[trigger] lex_at(iso8601_spec(a), iso8601_spec(b), i);
}

} // verus!
