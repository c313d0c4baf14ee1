//! The clock helper: pattern conversion, refresh scheduling, time zone choice, and
//! formatting of timestamps through chrono.

use std::fmt::Write;
use vstd::prelude::*;
use crate::chars::{chars_of, debug_quoted, debug_text, extend_chars, extend_str, string_of};
use crate::RenderError;

verus! {

/// `s` with every occurrence of the non-empty `pat` replaced by `rep`, matching from the
/// left without overlap (as std `str::replace`).
pub open spec fn replace_spec(s: Seq<char>, pat: Seq<char>, rep: Seq<char>) -> Seq<char>
    decreases s.len(),
{
    if pat.len() == 0 || s.len() < pat.len() {
        s
    } else if s.take(pat.len() as int) == pat {
        rep + replace_spec(s.skip(pat.len() as int), pat, rep)
    } else {
        seq![s[0]] + replace_spec(s.skip(1), pat, rep)
    }
}

/// Whether `pat` occurs in `s` at index `i`.
pub open spec fn occurs_at(s: Seq<char>, pat: Seq<char>, i: int) -> bool {
    0 <= i && i + pat.len() <= s.len() && s.subrange(i, i + pat.len()) == pat
}

fn matches_at(s: &[char], i: usize, pat: &[char]) -> (r: bool)
    requires
        i <= s@.len(),
    ensures
        r == occurs_at(s@, pat@, i as int),
{
    if pat.len() > s.len() - i {
        return false;
    }
    let n = s.len();
    let mut k: usize = 0;
    while k < pat.len()
        invariant
            n == s@.len(),
            k <= pat@.len(),
            i <= s@.len(),
            i + pat@.len() <= s@.len(),
            forall|j: int| 0 <= j < k ==> s@[i + j] == pat@[j],
        decreases pat@.len() - k,
    {
        if s[i + k] != pat[k] {
            proof {
                assert(s@.subrange(i as int, i + pat@.len())[k as int] != pat@[k as int]);
            }
            return false;
        }
        k += 1;
    }
    proof {
        assert(s@.subrange(i as int, i + pat@.len()) =~= pat@);
    }
    true
}

/// Replaces every occurrence of `pat` in `s` with `rep`.
pub fn replace_chars(s: &[char], pat: &[char], rep: &[char]) -> (r: Vec<char>)
    requires
        pat@.len() > 0,
    ensures
        r@ == replace_spec(s@, pat@, rep@),
{
    let mut out: Vec<char> = Vec::new();
    let mut i: usize = 0;
    proof {
        assert(s@.skip(0) =~= s@);
    }
    while i < s.len()
        invariant
            i <= s@.len(),
            pat@.len() > 0,
            out@ + replace_spec(s@.skip(i as int), pat@, rep@) == replace_spec(s@, pat@, rep@),
        decreases s@.len() - i,
    {
        let ghost t = s@.skip(i as int);
        if matches_at(s, i, pat) {
            proof {
                assert(t.take(pat@.len() as int) =~= s@.subrange(i as int, i + pat@.len()));
                assert(t.skip(pat@.len() as int) =~= s@.skip(i + pat@.len()));
                assert(replace_spec(t, pat@, rep@) == rep@ + replace_spec(t.skip(pat@.len() as int), pat@, rep@));
                assert(out@ + rep@ + replace_spec(s@.skip(i + pat@.len()), pat@, rep@) =~= out@ + (rep@ + replace_spec(s@.skip(i + pat@.len()), pat@, rep@)));
            }
            extend_chars(&mut out, rep);
            i += pat.len();
        } else {
            proof {
                assert(t.skip(1) =~= s@.skip(i + 1));
                if t.len() >= pat@.len() {
                    assert(t.take(pat@.len() as int) =~= s@.subrange(i as int, i + pat@.len()));
                } else {
                    assert(seq![t[0]] + t.skip(1) =~= t);
                }
                assert(replace_spec(t, pat@, rep@) == seq![t[0]] + replace_spec(t.skip(1), pat@, rep@));
                assert(out@.push(s@[i as int]) + replace_spec(s@.skip(i + 1), pat@, rep@) =~= out@ + (seq![t[0]] + replace_spec(t.skip(1), pat@, rep@)));
            }
            out.push(s[i]);
            i += 1;
        }
    }
    proof {
        assert(s@.skip(i as int) =~= Seq::<char>::empty());
        assert(out@ + Seq::<char>::empty() =~= out@);
    }
    out
}

/// The strftime pattern for a clock pattern: `YYYY`, `YY`, `HH`, `MM` and `SS` become
/// `%Y`, `%y`, `%H`, `%M` and `%S`, replaced in that order.
pub open spec fn chrono_pattern_spec(pattern: Seq<char>) -> Seq<char> {
    let a = replace_spec(pattern, "YYYY"@, "%Y"@);
    let b = replace_spec(a, "YY"@, "%y"@);
    let c = replace_spec(b, "HH"@, "%H"@);
    let d = replace_spec(c, "MM"@, "%M"@);
    replace_spec(d, "SS"@, "%S"@)
}

fn replace_str(s: Vec<char>, pat: &str, rep: &str) -> (r: Vec<char>)
    requires
        pat@.len() > 0,
    ensures
        r@ == replace_spec(s@, pat@, rep@),
{
    let p = chars_of(pat);
    let q = chars_of(rep);
    replace_chars(s.as_slice(), p.as_slice(), q.as_slice())
}

/// Converts a clock pattern into a strftime pattern.
pub fn chrono_pattern(pattern: &str) -> (r: String)
    ensures
        r@ == chrono_pattern_spec(pattern@),
{
    proof {
        reveal_strlit("YYYY");
        reveal_strlit("YY");
        reveal_strlit("HH");
        reveal_strlit("MM");
        reveal_strlit("SS");
    }
    let s = chars_of(pattern);
    let s = replace_str(s, "YYYY", "%Y");
    let s = replace_str(s, "YY", "%y");
    let s = replace_str(s, "HH", "%H");
    let s = replace_str(s, "MM", "%M");
    let s = replace_str(s, "SS", "%S");
    string_of(s.as_slice())
}

/// Whether `pat` occurs anywhere in `s`.
pub open spec fn contains_text(s: Seq<char>, pat: Seq<char>) -> bool {
    exists|i: int| #[trigger] occurs_at(s, pat, i)
}

/// Whether `pat` occurs anywhere in `s`.
pub fn contains_chars(s: &[char], pat: &[char]) -> (r: bool)
    ensures
        r == contains_text(s@, pat@),
{
    let mut i: usize = 0;
    while i < s.len()
        invariant
            i <= s@.len(),
            forall|j: int| 0 <= j < i ==> !#[trigger] occurs_at(s@, pat@, j),
        decreases s@.len() - i,
    {
        if matches_at(s, i, pat) {
            return true;
        }
        i += 1;
    }
    if matches_at(s, i, pat) {
        return true;
    }
    proof {
        assert forall|j: int| !#[trigger] occurs_at(s@, pat@, j) by {
            if 0 <= j && j + pat@.len() <= s@.len() && j != i {
                assert(j < i);
            }
        }
    }
    false
}

/// Nanoseconds between clock refreshes: a second when the pattern shows seconds
/// (`SS` or `%S`), a minute otherwise.
pub open spec fn clock_period(pattern: Seq<char>) -> nat {
    if contains_text(pattern, "SS"@) || contains_text(pattern, "%S"@) {
        1_000_000_000
    } else {
        60_000_000_000
    }
}

/// Nanoseconds already elapsed in the current refresh period at the given wall-clock
/// second and nanosecond.
pub open spec fn clock_elapsed(pattern: Seq<char>, second: nat, nanosecond: nat) -> nat {
    if clock_period(pattern) == 1_000_000_000 {
        nanosecond
    } else {
        second * 1_000_000_000 + nanosecond
    }
}

/// Whether the two characters of `pattern` at `i` are a seconds directive (`SS` or `%S`).
pub open spec fn seconds_at(pattern: Seq<char>, i: int) -> bool {
    0 <= i && i + 2 <= pattern.len()
        && (pattern.subrange(i, i + 2) == seq!['S', 'S'] || pattern.subrange(i, i + 2) == seq!['%', 'S'])
}

/// Law: when the clock refreshes. A pattern with a seconds directive anywhere in it
/// refreshes at the next whole second, whatever text surrounds the directive (text added
/// after it changes nothing); a pattern without one refreshes at the next whole minute.
pub proof fn lemma_clock_refresh_follows_seconds(pattern: Seq<char>, suffix: Seq<char>, second: nat, nanosecond: nat)
    requires
        nanosecond < 1_000_000_000,
        second < 60,
    ensures
        (exists|i: int| seconds_at(pattern, i)) ==> {
            &&& clock_period(pattern) - clock_elapsed(pattern, second, nanosecond) == 1_000_000_000 - nanosecond
            &&& clock_period(pattern + suffix) == clock_period(pattern)
            &&& clock_elapsed(pattern + suffix, second, nanosecond) == clock_elapsed(pattern, second, nanosecond)
        },
        (forall|i: int| !seconds_at(pattern, i)) ==> clock_period(pattern) - clock_elapsed(pattern, second, nanosecond)
            == 60_000_000_000 - (second * 1_000_000_000 + nanosecond),
{
    reveal_strlit("SS");
    reveal_strlit("%S");
    assert("SS"@ =~= seq!['S', 'S']);
    assert("%S"@ =~= seq!['%', 'S']);
    if exists|i: int| seconds_at(pattern, i) {
        let i = choose|i: int| seconds_at(pattern, i);
        let both = pattern + suffix;
        assert(both.subrange(i, i + 2) =~= pattern.subrange(i, i + 2));
        if pattern.subrange(i, i + 2) == seq!['S', 'S'] {
            assert(occurs_at(pattern, "SS"@, i));
            assert(occurs_at(both, "SS"@, i));
        } else {
            assert(occurs_at(pattern, "%S"@, i));
            assert(occurs_at(both, "%S"@, i));
        }
    }
    if forall|i: int| !seconds_at(pattern, i) {
        assert forall|i: int| !#[trigger] occurs_at(pattern, "SS"@, i) by {
            if occurs_at(pattern, "SS"@, i) {
                assert(seconds_at(pattern, i));
            }
        }
        assert forall|i: int| !#[trigger] occurs_at(pattern, "%S"@, i) by {
            if occurs_at(pattern, "%S"@, i) {
                assert(seconds_at(pattern, i));
            }
        }
        assert(second * 1_000_000_000 + nanosecond < 60_000_000_000) by (nonlinear_arith)
            requires second < 60, nanosecond < 1_000_000_000;
    }
}

/// Nanoseconds until a clock showing `pattern` next changes, at the given wall-clock second
/// and nanosecond. (During a leap second the nanosecond can pass the period; such a time
/// has no next change within the period.)
pub fn clock_refresh_nanos(pattern: &str, second: u32, nanosecond: u32) -> (r: u64)
    requires
        clock_elapsed(pattern@, second as nat, nanosecond as nat) <= clock_period(pattern@),
    ensures
        r == clock_period(pattern@) - clock_elapsed(pattern@, second as nat, nanosecond as nat),
{
    let p = chars_of(pattern);
    let ss = chars_of("SS");
    let ps = chars_of("%S");
    let period: u64 = if contains_chars(p.as_slice(), ss.as_slice()) || contains_chars(p.as_slice(), ps.as_slice()) {
        1_000_000_000
    } else {
        60_000_000_000
    };
    let elapsed: u64 = if period == 1_000_000_000 {
        nanosecond as u64
    } else {
        second as u64 * 1_000_000_000 + nanosecond as u64
    };
    period - elapsed
}

/// Whether the wall-clock second and nanosecond still lie within the clock's refresh
/// period (they do not during a leap second that runs past it).
pub fn clock_elapsed_fits(pattern: &str, second: u32, nanosecond: u32) -> (r: bool)
    ensures
        r == (clock_elapsed(pattern@, second as nat, nanosecond as nat) <= clock_period(pattern@)),
{
    let p = chars_of(pattern);
    let ss = chars_of("SS");
    let ps = chars_of("%S");
    if contains_chars(p.as_slice(), ss.as_slice()) || contains_chars(p.as_slice(), ps.as_slice()) {
        nanosecond <= 1_000_000_000
    } else {
        second as u64 * 1_000_000_000 + nanosecond as u64 <= 60_000_000_000
    }
}

/// The earliest of a pending refresh request and a new one.
pub fn merge_refresh(current: Option<u64>, next: u64) -> (r: u64)
    ensures
        r == match current {
            Some(c) => if c < next { c } else { next },
            None => next,
        },
{
    match current {
        Some(c) => if c < next { c } else { next },
        None => next,
    }
}

/// The time zone a clock uses: the one it names, else the `TZ` template variable, else UTC.
pub fn clock_zone(explicit: Option<&str>, env_tz: Option<&str>) -> (r: String)
    ensures
        r@ == match explicit {
            Some(z) => z@,
            None => match env_tz {
                Some(z) => z@,
                None => "UTC"@,
            },
        },
{
    let v = match explicit {
        Some(z) => chars_of(z),
        None => match env_tz {
            Some(z) => chars_of(z),
            None => chars_of("UTC"),
        },
    };
    string_of(v.as_slice())
}

/// Whether chrono-tz knows an IANA time zone by this name.
pub uninterp spec fn known_timezone(name: Seq<char>) -> bool;

/// Whether chrono can place this Unix timestamp (whole seconds) on its UTC calendar.
pub uninterp spec fn representable_timestamp(timestamp: i64) -> bool;

/// The text chrono writes for a timestamp shown in a named zone with a strftime pattern,
/// when its formatting succeeds.
pub uninterp spec fn zoned_time_text(timestamp: i64, zone: Seq<char>, pattern: Seq<char>) -> Option<Seq<char>>;

/// Whether chrono-tz parses `name` as a time zone (its `FromStr` for `Tz`, a lookup in its
/// compiled zone table). Its result is named.
#[verifier::external_body]
fn is_known_timezone(name: &str) -> (r: bool)
    ensures
        r == known_timezone(name@),
{
    name.parse::<chrono_tz::Tz>().is_ok()
}

/// Whether chrono's `Utc.timestamp_opt(timestamp, 0)` gives a single time (it gives none
/// for seconds out of its range). Its result is named.
#[verifier::external_body]
fn is_representable_timestamp(timestamp: i64) -> (r: bool)
    ensures
        r == representable_timestamp(timestamp),
{
    chrono::TimeZone::timestamp_opt(&chrono::Utc, timestamp, 0).single().is_some()
}

/// chrono's `DateTime::format` of the timestamp moved into the named zone
/// (`with_timezone`), written out; `None` where chrono's formatting reports an error (an
/// unknown specifier, or a date that a specifier cannot show). Its result is named.
#[verifier::external_body]
fn zoned_text(timestamp: i64, zone: &str, pattern: &str) -> (r: Option<String>)
    requires
        known_timezone(zone@),
        representable_timestamp(timestamp),
    ensures
        match r {
            Some(t) => zoned_time_text(timestamp, zone@, pattern@) == Some(t@),
            None => zoned_time_text(timestamp, zone@, pattern@) is None,
        },
{
    let zone: chrono_tz::Tz = zone.parse().ok()?;
    let utc = chrono::TimeZone::timestamp_opt(&chrono::Utc, timestamp, 0).single()?;
    let mut out = String::new();
    match write!(out, "{}", utc.with_timezone(&zone).format(pattern)) {
        Ok(()) => Some(out),
        Err(_) => None,
    }
}

/// chrono's `DateTime::format` of the timestamp in the machine's local time zone, written
/// out; `None` where chrono has no single local time for it or its formatting reports an
/// error. What it shows depends on the local zone; stated is only what holds in every
/// zone: chrono's strftime reader turns text without `%` into literal and space items,
/// which are written out unchanged, so such a pattern is written as it is.
#[verifier::external_body]
fn local_text(timestamp: i64, pattern: &str) -> (r: Option<String>)
    ensures
        r matches Some(t) ==> (!pattern@.contains('%') ==> t@ == pattern@),
{
    let local = chrono::TimeZone::timestamp_opt(&chrono::Local, timestamp, 0).single()?;
    let mut out = String::new();
    match write!(out, "{}", local.format(pattern)) {
        Ok(()) => Some(out),
        Err(_) => None,
    }
}

/// The failure a clock reports for a time zone that chrono-tz does not know.
pub open spec fn unknown_zone_detail(zone: Seq<char>) -> Seq<char> {
    "invalid clock timezone "@ + debug_text(zone)
}

/// Whether chrono can write the clock's text: it can unless the zone is known, the
/// timestamp representable, and the converted pattern still fails to format (an unknown
/// specifier, or a date that a specifier cannot show).
pub open spec fn clock_formats(timestamp: i64, pattern: Seq<char>, zone: Seq<char>) -> bool {
    known_timezone(zone) && representable_timestamp(timestamp)
        ==> zoned_time_text(timestamp, zone, chrono_pattern_spec(pattern)) is Some
}

/// What the clock shows for a timestamp, clock pattern and zone name: the zone must be
/// known and the timestamp representable; the text is what chrono writes for the converted
/// pattern.
pub open spec fn zoned_clock_spec(timestamp: i64, pattern: Seq<char>, zone: Seq<char>) -> Result<Seq<char>, Seq<char>> {
    if !known_timezone(zone) {
        Err(unknown_zone_detail(zone))
    } else if !representable_timestamp(timestamp) {
        Err("invalid system time"@)
    } else {
        Ok(zoned_time_text(timestamp, zone, chrono_pattern_spec(pattern)).unwrap())
    }
}

/// Formats a Unix timestamp for a clock in the named zone.
pub fn format_time_in_timezone(timestamp: i64, pattern: &str, zone: &str) -> (r: Result<String, RenderError>)
    requires
        clock_formats(timestamp, pattern@, zone@),
    ensures
        match r {
            Ok(t) => zoned_clock_spec(timestamp, pattern@, zone@) == Ok::<Seq<char>, Seq<char>>(t@),
            Err(e) => e is InvalidOperation
                && zoned_clock_spec(timestamp, pattern@, zone@) == Err::<Seq<char>, Seq<char>>(e->InvalidOperation_0@),
        },
{
    if !is_known_timezone(zone) {
        let mut v = chars_of("invalid clock timezone ");
        let q = debug_quoted(zone);
        extend_str(&mut v, q.as_str());
        return Err(RenderError::InvalidOperation(string_of(v.as_slice())));
    }
    if !is_representable_timestamp(timestamp) {
        let v = chars_of("invalid system time");
        return Err(RenderError::InvalidOperation(string_of(v.as_slice())));
    }
    let strftime = chrono_pattern(pattern);
    match zoned_text(timestamp, zone, strftime.as_str()) {
        Some(t) => Ok(t),
        None => vstd::pervasive::unreached(),
    }
}

/// The clock's text when chrono can write it (`None` where its formatting of the pattern
/// fails): the result of `format_time_in_timezone`.
pub fn clock_text(timestamp: i64, pattern: &str, zone: &str) -> (r: Option<Result<String, RenderError>>)
    ensures
        r is None <==> !clock_formats(timestamp, pattern@, zone@),
        r matches Some(res) ==> match res {
            Ok(t) => zoned_clock_spec(timestamp, pattern@, zone@) == Ok::<Seq<char>, Seq<char>>(t@),
            Err(e) => e is InvalidOperation
                && zoned_clock_spec(timestamp, pattern@, zone@) == Err::<Seq<char>, Seq<char>>(e->InvalidOperation_0@),
        },
{
    if is_known_timezone(zone) && is_representable_timestamp(timestamp) {
        let strftime = chrono_pattern(pattern);
        if zoned_text(timestamp, zone, strftime.as_str()).is_none() {
            return None;
        }
    }
    Some(format_time_in_timezone(timestamp, pattern, zone))
}

/// Formats a Unix timestamp in the machine's local time zone with a clock pattern (the
/// `format` filter). The clock pattern is converted to strftime (`chrono_pattern_spec`)
/// and handed to chrono; what it shows depends on the local zone, but a converted pattern
/// without `%` is shown as it is. A failure is reported as an invalid system time.
pub fn format_time(timestamp: i64, pattern: &str) -> (r: Result<String, RenderError>)
    ensures
        r matches Err(e) ==> e is InvalidOperation && e->InvalidOperation_0@ == "invalid system time"@,
        r matches Ok(t) ==> (!chrono_pattern_spec(pattern@).contains('%') ==> t@ == chrono_pattern_spec(pattern@)),
{
    let strftime = chrono_pattern(pattern);
    match local_text(timestamp, strftime.as_str()) {
        Some(t) => Ok(t),
        None => {
            let v = chars_of("invalid system time");
            Err(RenderError::InvalidOperation(string_of(v.as_slice())))
        },
    }
}

} // verus!
