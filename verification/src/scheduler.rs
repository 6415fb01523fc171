//! Schedules: the natural-language translator and the due-time engine.
//!
//! The translator turns a recurrence phrase into a canonical five-field
//! cron expression.  Pattern families are tried in a fixed precedence
//! order (first match wins): daily, a named weekday, hourly, "every N
//! hours", "every N minutes", weekdays, weekend, monthly.  Families with a
//! clock default to 09:00 when the phrase names no time; a named time is
//! read by a 12-/24-hour parser (`HH:MM`, `HH am/pm`, bare `H am/pm`) with
//! AM/PM folding (`12am` is hour 0, `Npm` is `N+12` for `N < 12`).
//!
//! Only canonical output leaves the translator: a clock token whose hour
//! or minute is out of range is not a time, and an "every N" phrase whose
//! step would leave its cron field's range does not match its family, so
//! such phrases fall through to the later families or to "unrecognized"
//! rather than producing an out-of-range expression.
//!
//! The due-time engine decides, per minute, whether a schedule fires, and
//! advances `last_run`/`next_run`; see [`Schedule::spec_is_due`].

use vstd::prelude::*;

verus! {

use crate::cron::{Cron, CronField, cron_chars, is_digit, digit_val};
use crate::payload::Payload;
use crate::strutil::{contains_seq, lower_seq};
use crate::timepoint::Instant;

/// The first index at or after `j` that does not hold a space.
pub open spec fn skip_ws(s: Seq<char>, j: int) -> int
    decreases s.len() - j,
{
    if j < 0 {
        0
    } else if j >= s.len() {
        s.len() as int
    } else if s[j] == ' ' {
        skip_ws(s, j + 1)
    } else {
        j
    }
}

/// The end of the digit run starting at `j`.
pub open spec fn digit_run_end(s: Seq<char>, j: int) -> int
    decreases s.len() - j,
{
    if j < 0 {
        0
    } else if j >= s.len() {
        s.len() as int
    } else if is_digit(s[j]) {
        digit_run_end(s, j + 1)
    } else {
        j
    }
}

/// An `am`/`pm` marker after optional spaces: `Some(true)` for `pm`.
pub open spec fn ampm_at(s: Seq<char>, j: int) -> Option<bool> {
    let w = skip_ws(s, j);
    if w + 2 <= s.len() && s[w] == 'a' && s[w + 1] == 'm' {
        Some(false)
    } else if w + 2 <= s.len() && s[w] == 'p' && s[w + 1] == 'm' {
        Some(true)
    } else {
        None
    }
}

/// AM/PM folding to a 24-hour value: `12am` is 0, `Npm` is `N+12` for
/// `N < 12`; a 24-hour value is unchanged.
pub open spec fn fold_hour(h: int, ampm: Option<bool>) -> int {
    match ampm {
        Some(true) => if h < 12 {
            h + 12
        } else {
            h
        },
        Some(false) => if h == 12 {
            0
        } else {
            h
        },
        None => h,
    }
}

/// A clock token `H:MM` or `HH:MM` at position `i`, with an optional
/// `am`/`pm` marker, folded and validated to a 24-hour (hour, minute).
pub open spec fn clock_at(s: Seq<char>, i: int) -> Option<(int, int)> {
    if i < 0 || i >= s.len() || !is_digit(s[i]) {
        None
    } else {
        let two = i + 1 < s.len() && is_digit(s[i + 1]);
        let colon = if two {
            i + 2
        } else {
            i + 1
        };
        let h_raw = if two {
            10 * digit_val(s[i]) + digit_val(s[i + 1])
        } else {
            digit_val(s[i])
        };
        if colon < s.len() && s[colon] == ':' && colon + 3 <= s.len() && is_digit(s[colon + 1])
            && is_digit(s[colon + 2]) {
            let m = 10 * digit_val(s[colon + 1]) + digit_val(s[colon + 2]);
            let h = fold_hour(h_raw, ampm_at(s, colon + 3));
            if h <= 23 && m <= 59 {
                Some((h, m))
            } else {
                None
            }
        } else {
            None
        }
    }
}

/// An hour token `H am/pm` or `HH am/pm` at position `i`, folded and
/// validated; the minute is 0.
pub open spec fn hour_ampm_at(s: Seq<char>, i: int) -> Option<(int, int)> {
    if i < 0 || i >= s.len() || !is_digit(s[i]) {
        None
    } else {
        let two = i + 1 < s.len() && is_digit(s[i + 1]);
        if two && ampm_at(s, i + 2) is Some {
            let h = fold_hour(10 * digit_val(s[i]) + digit_val(s[i + 1]), ampm_at(s, i + 2));
            if h <= 23 {
                Some((h, 0))
            } else {
                None
            }
        } else if ampm_at(s, i + 1) is Some {
            let h = fold_hour(digit_val(s[i]), ampm_at(s, i + 1));
            if h <= 23 {
                Some((h, 0))
            } else {
                None
            }
        } else {
            None
        }
    }
}

/// The literal `at ` starts at position `i`.
pub open spec fn at_prefix(s: Seq<char>, i: int) -> bool {
    0 <= i && i + 3 <= s.len() && s[i] == 'a' && s[i + 1] == 't' && s[i + 2] == ' '
}

/// Pattern `at H:MM [am/pm]` at position `i`.
pub open spec fn at_clock_at(s: Seq<char>, i: int) -> Option<(int, int)> {
    if at_prefix(s, i) {
        clock_at(s, i + 3)
    } else {
        None
    }
}

/// Pattern `at H am/pm` at position `i`.
pub open spec fn at_hour_at(s: Seq<char>, i: int) -> Option<(int, int)> {
    if at_prefix(s, i) {
        hour_ampm_at(s, i + 3)
    } else {
        None
    }
}

/// The leftmost `at H:MM` token.
pub open spec fn first_at_clock(s: Seq<char>, i: int) -> Option<(int, int)>
    decreases s.len() - i,
{
    if i < 0 || i >= s.len() {
        None
    } else if at_clock_at(s, i) is Some {
        at_clock_at(s, i)
    } else {
        first_at_clock(s, i + 1)
    }
}

/// The leftmost `at H am/pm` token.
pub open spec fn first_at_hour(s: Seq<char>, i: int) -> Option<(int, int)>
    decreases s.len() - i,
{
    if i < 0 || i >= s.len() {
        None
    } else if at_hour_at(s, i) is Some {
        at_hour_at(s, i)
    } else {
        first_at_hour(s, i + 1)
    }
}

/// The leftmost bare `H:MM` token.
pub open spec fn first_clock(s: Seq<char>, i: int) -> Option<(int, int)>
    decreases s.len() - i,
{
    if i < 0 || i >= s.len() {
        None
    } else if clock_at(s, i) is Some {
        clock_at(s, i)
    } else {
        first_clock(s, i + 1)
    }
}

/// The clock time named by the phrase, if any: `at H:MM` is preferred,
/// then `at H am/pm`, then a bare `H:MM`.
pub open spec fn extract_time_spec(s: Seq<char>) -> Option<(int, int)> {
    if first_at_clock(s, 0) is Some {
        first_at_clock(s, 0)
    } else if first_at_hour(s, 0) is Some {
        first_at_hour(s, 0)
    } else {
        first_clock(s, 0)
    }
}

/// Pattern `every <number> <unit>` at position `i`: the word `every`, one
/// or more spaces, a one- or two-digit number, one or more spaces, and the
/// unit word.  Longer digit runs name values out of every field's range
/// and do not match.
pub open spec fn num_unit_at(s: Seq<char>, i: int, unit: Seq<char>) -> Option<int> {
    if 0 <= i && i + 5 <= s.len() && s.subrange(i, i + 5) == "every"@ {
        let k = skip_ws(s, i + 5);
        if k > i + 5 && k < s.len() && is_digit(s[k]) {
            let e = digit_run_end(s, k);
            if e - k <= 2 {
                let v = if e - k == 2 {
                    10 * digit_val(s[k]) + digit_val(s[k + 1])
                } else {
                    digit_val(s[k])
                };
                let w = skip_ws(s, e);
                if w > e && w + unit.len() <= s.len() && s.subrange(w, w + unit.len()) == unit {
                    Some(v)
                } else {
                    None
                }
            } else {
                None
            }
        } else {
            None
        }
    } else {
        None
    }
}

/// The leftmost `every <number> <unit>` occurrence.
pub open spec fn first_num_unit(s: Seq<char>, i: int, unit: Seq<char>) -> Option<int>
    decreases s.len() - i,
{
    if i < 0 || i >= s.len() {
        None
    } else if num_unit_at(s, i, unit) is Some {
        num_unit_at(s, i, unit)
    } else {
        first_num_unit(s, i + 1, unit)
    }
}

/// Executable twin of [`skip_ws`].
fn skip_ws_exec(s: &Vec<char>, j: usize) -> (r: usize)
    requires
        j <= s@.len(),
    ensures
        r == skip_ws(s@, j as int),
        j <= r <= s@.len(),
{
    let n = s.len();
    let mut k = j;
    while k < n && s[k] == ' '
        invariant
            n == s@.len(),
            j <= k <= n,
            skip_ws(s@, j as int) == skip_ws(s@, k as int),
        decreases n - k,
    {
        k = k + 1;
    }
    k
}

/// Executable twin of [`digit_run_end`].
fn digit_run_end_exec(s: &Vec<char>, j: usize) -> (r: usize)
    requires
        j <= s@.len(),
    ensures
        r == digit_run_end(s@, j as int),
        j <= r <= s@.len(),
{
    let n = s.len();
    let mut k = j;
    while k < n && (s[k] as u32) >= 48 && (s[k] as u32) <= 57
        invariant
            n == s@.len(),
            j <= k <= n,
            digit_run_end(s@, j as int) == digit_run_end(s@, k as int),
        decreases n - k,
    {
        k = k + 1;
    }
    k
}

/// Executable twin of [`ampm_at`].
fn ampm_at_exec(s: &Vec<char>, j: usize) -> (r: Option<bool>)
    requires
        j <= s@.len(),
    ensures
        r == ampm_at(s@, j as int),
{
    let n = s.len();
    let w = skip_ws_exec(s, j);
    if w < n && n - w >= 2 && s[w] == 'a' && s[w + 1] == 'm' {
        Some(false)
    } else if w < n && n - w >= 2 && s[w] == 'p' && s[w + 1] == 'm' {
        Some(true)
    } else {
        None
    }
}

/// Executable twin of [`fold_hour`].
fn fold_hour_exec(h: u8, ampm: Option<bool>) -> (r: u8)
    requires
        h <= 99,
    ensures
        r == fold_hour(h as int, ampm),
{
    match ampm {
        Some(true) => if h < 12 {
            h + 12
        } else {
            h
        },
        Some(false) => if h == 12 {
            0
        } else {
            h
        },
        None => h,
    }
}

/// Executable twin of [`clock_at`].
fn clock_at_exec(s: &Vec<char>, i: usize) -> (r: Option<(u8, u8)>)
    requires
        i < s@.len(),
    ensures
        match r {
            Some(p) => clock_at(s@, i as int) == Some((p.0 as int, p.1 as int)),
            None => clock_at(s@, i as int) is None,
        },
{
    let n = s.len();
    if !((s[i] as u32) >= 48 && (s[i] as u32) <= 57) {
        return None;
    }
    let two = i + 1 < n && (s[i + 1] as u32) >= 48 && (s[i + 1] as u32) <= 57;
    let colon = if two {
        i + 2
    } else {
        i + 1
    };
    let h_raw: u8 = if two {
        (10 * ((s[i] as u32) - 48) + ((s[i + 1] as u32) - 48)) as u8
    } else {
        ((s[i] as u32) - 48) as u8
    };
    if colon < n && s[colon] == ':' && n - colon >= 3 && (s[colon + 1] as u32) >= 48 && (s[colon
        + 1] as u32) <= 57 && (s[colon + 2] as u32) >= 48 && (s[colon + 2] as u32) <= 57 {
        let m: u8 = (10 * ((s[colon + 1] as u32) - 48) + ((s[colon + 2] as u32) - 48)) as u8;
        let ampm = ampm_at_exec(s, colon + 3);
        let h = fold_hour_exec(h_raw, ampm);
        if h <= 23 && m <= 59 {
            Some((h, m))
        } else {
            None
        }
    } else {
        None
    }
}

/// Executable twin of [`hour_ampm_at`].
fn hour_ampm_at_exec(s: &Vec<char>, i: usize) -> (r: Option<(u8, u8)>)
    requires
        i < s@.len(),
    ensures
        match r {
            Some(p) => hour_ampm_at(s@, i as int) == Some((p.0 as int, p.1 as int)),
            None => hour_ampm_at(s@, i as int) is None,
        },
{
    let n = s.len();
    if !((s[i] as u32) >= 48 && (s[i] as u32) <= 57) {
        return None;
    }
    let two = i + 1 < n && (s[i + 1] as u32) >= 48 && (s[i + 1] as u32) <= 57;
    if two {
        let ampm = ampm_at_exec(s, i + 2);
        if ampm.is_some() {
            let h_raw: u8 = (10 * ((s[i] as u32) - 48) + ((s[i + 1] as u32) - 48)) as u8;
            let h = fold_hour_exec(h_raw, ampm);
            if h <= 23 {
                return Some((h, 0));
            } else {
                return None;
            }
        }
    }
    let ampm = ampm_at_exec(s, i + 1);
    if ampm.is_some() {
        let h = fold_hour_exec(((s[i] as u32) - 48) as u8, ampm);
        if h <= 23 {
            Some((h, 0))
        } else {
            None
        }
    } else {
        None
    }
}

/// Executable twin of [`at_prefix`].
fn at_prefix_exec(s: &Vec<char>, i: usize) -> (r: bool)
    ensures
        r == at_prefix(s@, i as int),
{
    let n = s.len();
    i < n && n - i >= 3 && s[i] == 'a' && s[i + 1] == 't' && s[i + 2] == ' '
}

/// The clock time named by the phrase, if any.
fn extract_time(s: &Vec<char>) -> (r: Option<(u8, u8)>)
    ensures
        match r {
            Some(p) => extract_time_spec(s@) == Some((p.0 as int, p.1 as int)),
            None => extract_time_spec(s@) is None,
        },
{
    let n = s.len();
    let mut i: usize = 0;
    while i < n
        invariant
            n == s@.len(),
            0 <= i <= n,
            first_at_clock(s@, 0) == first_at_clock(s@, i as int),
        decreases n - i,
    {
        if at_prefix_exec(s, i) && n - i > 3 {
            if let Some(p) = clock_at_exec(s, i + 3) {
                return Some(p);
            }
        }
        proof {
            if at_prefix(s@, i as int) && !(n - i > 3) {
                assert(clock_at(s@, i + 3) is None);
            }
        }
        i = i + 1;
    }
    let mut i: usize = 0;
    while i < n
        invariant
            n == s@.len(),
            first_at_clock(s@, 0) is None,
            0 <= i <= n,
            first_at_hour(s@, 0) == first_at_hour(s@, i as int),
        decreases n - i,
    {
        if at_prefix_exec(s, i) && n - i > 3 {
            if let Some(p) = hour_ampm_at_exec(s, i + 3) {
                return Some(p);
            }
        }
        proof {
            if at_prefix(s@, i as int) && !(n - i > 3) {
                assert(hour_ampm_at(s@, i + 3) is None);
            }
        }
        i = i + 1;
    }
    let mut i: usize = 0;
    while i < n
        invariant
            n == s@.len(),
            first_at_clock(s@, 0) is None,
            first_at_hour(s@, 0) is None,
            0 <= i <= n,
            first_clock(s@, 0) == first_clock(s@, i as int),
        decreases n - i,
    {
        if let Some(p) = clock_at_exec(s, i) {
            return Some(p);
        }
        i = i + 1;
    }
    None
}

/// The leftmost `every <number> <unit>` value, if any.
fn find_num_unit(s: &Vec<char>, unit: &str) -> (r: Option<u8>)
    ensures
        match r {
            Some(v) => first_num_unit(s@, 0, unit@) == Some(v as int) && v <= 99,
            None => first_num_unit(s@, 0, unit@) is None,
        },
{
    let every = crate::strutil::to_chars("every");
    let unit_chars = crate::strutil::to_chars(unit);
    proof {
        reveal_strlit("every");
    }
    let n = s.len();
    let mut i: usize = 0;
    while i < n
        invariant
            n == s@.len(),
            every@ == "every"@,
            "every"@.len() == 5,
            unit_chars@ == unit@,
            0 <= i <= n,
            first_num_unit(s@, 0, unit@) == first_num_unit(s@, i as int, unit@),
        decreases n - i,
    {
        if let Some(v) = num_unit_at_exec(s, i, &every, &unit_chars) {
            return Some(v);
        }
        i = i + 1;
    }
    None
}

/// Executable twin of [`num_unit_at`]; `every` holds the word `every`.
fn num_unit_at_exec(s: &Vec<char>, i: usize, every: &Vec<char>, unit: &Vec<char>) -> (r: Option<
    u8,
>)
    requires
        i < s@.len(),
        every@ == "every"@,
        "every"@.len() == 5,
    ensures
        match r {
            Some(v) => num_unit_at(s@, i as int, unit@) == Some(v as int) && v <= 99,
            None => num_unit_at(s@, i as int, unit@) is None,
        },
{
    let n = s.len();
    if !(n - i >= 5 && crate::strutil::chars_match_at(s, every, i)) {
        return None;
    }
    proof {
        assert(s@.subrange(i as int, i + 5) == "every"@);
    }
    let k = skip_ws_exec(s, i + 5);
    if !(k > i + 5 && k < n && (s[k] as u32) >= 48 && (s[k] as u32) <= 57) {
        return None;
    }
    let e = digit_run_end_exec(s, k);
    if e - k > 2 {
        return None;
    }
    let v: u8 = if e - k == 2 {
        proof {
            assert(digit_run_end(s@, k as int) == digit_run_end(s@, k + 1));
            assert(is_digit(s@[k + 1]));
        }
        (10 * ((s[k] as u32) - 48) + ((s[k + 1] as u32) - 48)) as u8
    } else {
        ((s[k] as u32) - 48) as u8
    };
    let w = skip_ws_exec(s, e);
    if w > e && unit.len() <= n - w && crate::strutil::chars_match_at(s, unit, w) {
        proof {
            assert(s@.subrange(w as int, w + unit@.len()) == unit@);
        }
        Some(v)
    } else {
        None
    }
}

/// Which cron weekday the phrase names, if any: the first of
/// `mon tue wed thu fri sat sun` (covering the full names as well) that
/// occurs after `every `.
pub open spec fn weekday_pick(s: Seq<char>) -> Option<int> {
    if contains_seq(s, "every mon"@) {
        Some(1)
    } else if contains_seq(s, "every tue"@) {
        Some(2)
    } else if contains_seq(s, "every wed"@) {
        Some(3)
    } else if contains_seq(s, "every thu"@) {
        Some(4)
    } else if contains_seq(s, "every fri"@) {
        Some(5)
    } else if contains_seq(s, "every sat"@) {
        Some(6)
    } else if contains_seq(s, "every sun"@) {
        Some(0)
    } else {
        None
    }
}

/// The named time of the phrase, or the 09:00 default.
pub open spec fn time_or_default(s: Seq<char>) -> (int, int) {
    match extract_time_spec(s) {
        Some(p) => p,
        None => (9, 0),
    }
}

/// What the translator produces for a phrase, if anything: the families in
/// precedence order, first match wins.
pub open spec fn translate_spec(s: Seq<char>) -> Option<Cron> {
    let low = lower_seq(s);
    let t = time_or_default(low);
    let minute = CronField::Exact(t.1 as u8);
    let hour = CronField::Exact(t.0 as u8);
    if contains_seq(low, "every day"@) || contains_seq(low, "daily"@) {
        Some(
            Cron {
                minute,
                hour,
                day: CronField::Any,
                month: CronField::Any,
                weekday: CronField::Any,
            },
        )
    } else if weekday_pick(low) is Some {
        Some(
            Cron {
                minute,
                hour,
                day: CronField::Any,
                month: CronField::Any,
                weekday: CronField::Exact(weekday_pick(low)->Some_0 as u8),
            },
        )
    } else if contains_seq(low, "every hour"@) || contains_seq(low, "hourly"@) {
        Some(
            Cron {
                minute: CronField::Exact(0),
                hour: CronField::Any,
                day: CronField::Any,
                month: CronField::Any,
                weekday: CronField::Any,
            },
        )
    } else if first_num_unit(low, 0, "hour"@) matches Some(v) && 1 <= v <= 23 {
        Some(
            Cron {
                minute: CronField::Exact(0),
                hour: CronField::Step(first_num_unit(low, 0, "hour"@)->Some_0 as u8),
                day: CronField::Any,
                month: CronField::Any,
                weekday: CronField::Any,
            },
        )
    } else if first_num_unit(low, 0, "minute"@) matches Some(v) && 1 <= v <= 59 {
        Some(
            Cron {
                minute: CronField::Step(first_num_unit(low, 0, "minute"@)->Some_0 as u8),
                hour: CronField::Any,
                day: CronField::Any,
                month: CronField::Any,
                weekday: CronField::Any,
            },
        )
    } else if contains_seq(low, "weekday"@) || contains_seq(low, "week day"@) {
        Some(
            Cron {
                minute,
                hour,
                day: CronField::Any,
                month: CronField::Any,
                weekday: CronField::Range(1, 5),
            },
        )
    } else if contains_seq(low, "weekend"@) {
        Some(
            Cron {
                minute,
                hour,
                day: CronField::Any,
                month: CronField::Any,
                weekday: CronField::Pair(0, 6),
            },
        )
    } else if contains_seq(low, "every month"@) || contains_seq(low, "monthly"@) {
        Some(
            Cron {
                minute,
                hour,
                day: CronField::Exact(1),
                month: CronField::Any,
                weekday: CronField::Any,
            },
        )
    } else {
        None
    }
}

/// A validated clock token lies in the 24-hour clock.
proof fn lemma_first_at_clock_bounds(s: Seq<char>, i: int)
    requires
        first_at_clock(s, i) is Some,
    ensures
        0 <= first_at_clock(s, i)->Some_0.0 <= 23,
        0 <= first_at_clock(s, i)->Some_0.1 <= 59,
    decreases s.len() - i,
{
    if at_clock_at(s, i) is Some {
    } else {
        lemma_first_at_clock_bounds(s, i + 1);
    }
}

/// A validated hour token lies in the 24-hour clock.
proof fn lemma_first_at_hour_bounds(s: Seq<char>, i: int)
    requires
        first_at_hour(s, i) is Some,
    ensures
        0 <= first_at_hour(s, i)->Some_0.0 <= 23,
        0 <= first_at_hour(s, i)->Some_0.1 <= 59,
    decreases s.len() - i,
{
    if at_hour_at(s, i) is Some {
    } else {
        lemma_first_at_hour_bounds(s, i + 1);
    }
}

/// A validated bare clock token lies in the 24-hour clock.
proof fn lemma_first_clock_bounds(s: Seq<char>, i: int)
    requires
        first_clock(s, i) is Some,
    ensures
        0 <= first_clock(s, i)->Some_0.0 <= 23,
        0 <= first_clock(s, i)->Some_0.1 <= 59,
    decreases s.len() - i,
{
    if clock_at(s, i) is Some {
    } else {
        lemma_first_clock_bounds(s, i + 1);
    }
}

/// The phrase's time, or the default, lies in the 24-hour clock.
pub proof fn lemma_time_bounds(s: Seq<char>)
    ensures
        0 <= time_or_default(s).0 <= 23,
        0 <= time_or_default(s).1 <= 59,
{
    if first_at_clock(s, 0) is Some {
        lemma_first_at_clock_bounds(s, 0);
    } else if first_at_hour(s, 0) is Some {
        lemma_first_at_hour_bounds(s, 0);
    } else if first_clock(s, 0) is Some {
        lemma_first_clock_bounds(s, 0);
    }
}

/// The translator is deterministic, hence idempotent: equal phrases give
/// equal results, so translating the same phrase twice yields the same
/// cron expression, and an unrecognized phrase yields no match both
/// times — never a guessed default.
pub proof fn lemma_translator_deterministic(a: Seq<char>, b: Seq<char>)
    requires
        a == b,
    ensures
        translate_spec(a) == translate_spec(b),
{
}

/// AM/PM folding: midnight-noon wraparound.  `12am` is hour 0, `12pm`
/// stays hour 12, and `9pm` is hour 21.
pub proof fn lemma_ampm_folding()
    ensures
        fold_hour(12, Some(false)) == 0,
        fold_hour(12, Some(true)) == 12,
        fold_hour(9, Some(true)) == 21,
        forall|h: int| 1 <= h < 12 ==> fold_hour(h, Some(true)) == h + 12,
        forall|h: int| 1 <= h < 12 ==> fold_hour(h, Some(false)) == h,
{
}

/// Whatever the translator produces is a well-formed cron expression.
pub proof fn lemma_translate_wf(s: Seq<char>)
    requires
        translate_spec(s) is Some,
    ensures
        translate_spec(s)->Some_0.wf(),
{
    lemma_time_bounds(lower_seq(s));
}

/// The translator's output is canonical: whatever it produces renders to
/// a string that the cron parser reads back as exactly the same
/// expression.
pub proof fn lemma_translator_output_is_canonical(s: Seq<char>)
    requires
        translate_spec(s) is Some,
    ensures
        crate::cron::spec_parse_cron(cron_chars(translate_spec(s)->Some_0)) == Some(
            translate_spec(s)->Some_0,
        ),
{
    lemma_translate_wf(s);
    crate::cron::lemma_render_parse_round_trip(translate_spec(s)->Some_0);
}

/// The natural-language schedule translator.
pub struct NaturalLanguageParser;

impl NaturalLanguageParser {
    /// Translates a recurrence phrase to a structured cron expression.
    pub fn translate(input: &str) -> (r: Option<Cron>)
        ensures
            r == translate_spec(input@),
            r is Some ==> r->Some_0.wf(),
    {
        let chars = crate::strutil::to_chars(input);
        let low = crate::strutil::lower_chars(&chars);
        let time = extract_time(&low);
        let (th, tm): (u8, u8) = match time {
            Some(p) => p,
            None => (9, 0),
        };
        let minute = CronField::Exact(tm);
        let hour = CronField::Exact(th);
        let hours_step: Option<u8> = match find_num_unit(&low, "hour") {
            Some(v) => if 1 <= v && v <= 23 {
                Some(v)
            } else {
                None
            },
            None => None,
        };
        let minutes_step: Option<u8> = match find_num_unit(&low, "minute") {
            Some(v) => if 1 <= v && v <= 59 {
                Some(v)
            } else {
                None
            },
            None => None,
        };
        let r: Option<Cron> = if crate::strutil::contains_str(&low, "every day")
            || crate::strutil::contains_str(&low, "daily") {
            Some(
                Cron {
                    minute,
                    hour,
                    day: CronField::Any,
                    month: CronField::Any,
                    weekday: CronField::Any,
                },
            )
        } else if let Some(d) = Self::pick_weekday(&low) {
            Some(
                Cron {
                    minute,
                    hour,
                    day: CronField::Any,
                    month: CronField::Any,
                    weekday: CronField::Exact(d),
                },
            )
        } else if crate::strutil::contains_str(&low, "every hour") || crate::strutil::contains_str(
            &low,
            "hourly",
        ) {
            Some(
                Cron {
                    minute: CronField::Exact(0),
                    hour: CronField::Any,
                    day: CronField::Any,
                    month: CronField::Any,
                    weekday: CronField::Any,
                },
            )
        } else if let Some(v) = hours_step {
            Some(
                Cron {
                    minute: CronField::Exact(0),
                    hour: CronField::Step(v),
                    day: CronField::Any,
                    month: CronField::Any,
                    weekday: CronField::Any,
                },
            )
        } else if let Some(v) = minutes_step {
            Some(
                Cron {
                    minute: CronField::Step(v),
                    hour: CronField::Any,
                    day: CronField::Any,
                    month: CronField::Any,
                    weekday: CronField::Any,
                },
            )
        } else if crate::strutil::contains_str(&low, "weekday") || crate::strutil::contains_str(
            &low,
            "week day",
        ) {
            Some(
                Cron {
                    minute,
                    hour,
                    day: CronField::Any,
                    month: CronField::Any,
                    weekday: CronField::Range(1, 5),
                },
            )
        } else if crate::strutil::contains_str(&low, "weekend") {
            Some(
                Cron {
                    minute,
                    hour,
                    day: CronField::Any,
                    month: CronField::Any,
                    weekday: CronField::Pair(0, 6),
                },
            )
        } else if crate::strutil::contains_str(&low, "every month")
            || crate::strutil::contains_str(&low, "monthly") {
            Some(
                Cron {
                    minute,
                    hour,
                    day: CronField::Exact(1),
                    month: CronField::Any,
                    weekday: CronField::Any,
                },
            )
        } else {
            None
        };
        proof {
            if translate_spec(input@) is Some {
                lemma_translate_wf(input@);
            }
        }
        r
    }

    /// Executable twin of [`weekday_pick`].
    fn pick_weekday(low: &Vec<char>) -> (r: Option<u8>)
        ensures
            match r {
                Some(d) => weekday_pick(low@) == Some(d as int),
                None => weekday_pick(low@) is None,
            },
    {
        if crate::strutil::contains_str(low, "every mon") {
            Some(1)
        } else if crate::strutil::contains_str(low, "every tue") {
            Some(2)
        } else if crate::strutil::contains_str(low, "every wed") {
            Some(3)
        } else if crate::strutil::contains_str(low, "every thu") {
            Some(4)
        } else if crate::strutil::contains_str(low, "every fri") {
            Some(5)
        } else if crate::strutil::contains_str(low, "every sat") {
            Some(6)
        } else if crate::strutil::contains_str(low, "every sun") {
            Some(0)
        } else {
            None
        }
    }

    /// Translates a recurrence phrase to the canonical written cron form,
    /// or `None` for an unrecognized phrase — never a guessed default.
    pub fn parse(input: &str) -> (r: Option<String>)
        ensures
            match translate_spec(input@) {
                Some(c) => r is Some && r->Some_0@ == cron_chars(c),
                None => r is None,
            },
    {
        match Self::translate(input) {
            Some(c) => Some(c.render()),
            None => None,
        }
    }
}

/// A ready-made schedule suggestion.
#[derive(Debug, Clone)]
pub struct ScheduleTemplate {
    pub id: String,
    pub name: String,
    pub description: String,
    pub cron_expr: String,
    pub task_type: String,
    pub default_input: Payload,
}

/// The built-in schedule templates: a daily digest, a weekly report, an
/// hourly check, an end-of-day summary on weekdays, and a monthly review.
pub fn get_schedule_templates() -> (r: Vec<ScheduleTemplate>)
    ensures
        r@.len() == 5,
        r@[0].id@ == "daily-digest"@ && r@[0].task_type@ == "digest"@ && r@[0].cron_expr@
            == cron_chars(daily_nine()) && r@[0].default_input.wf(),
        r@[1].id@ == "weekly-report"@ && r@[1].task_type@ == "report"@ && r@[1].cron_expr@
            == cron_chars(monday_nine()) && r@[1].default_input.spec_get("period"@) == Some(
            "weekly"@,
        ),
        r@[2].id@ == "hourly-check"@ && r@[2].task_type@ == "check"@ && r@[2].cron_expr@
            == cron_chars(hourly_top()) && r@[2].default_input.wf(),
        r@[3].id@ == "end-of-day"@ && r@[3].task_type@ == "summary"@ && r@[3].cron_expr@
            == cron_chars(weekday_five_pm()) && r@[3].default_input.wf(),
        r@[4].id@ == "monthly-review"@ && r@[4].task_type@ == "review"@ && r@[4].cron_expr@
            == cron_chars(first_of_month_nine()) && r@[4].default_input.spec_get("period"@)
            == Some("monthly"@),
{
    let mut r: Vec<ScheduleTemplate> = Vec::new();
    r.push(
        ScheduleTemplate {
            id: String::from_str("daily-digest"),
            name: String::from_str("Daily Digest"),
            description: String::from_str("Run every morning at 9am"),
            cron_expr: exec_daily_nine().render(),
            task_type: String::from_str("digest"),
            default_input: Payload::new(),
        },
    );
    let mut weekly_input = Payload::new();
    weekly_input.set(String::from_str("period"), String::from_str("weekly"));
    r.push(
        ScheduleTemplate {
            id: String::from_str("weekly-report"),
            name: String::from_str("Weekly Report"),
            description: String::from_str("Run every Monday at 9am"),
            cron_expr: exec_monday_nine().render(),
            task_type: String::from_str("report"),
            default_input: weekly_input,
        },
    );
    r.push(
        ScheduleTemplate {
            id: String::from_str("hourly-check"),
            name: String::from_str("Hourly Check"),
            description: String::from_str("Run every hour"),
            cron_expr: exec_hourly_top().render(),
            task_type: String::from_str("check"),
            default_input: Payload::new(),
        },
    );
    r.push(
        ScheduleTemplate {
            id: String::from_str("end-of-day"),
            name: String::from_str("End of Day Summary"),
            description: String::from_str("Run every weekday at 5pm"),
            cron_expr: exec_weekday_five_pm().render(),
            task_type: String::from_str("summary"),
            default_input: Payload::new(),
        },
    );
    let mut monthly_input = Payload::new();
    monthly_input.set(String::from_str("period"), String::from_str("monthly"));
    r.push(
        ScheduleTemplate {
            id: String::from_str("monthly-review"),
            name: String::from_str("Monthly Review"),
            description: String::from_str("Run on the 1st of each month"),
            cron_expr: exec_first_of_month_nine().render(),
            task_type: String::from_str("review"),
            default_input: monthly_input,
        },
    );
    r
}

/// Every morning at nine.
pub open spec fn daily_nine() -> Cron {
    Cron {
        minute: CronField::Exact(0),
        hour: CronField::Exact(9),
        day: CronField::Any,
        month: CronField::Any,
        weekday: CronField::Any,
    }
}

/// Monday mornings at nine.
pub open spec fn monday_nine() -> Cron {
    Cron { weekday: CronField::Exact(1), ..daily_nine() }
}

/// The top of every hour.
pub open spec fn hourly_top() -> Cron {
    Cron { hour: CronField::Any, ..daily_nine() }
}

/// Weekdays at five in the afternoon.
pub open spec fn weekday_five_pm() -> Cron {
    Cron { hour: CronField::Exact(17), weekday: CronField::Range(1, 5), ..daily_nine() }
}

/// The first of each month at nine.
pub open spec fn first_of_month_nine() -> Cron {
    Cron { day: CronField::Exact(1), ..daily_nine() }
}

/// Executable twin of [`daily_nine`].
fn exec_daily_nine() -> (r: Cron)
    ensures
        r == daily_nine(),
        r.wf(),
{
    Cron {
        minute: CronField::Exact(0),
        hour: CronField::Exact(9),
        day: CronField::Any,
        month: CronField::Any,
        weekday: CronField::Any,
    }
}

/// Executable twin of [`monday_nine`].
fn exec_monday_nine() -> (r: Cron)
    ensures
        r == monday_nine(),
        r.wf(),
{
    Cron { weekday: CronField::Exact(1), ..exec_daily_nine() }
}

/// Executable twin of [`hourly_top`].
fn exec_hourly_top() -> (r: Cron)
    ensures
        r == hourly_top(),
        r.wf(),
{
    Cron { hour: CronField::Any, ..exec_daily_nine() }
}

/// Executable twin of [`weekday_five_pm`].
fn exec_weekday_five_pm() -> (r: Cron)
    ensures
        r == weekday_five_pm(),
        r.wf(),
{
    Cron { hour: CronField::Exact(17), weekday: CronField::Range(1, 5), ..exec_daily_nine() }
}

/// Executable twin of [`first_of_month_nine`].
fn exec_first_of_month_nine() -> (r: Cron)
    ensures
        r == first_of_month_nine(),
        r.wf(),
{
    Cron { day: CronField::Exact(1), ..exec_daily_nine() }
}

/// A schedule for recurring or one-shot tasks.
///
/// Exactly one of `cron_expr` (recurring) and `run_at` (one-shot) is set;
/// that is the well-formedness every constructor checks.
#[derive(Debug, Clone)]
pub struct Schedule {
    pub id: String,
    pub agent_id: String,
    pub name: String,
    pub cron_expr: Option<Cron>,
    pub run_at: Option<Instant>,
    pub task_type: String,
    pub task_input: Payload,
    pub enabled: bool,
    pub last_run: Option<Instant>,
    pub next_run: Option<Instant>,
    pub created_at: u64,
}

/// Two schedules carry the same data, compared through views.
pub open spec fn sched_eq_view(a: Schedule, b: Schedule) -> bool {
    &&& a.id@ == b.id@
    &&& a.agent_id@ == b.agent_id@
    &&& a.name@ == b.name@
    &&& a.cron_expr == b.cron_expr
    &&& a.run_at == b.run_at
    &&& a.task_type@ == b.task_type@
    &&& a.task_input.fields@ == b.task_input.fields@
    &&& a.enabled == b.enabled
    &&& a.last_run == b.last_run
    &&& a.next_run == b.next_run
    &&& a.created_at == b.created_at
}

impl Schedule {
    /// Exactly one of `cron_expr`/`run_at`, all parts well-formed.
    pub open spec fn wf(&self) -> bool {
        &&& (self.cron_expr is Some) != (self.run_at is Some)
        &&& (self.cron_expr matches Some(c) ==> c.wf())
        &&& (self.run_at matches Some(t) ==> t.wf())
        &&& (self.last_run matches Some(t) ==> t.wf())
        &&& (self.next_run matches Some(t) ==> t.wf())
        &&& self.task_input.wf()
    }

    /// A recurring schedule, driven by a cron expression.
    pub open spec fn is_recurring(&self) -> bool {
        self.cron_expr is Some
    }

    /// A one-shot schedule, driven by a single run time.
    pub open spec fn is_one_shot(&self) -> bool {
        self.run_at is Some
    }

    /// Whether the schedule is due at `now`: it is enabled, and either it
    /// is one-shot with its run time reached and has never fired, or it is
    /// recurring, the cron expression matches the current minute, and the
    /// last firing was in a strictly earlier minute bucket.  The
    /// strictly-earlier-bucket test is what keeps a schedule from firing
    /// twice in one matching minute.
    pub open spec fn spec_is_due(&self, now: Instant) -> bool {
        &&& self.enabled
        &&& match self.run_at {
            Some(at) => at.spec_minute_index() <= now.spec_minute_index() && self.last_run
                is None,
            None => match self.cron_expr {
                Some(c) => c.spec_matches(now) && match self.last_run {
                    Some(last) => last.spec_minute_index() < now.spec_minute_index(),
                    None => true,
                },
                None => false,
            },
        }
    }

    /// Executable twin of [`Schedule::spec_is_due`].
    pub fn is_due(&self, now: &Instant) -> (r: bool)
        requires
            self.wf(),
            now.wf(),
        ensures
            r == self.spec_is_due(*now),
    {
        if !self.enabled {
            return false;
        }
        match &self.run_at {
            Some(at) => at.minute_index() <= now.minute_index() && self.last_run.is_none(),
            None => match &self.cron_expr {
                Some(c) => c.matches_at(now) && match &self.last_run {
                    Some(last) => last.minute_index() < now.minute_index(),
                    None => true,
                },
                None => false,
            },
        }
    }

    /// A copy carrying the same data.
    pub fn duplicate(&self) -> (r: Schedule)
        ensures
            sched_eq_view(r, *self),
    {
        Schedule {
            id: self.id.clone(),
            agent_id: self.agent_id.clone(),
            name: self.name.clone(),
            cron_expr: self.cron_expr,
            run_at: self.run_at,
            task_type: self.task_type.clone(),
            task_input: self.task_input.duplicate(),
            enabled: self.enabled,
            last_run: self.last_run,
            next_run: self.next_run,
            created_at: self.created_at,
        }
    }

    /// The schedule after firing at `now`: `last_run` becomes `now`; a
    /// one-shot schedule is disabled and never recomputed; a recurring
    /// schedule's `next_run` becomes the next minute matching the cron
    /// expression strictly after `now`, if one lies in the search window.
    pub fn fire(&self, now: &Instant) -> (r: Schedule)
        requires
            self.wf(),
            now.wf(),
            self.spec_is_due(*now),
        ensures
            r.wf(),
            r.id@ == self.id@,
            r.agent_id@ == self.agent_id@,
            r.name@ == self.name@,
            r.cron_expr == self.cron_expr,
            r.run_at == self.run_at,
            r.task_type@ == self.task_type@,
            r.task_input.fields@ == self.task_input.fields@,
            r.created_at == self.created_at,
            r.last_run == Some(*now),
            self.is_one_shot() ==> !r.enabled && r.next_run is None,
            self.is_recurring() ==> {
                &&& r.enabled == self.enabled
                &&& match r.next_run {
                    Some(t) => {
                        &&& t.wf()
                        &&& self.cron_expr->Some_0.spec_matches(t)
                        &&& now.spec_minute_index() < t.spec_minute_index()
                        &&& forall|u: Instant|
                            u.wf() && now.spec_minute_index() < u.spec_minute_index()
                                < t.spec_minute_index()
                                ==> !self.cron_expr->Some_0.spec_matches(u)
                    },
                    None => forall|u: Instant|
                        u.wf() && now.spec_minute_index() < u.spec_minute_index()
                            <= now.spec_minute_index()
                            + crate::cron::NEXT_MATCH_SEARCH_MINUTES
                            ==> !self.cron_expr->Some_0.spec_matches(u),
                }
            },
    {
        let mut r = self.duplicate();
        r.last_run = Some(*now);
        match &self.cron_expr {
            Some(c) => {
                r.next_run = c.next_match(now);
            },
            None => {
                r.enabled = false;
                r.next_run = None;
            },
        }
        r
    }
}

/// A fired recurring schedule is not due again in the same minute bucket:
/// its `last_run` bucket equals the bucket of any instant in that minute,
/// so the strictly-earlier-bucket test fails.
pub proof fn lemma_no_double_fire(fired: Schedule, now: Instant, again: Instant)
    requires
        fired.is_recurring(),
        fired.last_run == Some(now),
        again.spec_minute_index() == now.spec_minute_index(),
    ensures
        !fired.spec_is_due(again),
{
}

/// A disabled schedule is never due; in particular a one-shot schedule,
/// disabled by firing, fires at most once.
pub proof fn lemma_disabled_never_due(s: Schedule)
    requires
        !s.enabled,
    ensures
        forall|now: Instant| !s.spec_is_due(now),
{
}

/// The first position at or after `i` of the schedule with the given id.
pub open spec fn sched_find(ss: Seq<Schedule>, id: Seq<char>, i: int) -> Option<int>
    decreases ss.len() - i,
{
    if i < 0 || i >= ss.len() {
        None
    } else if ss[i].id@ == id {
        Some(i)
    } else {
        sched_find(ss, id, i + 1)
    }
}

/// The scheduler's transient working set: the enabled schedules it was
/// handed, keyed by id.  The store stays the source of truth; this set is
/// rehydrated from it.
pub struct Scheduler {
    pub active_schedules: Vec<Schedule>,
}

impl Scheduler {
    /// All held schedules are well-formed and enabled.
    pub open spec fn wf(&self) -> bool {
        forall|i: int|
            0 <= i < self.active_schedules@.len() ==> (#[trigger] self.active_schedules@[i]).wf()
                && self.active_schedules@[i].enabled
    }

    /// An empty working set.
    pub fn new() -> (r: Scheduler)
        ensures
            r.wf(),
            r.active_schedules@.len() == 0,
    {
        Scheduler { active_schedules: Vec::new() }
    }

    /// Adds an enabled schedule, replacing one with the same id; a
    /// disabled schedule is not added.
    pub fn add_schedule(&mut self, schedule: Schedule)
        requires
            old(self).wf(),
            schedule.wf(),
        ensures
            final(self).wf(),
            !schedule.enabled ==> final(self).active_schedules@
                == old(self).active_schedules@,
            schedule.enabled ==> final(self).active_schedules@ == match sched_find(
                old(self).active_schedules@,
                schedule.id@,
                0,
            ) {
                Some(i) => old(self).active_schedules@.update(i, schedule),
                None => old(self).active_schedules@.push(schedule),
            },
    {
        if !schedule.enabled {
            return;
        }
        let n = self.active_schedules.len();
        let mut i: usize = 0;
        while i < n
            invariant
                old(self).wf(),
                schedule.wf(),
                schedule.enabled,
                self.active_schedules@ == old(self).active_schedules@,
                n == self.active_schedules@.len(),
                0 <= i <= n,
                sched_find(old(self).active_schedules@, schedule.id@, 0) == sched_find(
                    old(self).active_schedules@,
                    schedule.id@,
                    i as int,
                ),
            decreases n - i,
        {
            if crate::strutil::str_eq(self.active_schedules[i].id.as_str(), schedule.id.as_str())
            {
                self.active_schedules.set(i, schedule);
                proof {
                    assert(sched_find(old(self).active_schedules@, schedule.id@, i as int)
                        == Some(i as int));
                    assert forall|j: int|
                        0 <= j < self.active_schedules@.len() implies (#[trigger] self
                        .active_schedules@[j]).wf() && self.active_schedules@[j].enabled by {
                        if j != i as int {
                            assert(self.active_schedules@[j] == old(
                                self,
                            ).active_schedules@[j]);
                        }
                    }
                }
                return;
            }
            i += 1;
        }
        self.active_schedules.push(schedule);
        proof {
            assert forall|j: int|
                0 <= j < self.active_schedules@.len() implies (#[trigger] self
                .active_schedules@[j]).wf() && self.active_schedules@[j].enabled by {
                if j < n as int {
                    assert(self.active_schedules@[j] == old(self).active_schedules@[j]);
                }
            }
        }
    }

    /// Removes the schedule with the given id, if present.
    pub fn remove_schedule(&mut self, schedule_id: &str)
        requires
            old(self).wf(),
        ensures
            final(self).wf(),
            final(self).active_schedules@ == match sched_find(
                old(self).active_schedules@,
                schedule_id@,
                0,
            ) {
                Some(i) => old(self).active_schedules@.remove(i),
                None => old(self).active_schedules@,
            },
    {
        let n = self.active_schedules.len();
        let mut i: usize = 0;
        while i < n
            invariant
                old(self).wf(),
                self.active_schedules@ == old(self).active_schedules@,
                n == self.active_schedules@.len(),
                0 <= i <= n,
                sched_find(old(self).active_schedules@, schedule_id@, 0) == sched_find(
                    old(self).active_schedules@,
                    schedule_id@,
                    i as int,
                ),
            decreases n - i,
        {
            if crate::strutil::str_eq(self.active_schedules[i].id.as_str(), schedule_id) {
                self.active_schedules.remove(i);
                return;
            }
            i += 1;
        }
    }

    /// The due set at `now`: copies of exactly those held schedules that
    /// [`Schedule::spec_is_due`] accepts, in order.
    pub fn get_due_schedules(&self, now: &Instant) -> (r: Vec<Schedule>)
        requires
            self.wf(),
            now.wf(),
        ensures
            ({
                let due = self.active_schedules@.filter(|s: Schedule| s.spec_is_due(*now));
                r@.len() == due.len() && forall|k: int|
                    0 <= k < due.len() ==> sched_eq_view(#[trigger] r@[k], due[k])
            }),
    {
        let n = self.active_schedules.len();
        let mut r: Vec<Schedule> = Vec::new();
        let mut i: usize = 0;
        proof {
            reveal(Seq::filter);
            assert(self.active_schedules@.subrange(0, 0) =~= Seq::<Schedule>::empty());
        }
        while i < n
            invariant
                self.wf(),
                now.wf(),
                n == self.active_schedules@.len(),
                0 <= i <= n,
                ({
                    let due = self.active_schedules@.subrange(0, i as int).filter(
                        |s: Schedule| s.spec_is_due(*now),
                    );
                    r@.len() == due.len() && forall|k: int|
                        0 <= k < due.len() ==> sched_eq_view(#[trigger] r@[k], due[k])
                }),
            decreases n - i,
        {
            let ghost pred = |s: Schedule| s.spec_is_due(*now);
            let ghost pre = self.active_schedules@.subrange(0, i as int);
            let ghost post = self.active_schedules@.subrange(0, i + 1);
            proof {
                reveal(Seq::filter);
                assert(post.drop_last() =~= pre);
                assert(post.last() == self.active_schedules@[i as int]);
            }
            if self.active_schedules[i].is_due(now) {
                r.push(self.active_schedules[i].duplicate());
                proof {
                    assert(post.filter(pred) =~= pre.filter(pred).push(post.last()));
                }
            } else {
                proof {
                    assert(post.filter(pred) =~= pre.filter(pred));
                }
            }
            i += 1;
        }
        proof {
            assert(self.active_schedules@.subrange(0, n as int) =~= self.active_schedules@);
        }
        r
    }
}

} // verus!
