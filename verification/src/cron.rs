//! Canonical five-field cron expressions.
//!
//! An expression has the shape `minute hour day month weekday`.  Each field
//! is one of `*`, an exact value, a step `*/n`, an inclusive range `a-b`,
//! or a pair `a,b`; values are written in decimal without leading zeros.
//! [`Cron::spec_matches`] says when an instant falls on the expression.

use vstd::prelude::*;

verus! {

use crate::timepoint::Instant;
use vstd::string::StringExecFns;

/// One field of a cron expression.
#[derive(Clone, Copy, Debug, PartialEq, Eq, Structural)]
pub enum CronField {
    /// `*`: every value.
    Any,
    /// A single value.
    Exact(u8),
    /// `*/n`: every value divisible by `n`.
    Step(u8),
    /// `a-b`: every value in the inclusive range.
    Range(u8, u8),
    /// `a,b`: either of two values.
    Pair(u8, u8),
}

impl CronField {
    /// Well-formed for a field whose values run from `lo` to `hi`.
    pub open spec fn wf(self, lo: int, hi: int) -> bool {
        match self {
            CronField::Any => true,
            CronField::Exact(n) => lo <= n <= hi,
            CronField::Step(n) => 1 <= n <= hi,
            CronField::Range(a, b) => lo <= a <= b <= hi,
            CronField::Pair(a, b) => lo <= a <= hi && lo <= b <= hi,
        }
    }

    /// Whether the field accepts the value.
    pub open spec fn spec_matches(self, v: int) -> bool {
        match self {
            CronField::Any => true,
            CronField::Exact(n) => v == n,
            CronField::Step(n) => n > 0 && v % (n as int) == 0,
            CronField::Range(a, b) => a <= v <= b,
            CronField::Pair(a, b) => v == a || v == b,
        }
    }

    /// Executable twin of [`CronField::spec_matches`].
    pub fn matches(&self, v: u8) -> (r: bool)
        ensures
            r == self.spec_matches(v as int),
    {
        match self {
            CronField::Any => true,
            CronField::Exact(n) => v == *n,
            CronField::Step(n) => *n > 0 && v % *n == 0,
            CronField::Range(a, b) => *a <= v && v <= *b,
            CronField::Pair(a, b) => v == *a || v == *b,
        }
    }
}

/// A five-field cron expression.
#[derive(Clone, Copy, Debug, PartialEq, Eq, Structural)]
pub struct Cron {
    pub minute: CronField,
    pub hour: CronField,
    pub day: CronField,
    pub month: CronField,
    pub weekday: CronField,
}

impl Cron {
    /// Every field is well-formed for its value range.
    pub open spec fn wf(&self) -> bool {
        &&& self.minute.wf(0, 59)
        &&& self.hour.wf(0, 23)
        &&& self.day.wf(1, 31)
        &&& self.month.wf(1, 12)
        &&& self.weekday.wf(0, 6)
    }

    /// The instant falls on this expression: all five fields accept it.
    pub open spec fn spec_matches(&self, t: Instant) -> bool {
        &&& self.minute.spec_matches(t.minute as int)
        &&& self.hour.spec_matches(t.hour as int)
        &&& self.day.spec_matches(t.day as int)
        &&& self.month.spec_matches(t.month as int)
        &&& self.weekday.spec_matches(t.spec_weekday())
    }

    /// Executable twin of [`Cron::spec_matches`].
    pub fn matches_at(&self, t: &Instant) -> (r: bool)
        requires
            t.wf(),
        ensures
            r == self.spec_matches(*t),
    {
        if !self.minute.matches(t.minute) {
            return false;
        }
        if !self.hour.matches(t.hour) {
            return false;
        }
        if !self.day.matches(t.day) {
            return false;
        }
        if !self.month.matches(t.month) {
            return false;
        }
        self.weekday.matches(t.weekday())
    }
}

/// A decimal digit.
pub open spec fn is_digit(c: char) -> bool {
    48 <= c as u32 <= 57
}

/// The value of a decimal digit.
pub open spec fn digit_val(c: char) -> int {
    c as u32 - 48
}

/// A field value written in decimal: one digit, or two with no leading zero.
pub open spec fn spec_parse_num(s: Seq<char>) -> Option<int> {
    if s.len() == 1 && is_digit(s[0]) {
        Some(digit_val(s[0]))
    } else if s.len() == 2 && is_digit(s[0]) && is_digit(s[1]) && s[0] != '0' {
        Some(10 * digit_val(s[0]) + digit_val(s[1]))
    } else {
        None
    }
}

/// The first position at or after `i` holding `c`.
pub open spec fn first_at(s: Seq<char>, c: char, i: int) -> Option<int>
    decreases s.len() - i,
{
    if i < 0 || i >= s.len() {
        None
    } else if s[i] == c {
        Some(i)
    } else {
        first_at(s, c, i + 1)
    }
}

/// One cron field, as written: `*`, `*/n`, `a-b`, `a,b` or a value, with
/// the numbers inside the field's range and range ends ordered.
pub open spec fn spec_parse_field(f: Seq<char>, lo: int, hi: int) -> Option<CronField> {
    if f.len() == 1 && f[0] == '*' {
        Some(CronField::Any)
    } else if f.len() >= 2 && f[0] == '*' && f[1] == '/' {
        match spec_parse_num(f.subrange(2, f.len() as int)) {
            Some(n) => if 1 <= n <= hi {
                Some(CronField::Step(n as u8))
            } else {
                None
            },
            None => None,
        }
    } else {
        match first_at(f, '-', 0) {
            Some(d) => match (spec_parse_num(f.subrange(0, d)), spec_parse_num(
                f.subrange(d + 1, f.len() as int),
            )) {
                (Some(a), Some(b)) => if lo <= a <= b <= hi {
                    Some(CronField::Range(a as u8, b as u8))
                } else {
                    None
                },
                _ => None,
            },
            None => match first_at(f, ',', 0) {
                Some(p) => match (spec_parse_num(f.subrange(0, p)), spec_parse_num(
                    f.subrange(p + 1, f.len() as int),
                )) {
                    (Some(a), Some(b)) => if lo <= a <= hi && lo <= b <= hi {
                        Some(CronField::Pair(a as u8, b as u8))
                    } else {
                        None
                    },
                    _ => None,
                },
                None => match spec_parse_num(f) {
                    Some(n) => if lo <= n <= hi {
                        Some(CronField::Exact(n as u8))
                    } else {
                        None
                    },
                    None => None,
                },
            },
        }
    }
}

/// The fields of a string, split at every space.
pub open spec fn split_fields(s: Seq<char>) -> Seq<Seq<char>>
    decreases s.len(),
{
    if s.len() == 0 {
        seq![Seq::<char>::empty()]
    } else {
        let rest = split_fields(s.drop_first());
        if s[0] == ' ' {
            seq![Seq::<char>::empty()] + rest
        } else {
            seq![seq![s[0]] + rest[0]] + rest.drop_first()
        }
    }
}

/// A parsed cron expression: five space-separated fields, each well-formed
/// for its position.
pub open spec fn spec_parse_cron(s: Seq<char>) -> Option<Cron> {
    let fs = split_fields(s);
    if fs.len() != 5 {
        None
    } else {
        match (
            spec_parse_field(fs[0], 0, 59),
            spec_parse_field(fs[1], 0, 23),
            spec_parse_field(fs[2], 1, 31),
            spec_parse_field(fs[3], 1, 12),
            spec_parse_field(fs[4], 0, 6),
        ) {
            (Some(minute), Some(hour), Some(day), Some(month), Some(weekday)) => Some(
                Cron { minute, hour, day, month, weekday },
            ),
            _ => None,
        }
    }
}

/// A parsed field is well-formed for its range.
pub proof fn lemma_parse_field_wf(f: Seq<char>, lo: int, hi: int)
    requires
        spec_parse_field(f, lo, hi) is Some,
        0 <= lo <= hi <= 59,
    ensures
        spec_parse_field(f, lo, hi)->Some_0.wf(lo, hi),
{
}

/// A parsed cron expression is well-formed.
pub proof fn lemma_parse_cron_wf(s: Seq<char>)
    requires
        spec_parse_cron(s) is Some,
    ensures
        spec_parse_cron(s)->Some_0.wf(),
{
    let fs = split_fields(s);
    lemma_parse_field_wf(fs[0], 0, 59);
    lemma_parse_field_wf(fs[1], 0, 23);
    lemma_parse_field_wf(fs[2], 1, 31);
    lemma_parse_field_wf(fs[3], 1, 12);
    lemma_parse_field_wf(fs[4], 0, 6);
}

/// Finds the first occurrence of `c` in `s`, scanning a suffix at a time.
fn find_char(s: &Vec<char>, c: char) -> (r: Option<usize>)
    ensures
        match r {
            Some(i) => i < s@.len() && first_at(s@, c, 0) == Some(i as int),
            None => first_at(s@, c, 0) is None,
        },
{
    let n = s.len();
    let mut i: usize = n;
    let mut r: Option<usize> = None;
    while i > 0
        invariant
            n == s@.len(),
            0 <= i <= n,
            match r {
                Some(j) => i <= j < n && first_at(s@, c, i as int) == Some(j as int),
                None => first_at(s@, c, i as int) is None,
            },
        decreases i,
    {
        i = i - 1;
        if s[i] == c {
            r = Some(i);
        }
    }
    r
}

/// Parses a one- or two-digit decimal number without a leading zero.
fn parse_num(f: &Vec<char>, from: usize, to: usize) -> (r: Option<u8>)
    requires
        from <= to <= f@.len(),
    ensures
        match r {
            Some(n) => spec_parse_num(f@.subrange(from as int, to as int)) == Some(n as int) && n
                <= 99,
            None => spec_parse_num(f@.subrange(from as int, to as int)) is None,
        },
{
    let ghost sub = f@.subrange(from as int, to as int);
    if to - from == 1 {
        let c = f[from];
        proof {
            assert(sub[0] == f@[from as int]);
        }
        if (c as u32) >= 48 && (c as u32) <= 57 {
            Some(((c as u32) - 48) as u8)
        } else {
            None
        }
    } else if to - from == 2 {
        let c0 = f[from];
        let c1 = f[from + 1];
        proof {
            assert(sub[0] == f@[from as int]);
            assert(sub[1] == f@[from + 1]);
        }
        if (c0 as u32) >= 49 && (c0 as u32) <= 57 && (c1 as u32) >= 48 && (c1 as u32) <= 57 {
            Some((10 * ((c0 as u32) - 48) + ((c1 as u32) - 48)) as u8)
        } else {
            proof {
                if is_digit(sub[0]) && is_digit(sub[1]) && sub[0] != '0' {
                    assert((sub[0] as u32) >= 49) by {
                        assert(sub[0] as u32 != 48) by {
                            vstd::utf8::char_u32_cast(sub[0], sub[0] as u32);
                            vstd::utf8::char_u32_cast('0', '0' as u32);
                        }
                    }
                }
            }
            None
        }
    } else {
        None
    }
}

/// Parses one cron field.
fn parse_field(f: &Vec<char>, lo: u8, hi: u8) -> (r: Option<CronField>)
    ensures
        r == spec_parse_field(f@, lo as int, hi as int),
{
    let n = f.len();
    if n == 1 && f[0] == '*' {
        return Some(CronField::Any);
    }
    if n >= 2 && f[0] == '*' && f[1] == '/' {
        return match parse_num(f, 2, n) {
            Some(v) => if 1 <= v && v <= hi {
                Some(CronField::Step(v))
            } else {
                None
            },
            None => None,
        };
    }
    match find_char(f, '-') {
        Some(d) => match (parse_num(f, 0, d), parse_num(f, d + 1, n)) {
            (Some(a), Some(b)) => if lo <= a && a <= b && b <= hi {
                Some(CronField::Range(a, b))
            } else {
                None
            },
            _ => None,
        },
        None => match find_char(f, ',') {
            Some(p) => match (parse_num(f, 0, p), parse_num(f, p + 1, n)) {
                (Some(a), Some(b)) => if lo <= a && a <= hi && lo <= b && b <= hi {
                    Some(CronField::Pair(a, b))
                } else {
                    None
                },
                _ => None,
            },
            None => {
                proof {
                    assert(f@.subrange(0, n as int) =~= f@);
                }
                match parse_num(f, 0, n) {
                    Some(v) => if lo <= v && v <= hi {
                        Some(CronField::Exact(v))
                    } else {
                        None
                    },
                    None => None,
                }
            },
        },
    }
}

/// Splits a character vector at every space.
fn split_chars(s: &Vec<char>) -> (r: Vec<Vec<char>>)
    ensures
        r.deep_view() == split_fields(s@),
{
    let n = s.len();
    let mut r: Vec<Vec<char>> = Vec::new();
    r.push(Vec::new());
    proof {
        assert(r.deep_view() =~~= split_fields(s@.subrange(n as int, n as int)));
    }
    let mut i: usize = n;
    while i > 0
        invariant
            n == s@.len(),
            0 <= i <= n,
            r@.len() >= 1,
            r.deep_view() == split_fields(s@.subrange(i as int, n as int)),
        decreases i,
    {
        i = i - 1;
        let ghost suffix = s@.subrange(i as int, n as int);
        proof {
            assert(suffix[0] == s@[i as int]);
            assert(suffix.drop_first() =~= s@.subrange(i + 1, n as int));
        }
        let c = s[i];
        if c == ' ' {
            r.insert(0, Vec::new());
            proof {
                assert(r.deep_view() =~~= split_fields(suffix));
            }
        } else {
            let mut f = r.remove(0);
            f.insert(0, c);
            r.insert(0, f);
            proof {
                assert(r.deep_view() =~~= split_fields(suffix));
            }
        }
    }
    proof {
        assert(s@.subrange(0, n as int) =~= s@);
    }
    r
}

impl Cron {
    /// Parses the canonical five-field form; `None` on anything else.
    pub fn parse(s: &str) -> (r: Option<Cron>)
        ensures
            r == spec_parse_cron(s@),
            r is Some ==> r->Some_0.wf(),
    {
        let chars = crate::strutil::to_chars(s);
        let fields = split_chars(&chars);
        proof {
            assert(fields.deep_view().len() == fields@.len());
        }
        if fields.len() != 5 {
            return None;
        }
        proof {
            assert forall|k: int| 0 <= k < 5 implies fields.deep_view()[k] == fields@[k]@ by {
                assert(fields.deep_view()[k] == fields@[k].deep_view());
                assert(fields@[k].deep_view() =~= fields@[k]@);
            }
        }
        let minute = parse_field(&fields[0], 0, 59);
        let hour = parse_field(&fields[1], 0, 23);
        let day = parse_field(&fields[2], 1, 31);
        let month = parse_field(&fields[3], 1, 12);
        let weekday = parse_field(&fields[4], 0, 6);
        let r = match (minute, hour, day, month, weekday) {
            (Some(minute), Some(hour), Some(day), Some(month), Some(weekday)) => Some(
                Cron { minute, hour, day, month, weekday },
            ),
            _ => None,
        };
        proof {
            if r is Some {
                lemma_parse_cron_wf(s@);
            }
        }
        r
    }
}

/// The character of a decimal digit.
pub open spec fn digit_char(d: int) -> char {
    if d == 0 {
        '0'
    } else if d == 1 {
        '1'
    } else if d == 2 {
        '2'
    } else if d == 3 {
        '3'
    } else if d == 4 {
        '4'
    } else if d == 5 {
        '5'
    } else if d == 6 {
        '6'
    } else if d == 7 {
        '7'
    } else if d == 8 {
        '8'
    } else {
        '9'
    }
}

/// A value below 100 written in decimal without a leading zero.
pub open spec fn num_chars(n: int) -> Seq<char> {
    if n < 10 {
        seq![digit_char(n)]
    } else {
        seq![digit_char(n / 10), digit_char(n % 10)]
    }
}

/// The canonical written form of one cron field.
pub open spec fn field_chars(f: CronField) -> Seq<char> {
    match f {
        CronField::Any => seq!['*'],
        CronField::Exact(n) => num_chars(n as int),
        CronField::Step(n) => seq!['*', '/'] + num_chars(n as int),
        CronField::Range(a, b) => num_chars(a as int) + seq!['-'] + num_chars(b as int),
        CronField::Pair(a, b) => num_chars(a as int) + seq![','] + num_chars(b as int),
    }
}

/// The canonical written form of a cron expression.
pub open spec fn cron_chars(c: Cron) -> Seq<char> {
    field_chars(c.minute) + seq![' '] + field_chars(c.hour) + seq![' '] + field_chars(c.day)
        + seq![' '] + field_chars(c.month) + seq![' '] + field_chars(c.weekday)
}

/// Appends one decimal digit to a string.
fn push_digit(s: &mut String, d: u8)
    requires
        d < 10,
    ensures
        final(s)@ == old(s)@ + seq![digit_char(d as int)],
{
    match d {
        0 => {
            proof {
                reveal_strlit("0");
            }
            s.append("0");
        },
        1 => {
            proof {
                reveal_strlit("1");
            }
            s.append("1");
        },
        2 => {
            proof {
                reveal_strlit("2");
            }
            s.append("2");
        },
        3 => {
            proof {
                reveal_strlit("3");
            }
            s.append("3");
        },
        4 => {
            proof {
                reveal_strlit("4");
            }
            s.append("4");
        },
        5 => {
            proof {
                reveal_strlit("5");
            }
            s.append("5");
        },
        6 => {
            proof {
                reveal_strlit("6");
            }
            s.append("6");
        },
        7 => {
            proof {
                reveal_strlit("7");
            }
            s.append("7");
        },
        8 => {
            proof {
                reveal_strlit("8");
            }
            s.append("8");
        },
        _ => {
            proof {
                reveal_strlit("9");
            }
            s.append("9");
        },
    }
    proof {
        assert(s@ =~= old(s)@ + seq![digit_char(d as int)]);
    }
}

/// Appends a value below 100 in decimal.
fn push_num(s: &mut String, n: u8)
    requires
        n < 100,
    ensures
        final(s)@ == old(s)@ + num_chars(n as int),
{
    if n < 10 {
        push_digit(s, n);
    } else {
        push_digit(s, n / 10);
        push_digit(s, n % 10);
        proof {
            assert(s@ =~= old(s)@ + num_chars(n as int));
        }
    }
}

/// Appends the written form of one cron field.
fn push_field(s: &mut String, f: &CronField)
    requires
        f.wf(0, 59),
    ensures
        final(s)@ == old(s)@ + field_chars(*f),
{
    match f {
        CronField::Any => {
            proof {
                reveal_strlit("*");
            }
            s.append("*");
            proof {
                assert(s@ =~= old(s)@ + field_chars(*f));
            }
        },
        CronField::Exact(n) => {
            push_num(s, *n);
        },
        CronField::Step(n) => {
            proof {
                reveal_strlit("*/");
            }
            s.append("*/");
            push_num(s, *n);
            proof {
                assert(s@ =~= old(s)@ + field_chars(*f));
            }
        },
        CronField::Range(a, b) => {
            push_num(s, *a);
            proof {
                reveal_strlit("-");
            }
            s.append("-");
            push_num(s, *b);
            proof {
                assert(s@ =~= old(s)@ + field_chars(*f));
            }
        },
        CronField::Pair(a, b) => {
            push_num(s, *a);
            proof {
                reveal_strlit(",");
            }
            s.append(",");
            push_num(s, *b);
            proof {
                assert(s@ =~= old(s)@ + field_chars(*f));
            }
        },
    }
}

/// How far [`Cron::next_match`] searches: nine years of minutes, enough to
/// reach the next leap day from any starting point in range.
pub const NEXT_MATCH_SEARCH_MINUTES: u64 = 9 * 366 * 1440;

/// The last instant the time model supports.
pub open spec fn last_supported() -> Instant {
    Instant { year: 9999, month: 12, day: 31, hour: 23, minute: 59 }
}

/// Every well-formed instant sits at or before the last supported one.
pub proof fn lemma_at_most_last(t: Instant)
    requires
        t.wf(),
    ensures
        t.spec_minute_index() <= last_supported().spec_minute_index(),
        t.is_last_supported() <==> t == last_supported(),
{
    if t != last_supported() {
        assert(crate::timepoint::civil_lt(t, last_supported()));
        crate::timepoint::lemma_minute_index_strict(t, last_supported());
    }
}

impl Cron {
    /// Renders the canonical written form.
    pub fn render(&self) -> (r: String)
        requires
            self.wf(),
        ensures
            r@ == cron_chars(*self),
    {
            let mut s = String::new();
        push_field(&mut s, &self.minute);
        proof {
            reveal_strlit(" ");
        }
        s.append(" ");
        push_field(&mut s, &self.hour);
        s.append(" ");
        push_field(&mut s, &self.day);
        s.append(" ");
        push_field(&mut s, &self.month);
        s.append(" ");
        push_field(&mut s, &self.weekday);
        proof {
            assert(s@ =~= cron_chars(*self));
        }
        s
    }

    /// The earliest matching minute strictly after `now`, if there is one
    /// within the search window.
    pub fn next_match(&self, now: &Instant) -> (r: Option<Instant>)
        requires
            self.wf(),
            now.wf(),
        ensures
            match r {
                Some(t) => {
                    &&& t.wf()
                    &&& self.spec_matches(t)
                    &&& now.spec_minute_index() < t.spec_minute_index()
                    &&& forall|u: Instant|
                        u.wf() && now.spec_minute_index() < u.spec_minute_index()
                            < t.spec_minute_index() ==> !self.spec_matches(u)
                },
                None => forall|u: Instant|
                    u.wf() && now.spec_minute_index() < u.spec_minute_index()
                        <= now.spec_minute_index() + NEXT_MATCH_SEARCH_MINUTES
                        ==> !self.spec_matches(u),
            },
    {
        let mut t: Instant = *now;
        let mut steps: u64 = 0;
        while steps < NEXT_MATCH_SEARCH_MINUTES
            invariant
                self.wf(),
                now.wf(),
                t.wf(),
                0 <= steps <= NEXT_MATCH_SEARCH_MINUTES,
                t.spec_minute_index() == now.spec_minute_index() + steps,
                forall|u: Instant|
                    u.wf() && now.spec_minute_index() < u.spec_minute_index()
                        <= t.spec_minute_index() ==> !self.spec_matches(u),
            decreases NEXT_MATCH_SEARCH_MINUTES - steps,
        {
            if t.minute == 59 && t.hour == 23 && t.day == days_in_month_of(&t) && t.month == 12
                && t.year == 9999 {
                proof {
                    assert forall|u: Instant|
                        u.wf() && now.spec_minute_index() < u.spec_minute_index()
                            <= now.spec_minute_index() + NEXT_MATCH_SEARCH_MINUTES implies
                        !self.spec_matches(u) by {
                        lemma_at_most_last(u);
                        lemma_at_most_last(t);
                    }
                }
                return None;
            }
            let next = t.next_minute();
            if self.matches_at(&next) {
                proof {
                    assert forall|u: Instant|
                        u.wf() && now.spec_minute_index() < u.spec_minute_index()
                            < next.spec_minute_index() implies !self.spec_matches(u) by {}
                }
                return Some(next);
            }
            proof {
                assert forall|u: Instant|
                    u.wf() && now.spec_minute_index() < u.spec_minute_index()
                        <= next.spec_minute_index() implies !self.spec_matches(u) by {
                    if u.spec_minute_index() == next.spec_minute_index() {
                        crate::timepoint::lemma_minute_index_injective(u, next);
                    }
                }
            }
            t = next;
            steps = steps + 1;
        }
        None
    }
}

/// No position of the sequence holds the character.
pub open spec fn no_char(s: Seq<char>, c: char) -> bool {
    forall|i: int| 0 <= i < s.len() ==> s[i] != c
}

/// The digit characters carry their values and are none of the
/// punctuation the grammar uses.
proof fn lemma_digit_char_props(d: int)
    requires
        0 <= d <= 9,
    ensures
        is_digit(digit_char(d)),
        digit_val(digit_char(d)) == d,
        digit_char(d) != ' ',
        digit_char(d) != '*',
        digit_char(d) != '-',
        digit_char(d) != ',',
        digit_char(d) != '/',
        digit_char(d) != '0' ==> d != 0,
{
}

/// A rendered field value reads back as itself.
proof fn lemma_num_chars_props(n: int)
    requires
        0 <= n <= 59,
    ensures
        1 <= num_chars(n).len() <= 2,
        forall|i: int| 0 <= i < num_chars(n).len() ==> is_digit(#[trigger] num_chars(n)[i]),
        no_char(num_chars(n), ' '),
        no_char(num_chars(n), '*'),
        no_char(num_chars(n), '-'),
        no_char(num_chars(n), ','),
        spec_parse_num(num_chars(n)) == Some(n),
{
    if n < 10 {
        lemma_digit_char_props(n);
    } else {
        lemma_digit_char_props(n / 10);
        lemma_digit_char_props(n % 10);
        assert(num_chars(n)[0] == digit_char(n / 10));
        assert(num_chars(n)[1] == digit_char(n % 10));
        assert(digit_char(n / 10) != '0');
        assert(10 * digit_val(num_chars(n)[0]) + digit_val(num_chars(n)[1]) == n);
    }
}

/// The first occurrence of a character that sits at position `p` with
/// none earlier.
proof fn lemma_first_at_hit(s: Seq<char>, c: char, from: int, p: int)
    requires
        0 <= from <= p < s.len(),
        s[p] == c,
        forall|k: int| from <= k < p ==> s[k] != c,
    ensures
        first_at(s, c, from) == Some(p),
    decreases p - from,
{
    if from < p {
        lemma_first_at_hit(s, c, from + 1, p);
    }
}

/// A character that occurs nowhere is never found.
proof fn lemma_first_at_absent(s: Seq<char>, c: char, from: int)
    requires
        no_char(s, c),
        0 <= from,
    ensures
        first_at(s, c, from) is None,
    decreases s.len() - from,
{
    if from < s.len() {
        lemma_first_at_absent(s, c, from + 1);
    }
}

/// A rendered field contains no space and reads back as itself.
proof fn lemma_field_chars_props(f: CronField, lo: int, hi: int)
    requires
        f.wf(lo, hi),
        0 <= lo,
        hi <= 59,
    ensures
        no_char(field_chars(f), ' '),
        spec_parse_field(field_chars(f), lo, hi) == Some(f),
{
    let s = field_chars(f);
    match f {
        CronField::Any => {
            assert(s =~= seq!['*']);
        },
        CronField::Exact(n) => {
            lemma_num_chars_props(n as int);
            assert(s == num_chars(n as int));
            lemma_first_at_absent(s, '-', 0);
            lemma_first_at_absent(s, ',', 0);
        },
        CronField::Step(n) => {
            lemma_num_chars_props(n as int);
            assert(s =~= seq!['*', '/'] + num_chars(n as int));
            assert(s[0] == '*' && s[1] == '/');
            assert(s.subrange(2, s.len() as int) =~= num_chars(n as int));
            assert forall|i: int| 0 <= i < s.len() implies s[i] != ' ' by {
                if i >= 2 {
                    assert(s[i] == num_chars(n as int)[i - 2]);
                }
            }
        },
        CronField::Range(a, b) => {
            lemma_num_chars_props(a as int);
            lemma_num_chars_props(b as int);
            let na = num_chars(a as int);
            let nb = num_chars(b as int);
            let p = na.len() as int;
            assert(s =~= na + seq!['-'] + nb);
            assert forall|i: int| 0 <= i < s.len() implies s[i] != ' ' by {
                if i < p {
                    assert(s[i] == na[i]);
                } else if i > p {
                    assert(s[i] == nb[i - p - 1]);
                }
            }
            assert(!(s.len() == 1 && s[0] == '*')) by {
                assert(s[0] == na[0]);
            }
            assert(s[0] == na[0]);
            assert forall|k: int| 0 <= k < p implies s[k] != '-' by {
                assert(s[k] == na[k]);
            }
            assert(s[p] == '-');
            lemma_first_at_hit(s, '-', 0, p);
            assert(s.subrange(0, p) =~= na);
            assert(s.subrange(p + 1, s.len() as int) =~= nb);
        },
        CronField::Pair(a, b) => {
            lemma_num_chars_props(a as int);
            lemma_num_chars_props(b as int);
            let na = num_chars(a as int);
            let nb = num_chars(b as int);
            let p = na.len() as int;
            assert(s =~= na + seq![','] + nb);
            assert forall|i: int| 0 <= i < s.len() implies s[i] != ' ' && s[i] != '-' by {
                if i < p {
                    assert(s[i] == na[i]);
                } else if i > p {
                    assert(s[i] == nb[i - p - 1]);
                }
            }
            assert(s[0] == na[0]);
            lemma_first_at_absent(s, '-', 0);
            assert forall|k: int| 0 <= k < p implies s[k] != ',' by {
                assert(s[k] == na[k]);
            }
            assert(s[p] == ',');
            lemma_first_at_hit(s, ',', 0, p);
            assert(s.subrange(0, p) =~= na);
            assert(s.subrange(p + 1, s.len() as int) =~= nb);
        },
    }
}

/// Splitting a space-free string yields that one field.
proof fn lemma_split_nospace(a: Seq<char>)
    requires
        no_char(a, ' '),
    ensures
        split_fields(a) == seq![a],
    decreases a.len(),
{
    if a.len() == 0 {
        assert(split_fields(a) =~~= seq![a]);
    } else {
        lemma_split_nospace(a.drop_first());
        assert(split_fields(a) =~~= seq![seq![a[0]] + a.drop_first()] + seq![
            a.drop_first(),
        ].drop_first());
        assert(seq![a[0]] + a.drop_first() =~= a);
        assert(split_fields(a) =~~= seq![a]);
    }
}

/// Splitting peels a space-free field off the front.
proof fn lemma_split_prefix(a: Seq<char>, rest: Seq<char>)
    requires
        no_char(a, ' '),
    ensures
        split_fields(a + seq![' '] + rest) == seq![a] + split_fields(rest),
    decreases a.len(),
{
    let s = a + seq![' '] + rest;
    if a.len() == 0 {
        assert(s[0] == ' ');
        assert(s.drop_first() =~= rest);
        assert(split_fields(s) =~~= seq![a] + split_fields(rest));
    } else {
        assert(s[0] == a[0]);
        assert(s.drop_first() =~= a.drop_first() + seq![' '] + rest);
        lemma_split_prefix(a.drop_first(), rest);
        let r = split_fields(s.drop_first());
        assert(r == seq![a.drop_first()] + split_fields(rest));
        assert(r[0] == a.drop_first());
        assert(r.drop_first() =~~= split_fields(rest));
        assert(seq![s[0]] + r[0] =~= a);
        assert(split_fields(s) =~~= seq![a] + split_fields(rest));
    }
}

/// A rendered field contains no space.
proof fn lemma_field_no_space(f: CronField, lo: int, hi: int)
    requires
        f.wf(lo, hi),
        0 <= lo,
        hi <= 59,
    ensures
        no_char(field_chars(f), ' '),
{
    let s = field_chars(f);
    match f {
        CronField::Any => {
            assert(s =~= seq!['*']);
        },
        CronField::Exact(n) => {
            lemma_num_chars_props(n as int);
        },
        CronField::Step(n) => {
            lemma_num_chars_props(n as int);
            assert(s =~= seq!['*', '/'] + num_chars(n as int));
            assert forall|i: int| 0 <= i < s.len() implies s[i] != ' ' by {
                if i >= 2 {
                    assert(s[i] == num_chars(n as int)[i - 2]);
                }
            }
        },
        CronField::Range(a, b) => {
            lemma_num_chars_props(a as int);
            lemma_num_chars_props(b as int);
            let na = num_chars(a as int);
            let nb = num_chars(b as int);
            let p = na.len() as int;
            assert(s =~= na + seq!['-'] + nb);
            assert forall|i: int| 0 <= i < s.len() implies s[i] != ' ' by {
                if i < p {
                    assert(s[i] == na[i]);
                } else if i > p {
                    assert(s[i] == nb[i - p - 1]);
                }
            }
        },
        CronField::Pair(a, b) => {
            lemma_num_chars_props(a as int);
            lemma_num_chars_props(b as int);
            let na = num_chars(a as int);
            let nb = num_chars(b as int);
            let p = na.len() as int;
            assert(s =~= na + seq![','] + nb);
            assert forall|i: int| 0 <= i < s.len() implies s[i] != ' ' by {
                if i < p {
                    assert(s[i] == na[i]);
                } else if i > p {
                    assert(s[i] == nb[i - p - 1]);
                }
            }
        },
    }
}

/// Splitting the rendered form recovers the five rendered fields.
#[verifier::rlimit(30)]
proof fn lemma_split_cron_chars(c: Cron)
    requires
        c.wf(),
    ensures
        split_fields(cron_chars(c)).len() == 5,
        split_fields(cron_chars(c))[0] == field_chars(c.minute),
        split_fields(cron_chars(c))[1] == field_chars(c.hour),
        split_fields(cron_chars(c))[2] == field_chars(c.day),
        split_fields(cron_chars(c))[3] == field_chars(c.month),
        split_fields(cron_chars(c))[4] == field_chars(c.weekday),
{
    let f1 = field_chars(c.minute);
    let f2 = field_chars(c.hour);
    let f3 = field_chars(c.day);
    let f4 = field_chars(c.month);
    let f5 = field_chars(c.weekday);
    lemma_field_no_space(c.minute, 0, 59);
    lemma_field_no_space(c.hour, 0, 23);
    lemma_field_no_space(c.day, 1, 31);
    lemma_field_no_space(c.month, 1, 12);
    lemma_field_no_space(c.weekday, 0, 6);
    let sp = seq![' '];
    let t4 = f4 + sp + f5;
    let t3 = f3 + sp + t4;
    let t2 = f2 + sp + t3;
    let t1 = f1 + sp + t2;
    assert(cron_chars(c) == t1) by {
        vstd::seq_lib::lemma_concat_associative(f4 + sp, f5, Seq::<char>::empty());
        assert(f4 + sp + f5 == t4);
        assert(cron_chars(c) == f1 + sp + f2 + sp + f3 + sp + f4 + sp + f5);
        vstd::seq_lib::lemma_concat_associative(f1 + sp + f2 + sp + f3 + sp + f4, sp, f5);
        vstd::seq_lib::lemma_concat_associative(f1 + sp + f2 + sp + f3, sp + f4, sp + f5);
        assert(sp + f4 + (sp + f5) == sp + t4) by {
            vstd::seq_lib::lemma_concat_associative(sp, f4, sp + f5);
            vstd::seq_lib::lemma_concat_associative(f4, sp, f5);
        }
        assert(cron_chars(c) == f1 + sp + f2 + sp + f3 + (sp + t4));
        vstd::seq_lib::lemma_concat_associative(f1 + sp + f2 + sp, f3, sp + t4);
        assert(cron_chars(c) == f1 + sp + f2 + sp + (t3));
        vstd::seq_lib::lemma_concat_associative(f1 + sp + f2, sp, t3);
        vstd::seq_lib::lemma_concat_associative(f1 + sp, f2, sp + t3);
        assert(f2 + (sp + t3) == t2) by {
            vstd::seq_lib::lemma_concat_associative(f2, sp, t3);
        }
        assert(cron_chars(c) == f1 + sp + (t2));
        vstd::seq_lib::lemma_concat_associative(f1, sp, t2);
    }
    lemma_split_prefix(f1, t2);
    lemma_split_prefix(f2, t3);
    lemma_split_prefix(f3, t4);
    lemma_split_prefix(f4, f5);
    lemma_split_nospace(f5);
    let fs = split_fields(t1);
    assert(fs == seq![f1] + (seq![f2] + (seq![f3] + (seq![f4] + seq![f5]))));
    assert(fs.len() == 5);
    assert(fs[0] == f1);
    assert(fs[1] == f2);
    assert(fs[2] == f3);
    assert(fs[3] == f4);
    assert(fs[4] == f5);
}

/// The canonical written form of a well-formed expression parses back to
/// exactly that expression: rendering and parsing are inverse on the
/// canonical forms.
#[verifier::rlimit(30)]
pub proof fn lemma_render_parse_round_trip(c: Cron)
    requires
        c.wf(),
    ensures
        spec_parse_cron(cron_chars(c)) == Some(c),
{
    lemma_split_cron_chars(c);
    lemma_field_chars_props(c.minute, 0, 59);
    lemma_field_chars_props(c.hour, 0, 23);
    lemma_field_chars_props(c.day, 1, 31);
    lemma_field_chars_props(c.month, 1, 12);
    lemma_field_chars_props(c.weekday, 0, 6);
    let fs = split_fields(cron_chars(c));
    assert(spec_parse_field(fs[0], 0, 59) == Some(c.minute));
    assert(spec_parse_field(fs[1], 0, 23) == Some(c.hour));
    assert(spec_parse_field(fs[2], 1, 31) == Some(c.day));
    assert(spec_parse_field(fs[3], 1, 12) == Some(c.month));
    assert(spec_parse_field(fs[4], 0, 6) == Some(c.weekday));
    assert(spec_parse_cron(cron_chars(c)) == Some(c));
}

/// A digit character is recovered from its value.
proof fn lemma_digit_roundtrip(c: char)
    requires
        is_digit(c),
    ensures
        digit_char(digit_val(c)) == c,
{
    let v = c as u32;
    vstd::utf8::char_u32_cast(c, v);
    if v == 48 {
        vstd::utf8::char_u32_cast('0', '0' as u32);
    } else if v == 49 {
        vstd::utf8::char_u32_cast('1', '1' as u32);
    } else if v == 50 {
        vstd::utf8::char_u32_cast('2', '2' as u32);
    } else if v == 51 {
        vstd::utf8::char_u32_cast('3', '3' as u32);
    } else if v == 52 {
        vstd::utf8::char_u32_cast('4', '4' as u32);
    } else if v == 53 {
        vstd::utf8::char_u32_cast('5', '5' as u32);
    } else if v == 54 {
        vstd::utf8::char_u32_cast('6', '6' as u32);
    } else if v == 55 {
        vstd::utf8::char_u32_cast('7', '7' as u32);
    } else if v == 56 {
        vstd::utf8::char_u32_cast('8', '8' as u32);
    } else {
        vstd::utf8::char_u32_cast('9', '9' as u32);
    }
}

/// A parsed field value renders back to the very characters it was read
/// from: values are written one way only.
proof fn lemma_parse_num_roundtrip(s: Seq<char>, n: int)
    requires
        spec_parse_num(s) == Some(n),
    ensures
        0 <= n <= 99,
        num_chars(n) == s,
{
    if s.len() == 1 {
        lemma_digit_roundtrip(s[0]);
        assert(num_chars(n) =~= s);
    } else {
        lemma_digit_roundtrip(s[0]);
        lemma_digit_roundtrip(s[1]);
        assert(digit_val(s[0]) != 0) by {
            if s[0] as u32 == 48 {
                vstd::utf8::char_u32_cast(s[0], s[0] as u32);
                vstd::utf8::char_u32_cast('0', '0' as u32);
            }
        }
        assert(n / 10 == digit_val(s[0]) && n % 10 == digit_val(s[1]));
        assert(num_chars(n) =~= s);
    }
}

/// Where the first occurrence of a character was found, it is there, and
/// nowhere earlier.
proof fn lemma_first_at_inv(s: Seq<char>, c: char, from: int, p: int)
    requires
        first_at(s, c, from) == Some(p),
        0 <= from,
    ensures
        from <= p < s.len(),
        s[p] == c,
        forall|k: int| from <= k < p ==> s[k] != c,
    decreases s.len() - from,
{
    if from < s.len() && s[from] != c {
        lemma_first_at_inv(s, c, from + 1, p);
    }
}

/// A parsed field renders back to the very characters it was read from:
/// the grammar accepts one written form per field.
proof fn lemma_parse_field_roundtrip(f: Seq<char>, lo: int, hi: int, x: CronField)
    requires
        spec_parse_field(f, lo, hi) == Some(x),
    ensures
        field_chars(x) == f,
        x.wf(lo, hi),
{
    if f.len() == 1 && f[0] == '*' {
        assert(field_chars(x) =~= f);
    } else if f.len() >= 2 && f[0] == '*' && f[1] == '/' {
        let sub = f.subrange(2, f.len() as int);
        let n = spec_parse_num(sub)->Some_0;
        lemma_parse_num_roundtrip(sub, n);
        assert(field_chars(x) =~= f);
    } else {
        match first_at(f, '-', 0) {
            Some(d) => {
                lemma_first_at_inv(f, '-', 0, d);
                let sa = f.subrange(0, d);
                let sb = f.subrange(d + 1, f.len() as int);
                let a = spec_parse_num(sa)->Some_0;
                let b = spec_parse_num(sb)->Some_0;
                lemma_parse_num_roundtrip(sa, a);
                lemma_parse_num_roundtrip(sb, b);
                assert(field_chars(x) =~= f);
            },
            None => {
                match first_at(f, ',', 0) {
                    Some(p) => {
                        lemma_first_at_inv(f, ',', 0, p);
                        let sa = f.subrange(0, p);
                        let sb = f.subrange(p + 1, f.len() as int);
                        let a = spec_parse_num(sa)->Some_0;
                        let b = spec_parse_num(sb)->Some_0;
                        lemma_parse_num_roundtrip(sa, a);
                        lemma_parse_num_roundtrip(sb, b);
                        assert(field_chars(x) =~= f);
                    },
                    None => {
                        let n = spec_parse_num(f)->Some_0;
                        lemma_parse_num_roundtrip(f, n);
                        assert(field_chars(x) =~= f);
                    },
                }
            },
        }
    }
}

/// The fields of a string, joined back with single spaces.
pub open spec fn join_fields(fs: Seq<Seq<char>>) -> Seq<char>
    decreases fs.len(),
{
    if fs.len() == 0 {
        Seq::<char>::empty()
    } else if fs.len() == 1 {
        fs[0]
    } else {
        fs[0] + seq![' '] + join_fields(fs.drop_first())
    }
}

/// Splitting yields at least one field.
proof fn lemma_split_len(s: Seq<char>)
    ensures
        split_fields(s).len() >= 1,
    decreases s.len(),
{
    if s.len() > 0 {
        lemma_split_len(s.drop_first());
    }
}

/// Joining the split fields recovers the string.
proof fn lemma_split_join(s: Seq<char>)
    ensures
        join_fields(split_fields(s)) == s,
    decreases s.len(),
{
    if s.len() == 0 {
        assert(join_fields(split_fields(s)) =~= s);
    } else {
        let rest = split_fields(s.drop_first());
        lemma_split_len(s.drop_first());
        lemma_split_join(s.drop_first());
        if s[0] == ' ' {
            let fs = seq![Seq::<char>::empty()] + rest;
            assert(fs.drop_first() =~= rest);
            assert(fs[0] =~= Seq::<char>::empty());
            assert(join_fields(fs) =~= s);
        } else {
            let fs = seq![seq![s[0]] + rest[0]] + rest.drop_first();
            assert(fs[0] == seq![s[0]] + rest[0]);
            if rest.len() == 1 {
                assert(join_fields(rest) == rest[0]);
                assert(rest[0] == s.drop_first());
                assert(fs.len() == 1);
                assert(join_fields(fs) == fs[0]);
                assert(fs[0] =~= s);
            } else {
                assert(fs.drop_first() =~= rest.drop_first());
                let jj = join_fields(rest.drop_first());
                assert(join_fields(fs) == fs[0] + seq![' '] + jj);
                assert(join_fields(rest) == rest[0] + seq![' '] + jj);
                vstd::seq_lib::lemma_concat_associative(seq![s[0]], rest[0], seq![' ']);
                vstd::seq_lib::lemma_concat_associative(seq![s[0]], rest[0] + seq![' '], jj);
                assert(join_fields(fs) == seq![s[0]] + join_fields(rest));
                assert(seq![s[0]] + s.drop_first() =~= s);
            }
        }
    }
}

/// The parser accepts only the canonical written forms: whatever parses
/// renders back to the very string it was read from.  Together with
/// [`lemma_render_parse_round_trip`] this pins the accepted strings down
/// to exactly the renderings of well-formed expressions.
#[verifier::rlimit(30)]
pub proof fn lemma_parse_render_round_trip(s: Seq<char>, c: Cron)
    requires
        spec_parse_cron(s) == Some(c),
    ensures
        c.wf(),
        cron_chars(c) == s,
{
    let fs = split_fields(s);
    lemma_parse_field_roundtrip(fs[0], 0, 59, c.minute);
    lemma_parse_field_roundtrip(fs[1], 0, 23, c.hour);
    lemma_parse_field_roundtrip(fs[2], 1, 31, c.day);
    lemma_parse_field_roundtrip(fs[3], 1, 12, c.month);
    lemma_parse_field_roundtrip(fs[4], 0, 6, c.weekday);
    lemma_split_join(s);
    assert(fs =~= seq![fs[0]] + seq![fs[1]] + seq![fs[2]] + seq![fs[3]] + seq![fs[4]]);
    assert(join_fields(fs) == fs[0] + seq![' '] + join_fields(fs.drop_first())) by {
        assert(fs.len() == 5);
    }
    assert(fs.drop_first() =~= seq![fs[1], fs[2], fs[3], fs[4]]);
    assert(fs.drop_first().drop_first() =~= seq![fs[2], fs[3], fs[4]]);
    assert(fs.drop_first().drop_first().drop_first() =~= seq![fs[3], fs[4]]);
    assert(fs.drop_first().drop_first().drop_first().drop_first() =~= seq![fs[4]]);
    let j4 = join_fields(seq![fs[4]]);
    let j3 = join_fields(seq![fs[3], fs[4]]);
    let j2 = join_fields(seq![fs[2], fs[3], fs[4]]);
    let j1 = join_fields(seq![fs[1], fs[2], fs[3], fs[4]]);
    assert(j4 == fs[4]);
    assert(j3 == fs[3] + seq![' '] + j4) by {
        assert(seq![fs[3], fs[4]].drop_first() =~= seq![fs[4]]);
    }
    assert(j2 == fs[2] + seq![' '] + j3) by {
        assert(seq![fs[2], fs[3], fs[4]].drop_first() =~= seq![fs[3], fs[4]]);
    }
    assert(j1 == fs[1] + seq![' '] + j2) by {
        assert(seq![fs[1], fs[2], fs[3], fs[4]].drop_first() =~= seq![fs[2], fs[3], fs[4]]);
    }
    assert(s == fs[0] + seq![' '] + j1);
    assert(cron_chars(c) =~= s);
}

/// Days in the month of the given instant.
fn days_in_month_of(t: &Instant) -> (r: u8)
    ensures
        r == crate::timepoint::spec_days_in_month(t.year as int, t.month as int),
{
    crate::timepoint::days_in_month(t.year, t.month)
}

} // verus!
