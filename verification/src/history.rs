//! Which commits a scan reads: the decisions around Git's history listings. The
//! listings themselves come from Git; these functions check the options, read the
//! listings and choose the commits.
use crate::order::{is_stable_descending, stable_descending};
use crate::model::{Commit, Options};
use crate::policy::{eligible, spec_eligible};
use crate::text::{
    append_chars, chars_of, digits_value, equal_chars, fields_of, find_from, index_of, is_digit,
    is_prefix, lemma_index_of, lines_of, parse_unsigned, slice_chars,
    spec_fields, spec_lines, spec_parse_unsigned, spec_split, split_chars, starts_with,
    string_from, trim_end, trim_end_chars,
};
use chrono::Datelike;
use vstd::prelude::*;

verus! {

// ---------------------------------------------------------------------------
// Calendar dates
// ---------------------------------------------------------------------------
/// A day of the proleptic Gregorian calendar.
pub struct CalendarDate {
    pub year: i32,
    pub month: u32,
    pub day: u32,
}

/// Four digits, `-`, two digits, `-`, two digits.
pub open spec fn date_shaped(s: Seq<char>) -> bool {
    &&& s.len() == 10
    &&& forall|i: int|
        0 <= i < 10 ==> if i == 4 || i == 7 {
            s[i] == '-'
        } else {
            is_digit(#[trigger] s[i])
        }
}

pub open spec fn is_leap(y: int) -> bool {
    y % 4 == 0 && (y % 100 != 0 || y % 400 == 0)
}

pub open spec fn month_days(y: int, m: int) -> int {
    if m == 2 {
        if is_leap(y) {
            29
        } else {
            28
        }
    } else if m == 4 || m == 6 || m == 9 || m == 11 {
        30
    } else {
        31
    }
}

/// Year `y` (0 to 9999), month `m` and day `d` name a day of the calendar.
pub open spec fn valid_day(y: int, m: int, d: int) -> bool {
    0 <= y <= 9999 && 1 <= m <= 12 && 1 <= d <= month_days(y, m)
}

/// Days from 0000-01-01 to the first day of year `y`, for `y >= 0`.
pub open spec fn days_before_year(y: int) -> int {
    365 * y + (y + 3) / 4 - (y + 99) / 100 + (y + 399) / 400
}

pub open spec fn days_before_month(y: int, m: int) -> int {
    let base: int = if m <= 1 {
        0
    } else if m == 2 {
        31
    } else if m == 3 {
        59
    } else if m == 4 {
        90
    } else if m == 5 {
        120
    } else if m == 6 {
        151
    } else if m == 7 {
        181
    } else if m == 8 {
        212
    } else if m == 9 {
        243
    } else if m == 10 {
        273
    } else if m == 11 {
        304
    } else {
        334
    };
    base + if m > 2 && is_leap(y) {
        1int
    } else {
        0int
    }
}

/// Days from 1970-01-01 to the given day.
pub open spec fn epoch_day(y: int, m: int, d: int) -> int {
    days_before_year(y) + days_before_month(y, m) + d - 1 - days_before_year(1970)
}

/// The year, month and day a date-shaped text spells.
pub open spec fn spelled_year(s: Seq<char>) -> int {
    digits_value(s.subrange(0, 4)) as int
}

pub open spec fn spelled_month(s: Seq<char>) -> int {
    digits_value(s.subrange(5, 7)) as int
}

pub open spec fn spelled_day(s: Seq<char>) -> int {
    digits_value(s.subrange(8, 10)) as int
}

pub open spec fn spelled_date_valid(s: Seq<char>) -> bool {
    valid_day(spelled_year(s), spelled_month(s), spelled_day(s))
}

/// Calls `chrono::NaiveDate::parse_from_str` with the format `%Y-%m-%d` and reads the
/// year, month and day back from the date. On a text of four digits, `-`, two digits,
/// `-`, two digits, chrono reads the three numbers and accepts them exactly when they
/// name a day of the proleptic Gregorian calendar.
#[verifier::external_body]
fn parse_calendar_date(value: &str) -> (r: Option<(i32, u32, u32)>)
    requires
        date_shaped(value@),
    ensures
        match r {
            Some((y, m, d)) => spelled_date_valid(value@) && y == spelled_year(value@) && m
                == spelled_month(value@) && d == spelled_day(value@),
            None => !spelled_date_valid(value@),
        },
{
    match chrono::NaiveDate::parse_from_str(value, "%Y-%m-%d") {
        Ok(d) => Some((d.year(), d.month(), d.day())),
        Err(_) => None,
    }
}

/// Calls `chrono::NaiveDate::from_ymd_opt`, then `and_hms_opt(0, 0, 0)`, `and_utc` and
/// `timestamp`: the Unix time of the first second of the day, in UTC, which chrono
/// computes as the day's distance from 1970-01-01 times 86400 seconds.
#[verifier::external_body]
fn day_start(date: &CalendarDate) -> (r: i64)
    requires
        valid_day(date.year as int, date.month as int, date.day as int),
    ensures
        r == epoch_day(date.year as int, date.month as int, date.day as int) * 86400,
{
    chrono::NaiveDate::from_ymd_opt(date.year, date.month, date.day).unwrap().and_hms_opt(
        0,
        0,
        0,
    ).unwrap().and_utc().timestamp()
}

/// A date given as `YYYY-MM-DD`.
pub fn date(value: &str) -> (r: Result<CalendarDate, String>)
    ensures
        match r {
            Ok(d) => date_shaped(value@) && spelled_date_valid(value@) && d.year
                == spelled_year(value@) && d.month == spelled_month(value@) && d.day
                == spelled_day(value@),
            Err(m) => if date_shaped(value@) {
                !spelled_date_valid(value@) && m@ == "Invalid calendar date"@
            } else {
                m@ == "Dates must be YYYY-MM-DD"@
            },
        },
{
    let v = chars_of(value);
    let mut shaped = v.len() == 10;
    let mut i: usize = 0;
    while shaped && i < 10
        invariant
            i <= 10,
            v@ == value@,
            shaped ==> v.len() == 10,
            shaped ==> forall|j: int|
                0 <= j < i ==> if j == 4 || j == 7 {
                    v@[j] == '-'
                } else {
                    is_digit(#[trigger] v@[j])
                },
            !shaped ==> !date_shaped(value@),
        decreases 10 - i,
    {
        let c = v[i];
        let ok = if i == 4 || i == 7 {
            c == '-'
        } else {
            '0' <= c && c <= '9'
        };
        if !ok {
            shaped = false;
        }
        i = i + 1;
    }
    if !shaped {
        return Err(String::from_str("Dates must be YYYY-MM-DD"));
    }
    assert(date_shaped(value@));
    match parse_calendar_date(value) {
        Some((y, m, d)) => Ok(CalendarDate { year: y, month: m, day: d }),
        None => Err(String::from_str("Invalid calendar date")),
    }
}

/// The day after a valid day.
pub open spec fn next_day(y: int, m: int, d: int) -> (int, int, int) {
    if d < month_days(y, m) {
        (y, m, d + 1)
    } else if m < 12 {
        (y, m + 1, 1)
    } else {
        (y + 1, 1, 1)
    }
}

/// Consecutive days are 86400 seconds apart, so a range that ends 86400 seconds after
/// the start of its last day takes in that whole day and nothing of the next.
pub proof fn law_next_day_starts_a_day_later(y: int, m: int, d: int)
    requires
        valid_day(y, m, d),
    ensures
        ({
            let (y2, m2, d2) = next_day(y, m, d);
            epoch_day(y2, m2, d2) * 86400 == epoch_day(y, m, d) * 86400 + 86400
        }),
{
    let (y2, m2, d2) = next_day(y, m, d);
    if d == month_days(y, m) && m == 12 {
        assert(days_before_year(y + 1) == days_before_year(y) + 365 + if is_leap(y) {
            1int
        } else {
            0int
        }) by {
            assert((y + 4) / 4 == (y + 3) / 4 + if y % 4 == 0 {
                1int
            } else {
                0int
            });
            assert((y + 100) / 100 == (y + 99) / 100 + if y % 100 == 0 {
                1int
            } else {
                0int
            });
            assert((y + 400) / 400 == (y + 399) / 400 + if y % 400 == 0 {
                1int
            } else {
                0int
            });
        }
    }
    assert(epoch_day(y2, m2, d2) == epoch_day(y, m, d) + 1);
}

/// Why a text is not a date.
pub open spec fn date_error(s: Seq<char>) -> Seq<char> {
    if date_shaped(s) {
        "Invalid calendar date"@
    } else {
        "Dates must be YYYY-MM-DD"@
    }
}

/// The Unix time at which a day starts, in UTC.
pub open spec fn start_of(d: CalendarDate) -> int {
    epoch_day(d.year as int, d.month as int, d.day as int) * 86400
}

pub open spec fn spec_date(s: Seq<char>) -> Option<CalendarDate> {
    if date_shaped(s) && spelled_date_valid(s) {
        Some(
            CalendarDate {
                year: spelled_year(s) as i32,
                month: spelled_month(s) as u32,
                day: spelled_day(s) as u32,
            },
        )
    } else {
        None
    }
}

proof fn lemma_day_bounds(y: int, m: int, d: int)
    requires
        valid_day(y, m, d),
    ensures
        -1_000_000 <= epoch_day(y, m, d) <= 3_000_000,
{
}

/// The half-open range of Unix times that `--since` and `--until` select: from the
/// start of the `since` day to the end of the `until` day, both in UTC; without a
/// bound the range is open on that side.
pub fn date_range(since: &Option<String>, until: &Option<String>) -> (r: Result<(i64, i64), String>)
    ensures
        match r {
            Ok((start, end)) => {
                &&& match since {
                    Some(s) => spec_date(s@) is Some && start == start_of(spec_date(s@)->0),
                    None => start == i64::MIN,
                }
                &&& match until {
                    Some(u) => spec_date(u@) is Some && end == start_of(spec_date(u@)->0)
                        + 86400,
                    None => end == i64::MAX,
                }
            },
            Err(m) => match since {
                Some(s) if spec_date(s@) is None => m@ == date_error(s@),
                _ => until matches Some(u) && spec_date(u@) is None && m@ == date_error(u@),
            },
        },
{
    let start = match since {
        Some(s) => match date(s.as_str()) {
            Ok(d) => {
                proof {
                    lemma_day_bounds(d.year as int, d.month as int, d.day as int);
                }
                day_start(&d)
            },
            Err(m) => return Err(m),
        },
        None => i64::MIN,
    };
    let end = match until {
        Some(u) => match date(u.as_str()) {
            Ok(d) => {
                proof {
                    lemma_day_bounds(d.year as int, d.month as int, d.day as int);
                }
                day_start(&d) + 86400
            },
            Err(m) => return Err(m),
        },
        None => i64::MAX,
    };
    Ok((start, end))
}

// ---------------------------------------------------------------------------
// Commits selected by date
// ---------------------------------------------------------------------------
/// How Rust's integer parsing rejects a text.
pub enum IntError {
    Empty,
    InvalidDigit,
    PosOverflow,
    NegOverflow,
}

/// The message Rust gives for each way integer parsing fails.
pub open spec fn int_error_message(e: IntError) -> Seq<char> {
    match e {
        IntError::Empty => "cannot parse integer from empty string"@,
        IntError::InvalidDigit => "invalid digit found in string"@,
        IntError::PosOverflow => "number too large to fit in target type"@,
        IntError::NegOverflow => "number too small to fit in target type"@,
    }
}

impl IntError {
    pub fn message(&self) -> (r: String)
        ensures
            r@ == int_error_message(*self),
    {
        match self {
            IntError::Empty => String::from_str("cannot parse integer from empty string"),
            IntError::InvalidDigit => String::from_str("invalid digit found in string"),
            IntError::PosOverflow => String::from_str("number too large to fit in target type"),
            IntError::NegOverflow => String::from_str("number too small to fit in target type"),
        }
    }
}

pub open spec fn digit_of(c: char) -> int {
    c as int - '0' as int
}

/// Reads the decimal digits of `s` from position `i` on, the value so far being `v`
/// (built downwards when `neg`), failing at the first character that is no digit or
/// that takes the value out of the range of `i64`.
pub open spec fn scan_i64(s: Seq<char>, i: int, v: int, neg: bool) -> Result<int, IntError>
    decreases s.len() - i,
{
    if i >= s.len() {
        Ok(v)
    } else if !is_digit(s[i]) {
        Err(IntError::InvalidDigit)
    } else {
        let w = if neg {
            v * 10 - digit_of(s[i])
        } else {
            v * 10 + digit_of(s[i])
        };
        if w < i64::MIN || w > i64::MAX {
            Err(
                if neg {
                    IntError::NegOverflow
                } else {
                    IntError::PosOverflow
                },
            )
        } else {
            scan_i64(s, i + 1, w, neg)
        }
    }
}

/// `str::parse::<i64>`: an optional sign, then decimal digits.
pub open spec fn spec_parse_i64(s: Seq<char>) -> Result<int, IntError> {
    if s.len() == 0 {
        Err(IntError::Empty)
    } else if (s[0] == '+' || s[0] == '-') && s.len() == 1 {
        Err(IntError::InvalidDigit)
    } else if s[0] == '+' {
        scan_i64(s, 1, 0, false)
    } else if s[0] == '-' {
        scan_i64(s, 1, 0, true)
    } else {
        scan_i64(s, 0, 0, false)
    }
}

pub fn parse_i64(v: &[char]) -> (r: Result<i64, IntError>)
    ensures
        match spec_parse_i64(v@) {
            Ok(n) => r matches Ok(m) && m == n,
            Err(e) => r matches Err(f) && f == e,
        },
{
    if v.len() == 0 {
        return Err(IntError::Empty);
    }
    if (v[0] == '+' || v[0] == '-') && v.len() == 1 {
        return Err(IntError::InvalidDigit);
    }
    let neg = v[0] == '-';
    let mut i: usize = if v[0] == '+' || v[0] == '-' {
        1
    } else {
        0
    };
    let mut acc: i128 = 0;
    while i < v.len()
        invariant
            i <= v.len(),
            i64::MIN <= acc <= i64::MAX,
            spec_parse_i64(v@) == scan_i64(v@, i as int, acc as int, neg),
        decreases v.len() - i,
    {
        let c = v[i];
        if !('0' <= c && c <= '9') {
            return Err(IntError::InvalidDigit);
        }
        let d = ((c as u32) - ('0' as u32)) as i128;
        let w = if neg {
            acc * 10 - d
        } else {
            acc * 10 + d
        };
        if w < (i64::MIN as i128) || w > (i64::MAX as i128) {
            return Err(
                if neg {
                    IntError::NegOverflow
                } else {
                    IntError::PosOverflow
                },
            );
        }
        acc = w;
        i = i + 1;
    }
    Ok(acc as i64)
}

/// The commits of a `rev-list --timestamp` listing whose time lies in
/// `[start, end)`, each as its time and hash, in listing order. A line without a space
/// is passed over; a line whose time is no integer fails the whole listing.
pub open spec fn dated_records(ls: Seq<Seq<char>>, start: int, end: int) -> Result<
    Seq<(int, Seq<char>)>,
    IntError,
>
    decreases ls.len(),
{
    if ls.len() == 0 {
        Ok(seq![])
    } else {
        match dated_records(ls.drop_last(), start, end) {
            Err(e) => Err(e),
            Ok(rs) => {
                let l = ls.last();
                let k = index_of(l, ' ');
                if k < 0 {
                    Ok(rs)
                } else {
                    match spec_parse_i64(l.take(k)) {
                        Err(e) => Err(e),
                        Ok(t) => if start <= t < end {
                            Ok(rs.push((t, l.skip(k + 1))))
                        } else {
                            Ok(rs)
                        },
                    }
                }
            },
        }
    }
}

pub open spec fn record_keys(rs: Seq<(int, Seq<char>)>) -> Seq<i128> {
    rs.map_values(|x: (int, Seq<char>)| x.0 as i128)
}

/// The first `limit` records in `order` (all of them without a limit), as hashes.
pub open spec fn picked(rs: Seq<(int, Seq<char>)>, order: Seq<usize>, limit: Option<usize>) -> Seq<
    Seq<char>,
> {
    let n = match limit {
        Some(n) => if n < order.len() {
            n as int
        } else {
            order.len() as int
        },
        None => order.len() as int,
    };
    order.take(n).map_values(|j: usize| rs[j as int].1)
}

pub open spec fn strings_view(v: Seq<String>) -> Seq<Seq<char>> {
    v.map_values(|s: String| s@)
}

/// The commits of a `rev-list --timestamp` listing made in `[start, end)`, newest
/// first (commits of the same second in listing order), at most `limit` of them.
pub fn select_by_date(output: &str, start: i64, end: i64, limit: Option<usize>) -> (r: Result<
    Vec<String>,
    String,
>)
    ensures
        dated_records(spec_lines(output@), start as int, end as int) matches Ok(rs) ==> r is Ok
            && exists|o: Seq<usize>|
            #![trigger picked(rs, o, limit)]
            is_stable_descending(record_keys(rs), o) && strings_view(r->Ok_0@) == picked(
                rs,
                o,
                limit,
            ),
        dated_records(spec_lines(output@), start as int, end as int) matches Err(e) ==> r is Err
            && r->Err_0@ == int_error_message(e),
{
    let text = chars_of(output);
    let lines = lines_of(&text);
    let ghost ls = spec_lines(output@);
    let mut times: Vec<i64> = Vec::new();
    let mut hashes: Vec<Vec<char>> = Vec::new();
    let mut i: usize = 0;
    assert(ls.take(0) =~= Seq::<Seq<char>>::empty());
    assert(Seq::new(times.len() as nat, |j: int| (times@[j] as int, hashes@[j]@)) =~= Seq::<
        (int, Seq<char>),
    >::empty());
    while i < lines.len()
        invariant
            i <= lines.len(),
            lines@.map_values(|l: Vec<char>| l@) == ls,
            ls == spec_lines(output@),
            times.len() == hashes.len(),
            dated_records(ls.take(i as int), start as int, end as int) == Ok::<
                Seq<(int, Seq<char>)>,
                IntError,
            >(
                Seq::new(
                    times.len() as nat,
                    |j: int| (times@[j] as int, hashes@[j]@),
                ),
            ),
        decreases lines.len() - i,
    {
        let line = &lines[i];
        let ghost l = ls[i as int];
        let ghost before = Seq::new(times.len() as nat, |j: int| (times@[j] as int, hashes@[j]@));
        proof {
            assert(ls.take(i + 1).drop_last() =~= ls.take(i as int));
            assert(ls.take(i + 1).last() == l);
            assert(line@ == l);
        }
        match find_from(line, 0, ' ') {
            None => {
                proof {
                    lemma_index_of(l, ' ', l.len() as int);
                }
            },
            Some(k) => {
                proof {
                    lemma_index_of(l, ' ', k as int);
                }
                let head = slice_chars(line, 0, k);
                assert(head@ =~= l.take(k as int));
                match parse_i64(&head) {
                    Err(e) => {
                        proof {
                            assert(dated_records(ls.take(i + 1), start as int, end as int)
                                == Err::<Seq<(int, Seq<char>)>, IntError>(e));
                            lemma_records_fail(ls, i as int, start as int, end as int);
                            assert(dated_records(spec_lines(output@), start as int, end as int)
                                == Err::<Seq<(int, Seq<char>)>, IntError>(e));
                        }
                        let m = e.message();
                        assert(m@ == int_error_message(e));
                        return Err(m);
                    },
                    Ok(t) => {
                        if start <= t && t < end {
                            let tail = slice_chars(line, k + 1, line.len());
                            assert(tail@ =~= l.skip(k + 1));
                            times.push(t);
                            hashes.push(tail);
                            assert(Seq::new(
                                times.len() as nat,
                                |j: int| (times@[j] as int, hashes@[j]@),
                            ) =~= before.push((t as int, l.skip(k + 1))));
                        }
                    },
                }
            },
        }
        proof {
            assert(Seq::new(times.len() as nat, |j: int| (times@[j] as int, hashes@[j]@))
                =~= Seq::new(times.len() as nat, |j: int| (times@[j] as int, hashes@[j]@)));
        }
        i = i + 1;
    }
    assert(ls.take(lines.len() as int) =~= ls);
    let ghost rs = Seq::new(times.len() as nat, |j: int| (times@[j] as int, hashes@[j]@));
    let mut keys: Vec<i128> = Vec::new();
    let mut j: usize = 0;
    while j < times.len()
        invariant
            j <= times.len(),
            keys@ =~= record_keys(rs).take(j as int),
            rs.len() == times.len(),
            rs == Seq::new(times.len() as nat, |j: int| (times@[j] as int, hashes@[j]@)),
        decreases times.len() - j,
    {
        keys.push(times[j] as i128);
        j = j + 1;
        assert(keys@ =~= record_keys(rs).take(j as int));
    }
    assert(record_keys(rs).take(times.len() as int) =~= record_keys(rs));
    let order = stable_descending(&keys);
    let n = match limit {
        Some(n) => if n < order.len() {
            n
        } else {
            order.len()
        },
        None => order.len(),
    };
    let mut out: Vec<String> = Vec::new();
    let mut q: usize = 0;
    while q < n
        invariant
            q <= n <= order.len(),
            order.len() == times.len(),
            hashes.len() == times.len(),
            forall|x: int| 0 <= x < order.len() ==> (#[trigger] order@[x]) < times.len(),
            strings_view(out@) =~= order@.take(q as int).map_values(|x: usize| rs[x as int].1),
            rs == Seq::new(times.len() as nat, |j: int| (times@[j] as int, hashes@[j]@)),
        decreases n - q,
    {
        let ghost before = out@;
        let h = string_from(&hashes[order[q]]);
        out.push(h);
        proof {
            let x = order@[q as int];
            assert(rs[x as int].1 == hashes@[x as int]@);
            assert(order@.take(q + 1) =~= order@.take(q as int).push(x));
            assert(strings_view(out@) =~= strings_view(before).push(h@));
        }
        q = q + 1;
        assert(strings_view(out@) =~= order@.take(q as int).map_values(
            |x: usize| rs[x as int].1,
        ));
    }
    assert(strings_view(out@) == picked(rs, order@, limit));
    assert(is_stable_descending(record_keys(rs), order@));
    assert(dated_records(spec_lines(output@), start as int, end as int) == Ok::<
        Seq<(int, Seq<char>)>,
        IntError,
    >(rs));
    let r: Result<Vec<String>, String> = Ok(out);
    proof {
        let d = dated_records(spec_lines(output@), start as int, end as int);
        assert(d->Ok_0 == rs);
        assert(strings_view(r->Ok_0@) == picked(d->Ok_0, order@, limit));
        assert(is_stable_descending(record_keys(d->Ok_0), order@));
    }
    r
}

proof fn lemma_records_fail(ls: Seq<Seq<char>>, i: int, start: int, end: int)
    requires
        0 <= i < ls.len(),
        dated_records(ls.take(i), start, end) is Ok,
        dated_records(ls.take(i + 1), start, end) is Err,
    ensures
        dated_records(ls, start, end) == dated_records(ls.take(i + 1), start, end),
    decreases ls.len() - i,
{
    if i + 1 < ls.len() {
        lemma_records_fail_extend(ls, i + 1, start, end);
    } else {
        assert(ls.take(i + 1) =~= ls);
    }
}

proof fn lemma_records_fail_extend(ls: Seq<Seq<char>>, k: int, start: int, end: int)
    requires
        0 < k <= ls.len(),
        dated_records(ls.take(k), start, end) is Err,
    ensures
        dated_records(ls, start, end) == dated_records(ls.take(k), start, end),
    decreases ls.len() - k,
{
    if k < ls.len() {
        assert(ls.take(k + 1).drop_last() =~= ls.take(k));
        lemma_records_fail_extend(ls, k + 1, start, end);
    } else {
        assert(ls.take(k) =~= ls);
    }
}

// ---------------------------------------------------------------------------
// One requested commit
// ---------------------------------------------------------------------------
/// The commit that `--commit` asks for. It cannot be combined with a count, a date
/// range or first-parent traversal.
pub fn requested_commit(o: &Options) -> (r: Result<Option<String>, String>)
    ensures
        match o.commit {
            None => r matches Ok(c) && c is None,
            Some(c) => if o.limit is None && o.since is None && o.until is None && !o.first_parent {
                r matches Ok(x) && x matches Some(y) && y@ == c@
            } else {
                r matches Err(m) && m@ == "--commit cannot be combined with history selection options"@
            },
        },
{
    match &o.commit {
        None => Ok(None),
        Some(c) => {
            if o.limit.is_none() && o.since.is_none() && o.until.is_none() && !o.first_parent {
                Ok(Some(c.clone()))
            } else {
                Err(String::from_str("--commit cannot be combined with history selection options"))
            }
        },
    }
}

/// How many of the latest commits a scan reads: the count asked for, else 250.
pub fn history_limit(limit: Option<usize>) -> (r: usize)
    ensures
        r == match limit {
            Some(n) => n,
            None => 250,
        },
{
    match limit {
        Some(n) => n,
        None => 250,
    }
}

/// Git answered a yes-or-no question with yes: its trimmed output is `true`.
pub fn reports_true(output: &str) -> (r: bool)
    ensures
        r == (crate::text::spec_trim(output@) == "true"@),
{
    let t = crate::text::trim(&chars_of(output));
    let s = string_from(&t);
    crate::text::str_eq(s.as_str(), "true")
}

/// How to find a local repository's root: its Git directory when it is bare, else
/// its work tree's top level.
pub fn toplevel_flag(bare: &str) -> (r: &'static str)
    ensures
        r@ == if crate::text::spec_trim(bare@) == "true"@ {
            "--absolute-git-dir"@
        } else {
            "--show-toplevel"@
        },
{
    if reports_true(bare) {
        "--absolute-git-dir"
    } else {
        "--show-toplevel"
    }
}

/// A control character, as `char::is_control` tells it (general category Cc).
pub open spec fn is_control(c: char) -> bool {
    c <= '\u{1f}' || ('\u{7f}' <= c && c <= '\u{9f}')
}

/// A reference Git may be asked to resolve: not empty, not read as an option, and
/// free of control characters.
pub open spec fn acceptable_reference(s: Seq<char>) -> bool {
    s.len() > 0 && s[0] != '-' && forall|i: int| 0 <= i < s.len() ==> !is_control(#[trigger] s[i])
}

pub fn check_reference(reference: &str) -> (r: Result<(), String>)
    ensures
        r is Ok <==> acceptable_reference(reference@),
        r matches Err(m) ==> m@ == "Pass one commit SHA or Git reference to --commit"@,
{
    let v = chars_of(reference);
    let mut ok = v.len() > 0 && v[0] != '-';
    let mut i: usize = 0;
    while ok && i < v.len()
        invariant
            i <= v.len(),
            v@ == reference@,
            ok ==> v.len() > 0 && v@[0] != '-',
            ok ==> forall|j: int| 0 <= j < i ==> !is_control(#[trigger] v@[j]),
            !ok ==> !acceptable_reference(reference@),
        decreases v.len() - i,
    {
        let c = v[i];
        if c <= '\u{1f}' || ('\u{7f}' <= c && c <= '\u{9f}') {
            ok = false;
        }
        i = i + 1;
    }
    if ok {
        Ok(())
    } else {
        Err(String::from_str("Pass one commit SHA or Git reference to --commit"))
    }
}

pub open spec fn is_hex_digit(c: char) -> bool {
    ('0' <= c <= '9') || ('a' <= c <= 'f') || ('A' <= c <= 'F')
}

/// A full object ID: 40 (SHA-1) or 64 (SHA-256) hexadecimal digits. Only such an ID
/// is ever passed to a fetch.
pub open spec fn spec_full_sha(s: Seq<char>) -> bool {
    (s.len() == 40 || s.len() == 64) && forall|i: int| 0 <= i < s.len() ==> is_hex_digit(#[trigger] s[i])
}

pub fn is_full_sha(reference: &str) -> (r: bool)
    ensures
        r == spec_full_sha(reference@),
{
    let v = chars_of(reference);
    if v.len() != 40 && v.len() != 64 {
        return false;
    }
    let mut i: usize = 0;
    while i < v.len()
        invariant
            i <= v.len(),
            v@ == reference@,
            forall|j: int| 0 <= j < i ==> is_hex_digit(#[trigger] v@[j]),
        decreases v.len() - i,
    {
        let c = v[i];
        if !(('0' <= c && c <= '9') || ('a' <= c && c <= 'f') || ('A' <= c && c <= 'F')) {
            return false;
        }
        i = i + 1;
    }
    true
}

/// The error for a reference that resolves to no single commit.
pub fn unresolved(reference: &str) -> (r: String)
    ensures
        r@ == "Could not resolve '"@ + reference@
            + "' to exactly one commit; use a full SHA or an available Git reference"@,
{
    let mut v: Vec<char> = Vec::new();
    append_chars(&mut v, "Could not resolve '");
    append_chars(&mut v, reference);
    append_chars(&mut v, "' to exactly one commit; use a full SHA or an available Git reference");
    string_from(&v)
}

/// Position of the first blank line break (two `\n` in a row) at or after `i`, or -1.
pub open spec fn blank_from(s: Seq<char>, i: int) -> int
    decreases s.len() - i,
{
    if i < 0 || i + 1 >= s.len() {
        -1
    } else if s[i] == '\n' && s[i + 1] == '\n' {
        i
    } else {
        blank_from(s, i + 1)
    }
}

/// The header of a raw Git object: what precedes the first blank line.
pub open spec fn object_header(raw: Seq<char>) -> Seq<char> {
    if blank_from(raw, 0) >= 0 {
        raw.take(blank_from(raw, 0))
    } else {
        raw
    }
}

/// The raw commit object names a parent: a header line starts with `parent `.
pub open spec fn spec_lists_parent(raw: Seq<char>) -> bool {
    exists|k: int|
        0 <= k < spec_lines(object_header(raw)).len() && is_prefix(
            "parent "@,
            #[trigger] spec_lines(object_header(raw))[k],
        )
}

pub fn lists_parent(raw: &str) -> (r: bool)
    ensures
        r == spec_lists_parent(raw@),
{
    let v = chars_of(raw);
    let mut i: usize = 0;
    while i < v.len() && i + 1 < v.len() && !(v[i] == '\n' && v[i + 1] == '\n')
        invariant
            i <= v.len(),
            v@ == raw@,
            blank_from(v@, 0) == blank_from(v@, i as int),
        decreases v.len() - i,
    {
        i = i + 1;
    }
    let end = if i < v.len() && i + 1 < v.len() {
        i
    } else {
        v.len()
    };
    let header = slice_chars(&v, 0, end);
    assert(header@ =~= object_header(raw@));
    let lines = lines_of(&header);
    let mut k: usize = 0;
    while k < lines.len()
        invariant
            k <= lines.len(),
            lines@.map_values(|l: Vec<char>| l@) == spec_lines(object_header(raw@)),
            forall|j: int| 0 <= j < k ==> !is_prefix("parent "@, #[trigger] spec_lines(object_header(raw@))[j]),
        decreases lines.len() - k,
    {
        if starts_with(&lines[k], "parent ") {
            assert(lines@[k as int]@ == spec_lines(object_header(raw@))[k as int]);
            return true;
        }
        assert(lines@[k as int]@ == spec_lines(object_header(raw@))[k as int]);
        k = k + 1;
    }
    false
}

/// A commit Git lists without parents whose raw object still names a parent has its
/// parent outside the history at hand, and its diff cannot be built. `raw` is the
/// commit's raw object (`git cat-file -p`), read only for a commit listed without
/// parents.
pub fn check_parents(meta: &CommitMetadata, raw: &str) -> (r: Result<(), String>)
    ensures
        r is Err <==> (meta.parents@.len() == 0 && spec_lists_parent(raw@)),
        r matches Err(m) ==> m@ == "Commit parent is outside available history"@,
{
    if meta.parents.len() == 0 && lists_parent(raw) {
        Err(String::from_str("Commit parent is outside available history"))
    } else {
        Ok(())
    }
}

/// How many whitespace-separated fields a listing has; a `rev-list --parents` line
/// of one field is a commit shown without parents.
pub fn field_count(listing: &str) -> (r: usize)
    ensures
        r == spec_fields(listing@).len(),
{
    let v = chars_of(listing);
    fields_of(&v).len()
}

// ---------------------------------------------------------------------------
// Commit metadata
// ---------------------------------------------------------------------------
/// What `git show -s --format=%H%x00%P%x00%aI%x00%an%x00%cI%x00%B` tells of a commit.
pub struct CommitMetadata {
    pub sha: String,
    pub parents: Vec<String>,
    pub date: String,
    pub author: String,
    pub committed_at: String,
    pub message: String,
}

/// Six NUL-separated fields: hash, parents, author date, author, committer date and
/// message; parents separated by whitespace, the message without trailing whitespace.
pub fn commit_metadata(output: &str) -> (r: Result<CommitMetadata, String>)
    ensures
        ({
            let f = spec_split(output@, '\0');
            match r {
                Ok(m) => f.len() == 6 && m.sha@ == f[0] && strings_view(m.parents@) == spec_fields(
                    f[1],
                ) && m.date@ == f[2] && m.author@ == f[3] && m.committed_at@ == f[4]
                    && m.message@ == trim_end(f[5]),
                Err(e) => f.len() != 6 && e@ == "Unexpected Git commit metadata"@,
            }
        }),
{
    let v = chars_of(output);
    let f = split_chars(&v, '\0');
    let ghost fv = spec_split(output@, '\0');
    assert(f@.map_values(|l: Vec<char>| l@) == fv);
    if f.len() != 6 {
        return Err(String::from_str("Unexpected Git commit metadata"));
    }
    assert(f@[0]@ == fv[0] && f@[1]@ == fv[1] && f@[2]@ == fv[2]);
    assert(f@[3]@ == fv[3] && f@[4]@ == fv[4] && f@[5]@ == fv[5]);
    let fields = fields_of(&f[1]);
    let mut parents: Vec<String> = Vec::new();
    let mut i: usize = 0;
    while i < fields.len()
        invariant
            i <= fields.len(),
            fields@.map_values(|l: Vec<char>| l@) == spec_fields(fv[1]),
            strings_view(parents@) == spec_fields(fv[1]).take(i as int),
        decreases fields.len() - i,
    {
        let ghost before = parents@;
        parents.push(string_from(&fields[i]));
        assert(fields@[i as int]@ == spec_fields(fv[1])[i as int]);
        assert(strings_view(parents@) =~= strings_view(before).push(fields@[i as int]@));
        assert(spec_fields(fv[1]).take(i + 1) =~= spec_fields(fv[1]).take(i as int).push(
            spec_fields(fv[1])[i as int],
        ));
        i = i + 1;
    }
    assert(spec_fields(fv[1]).take(fields.len() as int) =~= spec_fields(fv[1]));
    let message = trim_end_chars(&f[5]);
    Ok(
        CommitMetadata {
            sha: string_from(&f[0]),
            parents,
            date: string_from(&f[2]),
            author: string_from(&f[3]),
            committed_at: string_from(&f[4]),
            message: string_from(&message),
        },
    )
}

/// The non-empty pieces of a list.
pub open spec fn non_empty(ps: Seq<Seq<char>>) -> Seq<Seq<char>>
    decreases ps.len(),
{
    if ps.len() == 0 {
        seq![]
    } else if ps.last().len() > 0 {
        non_empty(ps.drop_last()).push(ps.last())
    } else {
        non_empty(ps.drop_last())
    }
}

/// The paths of a NUL-separated `diff-tree -z --name-only` listing.
pub fn changed_files(output: &str) -> (r: Vec<String>)
    ensures
        strings_view(r@) == non_empty(spec_split(output@, '\0')),
{
    let v = chars_of(output);
    let f = split_chars(&v, '\0');
    let ghost fv = spec_split(output@, '\0');
    let mut out: Vec<String> = Vec::new();
    let mut i: usize = 0;
    assert(fv.take(0) =~= Seq::<Seq<char>>::empty());
    while i < f.len()
        invariant
            i <= f.len(),
            f@.map_values(|l: Vec<char>| l@) == fv,
            strings_view(out@) == non_empty(fv.take(i as int)),
        decreases f.len() - i,
    {
        let ghost before = out@;
        assert(fv.take(i + 1).drop_last() =~= fv.take(i as int));
        assert(fv.take(i + 1).last() == f@[i as int]@);
        if f[i].len() > 0 {
            out.push(string_from(&f[i]));
            assert(strings_view(out@) =~= strings_view(before).push(f@[i as int]@));
        }
        i = i + 1;
    }
    assert(fv.take(f.len() as int) =~= fv);
    out
}

/// The commit record: a merge when it has more than one parent.
pub fn commit_record(meta: CommitMetadata, files: Vec<String>) -> (r: Commit)
    ensures
        r.sha@ == meta.sha@,
        r.parents@ == meta.parents@,
        r.date@ == meta.date@,
        r.author@ == meta.author@,
        r.message@ == meta.message@,
        r.committed_at@ == meta.committed_at@,
        r.files@ == files@,
        r.merge == (meta.parents.len() > 1),
        r.excluded_files == 0,
{
    let merge = meta.parents.len() > 1;
    Commit {
        sha: meta.sha,
        parents: meta.parents,
        date: meta.date,
        author: meta.author,
        message: meta.message,
        committed_at: meta.committed_at,
        files,
        merge,
        excluded_files: 0,
    }
}

// ---------------------------------------------------------------------------
// Review order
// ---------------------------------------------------------------------------
/// Review sizes of commits, by hash: an association list, looked up by the first
/// entry with the hash.
pub struct Sizes {
    entries: Vec<(Vec<char>, usize)>,
}

pub open spec fn key_index(s: Seq<(Seq<char>, usize)>, k: Seq<char>) -> int
    decreases s.len(),
{
    if s.len() == 0 {
        -1
    } else if s[0].0 == k {
        0
    } else {
        let r = key_index(s.skip(1), k);
        if r < 0 {
            -1
        } else {
            r + 1
        }
    }
}

proof fn lemma_key_index(s: Seq<(Seq<char>, usize)>, k: Seq<char>, i: int)
    requires
        0 <= i <= s.len(),
        forall|j: int| 0 <= j < i ==> s[j].0 != k,
        i == s.len() || s[i].0 == k,
    ensures
        key_index(s, k) == if i == s.len() {
            -1
        } else {
            i
        },
    decreases s.len(),
{
    if s.len() > 0 && i > 0 {
        lemma_key_index(s.skip(1), k, i - 1);
    }
}

/// The size recorded for hash `k`.
pub open spec fn size_of(s: Seq<(Seq<char>, usize)>, k: Seq<char>) -> Option<usize> {
    if key_index(s, k) >= 0 {
        Some(s[key_index(s, k)].1)
    } else {
        None
    }
}

/// The list with `k`'s size set to `v`.
pub open spec fn with_size(s: Seq<(Seq<char>, usize)>, k: Seq<char>, v: usize) -> Seq<
    (Seq<char>, usize),
> {
    if key_index(s, k) >= 0 {
        s.update(key_index(s, k), (k, v))
    } else {
        s.push((k, v))
    }
}

pub open spec fn sat_add(a: int, b: int) -> int {
    if a + b > usize::MAX {
        usize::MAX as int
    } else {
        a + b
    }
}

/// What a numstat entry adds to its commit's size: nothing unless it reads
/// `added<TAB>removed<TAB>path` (after an optional line break) for a path the file
/// policy reviews; then the changed lines plus 40 for the file's context, or half
/// the largest size when a count is no number, as for a binary file.
pub open spec fn entry_cost(field: Seq<char>) -> Option<int> {
    let f = if field.len() > 0 && field[0] == '\n' {
        field.skip(1)
    } else {
        field
    };
    let t1 = index_of(f, '\t');
    if t1 < 0 {
        None
    } else {
        let rest = f.skip(t1 + 1);
        let t2 = index_of(rest, '\t');
        if t2 < 0 {
            None
        } else if !spec_eligible(rest.skip(t2 + 1)) {
            None
        } else {
            match (
                spec_parse_unsigned(f.take(t1), usize::MAX as nat),
                spec_parse_unsigned(rest.take(t2), usize::MAX as nat),
            ) {
                (Some(a), Some(b)) => Some(sat_add(sat_add(a as int, b as int), 40)),
                _ => Some((usize::MAX / 2) as int),
            }
        }
    }
}

pub open spec fn in_batch(batch: Seq<Seq<char>>, f: Seq<char>) -> bool {
    exists|k: int| 0 <= k < batch.len() && batch[k] == f
}

/// Sizes and current commit after reading the fields of a `show --numstat -z`
/// listing: a field that is one of the batch's hashes starts that commit at size 0;
/// each following entry adds its cost, saturating.
pub open spec fn numstat_state(
    fields: Seq<Seq<char>>,
    batch: Seq<Seq<char>>,
    sizes: Seq<(Seq<char>, usize)>,
) -> (Seq<(Seq<char>, usize)>, Option<Seq<char>>)
    decreases fields.len(),
{
    if fields.len() == 0 {
        (sizes, None)
    } else {
        let (s, c) = numstat_state(fields.drop_last(), batch, sizes);
        let f = fields.last();
        if in_batch(batch, f) {
            (with_size(s, f, 0), Some(f))
        } else {
            match c {
                None => (s, c),
                Some(sha) => match (entry_cost(f), size_of(s, sha)) {
                    (Some(cost), Some(v)) => (with_size(s, sha, sat_add(v as int, cost) as usize), c),
                    _ => (s, c),
                },
            }
        }
    }
}

/// The sort key of a commit: its size, or the largest size when nothing was recorded.
pub open spec fn size_key(s: Seq<(Seq<char>, usize)>, sha: Seq<char>) -> i128 {
    match size_of(s, sha) {
        Some(v) => -(v as int) as i128,
        None => -(usize::MAX as int) as i128,
    }
}

pub open spec fn size_keys(s: Seq<(Seq<char>, usize)>, ids: Seq<Seq<char>>) -> Seq<i128> {
    ids.map_values(|sha: Seq<char>| size_key(s, sha))
}

impl View for Sizes {
    type V = Seq<(Seq<char>, usize)>;

    closed spec fn view(&self) -> Seq<(Seq<char>, usize)> {
        self.entries@.map_values(|e: (Vec<char>, usize)| (e.0@, e.1))
    }
}

impl Sizes {
    pub fn new() -> (r: Sizes)
        ensures
            r@ == Seq::<(Seq<char>, usize)>::empty(),
    {
        let r = Sizes { entries: Vec::new() };
        assert(r@ =~= Seq::<(Seq<char>, usize)>::empty());
        r
    }

    fn find(&self, k: &[char]) -> (r: Option<usize>)
        ensures
            match r {
                Some(i) => key_index(self@, k@) == i && i < self@.len(),
                None => key_index(self@, k@) == -1,
            },
    {
        let mut i: usize = 0;
        while i < self.entries.len()
            invariant
                i <= self.entries.len(),
                self@.len() == self.entries.len(),
                forall|j: int| 0 <= j < i ==> self@[j].0 != k@,
            decreases self.entries.len() - i,
        {
            if equal_chars(&self.entries[i].0, k) {
                proof {
                    lemma_key_index(self@, k@, i as int);
                }
                return Some(i);
            }
            i = i + 1;
        }
        proof {
            lemma_key_index(self@, k@, i as int);
        }
        None
    }

    fn set(&mut self, k: &[char], v: usize)
        ensures
            final(self)@ == with_size(old(self)@, k@, v),
    {
        let ghost before = self@;
        let key = slice_chars(k, 0, k.len());
        assert(key@ =~= k@);
        match self.find(k) {
            Some(i) => {
                self.entries.set(i, (key, v));
                assert(self@ =~= before.update(i as int, (k@, v)));
            },
            None => {
                self.entries.push((key, v));
                assert(self@ =~= before.push((k@, v)));
            },
        }
    }

    fn get(&self, k: &[char]) -> (r: Option<usize>)
        ensures
            r == size_of(self@, k@),
    {
        match self.find(k) {
            Some(i) => Some(self.entries[i].1),
            None => None,
        }
    }

    /// Reads one batch's `show --numstat -z` listing into the sizes.
    pub fn record(&mut self, stats: &str, batch: &[String])
        ensures
            final(self)@ == numstat_state(
                spec_split(stats@, '\0'),
                strings_view(batch@),
                old(self)@,
            ).0,
    {
        let v = chars_of(stats);
        let fields = split_chars(&v, '\0');
        let ghost fv = spec_split(stats@, '\0');
        let ghost bv = strings_view(batch@);
        let mut ids: Vec<Vec<char>> = Vec::new();
        let mut b: usize = 0;
        while b < batch.len()
            invariant
                b <= batch.len(),
                bv == strings_view(batch@),
                ids@.map_values(|x: Vec<char>| x@) == bv.take(b as int),
            decreases batch.len() - b,
        {
            let ghost before = ids@.map_values(|x: Vec<char>| x@);
            let c = chars_of(batch[b].as_str());
            assert(c@ == bv[b as int]);
            ids.push(c);
            assert(ids@.map_values(|x: Vec<char>| x@) =~= before.push(c@));
            assert(bv.take(b + 1) =~= bv.take(b as int).push(bv[b as int]));
            b = b + 1;
        }
        assert(bv.take(batch.len() as int) =~= bv);
        let mut current: Option<Vec<char>> = None;
        let mut i: usize = 0;
        assert(fv.take(0) =~= Seq::<Seq<char>>::empty());
        while i < fields.len()
            invariant
                i <= fields.len(),
                fields@.map_values(|l: Vec<char>| l@) == fv,
                ids@.map_values(|x: Vec<char>| x@) == bv,
                ({
                    let st = numstat_state(fv.take(i as int), bv, old(self)@);
                    &&& self@ == st.0
                    &&& match current {
                        Some(c) => st.1 == Some(c@),
                        None => st.1 is None,
                    }
                }),
            decreases fields.len() - i,
        {
            let f = &fields[i];
            proof {
                assert(fv.take(i + 1).drop_last() =~= fv.take(i as int));
                assert(fv.take(i + 1).last() == f@);
            }
            let mut member = false;
            let mut k: usize = 0;
            while k < ids.len()
                invariant
                    k <= ids.len(),
                    ids@.map_values(|x: Vec<char>| x@) == bv,
                    !member ==> forall|j: int| 0 <= j < k ==> bv[j] != f@,
                    member ==> in_batch(bv, f@),
                decreases ids.len() - k,
            {
                if !member && equal_chars(&ids[k], f) {
                    member = true;
                    assert(bv[k as int] == f@);
                }
                k = k + 1;
            }
            if member {
                self.set(f, 0);
                current = Some(slice_chars(f, 0, f.len()));
            } else {
                match &current {
                    None => {},
                    Some(sha) => {
                        match entry_cost_exec(f) {
                            None => {},
                            Some(cost) => {
                                match self.get(sha) {
                                    None => {},
                                    Some(size) => {
                                        let total = size.saturating_add(cost);
                                        self.set(sha, total);
                                    },
                                }
                            },
                        }
                    },
                }
            }
            i = i + 1;
        }
        assert(fv.take(fields.len() as int) =~= fv);
    }

    /// The commits stably ordered by size, smallest first; a commit without a recorded
    /// size goes last.
    pub fn order(&self, ids: &[String]) -> (r: Vec<String>)
        ensures
            exists|o: Seq<usize>|
                #![trigger is_stable_descending(size_keys(self@, strings_view(ids@)), o)]
                is_stable_descending(size_keys(self@, strings_view(ids@)), o) && strings_view(r@)
                    == o.map_values(|j: usize| ids@[j as int]@),
    {
        let ghost iv = strings_view(ids@);
        let mut keys: Vec<i128> = Vec::new();
        let mut j: usize = 0;
        while j < ids.len()
            invariant
                j <= ids.len(),
                iv == strings_view(ids@),
                keys@ == size_keys(self@, iv).take(j as int),
            decreases ids.len() - j,
        {
            let c = chars_of(ids[j].as_str());
            let key: i128 = match self.get(&c) {
                Some(v) => -(v as i128),
                None => -(usize::MAX as i128),
            };
            keys.push(key);
            assert(keys@ =~= size_keys(self@, iv).take(j + 1));
            j = j + 1;
        }
        assert(size_keys(self@, iv).take(ids.len() as int) =~= size_keys(self@, iv));
        let order = stable_descending(&keys);
        let mut out: Vec<String> = Vec::new();
        let mut q: usize = 0;
        while q < order.len()
            invariant
                q <= order.len(),
                order.len() == ids.len(),
                forall|x: int| 0 <= x < order.len() ==> (#[trigger] order@[x]) < ids.len(),
                strings_view(out@) == order@.take(q as int).map_values(|x: usize| ids@[x as int]@),
            decreases order.len() - q,
        {
            let ghost before = out@;
            out.push(ids[order[q]].clone());
            proof {
                assert(order@.take(q + 1) =~= order@.take(q as int).push(order@[q as int]));
                assert(strings_view(out@) =~= strings_view(before).push(ids@[order@[q as int] as int]@));
            }
            q = q + 1;
            assert(strings_view(out@) =~= order@.take(q as int).map_values(|x: usize| ids@[x as int]@));
        }
        assert(order@.take(order.len() as int) =~= order@);
        assert(is_stable_descending(size_keys(self@, strings_view(ids@)), order@));
        out
    }
}

fn entry_cost_exec(field: &Vec<char>) -> (r: Option<usize>)
    ensures
        match entry_cost(field@) {
            Some(c) => r == Some(c as usize) && 0 <= c <= usize::MAX,
            None => r is None,
        },
{
    let start: usize = if field.len() > 0 && field[0] == '\n' {
        1
    } else {
        0
    };
    let f = slice_chars(field, start, field.len());
    assert(f@ =~= if field@.len() > 0 && field@[0] == '\n' {
        field@.skip(1)
    } else {
        field@
    });
    let t1 = match find_from(&f, 0, '\t') {
        Some(t) => t,
        None => {
            proof {
                lemma_index_of(f@, '\t', f@.len() as int);
            }
            return None;
        },
    };
    proof {
        lemma_index_of(f@, '\t', t1 as int);
    }
    let rest = slice_chars(&f, t1 + 1, f.len());
    assert(rest@ =~= f@.skip(t1 + 1));
    let t2 = match find_from(&rest, 0, '\t') {
        Some(t) => t,
        None => {
            proof {
                lemma_index_of(rest@, '\t', rest@.len() as int);
            }
            return None;
        },
    };
    proof {
        lemma_index_of(rest@, '\t', t2 as int);
    }
    let path = string_from(&slice_chars(&rest, t2 + 1, rest.len()));
    assert(path@ =~= rest@.skip(t2 + 1));
    if !eligible(path.as_str()) {
        return None;
    }
    let added = slice_chars(&f, 0, t1);
    let removed = slice_chars(&rest, 0, t2);
    assert(added@ =~= f@.take(t1 as int));
    assert(removed@ =~= rest@.take(t2 as int));
    match (parse_unsigned(&added, usize::MAX as u64), parse_unsigned(&removed, usize::MAX as u64)) {
        (Some(a), Some(b)) => Some((a as usize).saturating_add(b as usize).saturating_add(40)),
        _ => Some(usize::MAX / 2),
    }
}

} // verus!
