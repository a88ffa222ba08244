use vstd::prelude::*;

use crate::civil::{days_in_month, days_in_month_exec, CivilDate, CivilDateTime};

verus! {

/// A time of day at second granularity, not yet tied to any calendar day.
#[derive(Clone, Copy, Debug, PartialEq, Eq, Structural)]
pub struct TimeOfDay {
    pub hour: u32,
    pub minute: u32,
    pub second: u32,
}

/// What a time argument of `start`, `stop` or `--at` denotes: either a bare
/// time of day, to be placed on the current local day, or a full calendar
/// instant.
#[derive(Clone, Copy, Debug, PartialEq, Eq, Structural)]
pub enum ParsedDateTime {
    TimeOfDay(TimeOfDay),
    Full(CivilDateTime),
}

/// A window boundary of `show`: a whole calendar day or an exact instant.
#[derive(Clone, Copy, Debug, PartialEq, Eq, Structural)]
pub enum DateOrDateTime {
    Date(CivilDate),
    DateTime(CivilDateTime),
}

pub open spec fn is_digit(b: u8) -> bool {
    48 <= b <= 57
}

pub open spec fn all_digits(s: Seq<u8>) -> bool {
    forall|k: int| 0 <= k < s.len() ==> is_digit(#[trigger] s[k])
}

/// The number a sequence of decimal digit bytes denotes.
pub open spec fn digits_val(s: Seq<u8>) -> int
    decreases s.len(),
{
    if s.len() == 0 {
        0
    } else {
        digits_val(s.drop_last()) * 10 + (s.last() - 48)
    }
}

/// The first position at or after `from` holding byte `b`, or -1.
pub open spec fn find_byte(s: Seq<u8>, b: u8, from: int) -> int
    decreases s.len() - from,
{
    if from < 0 || from >= s.len() {
        -1
    } else if s[from] == b {
        from
    } else {
        find_byte(s, b, from + 1)
    }
}

/// `H:M:S`: three colon-separated runs of one or two digits, hour at most
/// 23, minute and second at most 59, nothing else in the string.
pub open spec fn spec_parse_hms(s: Seq<u8>) -> Option<TimeOfDay> {
    let i = find_byte(s, 58u8, 0);
    let j = find_byte(s, 58u8, i + 1);
    if i < 0 || j < 0 || find_byte(s, 58u8, j + 1) >= 0 {
        Option::None
    } else {
        let hs = s.subrange(0, i);
        let ms = s.subrange(i + 1, j);
        let ss = s.subrange(j + 1, s.len() as int);
        if 1 <= hs.len() <= 2 && 1 <= ms.len() <= 2 && 1 <= ss.len() <= 2 && all_digits(hs)
            && all_digits(ms) && all_digits(ss) && digits_val(hs) <= 23 && digits_val(ms) <= 59
            && digits_val(ss) <= 59 {
            Option::Some(
                (TimeOfDay {
                    hour: digits_val(hs) as u32,
                    minute: digits_val(ms) as u32,
                    second: digits_val(ss) as u32,
                }),
            )
        } else {
            Option::None
        }
    }
}

/// `Y-M-D`: a four-digit year, then month and day of one or two digits,
/// naming a real day of the proleptic Gregorian calendar.
pub open spec fn spec_parse_ymd(s: Seq<u8>) -> Option<CivilDate> {
    if s.len() < 5 || s[4] != 45u8 {
        Option::None
    } else {
        let k = find_byte(s, 45u8, 5);
        if k < 0 || find_byte(s, 45u8, k + 1) >= 0 {
            Option::None
        } else {
            let ys = s.subrange(0, 4);
            let ms = s.subrange(5, k);
            let ds = s.subrange(k + 1, s.len() as int);
            if 1 <= ms.len() <= 2 && 1 <= ds.len() <= 2 && all_digits(ys) && all_digits(ms)
                && all_digits(ds) && 1 <= digits_val(ms) <= 12 && 1 <= digits_val(ds)
                && digits_val(ds) <= days_in_month(digits_val(ys), digits_val(ms)) {
                Option::Some(
                    (CivilDate {
                        year: digits_val(ys) as u32,
                        month: digits_val(ms) as u32,
                        day: digits_val(ds) as u32,
                    }),
                )
            } else {
                Option::None
            }
        }
    }
}

/// `Y-M-D H:M:S`: a date and a time of day joined by a single space.
pub open spec fn spec_parse_ymd_hms(s: Seq<u8>) -> Option<CivilDateTime> {
    let sp = find_byte(s, 32u8, 0);
    if sp < 0 || find_byte(s, 32u8, sp + 1) >= 0 {
        Option::None
    } else {
        match (spec_parse_ymd(s.subrange(0, sp)), spec_parse_hms(
            s.subrange(sp + 1, s.len() as int),
        )) {
            (Option::Some(d), Option::Some(t)) => Option::Some(
                (CivilDateTime { date: d, hour: t.hour, minute: t.minute, second: t.second }),
            ),
            _ => Option::None,
        }
    }
}

/// The suffix the permissive fallback chain appends before retrying.
pub open spec fn with_colon_zero(s: Seq<u8>) -> Seq<u8> {
    s + seq![58u8, 48u8]
}

/// The layered fallback chain for a user-supplied time string, tried in
/// order, first success winning: the string itself as `H:M:S`, then with
/// `:0` appended, then with `:0:0` appended, and the same three attempts
/// as `Y-M-D H:M:S`.
pub open spec fn spec_parse_date_time(s: Seq<u8>) -> Option<ParsedDateTime> {
    if spec_parse_hms(s) is Some {
        Option::Some(ParsedDateTime::TimeOfDay(spec_parse_hms(s)->Some_0))
    } else if spec_parse_hms(with_colon_zero(s)) is Some {
        Option::Some(ParsedDateTime::TimeOfDay(spec_parse_hms(with_colon_zero(s))->Some_0))
    } else if spec_parse_hms(with_colon_zero(with_colon_zero(s))) is Some {
        Option::Some(
            ParsedDateTime::TimeOfDay(spec_parse_hms(with_colon_zero(with_colon_zero(s)))->Some_0),
        )
    } else if spec_parse_ymd_hms(s) is Some {
        Option::Some(ParsedDateTime::Full(spec_parse_ymd_hms(s)->Some_0))
    } else if spec_parse_ymd_hms(with_colon_zero(s)) is Some {
        Option::Some(ParsedDateTime::Full(spec_parse_ymd_hms(with_colon_zero(s))->Some_0))
    } else if spec_parse_ymd_hms(with_colon_zero(with_colon_zero(s))) is Some {
        Option::Some(
            ParsedDateTime::Full(spec_parse_ymd_hms(with_colon_zero(with_colon_zero(s)))->Some_0),
        )
    } else {
        Option::None
    }
}

/// A `show` boundary string: a calendar date, else a full date-time, else
/// nothing (the caller falls back to the current day).
pub open spec fn spec_parse_date_or_date_time(s: Seq<u8>) -> Option<DateOrDateTime> {
    if spec_parse_ymd(s) is Some {
        Option::Some(DateOrDateTime::Date(spec_parse_ymd(s)->Some_0))
    } else if spec_parse_ymd_hms(s) is Some {
        Option::Some(DateOrDateTime::DateTime(spec_parse_ymd_hms(s)->Some_0))
    } else {
        Option::None
    }
}

/// A date the grammar accepts is a valid calendar date: four digits bound
/// the year by 9999, and the month and day ranges are checked explicitly.
pub proof fn lemma_parse_ymd_valid(s: Seq<u8>)
    ensures
        spec_parse_ymd(s) matches Option::Some(d) ==> d.valid(),
{
    if spec_parse_ymd(s) is Some {
        let k = find_byte(s, 45u8, 5);
        lemma_digits_val_bound(s.subrange(0, 4));
        lemma_digits_val_bound(s.subrange(5, k));
        lemma_digits_val_bound(s.subrange(k + 1, s.len() as int));
    }
}

/// A date-time the grammar accepts is a valid calendar instant.
pub proof fn lemma_parse_ymd_hms_valid(s: Seq<u8>)
    ensures
        spec_parse_ymd_hms(s) matches Option::Some(dt) ==> dt.valid(),
{
    if spec_parse_ymd_hms(s) is Some {
        let sp = find_byte(s, 32u8, 0);
        lemma_parse_ymd_valid(s.subrange(0, sp));
        let t = s.subrange(sp + 1, s.len() as int);
        let i = find_byte(t, 58u8, 0);
        let j = find_byte(t, 58u8, i + 1);
        lemma_digits_val_bound(t.subrange(0, i));
        lemma_digits_val_bound(t.subrange(i + 1, j));
        lemma_digits_val_bound(t.subrange(j + 1, t.len() as int));
    }
}

fn find_byte_exec(s: &[u8], b: u8, from: usize) -> (r: Option<usize>)
    ensures
        match r {
            Option::Some(i) => from <= i < s@.len() && find_byte(s@, b, from as int) == i as int,
            Option::None => find_byte(s@, b, from as int) == -1,
        },
{
    let mut i: usize = from;
    while i < s.len()
        invariant
            from <= i,
            find_byte(s@, b, from as int) == find_byte(s@, b, i as int),
        decreases s@.len() - i,
    {
        if s[i] == b {
            return Option::Some(i);
        }
        i = i + 1;
    }
    Option::None
}

fn check_digits(s: &[u8], lo: usize, hi: usize) -> (b: bool)
    requires
        lo <= hi <= s@.len(),
    ensures
        b == all_digits(s@.subrange(lo as int, hi as int)),
{
    let ghost sub: Seq<u8> = s@.subrange(lo as int, hi as int);
    let mut i: usize = lo;
    while i < hi
        invariant
            lo <= i <= hi <= s@.len(),
            sub == s@.subrange(lo as int, hi as int),
            forall|k: int| lo <= k < i ==> is_digit(#[trigger] s@[k]),
        decreases hi - i,
    {
        let c = s[i];
        if c < 48 || c > 57 {
            proof {
                assert(sub[i - lo as int] == s@[i as int]);
            }
            return false;
        }
        i = i + 1;
    }
    proof {
        assert forall|k: int| 0 <= k < sub.len() implies is_digit(#[trigger] sub[k]) by {
            assert(sub[k] == s@[lo + k]);
        }
    }
    true
}

/// Digit runs this short denote small numbers.
proof fn lemma_digits_val_bound(s: Seq<u8>)
    requires
        all_digits(s),
    ensures
        digits_val(s) >= 0,
        s.len() <= 1 ==> digits_val(s) <= 9,
        s.len() <= 2 ==> digits_val(s) <= 99,
        s.len() <= 3 ==> digits_val(s) <= 999,
        s.len() <= 4 ==> digits_val(s) <= 9999,
    decreases s.len(),
{
    if s.len() > 0 {
        assert(all_digits(s.drop_last())) by {
            assert(forall|k: int|
                0 <= k < s.len() - 1 ==> s.drop_last()[k] == #[trigger] s[k]);
        }
        lemma_digits_val_bound(s.drop_last());
    }
}

fn parse_digits(s: &[u8], lo: usize, hi: usize) -> (v: u32)
    requires
        lo <= hi <= s@.len(),
        hi - lo <= 4,
        all_digits(s@.subrange(lo as int, hi as int)),
    ensures
        v == digits_val(s@.subrange(lo as int, hi as int)),
        v <= 9999,
{
    let ghost sub: Seq<u8> = s@.subrange(lo as int, hi as int);
    let mut acc: u32 = 0;
    let mut i: usize = lo;
    proof {
        assert(s@.subrange(lo as int, lo as int) =~= Seq::<u8>::empty());
    }
    while i < hi
        invariant
            lo <= i <= hi <= s@.len(),
            hi - lo <= 4,
            sub == s@.subrange(lo as int, hi as int),
            all_digits(sub),
            acc == digits_val(s@.subrange(lo as int, i as int)),
            acc <= 9999,
        decreases hi - i,
    {
        proof {
            assert(all_digits(s@.subrange(lo as int, i as int))) by {
                assert(forall|k: int|
                    0 <= k < i - lo ==> s@.subrange(lo as int, i as int)[k] == #[trigger] sub[k]);
            }
            lemma_digits_val_bound(s@.subrange(lo as int, i as int));
            assert(s@.subrange(lo as int, i + 1 as int).drop_last() =~= s@.subrange(
                lo as int,
                i as int,
            ));
            assert(sub[i - lo as int] == s@[i as int]);
        }
        let c = s[i];
        acc = acc * 10 + (c - 48) as u32;
        i = i + 1;
    }
    acc
}

/// Parses `H:M:S`, exactly as `spec_parse_hms` lays the grammar down.
pub fn parse_hms(s: &[u8]) -> (r: Option<TimeOfDay>)
    ensures
        r == spec_parse_hms(s@),
{
    let n = s.len();
    let i = match find_byte_exec(s, 58, 0) {
        Option::Some(i) => i,
        Option::None => {
            return Option::None;
        },
    };
    let j = match find_byte_exec(s, 58, i + 1) {
        Option::Some(j) => j,
        Option::None => {
            return Option::None;
        },
    };
    if let Option::Some(_) = find_byte_exec(s, 58, j + 1) {
        return Option::None;
    }
    if !(1 <= i && i <= 2 && 1 <= j - i - 1 && j - i - 1 <= 2 && 1 <= n - j - 1 && n - j - 1 <= 2) {
        return Option::None;
    }
    if !(check_digits(s, 0, i) && check_digits(s, i + 1, j) && check_digits(s, j + 1, n)) {
        return Option::None;
    }
    let h = parse_digits(s, 0, i);
    let m = parse_digits(s, i + 1, j);
    let sec = parse_digits(s, j + 1, n);
    if h <= 23 && m <= 59 && sec <= 59 {
        Option::Some(TimeOfDay { hour: h, minute: m, second: sec })
    } else {
        Option::None
    }
}

/// Parses `Y-M-D`, exactly as `spec_parse_ymd` lays the grammar down.
pub fn parse_ymd(s: &[u8]) -> (r: Option<CivilDate>)
    ensures
        r == spec_parse_ymd(s@),
{
    if s.len() < 5 {
        return Option::None;
    }
    if s[4] != 45 {
        return Option::None;
    }
    let k = match find_byte_exec(s, 45, 5) {
        Option::Some(k) => k,
        Option::None => {
            return Option::None;
        },
    };
    if let Option::Some(_) = find_byte_exec(s, 45, k + 1) {
        return Option::None;
    }
    if !(1 <= k - 5 && k - 5 <= 2 && 1 <= s.len() - k - 1 && s.len() - k - 1 <= 2) {
        return Option::None;
    }
    if !(check_digits(s, 0, 4) && check_digits(s, 5, k) && check_digits(s, k + 1, s.len())) {
        return Option::None;
    }
    let y = parse_digits(s, 0, 4);
    let m = parse_digits(s, 5, k);
    let d = parse_digits(s, k + 1, s.len());
    if 1 <= m && m <= 12 && 1 <= d && d <= days_in_month_exec(y, m) {
        Option::Some(CivilDate { year: y, month: m, day: d })
    } else {
        Option::None
    }
}

/// Parses `Y-M-D H:M:S`, exactly as `spec_parse_ymd_hms` lays it down.
pub fn parse_ymd_hms(s: &[u8]) -> (r: Option<CivilDateTime>)
    ensures
        r == spec_parse_ymd_hms(s@),
{
    let n = s.len();
    let sp = match find_byte_exec(s, 32, 0) {
        Option::Some(sp) => sp,
        Option::None => {
            return Option::None;
        },
    };
    if let Option::Some(_) = find_byte_exec(s, 32, sp + 1) {
        return Option::None;
    }
    let date_part = vstd::slice::slice_subrange(s, 0, sp);
    let time_part = vstd::slice::slice_subrange(s, sp + 1, n);
    match (parse_ymd(date_part), parse_hms(time_part)) {
        (Option::Some(d), Option::Some(t)) => Option::Some(
            CivilDateTime { date: d, hour: t.hour, minute: t.minute, second: t.second },
        ),
        _ => Option::None,
    }
}

/// Appends `:0` to a copy of the string, as the fallback chain does.
fn append_colon_zero(s: &Vec<u8>) -> (r: Vec<u8>)
    ensures
        r@ == with_colon_zero(s@),
{
    let mut r = vstd::slice::slice_to_vec(s.as_slice());
    r.push(58);
    r.push(48);
    proof {
        assert(r@ =~= with_colon_zero(s@));
    }
    r
}

/// The permissive chain of six attempts for a `--at` time string, tried in
/// order with first success winning, as `spec_parse_date_time` lays down;
/// None when even the last attempt fails (a fatal error for the caller).
pub fn parse_date_time_parts(s: &Vec<u8>) -> (r: Option<ParsedDateTime>)
    ensures
        r == spec_parse_date_time(s@),
{
    let s1 = append_colon_zero(s);
    let s2 = append_colon_zero(&s1);
    if let Option::Some(t) = parse_hms(s.as_slice()) {
        return Option::Some(ParsedDateTime::TimeOfDay(t));
    }
    if let Option::Some(t) = parse_hms(s1.as_slice()) {
        return Option::Some(ParsedDateTime::TimeOfDay(t));
    }
    if let Option::Some(t) = parse_hms(s2.as_slice()) {
        return Option::Some(ParsedDateTime::TimeOfDay(t));
    }
    if let Option::Some(dt) = parse_ymd_hms(s.as_slice()) {
        return Option::Some(ParsedDateTime::Full(dt));
    }
    if let Option::Some(dt) = parse_ymd_hms(s1.as_slice()) {
        return Option::Some(ParsedDateTime::Full(dt));
    }
    if let Option::Some(dt) = parse_ymd_hms(s2.as_slice()) {
        return Option::Some(ParsedDateTime::Full(dt));
    }
    Option::None
}

/// A `show` boundary: a date, else a date-time, else None, upon which the
/// caller silently falls back to the current day.
pub fn parse_date_or_date_time_parts(s: &Vec<u8>) -> (r: Option<DateOrDateTime>)
    ensures
        r == spec_parse_date_or_date_time(s@),
{
    if let Option::Some(d) = parse_ymd(s.as_slice()) {
        return Option::Some(DateOrDateTime::Date(d));
    }
    if let Option::Some(dt) = parse_ymd_hms(s.as_slice()) {
        return Option::Some(DateOrDateTime::DateTime(dt));
    }
    Option::None
}

} // verus!
