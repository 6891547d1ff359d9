//! Clocks and timestamps.
//!
//! `now_millis` reads the wall clock; everything built from a reading is
//! computed here from plain numbers.

use vstd::prelude::*;
use core::time::Duration;
use crate::text::{dec_text_padded, is_dec, push_decimal_padded};

verus! {

/// The system clock's time type.
#[verifier::external_type_specification]
#[verifier::external_body]
pub struct ExSystemTime(std::time::SystemTime);

/// `SystemTime::now`: the machine's clock, so nothing is stated of it.
#[verifier::external_body]
fn system_now() -> std::time::SystemTime {
    std::time::SystemTime::now()
}

/// `SystemTime::duration_since(UNIX_EPOCH)`: the time since the epoch,
/// or nothing when the clock reads before it. It depends on the reading,
/// so nothing is stated of it.
#[verifier::external_body]
fn since_epoch(t: &std::time::SystemTime) -> Option<Duration> {
    t.duration_since(std::time::UNIX_EPOCH).ok()
}

/// Wall-clock milliseconds since the Unix epoch, truncated to 64 bits
/// (0 when the clock reads before the epoch).
pub fn now_millis() -> u64 {
    let now = system_now();
    match since_epoch(&now) {
        Some(d) => {
            let ms = millis_of(&d);
            #[verifier::truncate]
            (ms as u64)
        },
        None => 0,
    }
}

/// `Duration::as_millis`: the whole milliseconds a duration holds.
pub uninterp spec fn duration_millis(d: Duration) -> nat;

/// The whole milliseconds in a duration, by `Duration::as_millis`.
#[verifier::external_body]
pub(crate) fn millis_of(d: &Duration) -> (r: u128)
    ensures
        r == duration_millis(*d),
{
    d.as_millis()
}

/// `Duration::from_millis`: the duration of exactly `ms` milliseconds
/// (no part finer than a millisecond).
pub uninterp spec fn millis_duration(ms: nat) -> Duration;

/// `Duration::from_millis`: a duration of exactly `n` milliseconds, which
/// `as_millis` gives back.
#[verifier::external_body]
fn duration_from_millis(n: u64) -> (d: Duration)
    ensures
        d == millis_duration(n as nat),
        duration_millis(d) == n,
{
    Duration::from_millis(n)
}

/// `Duration::from_secs`: a duration of `n` seconds, which is the
/// duration of exactly `n * 1000` milliseconds.
#[verifier::external_body]
pub(crate) fn duration_from_secs(n: u64) -> (d: Duration)
    ensures
        d == millis_duration((n * 1000) as nat),
        duration_millis(d) == n * 1000,
{
    Duration::from_secs(n)
}

/// A white-space character as `char::is_whitespace` defines it: the
/// Unicode `White_Space` property.
pub open spec fn is_white(c: char) -> bool {
    let u = c as u32;
    (9 <= u <= 13) || u == 32 || u == 0x85 || u == 0xa0 || u == 0x1680 || (0x2000 <= u <= 0x200a)
        || u == 0x2028 || u == 0x2029 || u == 0x202f || u == 0x205f || u == 0x3000
}

/// How many white-space characters a text starts with.
pub open spec fn lead_white(t: Seq<char>) -> nat
    decreases t.len(),
{
    if t.len() > 0 && is_white(t[0]) {
        1 + lead_white(t.subrange(1, t.len() as int))
    } else {
        0
    }
}

/// How many white-space characters a text ends with.
pub open spec fn trail_white(t: Seq<char>) -> nat
    decreases t.len(),
{
    if t.len() > 0 && is_white(t.last()) {
        1 + trail_white(t.drop_last())
    } else {
        0
    }
}

/// A text without its leading and trailing white space (`str::trim`).
pub open spec fn trimmed(t: Seq<char>) -> Seq<char> {
    if lead_white(t) == t.len() {
        Seq::empty()
    } else {
        t.subrange(lead_white(t) as int, t.len() - trail_white(t))
    }
}

proof fn lemma_lead_white(t: Seq<char>)
    ensures
        lead_white(t) <= t.len(),
        forall|i: int| 0 <= i < lead_white(t) ==> is_white(#[trigger] t[i]),
        lead_white(t) < t.len() ==> !is_white(t[lead_white(t) as int]),
    decreases t.len(),
{
    if t.len() > 0 && is_white(t[0]) {
        let u = t.subrange(1, t.len() as int);
        lemma_lead_white(u);
        assert forall|i: int| 0 <= i < lead_white(t) implies is_white(#[trigger] t[i]) by {
            if i > 0 {
                assert(t[i] == u[i - 1]);
            }
        }
        if lead_white(t) < t.len() {
            assert(t[lead_white(t) as int] == u[lead_white(u) as int]);
        }
    }
}

proof fn lemma_trail_white(t: Seq<char>)
    ensures
        trail_white(t) <= t.len(),
        forall|i: int| t.len() - trail_white(t) <= i < t.len() ==> is_white(#[trigger] t[i]),
        trail_white(t) < t.len() ==> !is_white(t[t.len() - trail_white(t) - 1]),
    decreases t.len(),
{
    if t.len() > 0 && is_white(t.last()) {
        let u = t.drop_last();
        lemma_trail_white(u);
        assert forall|i: int| t.len() - trail_white(t) <= i < t.len() implies is_white(#[trigger] t[i]) by {
            if i < t.len() - 1 {
                assert(t[i] == u[i]);
            }
        }
        if trail_white(t) < t.len() {
            assert(t[t.len() - trail_white(t) - 1] == u[u.len() - trail_white(u) - 1]);
        }
    }
}

/// Whether a character is white space, as `char::is_whitespace`.
fn white(c: char) -> (r: bool)
    ensures
        r == is_white(c),
{
    let u = c as u32;
    (9 <= u && u <= 13) || u == 32 || u == 0x85 || u == 0xa0 || u == 0x1680 || (0x2000 <= u && u <= 0x200a)
        || u == 0x2028 || u == 0x2029 || u == 0x202f || u == 0x205f || u == 0x3000
}

/// The text without its leading and trailing white space.
pub fn trim_text(s: &str) -> (t: String)
    ensures
        t@ == trimmed(s@),
{
    let n = s.unicode_len();
    let mut a: usize = 0;
    while a < n && white(s.get_char(a))
        invariant
            n == s@.len(),
            a <= n,
            forall|i: int| 0 <= i < a ==> is_white(#[trigger] s@[i]),
        decreases n - a,
    {
        a += 1;
    }
    proof {
        lemma_lead_white(s@);
        assert(lead_white(s@) == a) by {
            lemma_lead_exact(s@, a as nat);
        }
    }
    if a == n {
        return String::new();
    }
    let mut b: usize = n;
    while b > a && white(s.get_char(b - 1))
        invariant
            n == s@.len(),
            a < n,
            a <= b <= n,
            !is_white(s@[a as int]),
            forall|i: int| b <= i < n ==> is_white(#[trigger] s@[i]),
        decreases b,
    {
        b -= 1;
    }
    proof {
        lemma_trail_white(s@);
        lemma_trail_exact(s@, (n - b) as nat);
    }
    s.substring_char(a, b).to_string()
}

proof fn lemma_lead_exact(t: Seq<char>, a: nat)
    requires
        a <= t.len(),
        forall|i: int| 0 <= i < a ==> is_white(#[trigger] t[i]),
        a < t.len() ==> !is_white(t[a as int]),
    ensures
        lead_white(t) == a,
    decreases a,
{
    if a > 0 {
        let u = t.subrange(1, t.len() as int);
        assert forall|i: int| 0 <= i < a - 1 implies is_white(#[trigger] u[i]) by {
            assert(u[i] == t[i + 1]);
        }
        if a < t.len() {
            assert(u[a - 1] == t[a as int]);
        }
        assert(is_white(t[0]));
        lemma_lead_exact(u, (a - 1) as nat);
    } else if t.len() > 0 {
        assert(!is_white(t[0]));
    }
}

proof fn lemma_trail_exact(t: Seq<char>, k: nat)
    requires
        k <= t.len(),
        forall|i: int| t.len() - k <= i < t.len() ==> is_white(#[trigger] t[i]),
        k < t.len() ==> !is_white(t[t.len() - k - 1]),
    ensures
        trail_white(t) == k,
    decreases k,
{
    if k > 0 {
        let u = t.drop_last();
        assert forall|i: int| u.len() - (k - 1) <= i < u.len() implies is_white(#[trigger] u[i]) by {
            assert(u[i] == t[i]);
        }
        if k < t.len() {
            assert(u[u.len() - (k - 1) - 1] == t[t.len() - k - 1]);
        }
        assert(is_white(t[t.len() - 1]));
        lemma_trail_exact(u, (k - 1) as nat);
    } else if t.len() > 0 {
        assert(!is_white(t.last()));
    }
}

/// The value of a run of decimal digits.
pub open spec fn digits_value(t: Seq<char>) -> int
    decreases t.len(),
{
    if t.len() == 0 {
        0
    } else {
        digits_value(t.drop_last()) * 10 + (t.last() as u32 - 48)
    }
}

/// Every character is a decimal digit.
pub open spec fn all_dec(t: Seq<char>) -> bool {
    forall|i: int| 0 <= i < t.len() ==> is_dec(#[trigger] t[i])
}

/// The number `str::parse::<u64>` reads from a text: an optional `+`, then
/// one or more decimal digits whose value fits in 64 bits.
pub open spec fn u64_text_value(t: Seq<char>) -> Option<nat> {
    let d = if t.len() > 0 && t[0] == '+' {
        t.subrange(1, t.len() as int)
    } else {
        t
    };
    if d.len() > 0 && all_dec(d) && digits_value(d) <= u64::MAX {
        Some(digits_value(d) as nat)
    } else {
        None
    }
}

proof fn lemma_digits_nonneg(t: Seq<char>)
    requires
        all_dec(t),
    ensures
        digits_value(t) >= 0,
    decreases t.len(),
{
    if t.len() > 0 {
        lemma_digits_nonneg(t.drop_last());
        assert(is_dec(t[t.len() - 1]));
    }
}

proof fn lemma_digits_prefix(t: Seq<char>, j: int)
    requires
        all_dec(t),
        0 <= j <= t.len(),
    ensures
        digits_value(t.subrange(0, j)) <= digits_value(t),
    decreases t.len(),
{
    if j == t.len() {
        assert(t.subrange(0, j) =~= t);
    } else {
        let u = t.drop_last();
        assert(all_dec(u)) by {
            assert forall|i: int| 0 <= i < u.len() implies is_dec(#[trigger] u[i]) by {
                assert(u[i] == t[i]);
            }
        }
        lemma_digits_prefix(u, j);
        assert(u.subrange(0, j) =~= t.subrange(0, j));
        lemma_digits_nonneg(u);
        assert(is_dec(t[t.len() - 1]));
    }
}

/// The number in characters `lo..hi` of a text, read as `str::parse::<u64>`
/// reads it.
pub fn parse_u64_range(s: &str, lo: usize, hi: usize) -> (r: Option<u64>)
    requires
        lo <= hi <= s@.len(),
    ensures
        r is Some <==> u64_text_value(s@.subrange(lo as int, hi as int)) is Some,
        r matches Some(v) ==> u64_text_value(s@.subrange(lo as int, hi as int)) == Some(v as nat),
{
    let ghost t = s@.subrange(lo as int, hi as int);
    let mut start = lo;
    if lo < hi && s.get_char(lo) == '+' {
        start = lo + 1;
    }
    let ghost d = s@.subrange(start as int, hi as int);
    assert(d =~= (if t.len() > 0 && t[0] == '+' { t.subrange(1, t.len() as int) } else { t }));
    if start == hi {
        return None;
    }
    let mut v: u64 = 0;
    let mut i = start;
    while i < hi
        invariant
            lo <= start <= i <= hi <= s@.len(),
            t == s@.subrange(lo as int, hi as int),
            d == (if t.len() > 0 && t[0] == '+' { t.subrange(1, t.len() as int) } else { t }),
            d.len() > 0,
            d == s@.subrange(start as int, hi as int),
            all_dec(s@.subrange(start as int, i as int)),
            v == digits_value(s@.subrange(start as int, i as int)),
        decreases hi - i,
    {
        let c = s.get_char(i);
        let ghost p = s@.subrange(start as int, i + 1);
        assert(p.drop_last() =~= s@.subrange(start as int, i as int));
        assert(d[i - start] == c);
        if !('0' <= c && c <= '9') {
            assert(!is_dec(d[i - start]));
            assert(!all_dec(d));
            assert(u64_text_value(t) is None);
            return None;
        }
        let digit = (c as u32 - 48) as u64;
        assert(all_dec(p)) by {
            assert forall|k: int| 0 <= k < p.len() implies is_dec(#[trigger] p[k]) by {
                if k < p.len() - 1 {
                    assert(p[k] == s@.subrange(start as int, i as int)[k]);
                }
            }
        }
        if v > (u64::MAX - digit) / 10 {
            proof {
                assert(digits_value(p) > u64::MAX) by (nonlinear_arith)
                    requires
                        digits_value(p) == v * 10 + digit,
                        v > (u64::MAX - digit) / 10,
                        digit <= 9,
                ;
                if all_dec(d) {
                    assert(d.subrange(0, (i + 1 - start) as int) =~= p);
                    lemma_digits_prefix(d, (i + 1 - start) as int);
                }
                assert(u64_text_value(t) is None);
            }
            return None;
        }
        proof {
            assert(v * 10 + digit <= u64::MAX) by (nonlinear_arith)
                requires
                    v <= (u64::MAX - digit) / 10,
                    digit <= 9,
            ;
        }
        v = v * 10 + digit;
        i += 1;
    }
    assert(s@.subrange(start as int, i as int) =~= d);
    Some(v)
}

/// The amount text and the milliseconds per unit of a duration text, by
/// its suffix: `ms`, `s`, `m` or `h`. None when it has none of them.
pub open spec fn duration_unit(t: Seq<char>) -> Option<(Seq<char>, nat)> {
    if t.len() >= 2 && t[t.len() - 2] == 'm' && t.last() == 's' {
        Some((t.subrange(0, t.len() - 2), 1))
    } else if t.len() >= 1 && t.last() == 's' {
        Some((t.drop_last(), 1000))
    } else if t.len() >= 1 && t.last() == 'm' {
        Some((t.drop_last(), 60000))
    } else if t.len() >= 1 && t.last() == 'h' {
        Some((t.drop_last(), 3600000))
    } else {
        None
    }
}

/// The milliseconds a duration text stands for, when it is valid.
pub open spec fn duration_text_millis(t: Seq<char>) -> Option<nat> {
    match duration_unit(trimmed(t)) {
        Some((amount, unit)) => match u64_text_value(amount) {
            Some(n) => Some(n * unit),
            None => None,
        },
        None => None,
    }
}

/// A valid duration text in minutes or hours whose count of seconds does
/// not fit in 64 bits.
pub open spec fn duration_overflows(t: Seq<char>) -> bool {
    match duration_unit(trimmed(t)) {
        Some((amount, unit)) => match u64_text_value(amount) {
            Some(n) => unit >= 60000 && n * (unit / 1000) > u64::MAX,
            None => false,
        },
        None => false,
    }
}

/// Parse a duration like "5s", "100ms", "2m" or "1h" (surrounding white
/// space ignored).
pub fn parse_duration(s: &str) -> (r: Result<Duration, String>)
    requires
        !duration_overflows(s@),
    ensures
        r is Ok <==> duration_text_millis(s@) is Some,
        r matches Ok(d) ==> duration_text_millis(s@) == Some(duration_millis(d))
            && d == millis_duration(duration_text_millis(s@)->0),
        r matches Err(m) ==> m@ == (if duration_unit(trimmed(s@)) is None {
            "invalid duration format: "@
        } else {
            "invalid duration: "@
        }) + trimmed(s@),
{
    let t = trim_text(s);
    let n = t.as_str().unicode_len();
    let ts = t.as_str();
    let (cut, unit): (usize, u64) = if n >= 2 && ts.get_char(n - 2) == 'm' && ts.get_char(n - 1) == 's' {
        (n - 2, 1)
    } else if n >= 1 && ts.get_char(n - 1) == 's' {
        (n - 1, 1000)
    } else if n >= 1 && ts.get_char(n - 1) == 'm' {
        (n - 1, 60000)
    } else if n >= 1 && ts.get_char(n - 1) == 'h' {
        (n - 1, 3600000)
    } else {
        let mut m = "invalid duration format: ".to_string();
        m.push_str(ts);
        return Err(m);
    };
    assert(duration_unit(trimmed(s@)) == Some((t@.subrange(0, cut as int), unit as nat)));
    match parse_u64_range(ts, 0, cut) {
        Some(v) => {
            assert(u64_text_value(t@.subrange(0, cut as int)) == Some(v as nat));
            assert(duration_text_millis(s@) == Some((v * unit) as nat));
            if unit == 1 {
                Ok(duration_from_millis(v))
            } else if unit == 1000 {
                Ok(duration_from_secs(v))
            } else if unit == 60000 {
                Ok(duration_from_secs(v * 60))
            } else {
                Ok(duration_from_secs(v * 3600))
            }
        },
        None => {
            let mut m = "invalid duration: ".to_string();
            m.push_str(ts);
            Err(m)
        },
    }
}

/// A leap year of the Gregorian calendar.
pub open spec fn is_leap(y: int) -> bool {
    (y % 4 == 0 && y % 100 != 0) || y % 400 == 0
}

/// The days of a year.
pub open spec fn year_days(y: int) -> int {
    if is_leap(y) {
        366
    } else {
        365
    }
}

/// The days of a month (1 to 12) of a year.
pub open spec fn month_days(y: int, m: int) -> int {
    if m == 2 {
        if is_leap(y) {
            29
        } else {
            28
        }
    } else if m == 4 || m == 6 || m == 9 || m == 11 {
        30
    } else {
        31
    }
}

/// The month and day of the `d`-th day (from 0) of year `y`, counting
/// from month `m`.
pub open spec fn month_and_day(y: int, m: int, d: int) -> (int, int)
    decreases 12 - m,
{
    if m < 12 && d >= month_days(y, m) {
        month_and_day(y, m + 1, d - month_days(y, m))
    } else {
        (m, d + 1)
    }
}

/// The date (year, month, day) that is `days` days after January 1st of
/// year `y`.
pub open spec fn date_after(y: int, days: int) -> (int, int, int)
    decreases days,
{
    if days >= year_days(y) && days > 0 {
        date_after(y + 1, days - year_days(y))
    } else {
        let (m, d) = month_and_day(y, 1, days);
        (y, m, d)
    }
}

/// The civil date of a day counted from 1970-01-01.
pub open spec fn civil_date(days: nat) -> (int, int, int) {
    date_after(1970, days as int)
}

fn leap(y: u64) -> (r: bool)
    ensures
        r == is_leap(y as int),
{
    (y % 4 == 0 && y % 100 != 0) || y % 400 == 0
}

fn year_length(y: u64) -> (r: u64)
    ensures
        r == year_days(y as int),
{
    if leap(y) {
        366
    } else {
        365
    }
}

fn days_in_month(y: u64, m: u64) -> (r: u64)
    ensures
        r == month_days(y as int, m as int),
{
    if m == 2 {
        if leap(y) {
            29
        } else {
            28
        }
    } else if m == 4 || m == 6 || m == 9 || m == 11 {
        30
    } else {
        31
    }
}

/// The civil date (year, month, day) of a day counted from 1970-01-01.
fn days_to_ymd(days: u64) -> (r: (u64, u64, u64))
    ensures
        (r.0 as int, r.1 as int, r.2 as int) == civil_date(days as nat),
{
    let mut y: u64 = 1970;
    let mut rest: u64 = days;
    while rest >= year_length(y)
        invariant
            1970 <= y <= 1970 + days,
            rest <= days,
            (rest as int) + 365 * (y - 1970) <= days,
            date_after(y as int, rest as int) == civil_date(days as nat),
        decreases rest,
    {
        let len = year_length(y);
        rest = rest - len;
        y = y + 1;
    }
    let mut m: u64 = 1;
    let mut d: u64 = rest;
    while m < 12 && d >= days_in_month(y, m)
        invariant
            1 <= m <= 12,
            d <= rest,
            month_and_day(y as int, m as int, d as int) == month_and_day(y as int, 1, rest as int),
        decreases 12 - m,
    {
        d = d - days_in_month(y, m);
        m = m + 1;
    }
    (y, m, d + 1)
}

/// The ISO 8601 text of a time: `YYYY-MM-DDTHH:MM:SS.mmmZ` (UTC; the
/// year has at least four digits).
pub open spec fn iso8601_text(millis: nat) -> Seq<char> {
    let secs = millis / 1000;
    let ms = millis % 1000;
    let days = secs / 86400;
    let tod = secs % 86400;
    let (y, m, d) = civil_date(days);
    dec_text_padded(y as nat, 4) + "-"@ + dec_text_padded(m as nat, 2) + "-"@ + dec_text_padded(d as nat, 2) + "T"@
        + dec_text_padded(tod / 3600, 2) + ":"@ + dec_text_padded((tod % 3600) / 60, 2) + ":"@
        + dec_text_padded(tod % 60, 2) + "."@ + dec_text_padded(ms, 3) + "Z"@
}

/// The ISO 8601 text of a time in milliseconds since the epoch.
pub fn iso8601_from_millis(millis: u64) -> (s: String)
    ensures
        s@ == iso8601_text(millis as nat),
{
    let secs = millis / 1000;
    let ms = millis % 1000;
    let days = secs / 86400;
    let tod = secs % 86400;
    let (y, m, d) = days_to_ymd(days);
    let mut s = String::new();
    push_decimal_padded(&mut s, y, 4);
    s.push_str("-");
    push_decimal_padded(&mut s, m, 2);
    s.push_str("-");
    push_decimal_padded(&mut s, d, 2);
    s.push_str("T");
    push_decimal_padded(&mut s, tod / 3600, 2);
    s.push_str(":");
    push_decimal_padded(&mut s, (tod % 3600) / 60, 2);
    s.push_str(":");
    push_decimal_padded(&mut s, tod % 60, 2);
    s.push_str(".");
    push_decimal_padded(&mut s, ms, 3);
    s.push_str("Z");
    s
}

/// The current time as ISO 8601 text (UTC).
pub fn now_iso8601() -> (s: String)
    ensures
        exists|t: u64| s@ == iso8601_text(t as nat),
{
    iso8601_from_millis(now_millis())
}

} // verus!
