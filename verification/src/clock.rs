//! Times of day. The clock gives seconds since the Unix epoch and the
//! database gives microseconds; the bot shows them in Asia/Bangkok time
//! (UTC+07:00).
use vstd::prelude::*;
use vstd::string::*;
use chrono::{Datelike, Timelike};
use crate::text::{self, push_decimal, push_two_digits};

verus! {

/// Asia/Bangkok is seven hours ahead of UTC.
pub const BANGKOK_OFFSET: i32 = 25200;

/// Seconds in a day.
pub const DAY: i64 = 86400;

/// Microseconds in a second.
pub const MICROS: i64 = 1_000_000;

/// The earliest timestamp that chrono holds: -262143-01-01T00:00:00Z.
pub const MIN_TIMESTAMP: i64 = -8334601228800;

/// The latest timestamp that chrono holds: 262142-12-31T23:59:59Z.
pub const MAX_TIMESTAMP: i64 = 8210266876799;

/// The proleptic Gregorian date `(year, month, day)` of the day `days` after
/// 1970-01-01 (before it when negative): the days are counted in eras of
/// 400 years, each era in years that start on the 1st of March.
pub open spec fn civil_from_days(days: int) -> (int, int, int) {
    let z = days + 719468;
    let era = z / 146097;
    let doe = z - era * 146097;
    let yoe = (doe - doe / 1460 + doe / 36524 - doe / 146096) / 365;
    let doy = doe - (365 * yoe + yoe / 4 - yoe / 100);
    let mp = (5 * doy + 2) / 153;
    let d = doy - (153 * mp + 2) / 5 + 1;
    let m = if mp < 10 {
        mp + 3
    } else {
        mp - 9
    };
    (yoe + era * 400 + if m <= 2 {
        1int
    } else {
        0int
    }, m, d)
}

/// The civil time `(year, month, day, hour, minute, second)` of the
/// timestamp `secs` in the time zone `offset` seconds east of UTC.
pub open spec fn civil_time(secs: int, offset: int) -> (int, int, int, int, int, int) {
    let local = secs + offset;
    let date = civil_from_days(local / 86400);
    let sod = local % 86400;
    (date.0, date.1, date.2, sod / 3600, sod % 3600 / 60, sod % 60)
}

/// The fields of a civil time lie in their ranges: months 1 to 12, days 1
/// to 31, hours below 24, minutes and seconds below 60.
pub proof fn lemma_civil_time_ranges(secs: int, offset: int)
    ensures
        ({
            let t = civil_time(secs, offset);
            &&& 1 <= t.1 <= 12
            &&& 1 <= t.2 <= 31
            &&& 0 <= t.3 < 24
            &&& 0 <= t.4 < 60
            &&& 0 <= t.5 < 60
        }),
{
    let z = (secs + offset) / 86400 + 719468;
    let era = z / 146097;
    let doe = z - era * 146097;
    assert(0 <= doe < 146097);
    let yoe = (doe - doe / 1460 + doe / 36524 - doe / 146096) / 365;
    assert(0 <= yoe < 400) by (nonlinear_arith)
        requires
            0 <= doe < 146097,
            yoe == (doe - doe / 1460 + doe / 36524 - doe / 146096) / 365,
    ;
    let doy = doe - (365 * yoe + yoe / 4 - yoe / 100);
    assert(0 <= doy < 366) by (nonlinear_arith)
        requires
            0 <= doe < 146097,
            yoe == (doe - doe / 1460 + doe / 36524 - doe / 146096) / 365,
            doy == doe - (365 * yoe + yoe / 4 - yoe / 100),
            0 <= yoe < 400,
    ;
    let mp = (5 * doy + 2) / 153;
    assert(0 <= mp < 12) by (nonlinear_arith)
        requires
            0 <= doy < 366,
            mp == (5 * doy + 2) / 153,
    ;
    let d = doy - (153 * mp + 2) / 5 + 1;
    assert(1 <= d <= 31) by (nonlinear_arith)
        requires
            0 <= doy < 366,
            mp == (5 * doy + 2) / 153,
            d == doy - (153 * mp + 2) / 5 + 1,
    ;
}

/// Whether chrono holds the timestamp `secs`.
pub open spec fn in_range(secs: int) -> bool {
    MIN_TIMESTAMP <= secs <= MAX_TIMESTAMP
}

/// The civil time of a timestamp in a fixed-offset time zone, read from
/// chrono: `DateTime::from_timestamp(secs, 0)`, moved to
/// `FixedOffset::east_opt(offset)` with `with_timezone`, then its `year`,
/// `month`, `day`, `hour`, `minute` and `second`. `from_timestamp` gives a
/// time for every timestamp from `MIN_TIMESTAMP` to `MAX_TIMESTAMP`, and
/// `east_opt` accepts any offset of less than a day. The contract claims
/// that the fields are the proleptic Gregorian `civil_time`.
#[verifier::external_body]
fn civil_fields(secs: i64, offset: i32) -> (t: (i32, u32, u32, u32, u32, u32))
    requires
        in_range(secs as int),
        -86400 < offset < 86400,
    ensures
        (t.0 as int, t.1 as int, t.2 as int, t.3 as int, t.4 as int, t.5 as int) == civil_time(
            secs as int,
            offset as int,
        ),
{
    let utc = chrono::DateTime::from_timestamp(secs, 0).unwrap();
    let local = utc.with_timezone(&chrono::FixedOffset::east_opt(offset).unwrap());
    (local.year(), local.month(), local.day(), local.hour(), local.minute(), local.second())
}

/// `dd/mm HH:MM` of a civil time (chrono's `%d/%m %H:%M`).
pub open spec fn day_month_time(t: (int, int, int, int, int, int)) -> Seq<char> {
    text::two_digits(t.2 as nat) + seq!['/'] + text::two_digits(t.1 as nat) + seq![' ']
        + text::two_digits(t.3 as nat) + seq![':'] + text::two_digits(t.4 as nat)
}

/// `HH:MM` of a civil time (chrono's `%H:%M`).
pub open spec fn hour_minute(t: (int, int, int, int, int, int)) -> Seq<char> {
    text::two_digits(t.3 as nat) + seq![':'] + text::two_digits(t.4 as nat)
}

/// `YYYY-MM-DDTHH:MM:SSZ` of a civil time in UTC (chrono's
/// `%Y-%m-%dT%H:%M:%SZ` for the years 1 to 9999).
pub open spec fn utc_stamp(t: (int, int, int, int, int, int)) -> Seq<char> {
    text::pad_left(text::decimal(t.0 as nat), 4, '0') + seq!['-'] + text::two_digits(t.1 as nat)
        + seq!['-'] + text::two_digits(t.2 as nat) + seq!['T'] + text::two_digits(t.3 as nat)
        + seq![':'] + text::two_digits(t.4 as nat) + seq![':'] + text::two_digits(t.5 as nat)
        + seq!['Z']
}

/// The whole seconds of a time in microseconds (rounded down).
pub open spec fn seconds_of(micros: int) -> int {
    micros / (MICROS as int)
}

/// How an expense's time (in microseconds) is shown in the summary and the
/// history: its Bangkok day, month and time of day; nothing for a time that
/// chrono does not hold.
pub open spec fn shown_date(micros: i64) -> Seq<char> {
    let secs = seconds_of(micros as int);
    if in_range(secs) {
        day_month_time(civil_time(secs, BANGKOK_OFFSET as int))
    } else {
        Seq::empty()
    }
}

/// How an expense's time (in microseconds) is shown in today's list: its
/// Bangkok time of day; nothing for a time that chrono does not hold.
pub open spec fn shown_time(micros: i64) -> Seq<char> {
    let secs = seconds_of(micros as int);
    if in_range(secs) {
        hour_minute(civil_time(secs, BANGKOK_OFFSET as int))
    } else {
        Seq::empty()
    }
}

/// The whole seconds of a time in microseconds.
fn whole_seconds(micros: i64) -> (secs: i64)
    ensures
        secs == seconds_of(micros as int),
{
    let q = micros / MICROS;
    let r = micros % MICROS;
    assert(q * MICROS + r == micros);
    if r < 0 {
        q - 1
    } else {
        q
    }
}

/// Appends the Bangkok day, month and time of day of `micros` to `out`.
pub fn push_date(out: &mut String, micros: i64)
    ensures
        final(out)@ == old(out)@ + shown_date(micros),
{
    let secs = whole_seconds(micros);
    if MIN_TIMESTAMP <= secs && secs <= MAX_TIMESTAMP {
        let t = civil_fields(secs, BANGKOK_OFFSET);
        proof {
            lemma_civil_time_ranges(secs as int, BANGKOK_OFFSET as int);
        }
        push_two_digits(out, t.2);
        out.append("/");
        push_two_digits(out, t.1);
        out.append(" ");
        push_two_digits(out, t.3);
        out.append(":");
        push_two_digits(out, t.4);
        proof {
            reveal_strlit("/");
            reveal_strlit(" ");
            reveal_strlit(":");
        }
        assert(out@ =~= old(out)@ + shown_date(micros));
    } else {
        assert(old(out)@ + shown_date(micros) =~= old(out)@);
    }
}

/// Appends the Bangkok time of day of `micros` to `out`.
pub fn push_time(out: &mut String, micros: i64)
    ensures
        final(out)@ == old(out)@ + shown_time(micros),
{
    let secs = whole_seconds(micros);
    if MIN_TIMESTAMP <= secs && secs <= MAX_TIMESTAMP {
        let t = civil_fields(secs, BANGKOK_OFFSET);
        proof {
            lemma_civil_time_ranges(secs as int, BANGKOK_OFFSET as int);
        }
        push_two_digits(out, t.3);
        out.append(":");
        push_two_digits(out, t.4);
        proof {
            reveal_strlit(":");
        }
        assert(out@ =~= old(out)@ + shown_time(micros));
    } else {
        assert(old(out)@ + shown_time(micros) =~= old(out)@);
    }
}

/// The start of the Bangkok day that `now` falls in: the latest midnight in
/// Bangkok (17:00 UTC) at or before `now`.
pub open spec fn bangkok_day_start(now: int) -> int {
    now - (now + BANGKOK_OFFSET) % (DAY as int)
}

/// The start of today in Bangkok.
pub fn today_start(now: i64) -> (start: i128)
    ensures
        start == bangkok_day_start(now as int),
{
    let shifted = now as i128 + BANGKOK_OFFSET as i128;
    let r = shifted % (DAY as i128);
    let r = if r < 0 {
        r + DAY as i128
    } else {
        r
    };
    assert(r == (now + BANGKOK_OFFSET) % (DAY as int));
    now as i128 - r
}

/// Today starts at a Bangkok midnight, no later than now and less than a
/// day before it.
pub proof fn law_today_start(now: int)
    ensures
        bangkok_day_start(now) <= now < bangkok_day_start(now) + DAY,
        (bangkok_day_start(now) + BANGKOK_OFFSET) % (DAY as int) == 0,
{
    let r = (now + BANGKOK_OFFSET) % (DAY as int);
    assert((now + BANGKOK_OFFSET - r) % (DAY as int) == 0) by {
        vstd::arithmetic::div_mod::lemma_fundamental_div_mod(now + BANGKOK_OFFSET, DAY as int);
        vstd::arithmetic::div_mod::lemma_mod_multiples_basic(
            (now + BANGKOK_OFFSET) / (DAY as int),
            DAY as int,
        );
    }
}

/// The filter value for "created today": the start of today in Bangkok,
/// written in UTC as `YYYY-MM-DDTHH:MM:SSZ` (the time part is `17:00:00`);
/// nothing when that day lies outside the years 1 to 9999.
pub open spec fn today_filter(now: int) -> Seq<char> {
    let start = bangkok_day_start(now);
    let t = civil_time(start, 0);
    if in_range(start) && 1 <= t.0 <= 9999 {
        utc_stamp(t)
    } else {
        Seq::empty()
    }
}

/// The start of today in Bangkok, written in UTC for the expense query.
pub fn today_start_utc(now: i64) -> (s: String)
    ensures
        s@ == today_filter(now as int),
{
    let start = today_start(now);
    let mut out = String::new();
    if MIN_TIMESTAMP as i128 <= start && start <= MAX_TIMESTAMP as i128 {
        let t = civil_fields(start as i64, 0);
        proof {
            lemma_civil_time_ranges(start as int, 0);
        }
        if t.0 < 1 || t.0 > 9999 {
            assert(today_filter(now as int) =~= Seq::<char>::empty());
            return out;
        }
        let ghost y = text::decimal(t.0 as nat);
        proof {
            text::lemma_decimal_len(t.0 as nat);
            lemma_decimal_len_below(t.0 as nat);
        }
        proof {
            reveal_strlit("0");
        }
        if t.0 < 1000 {
            out.append("0");
        }
        if t.0 < 100 {
            out.append("0");
        }
        if t.0 < 10 {
            out.append("0");
        }
        assert(out@ =~= Seq::new((4 - y.len()) as nat, |i: int| '0'));
        push_decimal(&mut out, t.0 as u128);
        out.append("-");
        push_two_digits(&mut out, t.1);
        out.append("-");
        push_two_digits(&mut out, t.2);
        out.append("T");
        push_two_digits(&mut out, t.3);
        out.append(":");
        push_two_digits(&mut out, t.4);
        out.append(":");
        push_two_digits(&mut out, t.5);
        out.append("Z");
        proof {
            reveal_strlit("-");
            reveal_strlit("T");
            reveal_strlit(":");
            reveal_strlit("Z");
        }
        assert(out@ =~= today_filter(now as int));
    } else {
        assert(today_filter(now as int) =~= Seq::<char>::empty());
    }
    out
}

/// The number of digits of numbers below a thousand, a hundred and ten.
pub proof fn lemma_decimal_len_below(n: nat)
    ensures
        n < 10 ==> text::decimal(n).len() == 1,
        10 <= n < 100 ==> text::decimal(n).len() == 2,
        100 <= n < 1000 ==> text::decimal(n).len() == 3,
        1000 <= n < 10000 ==> text::decimal(n).len() == 4,
    decreases n,
{
    if n >= 10 {
        lemma_decimal_len_below(n / 10);
    }
}

} // verus!
