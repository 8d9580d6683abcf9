//! Timestamps: RFC 3339 texts and load markers, and the system clock that they are read from.

use core::time::Duration;
use std::time::SystemTime;

use vstd::prelude::*;
use vstd::string::*;

use crate::calendar::{
    day_number, days_in_month, epoch_to_ymdhms, is_date, law_dates_in_order,
};
use crate::text::{decimal, digit, padded, push_decimal, push_padded, zeros};

verus! {

/// The last second of the year 2147483647.
pub const LAST_SECOND: u64 = 67_767_976_233_532_799;

/// A calendar date with a time of day.
pub struct Moment {
    pub year: int,
    pub month: int,
    pub day: int,
    pub hour: int,
    pub minute: int,
    pub second: int,
}

impl Moment {
    /// Tells whether this moment lies `secs` seconds after the start of 1970.
    pub open spec fn is_at(self, secs: int) -> bool {
        &&& is_date(self.year, self.month, self.day)
        &&& 0 <= self.hour < 24
        &&& 0 <= self.minute < 60
        &&& 0 <= self.second < 60
        &&& secs == day_number(self.year, self.month, self.day) * 86_400 + self.hour * 3600
            + self.minute * 60 + self.second
    }

    /// The moment in RFC 3339, with `millis` milliseconds, in UTC.
    pub open spec fn rfc3339(self, millis: nat) -> Seq<char> {
        padded(self.year as nat, 4) + "-"@ + padded(self.month as nat, 2) + "-"@ + padded(
            self.day as nat,
            2,
        ) + "T"@ + padded(self.hour as nat, 2) + ":"@ + padded(self.minute as nat, 2) + ":"@
            + padded(self.second as nat, 2) + "."@ + padded(millis, 3) + "Z"@
    }
}

/// The moment `secs` seconds after the start of 1970.
pub open spec fn moment_at(secs: int) -> Moment {
    choose|t: Moment| t.is_at(secs)
}

/// A number of seconds stands for one moment only.
pub proof fn law_moment_unique(t: Moment, secs: int)
    requires
        t.is_at(secs),
    ensures
        moment_at(secs) == t,
{
    let u = moment_at(secs);
    assert(u.is_at(secs));
    law_dates_in_order(t.year, t.month, t.day, u.year, u.month, u.day);
}

/// Every number of seconds stands for a moment.
pub proof fn law_every_second_is_a_moment(secs: int)
    ensures
        moment_at(secs).is_at(secs),
{
    let days = secs / 86_400;
    let rest = secs % 86_400;
    let (y, m, d) = crate::calendar::lemma_every_day_has_a_date(days);
    let t = Moment {
        year: y,
        month: m,
        day: d,
        hour: rest / 3600,
        minute: (rest % 3600) / 60,
        second: rest % 60,
    };
    assert(t.is_at(secs));
}

/// The RFC 3339 text of the moment `secs` seconds and `millis` milliseconds after the start of
/// 1970.
pub open spec fn rfc3339_text(secs: int, millis: nat) -> Seq<char> {
    moment_at(secs).rfc3339(millis)
}

/// The moment `secs` seconds and `millis` milliseconds after the start of 1970, in RFC 3339.
pub fn rfc3339_at(secs: u64, millis: u32) -> (r: String)
    requires
        secs <= LAST_SECOND,
    ensures
        r@ == rfc3339_text(secs as int, millis as nat),
{
    proof {
        crate::calendar::lemma_last_second();
    }
    let (year, month, day, hour, min, sec) = epoch_to_ymdhms(secs as i64);
    proof {
        let t = Moment {
            year: year as int,
            month: month as int,
            day: day as int,
            hour: hour as int,
            minute: min as int,
            second: sec as int,
        };
        law_moment_unique(t, secs as int);
        if year < 1970 {
            law_dates_in_order(year as int, month as int, day as int, 1970, 1, 1);
            crate::calendar::lemma_epoch();
        }
    }
    let mut out = String::new();
    push_padded(&mut out, year as u64, 4);
    out.append("-");
    push_padded(&mut out, month as u64, 2);
    out.append("-");
    push_padded(&mut out, day as u64, 2);
    out.append("T");
    push_padded(&mut out, hour as u64, 2);
    out.append(":");
    push_padded(&mut out, min as u64, 2);
    out.append(":");
    push_padded(&mut out, sec as u64, 2);
    out.append(".");
    push_padded(&mut out, millis as u64, 3);
    out.append("Z");
    proof {
        let t = moment_at(secs as int);
        assert(Seq::<char>::empty() + padded(t.year as nat, 4) == padded(t.year as nat, 4));
    }
    out
}

/// Tells whether `a` sorts before `b`, character by character.
pub open spec fn sorts_before(a: Seq<char>, b: Seq<char>) -> bool {
    ||| exists|k: int|
        0 <= k < a.len() && k < b.len() && a.take(k) == b.take(k) && #[trigger] a[k] < b[k]
    ||| a.len() < b.len() && a == b.take(a.len() as int)
}

/// `n` in decimal, its last `width` digits.
spec fn fixed(n: nat, width: nat) -> Seq<char>
    decreases width,
{
    if width == 0 {
        Seq::empty()
    } else {
        fixed(n / 10, (width - 1) as nat).push(digit(n % 10))
    }
}

spec fn power_of_ten(width: nat) -> nat
    decreases width,
{
    if width == 0 {
        1
    } else {
        10 * power_of_ten((width - 1) as nat)
    }
}

proof fn lemma_fixed_len(n: nat, width: nat)
    ensures
        fixed(n, width).len() == width,
    decreases width,
{
    if width > 0 {
        lemma_fixed_len(n / 10, (width - 1) as nat);
    }
}

proof fn lemma_fixed_zero(width: nat)
    ensures
        fixed(0, width) == zeros(width),
    decreases width,
{
    if width > 0 {
        lemma_fixed_zero((width - 1) as nat);
        assert(fixed(0, width) == zeros(width));
    } else {
        assert(fixed(0, width) == zeros(width));
    }
}

proof fn lemma_padded_is_fixed(n: nat, width: nat)
    requires
        n < power_of_ten(width),
        width >= 1,
    ensures
        padded(n, width) == fixed(n, width),
    decreases width,
{
    let less = (width - 1) as nat;
    if n < 10 {
        lemma_fixed_zero(less);
        assert(padded(n, width) == zeros(less) + seq![digit(n)]);
        assert(fixed(n, width) == zeros(less).push(digit(n)));
        assert(padded(n, width) == fixed(n, width));
    } else {
        assert(width >= 2) by {
            reveal_with_fuel(power_of_ten, 2);
        }
        lemma_padded_is_fixed(n / 10, less);
        lemma_fixed_len(n / 10, less);
        assert(decimal(n) == decimal(n / 10).push(digit(n % 10)));
        assert(padded(n, width) == padded(n / 10, less).push(digit(n % 10)));
    }
}

/// Of two numbers of one width, the smaller one sorts first.
proof fn lemma_fixed_in_order(a: nat, b: nat, width: nat)
    requires
        a < b < power_of_ten(width),
    ensures
        sorts_before(fixed(a, width), fixed(b, width)),
    decreases width,
{
    let less = (width - 1) as nat;
    let p = fixed(a / 10, less);
    let q = fixed(b / 10, less);
    lemma_fixed_len(a / 10, less);
    lemma_fixed_len(b / 10, less);
    let x = fixed(a, width);
    let y = fixed(b, width);
    if a / 10 < b / 10 {
        lemma_fixed_in_order(a / 10, b / 10, less);
        let k = choose|k: int|
            0 <= k < p.len() && k < q.len() && p.take(k) == q.take(k) && #[trigger] p[k] < q[k];
        assert(x.take(k) == p.take(k));
        assert(y.take(k) == q.take(k));
        assert(x[k] < y[k]);
    } else {
        assert(x.take(less as int) == p);
        assert(y.take(less as int) == q);
        assert(x[less as int] < y[less as int]);
    }
}

/// Two texts that begin alike sort as what follows, where that has one length.
proof fn lemma_sorts_after_prefix(
    p: Seq<char>,
    a: Seq<char>,
    b: Seq<char>,
    x: Seq<char>,
    y: Seq<char>,
)
    requires
        a.len() == b.len(),
        sorts_before(a, b),
    ensures
        sorts_before(p + a + x, p + b + y),
{
    let k = choose|k: int|
        0 <= k < a.len() && k < b.len() && a.take(k) == b.take(k) && #[trigger] a[k] < b[k];
    let s = p + a + x;
    let t = p + b + y;
    let at = p.len() + k;
    assert forall|i: int| 0 <= i < at implies s[i] == t[i] by {
        if i >= p.len() {
            assert(a.take(k)[i - p.len()] == b.take(k)[i - p.len()]);
        }
    }
    assert(s.take(at) == t.take(at));
    assert(s[at] == a[k] && t[at] == b[k]);
    assert(s[at] < t[at]);
}

/// Of two padded numbers that both fit `width` digits, the smaller one sorts first, whatever
/// stands before both and after each.
proof fn lemma_padded_in_order(
    p: Seq<char>,
    a: nat,
    b: nat,
    width: nat,
    x: Seq<char>,
    y: Seq<char>,
)
    requires
        width >= 1,
        a < b < power_of_ten(width),
    ensures
        sorts_before(p + padded(a, width) + x, p + padded(b, width) + y),
{
    lemma_padded_is_fixed(a, width);
    lemma_padded_is_fixed(b, width);
    lemma_fixed_len(a, width);
    lemma_fixed_len(b, width);
    lemma_fixed_in_order(a, b, width);
    lemma_sorts_after_prefix(p, fixed(a, width), fixed(b, width), x, y);
}

proof fn lemma_regroup(p: Seq<char>, a: Seq<char>, b: Seq<char>, c: Seq<char>)
    ensures
        p + a + b + c == p + (a + b + c),
{
    assert(p + a + b + c == p + (a + b + c));
}

/// A timestamp of the given fields, and the same text cut before and after each field.
proof fn lemma_fields(
    y: Seq<char>,
    dash: Seq<char>,
    m: Seq<char>,
    d: Seq<char>,
    t: Seq<char>,
    h: Seq<char>,
    colon: Seq<char>,
    n: Seq<char>,
    c: Seq<char>,
    dot: Seq<char>,
    u: Seq<char>,
    z: Seq<char>,
)
    ensures
        ({
            let full = y + dash + m + dash + d + t + h + colon + n + colon + c + dot + u + z;
            let after_c = dot + u + z;
            let after_n = colon + c + after_c;
            let after_h = colon + n + after_n;
            let after_d = t + h + after_h;
            let after_m = dash + d + after_d;
            let after_y = dash + m + after_m;
            &&& full == Seq::<char>::empty() + y + after_y
            &&& full == (y + dash) + m + after_m
            &&& full == (y + dash + m + dash) + d + after_d
            &&& full == (y + dash + m + dash + d + t) + h + after_h
            &&& full == (y + dash + m + dash + d + t + h + colon) + n + after_n
            &&& full == (y + dash + m + dash + d + t + h + colon + n + colon) + c + after_c
            &&& full == (y + dash + m + dash + d + t + h + colon + n + colon + c + dot) + u + z
        }),
{
    let after_c = dot + u + z;
    let after_n = colon + c + after_c;
    let after_h = colon + n + after_n;
    let after_d = t + h + after_h;
    let after_m = dash + d + after_d;
    let to_m = y + dash + m;
    let to_d = to_m + dash + d;
    let to_h = to_d + t + h;
    let to_n = to_h + colon + n;
    lemma_regroup(to_n + colon + c, dot, u, z);
    lemma_regroup(to_n, colon, c, after_c);
    lemma_regroup(to_h, colon, n, after_n);
    lemma_regroup(to_d, t, h, after_h);
    lemma_regroup(to_m, dash, d, after_d);
    lemma_regroup(y, dash, m, after_m);
    assert(Seq::<char>::empty() + y == y);
}

/// Up to the year 9999, RFC 3339 texts sort as the moments that they show.
pub proof fn law_timestamps_sort_in_time(secs1: int, millis1: nat, secs2: int, millis2: nat)
    requires
        0 <= secs1,
        secs2 < day_number(10_000, 1, 1) * 86_400,
        millis1 < 1000,
        millis2 < 1000,
        secs1 < secs2 || (secs1 == secs2 && millis1 < millis2),
    ensures
        sorts_before(rfc3339_text(secs1, millis1), rfc3339_text(secs2, millis2)),
{
    law_every_second_is_a_moment(secs1);
    law_every_second_is_a_moment(secs2);
    let t1 = moment_at(secs1);
    let t2 = moment_at(secs2);
    crate::calendar::lemma_epoch();
    law_dates_in_order(t1.year, t1.month, t1.day, 1970, 1, 1);
    law_dates_in_order(t2.year, t2.month, t2.day, 1970, 1, 1);
    law_dates_in_order(t2.year, t2.month, t2.day, 10_000, 1, 1);
    law_dates_in_order(t1.year, t1.month, t1.day, t2.year, t2.month, t2.day);
    lemma_fields_in_order(
        t1.year as nat,
        t1.month as nat,
        t1.day as nat,
        t1.hour as nat,
        t1.minute as nat,
        t1.second as nat,
        millis1,
        t2.year as nat,
        t2.month as nat,
        t2.day as nat,
        t2.hour as nat,
        t2.minute as nat,
        t2.second as nat,
        millis2,
    );
}

/// A timestamp of the given fields.
spec fn stamp(y: nat, m: nat, d: nat, h: nat, n: nat, c: nat, u: nat) -> Seq<char> {
    padded(y, 4) + "-"@ + padded(m, 2) + "-"@ + padded(d, 2) + "T"@ + padded(h, 2) + ":"@ + padded(
        n,
        2,
    ) + ":"@ + padded(c, 2) + "."@ + padded(u, 3) + "Z"@
}

proof fn lemma_fields_in_order(
    y1: nat,
    m1: nat,
    d1: nat,
    h1: nat,
    n1: nat,
    c1: nat,
    u1: nat,
    y2: nat,
    m2: nat,
    d2: nat,
    h2: nat,
    n2: nat,
    c2: nat,
    u2: nat,
)
    requires
        y1 < y2 || (y1 == y2 && (m1 < m2 || (m1 == m2 && (d1 < d2 || (d1 == d2 && (h1 < h2 || (h1
            == h2 && (n1 < n2 || (n1 == n2 && (c1 < c2 || (c1 == c2 && u1 < u2))))))))))),
        y2 <= 9999,
        m2 < 100,
        d2 < 100,
        h2 < 100,
        n2 < 100,
        c2 < 100,
        u2 < 1000,
    ensures
        sorts_before(stamp(y1, m1, d1, h1, n1, c1, u1), stamp(y2, m2, d2, h2, n2, c2, u2)),
{
    assert(power_of_ten(4) == 10_000 && power_of_ten(3) == 1000 && power_of_ten(2) == 100) by {
        reveal_with_fuel(power_of_ten, 5);
    }
    let (y, dash, m, d, t, h) = (padded(y1, 4), "-"@, padded(m1, 2), padded(d1, 2), "T"@, padded(
        h1,
        2,
    ));
    let (colon, n, c, dot, u, z) = (":"@, padded(n1, 2), padded(c1, 2), "."@, padded(u1, 3), "Z"@);
    let (yy, mm, dd, hh) = (padded(y2, 4), padded(m2, 2), padded(d2, 2), padded(h2, 2));
    let (nn, cc, uu) = (padded(n2, 2), padded(c2, 2), padded(u2, 3));
    lemma_fields(y, dash, m, d, t, h, colon, n, c, dot, u, z);
    lemma_fields(yy, dash, mm, dd, t, hh, colon, nn, cc, dot, uu, z);
    // What follows each field, in the earlier and in the later text.
    let (after_c, after_cc) = (dot + u + z, dot + uu + z);
    let (after_n, after_nn) = (colon + c + after_c, colon + cc + after_cc);
    let (after_h, after_hh) = (colon + n + after_n, colon + nn + after_nn);
    let (after_d, after_dd) = (t + h + after_h, t + hh + after_hh);
    let (after_m, after_mm) = (dash + d + after_d, dash + dd + after_dd);
    let (after_y, after_yy) = (dash + m + after_m, dash + mm + after_mm);
    if y1 < y2 {
        lemma_padded_in_order(Seq::<char>::empty(), y1, y2, 4, after_y, after_yy);
    } else if m1 < m2 {
        lemma_padded_in_order(y + dash, m1, m2, 2, after_m, after_mm);
    } else if d1 < d2 {
        lemma_padded_in_order(y + dash + m + dash, d1, d2, 2, after_d, after_dd);
    } else if h1 < h2 {
        lemma_padded_in_order(y + dash + m + dash + d + t, h1, h2, 2, after_h, after_hh);
    } else if n1 < n2 {
        lemma_padded_in_order(
            y + dash + m + dash + d + t + h + colon,
            n1,
            n2,
            2,
            after_n,
            after_nn,
        );
    } else if c1 < c2 {
        lemma_padded_in_order(
            y + dash + m + dash + d + t + h + colon + n + colon,
            c1,
            c2,
            2,
            after_c,
            after_cc,
        );
    } else {
        lemma_padded_in_order(
            y + dash + m + dash + d + t + h + colon + n + colon + c + dot,
            u1,
            u2,
            3,
            z,
            z,
        );
    }
}

/// The text that marks when a bundle was looked at: `@` and the seconds since the start of 1970.
pub fn marker_at(secs: u64) -> (r: String)
    ensures
        r@ == "@"@ + decimal(secs as nat),
{
    let mut out = String::new();
    out.append("@");
    push_decimal(&mut out, secs as u128);
    out
}

/// `std::time::SystemTime`, a reading of the system clock.
#[verifier::external_type_specification]
#[verifier::external_body]
pub struct ExSystemTime(SystemTime);

/// `SystemTime::now` reads the system clock. Nothing is claimed of the reading.
pub assume_specification[ SystemTime::now ]() -> SystemTime
;

/// The length of a duration in nanoseconds.
pub uninterp spec fn nanos_of(d: Duration) -> nat;

/// How long after the start of 1970 a reading of the clock lies, in nanoseconds; nothing where it
/// lies before.
pub uninterp spec fn nanos_since_1970(reading: SystemTime) -> Option<nat>;

/// `Duration::as_secs` gives the whole seconds of a duration.
pub assume_specification[ Duration::as_secs ](d: &Duration) -> (r: u64)
    ensures
        r == nanos_of(*d) / 1_000_000_000,
;

/// `Duration::subsec_millis` gives the whole milliseconds of the fraction of a second that a
/// duration ends with.
pub assume_specification[ Duration::subsec_millis ](d: &Duration) -> (r: u32)
    ensures
        r == nanos_of(*d) % 1_000_000_000 / 1_000_000,
;

/// `SystemTime::duration_since`, from the start of 1970, gives how long after it a reading lies:
/// `None` where the reading lies before it.
#[verifier::external_body]
fn since_epoch(reading: SystemTime) -> (r: Option<Duration>)
    ensures
        match r {
            Some(d) => nanos_since_1970(reading) == Some(nanos_of(d)),
            None => nanos_since_1970(reading) is None,
        },
{
    reading.duration_since(std::time::UNIX_EPOCH).ok()
}

/// A reading of the clock as whole seconds and milliseconds since the start of 1970, both zero where
/// it lies before.
pub open spec fn unix_time(reading: SystemTime) -> (nat, nat) {
    match nanos_since_1970(reading) {
        Some(nanos) => (nanos / 1_000_000_000, nanos % 1_000_000_000 / 1_000_000),
        None => (0, 0),
    }
}

/// A reading of the clock as whole seconds and milliseconds since the start of 1970, both zero where
/// it lies before.
pub fn unix_time_at(reading: SystemTime) -> (r: (u64, u32))
    ensures
        (r.0 as nat, r.1 as nat) == unix_time(reading),
        r.1 < 1000,
{
    match since_epoch(reading) {
        Some(d) => (d.as_secs(), d.subsec_millis()),
        None => (0, 0),
    }
}

/// The system clock as whole seconds and milliseconds since the start of 1970, both zero where the
/// clock stands before it.
pub fn unix_now() -> (r: (u64, u32))
    ensures
        exists|reading: SystemTime| (r.0 as nat, r.1 as nat) == #[trigger] unix_time(reading),
        r.1 < 1000,
{
    unix_time_at(SystemTime::now())
}

/// A moment in RFC 3339, or `None` where it lies after the year 2147483647.
pub fn timestamp(secs: u64, millis: u32) -> (r: Option<String>)
    ensures
        match r {
            Some(text) => {
                &&& secs <= LAST_SECOND
                &&& text@ == rfc3339_text(secs as int, millis as nat)
            },
            None => secs > LAST_SECOND,
        },
{
    if secs <= LAST_SECOND {
        Some(rfc3339_at(secs, millis))
    } else {
        None
    }
}

/// The current moment in RFC 3339, or `None` where the clock stands after the year 2147483647.
pub fn rfc3339_now() -> (r: Option<String>)
    ensures
        exists|reading: SystemTime|
            {
                let (secs, millis) = #[trigger] unix_time(reading);
                match r {
                    Some(text) => {
                        &&& secs <= LAST_SECOND
                        &&& millis < 1000
                        &&& text@ == rfc3339_text(secs as int, millis)
                    },
                    None => secs > LAST_SECOND,
                }
            },
{
    let (secs, millis) = unix_now();
    timestamp(secs, millis)
}

/// The marker of the current moment.
pub fn now_marker() -> (r: String)
    ensures
        exists|reading: SystemTime| r@ == "@"@ + decimal((#[trigger] unix_time(reading)).0),
{
    let (secs, _) = unix_now();
    marker_at(secs)
}

/// A moment in RFC 3339 is its date and its time of day, field by field: with `T` between, dashes in
/// the date, colons in the time, a point before the milliseconds, and `Z` at the end.
pub proof fn law_timestamp_fields(t: Moment, secs: int, millis: nat)
    requires
        1 <= t.month <= 12,
        1 <= t.day <= days_in_month(t.year, t.month),
        0 <= t.hour < 24,
        0 <= t.minute < 60,
        0 <= t.second < 60,
        secs == 86_400 * day_number(t.year, t.month, t.day) + 3600 * t.hour + 60 * t.minute
            + t.second,
    ensures
        rfc3339_text(secs, millis) == padded(t.year as nat, 4) + seq!['-'] + padded(
            t.month as nat,
            2,
        ) + seq!['-'] + padded(t.day as nat, 2) + seq!['T'] + padded(t.hour as nat, 2) + seq![':']
            + padded(t.minute as nat, 2) + seq![':'] + padded(t.second as nat, 2) + seq!['.']
            + padded(millis, 3) + seq!['Z'],
{
    law_moment_unique(t, secs);
    reveal_strlit("-");
    reveal_strlit("T");
    reveal_strlit(":");
    reveal_strlit(".");
    reveal_strlit("Z");
    assert("-"@ == seq!['-']);
    assert("T"@ == seq!['T']);
    assert(":"@ == seq![':']);
    assert("."@ == seq!['.']);
    assert("Z"@ == seq!['Z']);
}

/// Every second lies on a day of the calendar, at a time of that day.
pub proof fn law_fields_of_a_moment(secs: int)
    ensures
        ({
            let t = moment_at(secs);
            &&& 1 <= t.month <= 12
            &&& 1 <= t.day <= days_in_month(t.year, t.month)
            &&& 0 <= t.hour < 24
            &&& 0 <= t.minute < 60
            &&& 0 <= t.second < 60
            &&& secs == 86_400 * day_number(t.year, t.month, t.day) + 3600 * t.hour + 60 * t.minute
                + t.second
        }),
{
    law_every_second_is_a_moment(secs);
}

/// A reading of the clock lies within the millisecond after its seconds and milliseconds, of which
/// there are fewer than a thousand. One from before 1970 counts as the start of it.
pub proof fn law_readings_of_the_clock(reading: SystemTime)
    ensures
        unix_time(reading).1 < 1000,
        match nanos_since_1970(reading) {
            Some(nanos) => unix_time(reading).0 * 1_000_000_000 + unix_time(reading).1 * 1_000_000
                <= nanos < unix_time(reading).0 * 1_000_000_000 + unix_time(reading).1 * 1_000_000
                + 1_000_000,
            None => unix_time(reading).0 == 0 && unix_time(reading).1 == 0,
        },
{
}

} // verus!
