//! Proton notification triggers: ISO-8601 durations such as `-PT15M` that say
//! how long before the event start a reminder fires.
use vstd::prelude::*;

use crate::decimal::{
    decimal, digit_char, digits_value, is_digit, lemma_decimal_reads_back, lemma_digit_char,
    lemma_parse_decimal, parse_u64, parse_u64_chars, push_decimal,
};
use crate::text::{chars_of, find_char, string_of};

verus! {

/// Minutes in a week.
pub const MINUTES_PER_WEEK: u64 = 10080;

/// Minutes in a day.
pub const MINUTES_PER_DAY: u64 = 1440;

/// The index of the first occurrence of `c` in `s`, if any.
pub open spec fn find_first(s: Seq<char>, c: char) -> Option<int>
    decreases s.len(),
{
    if s.len() == 0 {
        None
    } else if s[0] == c {
        Some(0)
    } else {
        match find_first(s.skip(1), c) {
            Some(i) => Some(i + 1),
            None => None,
        }
    }
}

/// One `<number><unit>` field of the time part of a duration: when `unit`
/// occurs in `rest`, the text before its first occurrence must parse as a
/// `u64`, and the text after it is what is left; otherwise the field is 0 and
/// nothing is consumed. `None` when the number does not parse.
pub open spec fn unit_field(rest: Seq<char>, unit: char) -> Option<(u64, Seq<char>)> {
    match find_first(rest, unit) {
        None => Some((0u64, rest)),
        Some(i) => match parse_u64(rest.take(i)) {
            Some(v) => Some((v, rest.skip(i + 1))),
            None => None,
        },
    }
}

/// The number of minutes an ISO-8601 duration (`P<n>W`, or
/// `P[<n>D][T[<n>H][<n>M][<n>S]]`) stands for; `None` when the text is not
/// such a duration, when the seconds are not whole minutes, or when the total
/// does not fit in a `u64`.
pub open spec fn iso_duration_minutes(raw: Seq<char>) -> Option<u64> {
    if !(raw.len() > 0 && raw[0] == 'P') {
        None
    } else {
        let body = raw.skip(1);
        if body.len() > 0 && body.last() == 'W' {
            match parse_u64(body.drop_last()) {
                Some(w) => if w * 10080 <= u64::MAX {
                    Some((w * 10080) as u64)
                } else {
                    None
                },
                None => None,
            }
        } else {
            let date = match find_first(body, 'T') {
                Some(i) => body.take(i),
                None => body,
            };
            let time = match find_first(body, 'T') {
                Some(i) => body.skip(i + 1),
                None => Seq::<char>::empty(),
            };
            match date_days(date) {
                None => None,
                Some(d) => time_total(d, time),
            }
        }
    }
}

/// The days of the date part of a duration: empty, or `<n>D`.
pub open spec fn date_days(date: Seq<char>) -> Option<u64> {
    if date.len() == 0 {
        Some(0u64)
    } else if date.last() == 'D' {
        parse_u64(date.drop_last())
    } else {
        None
    }
}

/// The total minutes of `days` plus the time part `[<n>H][<n>M][<n>S]`; the
/// seconds must be whole minutes and nothing may be left over.
pub open spec fn time_total(days: u64, time: Seq<char>) -> Option<u64> {
    match unit_field(time, 'H') {
        None => None,
        Some((h, r1)) => match unit_field(r1, 'M') {
            None => None,
            Some((m, r2)) => match unit_field(r2, 'S') {
                None => None,
                Some((s, r3)) => if r3.len() != 0 || s % 60 != 0 {
                    None
                } else if days * 1440 + h * 60 + m + s / 60 <= u64::MAX {
                    Some((days * 1440 + h * 60 + m + s / 60) as u64)
                } else {
                    None
                },
            },
        },
    }
}

/// The reminder, in minutes before the start, that a trigger stands for: a
/// `-` followed by an ISO-8601 duration that fits in an `i64`.
pub open spec fn trigger_minutes(trigger: Seq<char>) -> Option<i64> {
    if trigger.len() > 0 && trigger[0] == '-' {
        match iso_duration_minutes(trigger.skip(1)) {
            Some(m) => if m <= i64::MAX {
                Some(m as i64)
            } else {
                None
            },
            None => None,
        }
    } else {
        None
    }
}

/// The magnitude of a reminder offset.
pub open spec fn abs_minutes(minutes: i64) -> nat {
    if minutes < 0 {
        (-minutes) as nat
    } else {
        minutes as nat
    }
}

/// The trigger written for a reminder: whole weeks as `-P<n>W`, whole days as
/// `-P<n>D`, otherwise `-PT[<h>H][<m>M]`, and `-PT0S` for zero. The sign of the
/// offset is not kept.
pub open spec fn trigger_text(minutes: i64) -> Seq<char> {
    let m = abs_minutes(minutes);
    if m == 0 {
        seq!['-', 'P', 'T', '0', 'S']
    } else if m % 10080 == 0 {
        seq!['-', 'P'] + decimal(m / 10080) + seq!['W']
    } else if m % 1440 == 0 {
        seq!['-', 'P'] + decimal(m / 1440) + seq!['D']
    } else {
        seq!['-', 'P', 'T'] + (if m / 60 > 0 {
            decimal(m / 60).push('H')
        } else {
            Seq::<char>::empty()
        }) + (if m % 60 > 0 {
            decimal(m % 60).push('M')
        } else {
            Seq::<char>::empty()
        })
    }
}

proof fn lemma_find_first_found(s: Seq<char>, c: char, k: int)
    requires
        0 <= k < s.len(),
        s[k] == c,
        forall|j: int| 0 <= j < k ==> s[j] != c,
    ensures
        find_first(s, c) == Some(k),
    decreases s.len(),
{
    if k > 0 {
        lemma_find_first_found(s.skip(1), c, k - 1);
    }
}

proof fn lemma_find_first_absent(s: Seq<char>, c: char)
    requires
        forall|j: int| 0 <= j < s.len() ==> s[j] != c,
    ensures
        find_first(s, c) is None,
    decreases s.len(),
{
    if s.len() > 0 {
        lemma_find_first_absent(s.skip(1), c);
    }
}

/// Searching past a prefix that does not hold the character.
proof fn lemma_find_first_after(a: Seq<char>, b: Seq<char>, c: char)
    requires
        forall|j: int| 0 <= j < a.len() ==> a[j] != c,
    ensures
        find_first(a + b, c) == (match find_first(b, c) {
            Some(i) => Some(i + a.len()),
            None => None,
        }),
    decreases a.len(),
{
    if a.len() > 0 {
        assert((a + b).skip(1) =~= a.skip(1) + b);
        lemma_find_first_after(a.skip(1), b, c);
    } else {
        assert(a + b =~= b);
    }
}

/// The first occurrence of `c` in `s@[lo..hi]`, located by a scan.
fn find_in(s: &Vec<char>, c: char, lo: usize, hi: usize) -> (r: Option<usize>)
    requires
        lo <= hi <= s.len(),
    ensures
        match r {
            Some(i) => lo <= i < hi && find_first(s@.subrange(lo as int, hi as int), c) == Some(
                i - lo,
            ),
            None => find_first(s@.subrange(lo as int, hi as int), c) is None,
        },
{
    let r = find_char(s, c, lo, hi);
    proof {
        let t = s@.subrange(lo as int, hi as int);
        match r {
            Some(i) => {
                assert forall|j: int| 0 <= j < i - lo implies t[j] != c by {
                    assert(t[j] == s@[lo + j]);
                }
                lemma_find_first_found(t, c, i - lo);
            },
            None => {
                assert forall|j: int| 0 <= j < t.len() implies t[j] != c by {
                    assert(t[j] == s@[lo + j]);
                }
                lemma_find_first_absent(t, c);
            },
        }
    }
    r
}

/// One unit field of `s@[pos..hi]`: its value and where the rest begins.
fn unit_field_in(s: &Vec<char>, unit: char, pos: usize, hi: usize) -> (r: Option<(u64, usize)>)
    requires
        pos <= hi <= s.len(),
    ensures
        match r {
            Some((v, next)) => pos <= next <= hi && unit_field(
                s@.subrange(pos as int, hi as int),
                unit,
            ) == Some((v, s@.subrange(next as int, hi as int))),
            None => unit_field(s@.subrange(pos as int, hi as int), unit) is None,
        },
{
    let ghost rest = s@.subrange(pos as int, hi as int);
    match find_in(s, unit, pos, hi) {
        None => Some((0, pos)),
        Some(i) => {
            assert(rest.take(i - pos) =~= s@.subrange(pos as int, i as int));
            assert(rest.skip(i - pos + 1) =~= s@.subrange(i + 1, hi as int));
            match parse_u64_chars(s, pos, i) {
                Some(v) => Some((v, i + 1)),
                None => None,
            }
        },
    }
}

/// [`iso_duration_minutes`] of `s@[lo..hi]`.
fn iso_minutes_in(s: &Vec<char>, lo: usize, hi: usize) -> (r: Option<u64>)
    requires
        lo <= hi <= s.len(),
    ensures
        r == iso_duration_minutes(s@.subrange(lo as int, hi as int)),
{
    let ghost raw = s@.subrange(lo as int, hi as int);
    if !(lo < hi && s[lo] == 'P') {
        return None;
    }
    let ghost body = raw.skip(1);
    assert(body =~= s@.subrange(lo + 1, hi as int));
    let b = lo + 1;
    if b < hi && s[hi - 1] == 'W' {
        assert(body.drop_last() =~= s@.subrange(b as int, hi - 1));
        match parse_u64_chars(s, b, hi - 1) {
            Some(w) => {
                if w as u128 * 10080 <= u64::MAX as u128 {
                    return Some(w * 10080);
                } else {
                    return None;
                }
            },
            None => {
                return None;
            },
        }
    }
    let t = find_in(s, 'T', b, hi);
    let (date_end, time_start) = match t {
        Some(i) => (i, i + 1),
        None => (hi, hi),
    };
    let ghost date = s@.subrange(b as int, date_end as int);
    let ghost time = s@.subrange(time_start as int, hi as int);
    proof {
        match t {
            Some(i) => {
                assert(body.take(i - b) =~= date);
                assert(body.skip(i - b + 1) =~= time);
            },
            None => {
                assert(body =~= date);
                assert(time =~= Seq::<char>::empty());
            },
        }
    }
    match date_days_in(s, b, date_end) {
        None => None,
        Some(days) => time_total_in(s, days, time_start, hi),
    }
}

/// [`date_days`] of `s@[lo..hi]`.
fn date_days_in(s: &Vec<char>, lo: usize, hi: usize) -> (r: Option<u64>)
    requires
        lo <= hi <= s.len(),
    ensures
        r == date_days(s@.subrange(lo as int, hi as int)),
{
    let ghost date = s@.subrange(lo as int, hi as int);
    if hi == lo {
        Some(0)
    } else if s[hi - 1] == 'D' {
        assert(date.drop_last() =~= s@.subrange(lo as int, hi - 1));
        parse_u64_chars(s, lo, hi - 1)
    } else {
        None
    }
}

/// [`time_total`] of `days` and `s@[lo..hi]`.
fn time_total_in(s: &Vec<char>, days: u64, lo: usize, hi: usize) -> (r: Option<u64>)
    requires
        lo <= hi <= s.len(),
    ensures
        r == time_total(days, s@.subrange(lo as int, hi as int)),
{
    let (hours, p1) = match unit_field_in(s, 'H', lo, hi) {
        Some(x) => x,
        None => {
            return None;
        },
    };
    let (minutes, p2) = match unit_field_in(s, 'M', p1, hi) {
        Some(x) => x,
        None => {
            return None;
        },
    };
    let (seconds, p3) = match unit_field_in(s, 'S', p2, hi) {
        Some(x) => x,
        None => {
            return None;
        },
    };
    assert(s@.subrange(p3 as int, hi as int).len() == hi - p3);
    if p3 != hi || seconds % 60 != 0 {
        return None;
    }
    let total: u128 = days as u128 * 1440 + hours as u128 * 60 + minutes as u128 + (seconds / 60)
        as u128;
    if total <= u64::MAX as u128 {
        Some(total as u64)
    } else {
        None
    }
}

/// The number of minutes an ISO-8601 duration stands for (see
/// [`iso_duration_minutes`]).
pub fn parse_iso_duration_minutes(raw: &str) -> (r: Option<u64>)
    ensures
        r == iso_duration_minutes(raw@),
{
    let s = chars_of(raw);
    assert(s@.subrange(0, s@.len() as int) =~= s@);
    iso_minutes_in(&s, 0, s.len())
}

/// The reminder, in minutes before the start, that a Proton notification
/// trigger stands for; `None` when the trigger is not `-` followed by a
/// duration of whole minutes that fits in an `i64`.
pub fn reminder_from_trigger(trigger: &str) -> (r: Option<i64>)
    ensures
        r == trigger_minutes(trigger@),
{
    let s = chars_of(trigger);
    if s.len() == 0 || s[0] != '-' {
        return None;
    }
    assert(s@.subrange(1, s@.len() as int) =~= s@.skip(1));
    match iso_minutes_in(&s, 1, s.len()) {
        Some(m) => {
            if m <= i64::MAX as u64 {
                Some(m as i64)
            } else {
                None
            }
        },
        None => None,
    }
}

/// The Proton notification trigger for a reminder `minutes` before the start
/// (see [`trigger_text`]).
pub fn trigger_from_reminder(minutes: i64) -> (r: String)
    ensures
        r@ == trigger_text(minutes),
{
    let m: u64 = if minutes < 0 {
        (0i128 - minutes as i128) as u64
    } else {
        minutes as u64
    };
    assert(m == abs_minutes(minutes));
    let mut out: Vec<char> = Vec::new();
    if m == 0 {
        out.push('-');
        out.push('P');
        out.push('T');
        out.push('0');
        out.push('S');
        assert(out@ =~= seq!['-', 'P', 'T', '0', 'S']);
    } else if m % 10080 == 0 {
        out.push('-');
        out.push('P');
        push_decimal(&mut out, m / 10080);
        out.push('W');
        assert(out@ =~= seq!['-', 'P'] + decimal((m / 10080) as nat) + seq!['W']);
    } else if m % 1440 == 0 {
        out.push('-');
        out.push('P');
        push_decimal(&mut out, m / 1440);
        out.push('D');
        assert(out@ =~= seq!['-', 'P'] + decimal((m / 1440) as nat) + seq!['D']);
    } else {
        out.push('-');
        out.push('P');
        out.push('T');
        let ghost head = out@;
        let hours = m / 60;
        let mins = m % 60;
        if hours > 0 {
            push_decimal(&mut out, hours);
            out.push('H');
        }
        let ghost mid = out@;
        assert(mid =~= head + (if hours > 0 {
            decimal(hours as nat).push('H')
        } else {
            Seq::<char>::empty()
        }));
        if mins > 0 {
            push_decimal(&mut out, mins);
            out.push('M');
        }
        assert(out@ =~= mid + (if mins > 0 {
            decimal(mins as nat).push('M')
        } else {
            Seq::<char>::empty()
        }));
    }
    string_of(&out)
}

/// No decimal digit is a letter of the duration syntax.
proof fn lemma_decimal_has_no(n: nat, c: char)
    requires
        !is_digit(c),
    ensures
        forall|j: int| 0 <= j < decimal(n).len() ==> decimal(n)[j] != c,
{
    lemma_decimal_reads_back(n);
    assert forall|j: int| 0 <= j < decimal(n).len() implies decimal(n)[j] != c by {
        assert(is_digit(decimal(n)[j]));
    }
}

/// `<decimal(n)><unit><tail>` read as one unit field gives `n` and `tail`.
proof fn lemma_unit_field_present(n: nat, unit: char, tail: Seq<char>)
    requires
        !is_digit(unit),
        n <= u64::MAX,
    ensures
        unit_field(decimal(n).push(unit) + tail, unit) == Some((n as u64, tail)),
{
    let d = decimal(n);
    lemma_decimal_has_no(n, unit);
    let s = d.push(unit) + tail;
    assert(s =~= d + (seq![unit] + tail));
    lemma_find_first_after(d, seq![unit] + tail, unit);
    assert(find_first(seq![unit] + tail, unit) == Some(0int));
    assert(s.take(d.len() as int) =~= d);
    assert(s.skip(d.len() as int + 1) =~= tail);
    lemma_parse_decimal(n);
}

/// A unit field whose letter does not occur reads as 0 and consumes nothing.
proof fn lemma_unit_field_absent(s: Seq<char>, unit: char)
    requires
        forall|j: int| 0 <= j < s.len() ==> s[j] != unit,
    ensures
        unit_field(s, unit) == Some((0u64, s)),
{
    lemma_find_first_absent(s, unit);
}

/// The trigger written for a reminder reads back as the same number of
/// minutes before the start, for every reminder whose magnitude fits in an
/// `i64` (all but `i64::MIN`); the sign of the offset is not kept.
pub proof fn lemma_trigger_round_trip(minutes: i64)
    ensures
        trigger_minutes(trigger_text(minutes)) == (if abs_minutes(minutes) <= i64::MAX {
            Some(abs_minutes(minutes) as i64)
        } else {
            None
        }),
{
    let m = abs_minutes(minutes);
    let t = trigger_text(minutes);
    let raw = t.skip(1);
    let body = raw.skip(1);
    assert(m <= u64::MAX);
    if m == 0 {
        assert(body =~= seq!['T', '0', 'S']);
        assert(find_first(body, 'T') == Some(0int));
        let time = seq!['0', 'S'];
        assert(body.skip(1) =~= time);
        assert(body.take(0) =~= Seq::<char>::empty());
        lemma_unit_field_absent(time, 'H');
        lemma_unit_field_absent(time, 'M');
        lemma_digit_char(0);
        assert(decimal(0) =~= seq!['0']);
        lemma_unit_field_present(0, 'S', Seq::<char>::empty());
        assert(decimal(0).push('S') + Seq::<char>::empty() =~= time);
        assert(iso_duration_minutes(raw) == Some(0u64));
    } else if m % 10080 == 0 {
        let w = m / 10080;
        assert(body =~= decimal(w) + seq!['W']);
        assert(body.drop_last() =~= decimal(w));
        lemma_parse_decimal(w);
        assert(w * 10080 == m);
        assert(iso_duration_minutes(raw) == Some(m as u64));
    } else if m % 1440 == 0 {
        let d = m / 1440;
        assert(body =~= decimal(d) + seq!['D']);
        lemma_decimal_has_no(d, 'T');
        lemma_decimal_has_no(d, 'W');
        lemma_decimal_reads_back(d);
        assert(body.last() == 'D');
        assert forall|j: int| 0 <= j < body.len() implies body[j] != 'T' by {
            if j < decimal(d).len() {
                assert(body[j] == decimal(d)[j]);
            }
        }
        lemma_find_first_absent(body, 'T');
        assert(body.drop_last() =~= decimal(d));
        lemma_parse_decimal(d);
        let empty = Seq::<char>::empty();
        lemma_unit_field_absent(empty, 'H');
        lemma_unit_field_absent(empty, 'M');
        lemma_unit_field_absent(empty, 'S');
        assert(d * 1440 == m);
        assert(iso_duration_minutes(raw) == Some(m as u64));
    } else {
        let h = m / 60;
        let mm = m % 60;
        let hpart = if h > 0 {
            decimal(h).push('H')
        } else {
            Seq::<char>::empty()
        };
        let mpart = if mm > 0 {
            decimal(mm).push('M')
        } else {
            Seq::<char>::empty()
        };
        let time = hpart + mpart;
        assert(body =~= seq!['T'] + time);
        assert(h > 0 || mm > 0);
        assert(body.last() != 'W') by {
            if mm > 0 {
                assert(body.last() == 'M');
            } else {
                assert(time =~= hpart);
                assert(body.last() == 'H');
            }
        }
        assert(find_first(body, 'T') == Some(0int));
        assert(body.take(0) =~= Seq::<char>::empty());
        assert(body.skip(1) =~= time);
        // hours
        if h > 0 {
            lemma_unit_field_present(h, 'H', mpart);
            assert(decimal(h).push('H') + mpart =~= time);
        } else {
            if mm > 0 {
                lemma_decimal_has_no(mm, 'H');
                assert forall|j: int| 0 <= j < time.len() implies time[j] != 'H' by {
                    assert(time =~= mpart);
                    if j < decimal(mm).len() {
                        assert(time[j] == decimal(mm)[j]);
                    }
                }
            }
            assert(time =~= mpart);
            lemma_unit_field_absent(time, 'H');
        }
        assert(unit_field(time, 'H') == Some((h as u64, mpart)));
        // minutes
        if mm > 0 {
            lemma_unit_field_present(mm, 'M', Seq::<char>::empty());
            assert(decimal(mm).push('M') + Seq::<char>::empty() =~= mpart);
        } else {
            lemma_unit_field_absent(mpart, 'M');
        }
        assert(unit_field(mpart, 'M') == Some((mm as u64, Seq::<char>::empty())));
        lemma_unit_field_absent(Seq::<char>::empty(), 'S');
        assert(h * 60 + mm == m);
        assert(iso_duration_minutes(raw) == Some(m as u64));
    }
}

} // verus!
