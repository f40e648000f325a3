//! The natural-language deadline parser: a trimmed, lowercased input string is
//! tried against a fixed sequence of grammars, and the first that matches
//! yields an absolute instant. No grammar matching means no result; malformed
//! input is never an error.

use vstd::prelude::*;

use crate::digits::{
    all_digits, dec_str, digits_val, is_digit, lemma_dec_str_digits, lemma_dec_str_len2,
    lemma_dec_str_val, parse_i64, parse_i64_x, parse_u32, parse_u32_x, signed_body, unsigned_body,
};
use crate::instant::{
    date_index, date_to_days, days_before_year, days_before_year_x, days_in_month,
    lemma_days_before_year_bounds, minute_limit, month_length, valid_date, Instant,
};
use crate::format::weekday_of_day;
use crate::text::{
    chars_eq_str, contains_char, contains_char_x, count_char, count_char_x, is_space,
    lemma_split_char_pair, lemma_split_ws_single, lemma_token_end_at, lemma_trim_id, lower_of,
    lower_str, split_char, split_char_x, split_ws, split_ws_from, split_ws_x, subvec, to_char_vec,
    trim_spaces, trim_spaces_x, trim_str, trimmed_of, vec_eq_str,
};

verus! {

/// What `<H>` or `<H>:<MM>` denotes before any 12-hour adjustment: the hour
/// alone, or an hour and a minute separated by one colon.
pub open spec fn spec_hour_minute(s: Seq<char>) -> Option<(u32, u32)> {
    if contains_char(s, ':') {
        let parts = split_char(s, ':');
        if parts.len() == 2 {
            match (parse_u32(parts[0]), parse_u32(parts[1])) {
                (Some(h), Some(mi)) => Some((h, mi)),
                _ => None,
            }
        } else {
            None
        }
    } else {
        match parse_u32(s) {
            Some(h) => Some((h, 0u32)),
            None => None,
        }
    }
}

/// The 24-hour `<H>:<MM>` reading of a time token.
pub open spec fn spec_colon_time(s: Seq<char>) -> Option<(u32, u32)> {
    if contains_char(s, ':') {
        let parts = split_char(s, ':');
        if parts.len() == 2 {
            match (parse_u32(parts[0]), parse_u32(parts[1])) {
                (Some(h), Some(mi)) => if h < 24 && mi < 60 {
                    Some((h, mi))
                } else {
                    None
                },
                _ => None,
            }
        } else {
            None
        }
    } else {
        None
    }
}

/// The clock-time sub-grammar: `<H>am`/`<H>pm`, `<H>:<MM>am`/`pm`, or 24-hour
/// `<H>:<MM>`, yielding a valid (hour, minute) pair on the 24-hour clock.
pub open spec fn spec_clock_time(raw: Seq<char>) -> Option<(u32, u32)> {
    let s = trim_spaces(raw);
    let n = s.len() as int;
    if n >= 2 && (s.subrange(n - 2, n) == "am"@ || s.subrange(n - 2, n) == "pm"@) {
        let is_pm = s.subrange(n - 2, n) == "pm"@;
        match spec_hour_minute(s.take(n - 2)) {
            Some((h, mi)) => {
                let h24: int = if is_pm && h != 12 {
                    h + 12
                } else if !is_pm && h == 12 {
                    0
                } else {
                    h as int
                };
                if h24 < 24 && mi < 60 {
                    Some((h24 as u32, mi))
                } else {
                    None
                }
            },
            None => spec_colon_time(s),
        }
    } else {
        spec_colon_time(s)
    }
}

/// `<H>` or `<H>:<MM>`, before any 12-hour adjustment.
fn hour_minute_x(s: &Vec<char>) -> (r: Option<(u32, u32)>)
    ensures
        r == spec_hour_minute(s@),
{
    if contains_char_x(s, ':') {
        let parts = split_char_x(s, ':');
        if parts.len() == 2 {
            assert(parts@.map_values(|t: Vec<char>| t@)[0] == parts@[0]@);
            assert(parts@.map_values(|t: Vec<char>| t@)[1] == parts@[1]@);
            match (parse_u32_x(&parts[0]), parse_u32_x(&parts[1])) {
                (Some(h), Some(mi)) => Some((h, mi)),
                _ => None,
            }
        } else {
            None
        }
    } else {
        match parse_u32_x(s) {
            Some(h) => Some((h, 0u32)),
            None => None,
        }
    }
}

fn colon_time_x(s: &Vec<char>) -> (r: Option<(u32, u32)>)
    ensures
        r == spec_colon_time(s@),
{
    if contains_char_x(s, ':') {
        let parts = split_char_x(s, ':');
        if parts.len() == 2 {
            assert(parts@.map_values(|t: Vec<char>| t@)[0] == parts@[0]@);
            assert(parts@.map_values(|t: Vec<char>| t@)[1] == parts@[1]@);
            match (parse_u32_x(&parts[0]), parse_u32_x(&parts[1])) {
                (Some(h), Some(mi)) => if h < 24 && mi < 60 {
                    Some((h, mi))
                } else {
                    None
                },
                _ => None,
            }
        } else {
            None
        }
    } else {
        None
    }
}

/// The clock-time sub-grammar on a raw (possibly padded) token.
pub fn clock_time_x(raw: &Vec<char>) -> (r: Option<(u32, u32)>)
    ensures
        r == spec_clock_time(raw@),
        r is Some ==> (r->0).0 < 24 && (r->0).1 < 60,
{
    let s = trim_spaces_x(raw);
    let len = s.len();
    if len >= 2 {
        let am = chars_eq_str(&s, len - 2, len, "am");
        let pm = chars_eq_str(&s, len - 2, len, "pm");
        if am || pm {
            proof {
                reveal_strlit("am");
                reveal_strlit("pm");
                assert(!(am && pm)) by {
                    assert("am"@[0] != "pm"@[0]);
                }
            }
            let body = subvec(&s, 0, len - 2);
            assert(body@ =~= s@.take(len - 2));
            match hour_minute_x(&body) {
                Some((h, mi)) => {
                    let h24: u64 = if pm && h != 12 {
                        h as u64 + 12
                    } else if !pm && h == 12 {
                        0
                    } else {
                        h as u64
                    };
                    if h24 < 24 && mi < 60 {
                        return Some((h24 as u32, mi));
                    } else {
                        return None;
                    }
                },
                None => {
                    return colon_time_x(&s);
                },
            }
        }
    }
    colon_time_x(&s)
}

/// Minutes denoted by one relative-offset unit token, if the unit is known.
pub open spec fn spec_unit_minutes(t: Seq<char>) -> Option<int> {
    if t == "hour"@ || t == "hours"@ || t == "h"@ {
        Some(60int)
    } else if t == "day"@ || t == "days"@ || t == "d"@ {
        Some(1440int)
    } else if t == "week"@ || t == "weeks"@ || t == "w"@ {
        Some(10080int)
    } else if t == "minute"@ || t == "minutes"@ || t == "min"@ || t == "m"@ {
        Some(1int)
    } else {
        None
    }
}

/// The relative-offset grammar `in <amount> <unit>`; `rest` is what follows
/// the `in ` prefix. An offset that would leave the supported range (years 0
/// through 9999) is no match.
pub open spec fn spec_relative(rest: Seq<char>, now: Instant) -> Option<int> {
    let toks = split_ws(rest);
    if toks.len() != 2 {
        None
    } else {
        match parse_i64(toks[0]) {
            Some(amount) => match spec_unit_minutes(toks[1]) {
                Some(u) => {
                    let target = now.minute_index() + amount * u;
                    if 0 <= target < minute_limit() {
                        Some(target)
                    } else {
                        None
                    }
                },
                None => None,
            },
            None => None,
        }
    }
}

/// Weekday denoted by a full or three-letter name; 0 = Monday .. 6 = Sunday.
pub open spec fn spec_weekday_num(t: Seq<char>) -> Option<int> {
    if t == "monday"@ || t == "mon"@ {
        Some(0int)
    } else if t == "tuesday"@ || t == "tue"@ {
        Some(1int)
    } else if t == "wednesday"@ || t == "wed"@ {
        Some(2int)
    } else if t == "thursday"@ || t == "thu"@ {
        Some(3int)
    } else if t == "friday"@ || t == "fri"@ {
        Some(4int)
    } else if t == "saturday"@ || t == "sat"@ {
        Some(5int)
    } else if t == "sunday"@ || t == "sun"@ {
        Some(6int)
    } else {
        None
    }
}

/// The weekday grammar: a weekday name, optionally followed by a clock time
/// (tokens after the second are ignored). Resolves to the next occurrence of
/// that weekday strictly after today - a full week out when today already is
/// that weekday - at the given time, or 09:00.
pub open spec fn spec_weekday(s: Seq<char>, now: Instant) -> Option<int> {
    let toks = split_ws(s);
    if toks.len() == 0 {
        None
    } else {
        match spec_weekday_num(toks[0]) {
            Some(w) => {
                let t = if toks.len() > 1 {
                    spec_clock_time(toks[1])
                } else {
                    Some((9u32, 0u32))
                };
                match t {
                    Some((h, mi)) => {
                        let tw = weekday_of_day(now.day_index());
                        let delta0 = (w - tw + 7) % 7;
                        let delta: int = if delta0 == 0 {
                            7
                        } else {
                            delta0
                        };
                        let d = now.day_index() + delta;
                        if d < days_before_year(10000) {
                            Some(d * 1440 + h * 60 + mi)
                        } else {
                            None
                        }
                    },
                    None => None,
                }
            },
            None => None,
        }
    }
}

/// The two date grammars: `M/D` or `M-D` (at most five characters, current
/// year assumed) and `YYYY-MM-DD` (exactly ten characters, exactly two
/// hyphens), both at 09:00. A day that does not exist in the month is no
/// match.
pub open spec fn spec_date(s: Seq<char>, now: Instant) -> Option<int> {
    if s.len() <= 5 && (contains_char(s, '/') || contains_char(s, '-')) {
        let sep = if contains_char(s, '/') {
            '/'
        } else {
            '-'
        };
        let parts = split_char(s, sep);
        if parts.len() == 2 {
            match (parse_u32(parts[0]), parse_u32(parts[1])) {
                (Some(m), Some(d)) => if valid_date(now.year as int, m as int, d as int) {
                    Some(date_index(now.year as int, m as int, d as int) * 1440 + 9 * 60)
                } else {
                    None
                },
                _ => None,
            }
        } else {
            None
        }
    } else if s.len() == 10 && count_char(s, '-') == 2 {
        let parts = split_char(s, '-');
        if parts.len() == 3 {
            match (parse_u32(parts[0]), parse_u32(parts[1]), parse_u32(parts[2])) {
                (Some(y), Some(m), Some(d)) => if valid_date(y as int, m as int, d as int) {
                    Some(date_index(y as int, m as int, d as int) * 1440 + 9 * 60)
                } else {
                    None
                },
                _ => None,
            }
        } else {
            None
        }
    } else {
        None
    }
}

/// The whole parser, on a normalized (trimmed and lowercased) input: the
/// grammars in priority order, first match wins. The result is the minute
/// index of the resolved instant.
pub open spec fn spec_parse(s: Seq<char>, now: Instant) -> Option<int> {
    if s.len() >= 3 && s.subrange(0, 3) == "in "@ {
        spec_relative(s.skip(3), now)
    } else if s == "today"@ {
        Some(now.day_index() * 1440 + 23 * 60 + 59)
    } else if s.len() >= 6 && s.subrange(0, 6) == "today "@ {
        match spec_clock_time(s.skip(6)) {
            Some((h, mi)) => Some(now.day_index() * 1440 + h * 60 + mi),
            None => None,
        }
    } else if s == "tomorrow"@ {
        if now.day_index() + 1 < days_before_year(10000) {
            Some((now.day_index() + 1) * 1440 + 9 * 60)
        } else {
            None
        }
    } else if s.len() >= 9 && s.subrange(0, 9) == "tomorrow "@ {
        match spec_clock_time(s.skip(9)) {
            Some((h, mi)) => if now.day_index() + 1 < days_before_year(10000) {
                Some((now.day_index() + 1) * 1440 + h * 60 + mi)
            } else {
                None
            },
            None => None,
        }
    } else if spec_weekday(s, now) is Some {
        spec_weekday(s, now)
    } else if spec_clock_time(s) is Some {
        match spec_clock_time(s) {
            Some((h, mi)) => Some(now.day_index() * 1440 + h * 60 + mi),
            None => None,
        }
    } else {
        spec_date(s, now)
    }
}

/// Minutes in one supported instant range, as a run-time value.
fn minute_limit_x() -> (r: u64)
    ensures
        r == minute_limit(),
{
    proof {
        lemma_days_before_year_bounds(10000);
    }
    days_before_year_x(10000) * 1440
}

/// The relative-offset grammar.
fn relative_x(rest: &Vec<char>, now: &Instant) -> (r: Option<u64>)
    requires
        now.wf(),
    ensures
        match r {
            Some(v) => spec_relative(rest@, *now) == Some(v as int) && v < minute_limit(),
            None => spec_relative(rest@, *now) is None,
        },
{
    let toks = split_ws_x(rest);
    if toks.len() != 2 {
        return None;
    }
    proof {
        assert(toks@.map_values(|t: Vec<char>| t@)[0] == toks@[0]@);
        assert(toks@.map_values(|t: Vec<char>| t@)[1] == toks@[1]@);
    }
    let amount: i64 = match parse_i64_x(&toks[0]) {
        Some(a) => a,
        None => {
            return None;
        },
    };
    let t1 = &toks[1];
    let unit: u64 = if vec_eq_str(t1, "hour") || vec_eq_str(t1, "hours") || vec_eq_str(t1, "h") {
        60
    } else if vec_eq_str(t1, "day") || vec_eq_str(t1, "days") || vec_eq_str(t1, "d") {
        1440
    } else if vec_eq_str(t1, "week") || vec_eq_str(t1, "weeks") || vec_eq_str(t1, "w") {
        10080
    } else if vec_eq_str(t1, "minute") || vec_eq_str(t1, "minutes") || vec_eq_str(t1, "min")
        || vec_eq_str(t1, "m") {
        1
    } else {
        return None;
    };
    let nowm = now.minute_index_x();
    proof {
        lemma_days_before_year_bounds(10000);
        assert((amount as i128) * (unit as i128) <= (i64::MAX as i128) * 10080 && (amount as i128)
            * (unit as i128) >= (i64::MIN as i128) * 10080) by (nonlinear_arith)
            requires
                1 <= unit <= 10080,
                i64::MIN <= amount <= i64::MAX,
        ;
    }
    let target: i128 = nowm as i128 + (amount as i128) * (unit as i128);
    let lim = minute_limit_x();
    if 0 <= target && target < lim as i128 {
        Some(target as u64)
    } else {
        None
    }
}

/// Weekday names, full or abbreviated.
fn weekday_num_x(t: &Vec<char>) -> (r: Option<u32>)
    ensures
        match r {
            Some(w) => spec_weekday_num(t@) == Some(w as int) && w < 7,
            None => spec_weekday_num(t@) is None,
        },
{
    if vec_eq_str(t, "monday") || vec_eq_str(t, "mon") {
        Some(0)
    } else if vec_eq_str(t, "tuesday") || vec_eq_str(t, "tue") {
        Some(1)
    } else if vec_eq_str(t, "wednesday") || vec_eq_str(t, "wed") {
        Some(2)
    } else if vec_eq_str(t, "thursday") || vec_eq_str(t, "thu") {
        Some(3)
    } else if vec_eq_str(t, "friday") || vec_eq_str(t, "fri") {
        Some(4)
    } else if vec_eq_str(t, "saturday") || vec_eq_str(t, "sat") {
        Some(5)
    } else if vec_eq_str(t, "sunday") || vec_eq_str(t, "sun") {
        Some(6)
    } else {
        None
    }
}

/// The weekday grammar.
fn weekday_x(s: &Vec<char>, now: &Instant) -> (r: Option<u64>)
    requires
        now.wf(),
    ensures
        match r {
            Some(v) => spec_weekday(s@, *now) == Some(v as int) && v < minute_limit(),
            None => spec_weekday(s@, *now) is None,
        },
{
    let toks = split_ws_x(s);
    if toks.len() == 0 {
        return None;
    }
    proof {
        assert(toks@.map_values(|t: Vec<char>| t@)[0] == toks@[0]@);
        if toks@.len() > 1 {
            assert(toks@.map_values(|t: Vec<char>| t@)[1] == toks@[1]@);
        }
    }
    let w = match weekday_num_x(&toks[0]) {
        Some(w) => w,
        None => {
            return None;
        },
    };
    let (h, mi): (u32, u32) = if toks.len() > 1 {
        match clock_time_x(&toks[1]) {
            Some(t) => t,
            None => {
                return None;
            },
        }
    } else {
        (9, 0)
    };
    let nd = date_to_days(now.year, now.month, now.day);
    proof {
        lemma_days_before_year_bounds(10000);
    }
    let tw = ((nd + 5) % 7) as u32;
    let delta0 = (w + 7 - tw) % 7;
    let delta: u32 = if delta0 == 0 {
        7
    } else {
        delta0
    };
    let d = nd + delta as u64;
    let dby10k = days_before_year_x(10000);
    if d < dby10k {
        Some(d * 1440 + (h * 60 + mi) as u64)
    } else {
        None
    }
}

/// The two date grammars.
fn date_x(s: &Vec<char>, now: &Instant) -> (r: Option<u64>)
    requires
        now.wf(),
    ensures
        match r {
            Some(v) => spec_date(s@, *now) == Some(v as int) && v < minute_limit(),
            None => spec_date(s@, *now) is None,
        },
{
    proof {
        lemma_days_before_year_bounds(10000);
    }
    if s.len() <= 5 && (contains_char_x(s, '/') || contains_char_x(s, '-')) {
        let sep = if contains_char_x(s, '/') {
            '/'
        } else {
            '-'
        };
        let parts = split_char_x(s, sep);
        if parts.len() == 2 {
            proof {
                assert(parts@.map_values(|t: Vec<char>| t@)[0] == parts@[0]@);
                assert(parts@.map_values(|t: Vec<char>| t@)[1] == parts@[1]@);
            }
            let m = match parse_u32_x(&parts[0]) {
                Some(m) => m,
                None => {
                    return None;
                },
            };
            let d = match parse_u32_x(&parts[1]) {
                Some(d) => d,
                None => {
                    return None;
                },
            };
            if 1 <= m && m <= 12 && 1 <= d && d <= month_length(now.year, m) {
                let days = date_to_days(now.year, m, d);
                Some(days * 1440 + 540)
            } else {
                None
            }
        } else {
            None
        }
    } else if s.len() == 10 {
        if count_char_x(s, '-') == 2 {
            let parts = split_char_x(s, '-');
            if parts.len() == 3 {
                proof {
                    assert(parts@.map_values(|t: Vec<char>| t@)[0] == parts@[0]@);
                    assert(parts@.map_values(|t: Vec<char>| t@)[1] == parts@[1]@);
                    assert(parts@.map_values(|t: Vec<char>| t@)[2] == parts@[2]@);
                }
                let y = match parse_u32_x(&parts[0]) {
                    Some(y) => y,
                    None => {
                        return None;
                    },
                };
                let m = match parse_u32_x(&parts[1]) {
                    Some(m) => m,
                    None => {
                        return None;
                    },
                };
                let d = match parse_u32_x(&parts[2]) {
                    Some(d) => d,
                    None => {
                        return None;
                    },
                };
                if y <= 9999 && 1 <= m && m <= 12 && 1 <= d && d <= month_length(y, m) {
                    let days = date_to_days(y, m, d);
                    Some(days * 1440 + 540)
                } else {
                    None
                }
            } else {
                None
            }
        } else {
            None
        }
    } else {
        None
    }
}

/// The full parser on an already-normalized character sequence: grammars in
/// priority order, first match wins.
pub fn parse_chars(s: &Vec<char>, now: &Instant) -> (r: Option<Instant>)
    requires
        now.wf(),
    ensures
        match r {
            Some(i) => i.wf() && spec_parse(s@, *now) == Some(i.minute_index()),
            None => spec_parse(s@, *now) is None,
        },
{
    let len = s.len();
    proof {
        lemma_days_before_year_bounds(10000);
        assert(s@.subrange(0, len as int) =~= s@);
    }
    // Relative offset: "in <amount> <unit>".
    if len >= 3 && chars_eq_str(s, 0, 3, "in ") {
        let rest = subvec(s, 3, len);
        assert(rest@ =~= s@.skip(3));
        return match relative_x(&rest, now) {
            Some(v) => Some(Instant::from_minute_index(v)),
            None => None,
        };
    }
    let nd = date_to_days(now.year, now.month, now.day);
    let dby10k = days_before_year_x(10000);
    // Bare "today": end of today, 23:59.
    if chars_eq_str(s, 0, len, "today") {
        assert(s@.subrange(0, len as int) =~= s@);
        return Some(Instant::from_minute_index(nd * 1440 + 1439));
    }
    // "today <time>".
    if len >= 6 && chars_eq_str(s, 0, 6, "today ") {
        let tail = subvec(s, 6, len);
        assert(tail@ =~= s@.skip(6));
        return match clock_time_x(&tail) {
            Some((h, mi)) => Some(Instant::from_minute_index(nd * 1440 + (h * 60 + mi) as u64)),
            None => None,
        };
    }
    // Bare "tomorrow": tomorrow at 09:00.
    if chars_eq_str(s, 0, len, "tomorrow") {
        assert(s@.subrange(0, len as int) =~= s@);
        if nd + 1 < dby10k {
            return Some(Instant::from_minute_index((nd + 1) * 1440 + 540));
        } else {
            return None;
        }
    }
    // "tomorrow <time>".
    if len >= 9 && chars_eq_str(s, 0, 9, "tomorrow ") {
        let tail = subvec(s, 9, len);
        assert(tail@ =~= s@.skip(9));
        return match clock_time_x(&tail) {
            Some((h, mi)) => {
                if nd + 1 < dby10k {
                    Some(Instant::from_minute_index((nd + 1) * 1440 + (h * 60 + mi) as u64))
                } else {
                    None
                }
            },
            None => None,
        };
    }
    // Weekday name, optionally followed by a time.
    match weekday_x(s, now) {
        Some(v) => {
            return Some(Instant::from_minute_index(v));
        },
        None => {},
    }
    // Bare clock time: today at that time.
    match clock_time_x(s) {
        Some((h, mi)) => {
            return Some(Instant::from_minute_index(nd * 1440 + (h * 60 + mi) as u64));
        },
        None => {},
    }
    // Short or full date.
    match date_x(s, now) {
        Some(v) => Some(Instant::from_minute_index(v)),
        None => None,
    }
}

/// Parse a free-form deadline expression against "now": the input is trimmed
/// and lowercased, then tried against the grammars in priority order. No
/// grammar matching - including any malformed number, hour, minute or
/// calendar date - yields `None`, never an error.
pub fn parse_time(input: &str, now: &Instant) -> (r: Option<Instant>)
    requires
        now.wf(),
    ensures
        match r {
            Some(i) => i.wf() && spec_parse(lower_of(trimmed_of(input@)), *now) == Some(
                i.minute_index(),
            ),
            None => spec_parse(lower_of(trimmed_of(input@)), *now) is None,
        },
        input@.len() == 0 ==> r is None,
{
    let t = trim_str(input);
    let l = lower_str(t.as_str());
    let cs = to_char_vec(l.as_str());
    proof {
        if input@.len() == 0 {
            lemma_spec_parse_empty(cs@, *now);
        }
    }
    parse_chars(&cs, now)
}

/// Law: parsing "in 2 hours" lands exactly two hours - 120 minutes - past
/// "now", whenever that stays inside the supported range of years.
pub proof fn lemma_parse_in_two_hours(now: Instant)
    requires
        now.wf(),
        now.minute_index() + 120 < minute_limit(),
    ensures
        spec_parse("in 2 hours"@, now) == Some(now.minute_index() + 120),
{
    reveal_strlit("in 2 hours");
    reveal_strlit("in ");
    reveal_strlit("2");
    reveal_strlit("hours");
    let s = "in 2 hours"@;
    assert(s.subrange(0, 3) =~= "in "@);
    let rest = s.skip(3);
    let a = "2"@;
    let u = "hours"@;
    assert(rest.len() == 7);
    assert(!is_space(rest[0]));
    assert(is_space(rest[1]));
    lemma_token_end_at(rest, 0, 1);
    lemma_token_end_at(rest, 2, 7);
    assert(rest.subrange(0, 1) =~= a);
    assert(rest.subrange(2, 7) =~= u);
    assert(split_ws_from(rest, 7) =~= Seq::<Seq<char>>::empty());
    assert(split_ws_from(rest, 2) =~= seq![u]);
    assert(split_ws_from(rest, 1) == split_ws_from(rest, 2));
    assert(split_ws(rest) =~= seq![a, u]);
    assert(signed_body(a) == a);
    assert(all_digits(a));
    assert(digits_val(Seq::<char>::empty()) == 0);
    assert(digits_val(a) == 2) by {
        assert(a.drop_last() =~= Seq::<char>::empty());
        assert(digits_val(Seq::<char>::empty()) == 0);
    }
    assert(parse_i64(a) == Some(2i64));
    assert(spec_unit_minutes(u) == Some(60int));
    crate::instant::lemma_days_before_year_bounds(now.year as int);
    crate::instant::lemma_days_before_month_bounds(now.year as int, now.month as int);
    assert(now.minute_index() >= 0);
    assert(spec_relative(rest, now) == Some(now.minute_index() + 120));
}

/// Law: parsing "tomorrow 3pm" yields the day after "now"'s date, at 15:00.
pub proof fn lemma_parse_tomorrow_3pm(now: Instant)
    requires
        now.wf(),
        now.day_index() + 1 < days_before_year(10000),
    ensures
        spec_parse("tomorrow 3pm"@, now) == Some((now.day_index() + 1) * 1440 + 15 * 60),
{
    reveal_strlit("tomorrow 3pm");
    reveal_strlit("in ");
    reveal_strlit("today");
    reveal_strlit("today ");
    reveal_strlit("tomorrow");
    reveal_strlit("tomorrow ");
    reveal_strlit("3pm");
    reveal_strlit("3");
    reveal_strlit("am");
    reveal_strlit("pm");
    let s = "tomorrow 3pm"@;
    assert(s.len() == 12);
    assert(s.subrange(0, 3) != "in "@) by {
        assert(s.subrange(0, 3)[0] == s[0]);
    }
    assert(s.subrange(0, 6) != "today "@) by {
        assert(s.subrange(0, 6)[2] == s[2]);
    }
    assert(s.subrange(0, 9) =~= "tomorrow "@);
    let tail = s.skip(9);
    assert(tail =~= "3pm"@);
    let t = "3pm"@;
    lemma_trim_id(t);
    assert(t.subrange(1, 3) =~= "pm"@);
    assert(t.subrange(1, 3) != "am"@) by {
        assert("pm"@[0] != "am"@[0]);
    }
    let body = t.take(1);
    assert(body =~= "3"@);
    assert(!contains_char(body, ':')) by {
        assert(forall|i: int| 0 <= i < body.len() ==> #[trigger] body[i] == '3');
    }
    assert(unsigned_body(body) == body);
    assert(all_digits(body));
    assert(digits_val(body) == 3) by {
        assert(body.drop_last() =~= Seq::<char>::empty());
        assert(digits_val(Seq::<char>::empty()) == 0);
    }
    assert(parse_u32(body) == Some(3u32));
    assert(spec_hour_minute(body) == Some((3u32, 0u32)));
    assert(spec_clock_time(t) == Some((15u32, 0u32)));
}

/// Law: every valid `M/D` (or `M-D`) writing of a month and a day parses to
/// that month and day of "now"'s year, at 09:00.
pub proof fn lemma_parse_short_date(now: Instant, m: u32, d: u32, sep: char)
    requires
        now.wf(),
        sep == '/' || sep == '-',
        1 <= m <= 12,
        1 <= d <= days_in_month(now.year as int, m as int),
    ensures
        spec_parse(dec_str(m as int) + seq![sep] + dec_str(d as int), now) == Some(
            date_index(now.year as int, m as int, d as int) * 1440 + 540,
        ),
{
    let a = dec_str(m as int);
    let b = dec_str(d as int);
    let s = a + seq![sep] + b;
    lemma_dec_str_digits(m as int);
    lemma_dec_str_digits(d as int);
    lemma_dec_str_len2(m as int);
    lemma_dec_str_len2(d as int);
    lemma_dec_str_val(m as int);
    lemma_dec_str_val(d as int);
    let al = a.len() as int;
    let n = s.len() as int;
    assert(2 <= al + 1 <= n <= 5);
    // every character is a digit or the separator
    assert forall|i: int| 0 <= i < n implies is_digit(#[trigger] s[i]) || s[i] == sep by {
        if i < al {
            assert(s[i] == a[i]);
        } else if i == al {
        } else {
            assert(s[i] == b[i - al - 1]);
        }
    }
    assert(is_digit(s[0])) by {
        assert(s[0] == a[0]);
    }
    // no grammar before the date grammars can touch it
    reveal_strlit("in ");
    reveal_strlit("today");
    reveal_strlit("today ");
    reveal_strlit("tomorrow");
    reveal_strlit("tomorrow ");
    reveal_strlit("am");
    reveal_strlit("pm");
    assert(n >= 3 ==> s.subrange(0, 3) != "in "@) by {
        if n >= 3 {
            assert(s.subrange(0, 3)[0] == s[0]);
        }
    }
    assert(s != "today"@) by {
        if s == "today"@ {
            assert(s[0] == 't');
        }
    }
    assert(s != "tomorrow"@);
    assert forall|i: int| 0 <= i < n implies !is_space(#[trigger] s[i]) by {}
    lemma_split_ws_single(s);
    assert(spec_weekday_num(s) is None) by {
        reveal_strlit("monday");
        reveal_strlit("mon");
        reveal_strlit("tuesday");
        reveal_strlit("tue");
        reveal_strlit("wednesday");
        reveal_strlit("wed");
        reveal_strlit("thursday");
        reveal_strlit("thu");
        reveal_strlit("friday");
        reveal_strlit("fri");
        reveal_strlit("saturday");
        reveal_strlit("sat");
        reveal_strlit("sunday");
        reveal_strlit("sun");
        assert(is_digit(s[0]));
        if s == "monday"@ {
            assert(s[0] == 'm');
        }
        if s == "mon"@ {
            assert(s[0] == 'm');
        }
        if s == "tuesday"@ {
            assert(s[0] == 't');
        }
        if s == "tue"@ {
            assert(s[0] == 't');
        }
        if s == "wednesday"@ {
            assert(s[0] == 'w');
        }
        if s == "wed"@ {
            assert(s[0] == 'w');
        }
        if s == "thursday"@ {
            assert(s[0] == 't');
        }
        if s == "thu"@ {
            assert(s[0] == 't');
        }
        if s == "friday"@ {
            assert(s[0] == 'f');
        }
        if s == "fri"@ {
            assert(s[0] == 'f');
        }
        if s == "saturday"@ {
            assert(s[0] == 's');
        }
        if s == "sat"@ {
            assert(s[0] == 's');
        }
        if s == "sunday"@ {
            assert(s[0] == 's');
        }
        if s == "sun"@ {
            assert(s[0] == 's');
        }
    }
    assert(spec_weekday(s, now) is None) by {
        assert(split_ws(s)[0] == s);
    }
    // nor the bare clock time
    lemma_trim_id(s);
    assert(!contains_char(s, ':')) by {
        assert(forall|i: int|
            0 <= i < n ==> (is_digit(#[trigger] s[i]) || s[i] == sep) && s[i] != ':');
    }
    assert(s.subrange(n - 2, n) != "am"@ && s.subrange(n - 2, n) != "pm"@) by {
        assert(s.subrange(n - 2, n)[1] == s[n - 1]);
        if n - 1 < al {
            assert(s[n - 1] == a[n - 1]);
        } else if n - 1 == al {
        } else {
            assert(s[n - 1] == b[n - 1 - al - 1]);
        }
    }
    assert(spec_clock_time(s) is None);
    // the short-date grammar owns it
    assert(contains_char(s, sep)) by {
        assert(s[al] == sep);
    }
    lemma_split_char_pair(s, sep, a, b);
    if sep == '/' {
        assert(contains_char(s, '/'));
    } else {
        assert(!contains_char(s, '/'));
        assert(contains_char(s, '-'));
    }
    assert(unsigned_body(a) == a);
    assert(unsigned_body(b) == b);
    assert(parse_u32(a) == Some(m));
    assert(parse_u32(b) == Some(d));
    assert(valid_date(now.year as int, m as int, d as int));
    assert(spec_date(s, now) == Some(date_index(now.year as int, m as int, d as int) * 1440 + 540));
}

/// A bare weekday-name token reaches the weekday grammar and resolves to the
/// next occurrence of that weekday.
proof fn lemma_parse_hits_weekday(now: Instant, t: Seq<char>)
    requires
        now.wf(),
        now.day_index() + 7 < days_before_year(10000),
        spec_weekday_num(t) is Some,
        3 <= t.len() <= 9,
        t.len() != 5,
        forall|i: int| 0 <= i < t.len() ==> !is_space(#[trigger] t[i]),
        t[0] != 'i',
        t.len() >= 6 ==> t[3] != 'a',
        t.len() == 8 ==> t[1] != 'o',
        t.len() == 9 ==> t[0] != 't',
    ensures
        ({
            let w = spec_weekday_num(t)->0;
            let tw = weekday_of_day(now.day_index());
            let delta0 = (w - tw + 7) % 7;
            let delta: int = if delta0 == 0 {
                7
            } else {
                delta0
            };
            spec_parse(t, now) == Some((now.day_index() + delta) * 1440 + 540) && 1 <= delta <= 7
                && (w == tw ==> delta == 7)
        }),
{
    reveal_strlit("in ");
    reveal_strlit("today");
    reveal_strlit("today ");
    reveal_strlit("tomorrow");
    reveal_strlit("tomorrow ");
    let n = t.len() as int;
    assert(t.subrange(0, 3) != "in "@) by {
        assert(t.subrange(0, 3)[0] == t[0]);
    }
    assert(t != "today"@);
    assert(n >= 6 ==> t.subrange(0, 6) != "today "@) by {
        if n >= 6 {
            assert(t.subrange(0, 6)[3] == t[3]);
        }
    }
    assert(t != "tomorrow"@) by {
        if t == "tomorrow"@ {
            assert(t[1] == 'o');
        }
    }
    assert(n >= 9 ==> t.subrange(0, 9) != "tomorrow "@) by {
        if n >= 9 {
            assert(t.subrange(0, 9)[0] == t[0]);
        }
    }
    lemma_split_ws_single(t);
    assert(split_ws(t)[0] == t);
    assert(split_ws(t).len() == 1);
    let w = spec_weekday_num(t)->0;
    let tw = weekday_of_day(now.day_index());
    crate::instant::lemma_days_before_year_bounds(now.year as int);
    crate::instant::lemma_days_before_month_bounds(now.year as int, now.month as int);
    assert(now.day_index() >= 0);
    assert(0 <= tw < 7);
    assert(0 <= w < 7);
    let delta0 = (w - tw + 7) % 7;
    assert(0 <= delta0 < 7);
    assert(w == tw ==> delta0 == 0);
    assert(spec_weekday(t, now) is Some);
}

/// Law: a weekday name never resolves to today. The result lies between one
/// and seven days out at 09:00, and parsing the name of "now"'s own weekday
/// lands exactly seven days out.
pub proof fn lemma_parse_weekday_name(now: Instant, t: Seq<char>)
    requires
        now.wf(),
        now.day_index() + 7 < days_before_year(10000),
        spec_weekday_num(t) is Some,
    ensures
        ({
            let w = spec_weekday_num(t)->0;
            let tw = weekday_of_day(now.day_index());
            let delta0 = (w - tw + 7) % 7;
            let delta: int = if delta0 == 0 {
                7
            } else {
                delta0
            };
            spec_parse(t, now) == Some((now.day_index() + delta) * 1440 + 540) && 1 <= delta <= 7
                && (w == tw ==> delta == 7)
        }),
{
    reveal_strlit("monday");
    reveal_strlit("mon");
    reveal_strlit("tuesday");
    reveal_strlit("tue");
    reveal_strlit("wednesday");
    reveal_strlit("wed");
    reveal_strlit("thursday");
    reveal_strlit("thu");
    reveal_strlit("friday");
    reveal_strlit("fri");
    reveal_strlit("saturday");
    reveal_strlit("sat");
    reveal_strlit("sunday");
    reveal_strlit("sun");
    if t == "monday"@ || t == "tuesday"@ || t == "wednesday"@ || t == "thursday"@ || t
        == "friday"@ || t == "saturday"@ || t == "sunday"@ || t == "mon"@ || t == "tue"@ || t
        == "wed"@ || t == "thu"@ || t == "fri"@ || t == "sat"@ || t == "sun"@ {
        assert forall|i: int| 0 <= i < t.len() implies !is_space(#[trigger] t[i]) by {
            if t.len() == 3 {
                assert(t[0] != ' ' && t[1] != ' ' && t[2] != ' ');
                assert(t[0] != '\t' && t[1] != '\t' && t[2] != '\t');
                assert(t[0] != '\n' && t[1] != '\n' && t[2] != '\n');
                assert(t[0] != '\r' && t[1] != '\r' && t[2] != '\r');
                assert(t[0] != '\u{b}' && t[1] != '\u{b}' && t[2] != '\u{b}');
                assert(t[0] != '\u{c}' && t[1] != '\u{c}' && t[2] != '\u{c}');
            }
        }
        lemma_parse_hits_weekday(now, t);
    }
}

/// An empty input matches no grammar.
proof fn lemma_spec_parse_empty(s: Seq<char>, now: Instant)
    requires
        s.len() == 0,
    ensures
        spec_parse(s, now) is None,
{
    reveal_strlit("today");
    reveal_strlit("tomorrow");
    assert(split_ws(s) =~= Seq::<Seq<char>>::empty());
    assert(spec_weekday(s, now) is None);
    assert(trim_spaces(s) =~= s);
    assert(!contains_char(s, ':'));
    assert(spec_clock_time(s) is None);
    assert(!contains_char(s, '/') && !contains_char(s, '-'));
    assert(spec_date(s, now) is None);
}

} // verus!
