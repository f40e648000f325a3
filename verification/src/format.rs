//! The deadline formatter: renders a deadline (or a completion time) against
//! "now" as the shortest unambiguous human phrase.

use vstd::prelude::*;

use crate::digits::{dec2_str, dec4_str, dec_str, push_dec, push_dec2, push_dec4};
use crate::instant::{days_before_year, days_in_month, days_before_month, valid_date, Instant};

verus! {

/// Weekday of a day index (day 0 = 0000-01-01); 0 = Monday .. 6 = Sunday.
pub open spec fn weekday_of_day(n: int) -> int {
    (n + 5) % 7
}

pub open spec fn weekday_abbr(w: int) -> Seq<char> {
    if w == 0 {
        "mon"@
    } else if w == 1 {
        "tue"@
    } else if w == 2 {
        "wed"@
    } else if w == 3 {
        "thu"@
    } else if w == 4 {
        "fri"@
    } else if w == 5 {
        "sat"@
    } else {
        "sun"@
    }
}

pub open spec fn month_abbr(m: int) -> Seq<char> {
    if m == 1 {
        "jan"@
    } else if m == 2 {
        "feb"@
    } else if m == 3 {
        "mar"@
    } else if m == 4 {
        "apr"@
    } else if m == 5 {
        "may"@
    } else if m == 6 {
        "jun"@
    } else if m == 7 {
        "jul"@
    } else if m == 8 {
        "aug"@
    } else if m == 9 {
        "sep"@
    } else if m == 10 {
        "oct"@
    } else if m == 11 {
        "nov"@
    } else {
        "dec"@
    }
}

pub open spec fn hour12(h: int) -> int {
    if h % 12 == 0 {
        12
    } else {
        h % 12
    }
}

/// A clock time on a 12-hour dial: no leading zero on the hour, two minute
/// digits, lowercase suffix.
pub open spec fn time12_str(h: int, mi: int) -> Seq<char> {
    dec_str(hour12(h)) + ":"@ + dec2_str(mi) + (if h < 12 {
        "am"@
    } else {
        "pm"@
    })
}

/// What `format_deadline` returns.
pub open spec fn spec_format_deadline(deadline: Instant, now: Instant, is_overdue: bool) -> Seq<
    char,
> {
    if is_overdue {
        let mins = now.minute_index() - deadline.minute_index();
        let hours = mins / 60;
        let days = mins / 1440;
        if hours < 1 {
            "⚠ "@ + dec_str(mins) + "m ago"@
        } else if hours < 24 {
            "⚠ "@ + dec_str(hours) + "h ago"@
        } else if days == 1 {
            "⚠ yesterday"@
        } else {
            "⚠ "@ + dec_str(days) + "d ago"@
        }
    } else {
        let t = time12_str(deadline.hour as int, deadline.minute as int);
        if deadline.same_date(now) {
            "today "@ + t
        } else if deadline.day_index() == now.day_index() + 1 {
            "tomorrow "@ + t
        } else if now.day_index() < deadline.day_index() && deadline.day_index() - now.day_index()
            < 7 {
            weekday_abbr(weekday_of_day(deadline.day_index())) + " "@ + t
        } else if deadline.year == now.year {
            month_abbr(deadline.month as int) + " "@ + dec_str(deadline.day as int)
        } else {
            dec4_str(deadline.year as int) + "-"@ + dec2_str(deadline.month as int) + "-"@
                + dec2_str(deadline.day as int)
        }
    }
}

/// What `format_completed_time` returns.
pub open spec fn spec_format_completed(completed: Instant, now: Instant) -> Seq<char> {
    let mins = now.minute_index() - completed.minute_index();
    if mins < 1 {
        "done just now"@
    } else if mins < 60 {
        "done "@ + dec_str(mins) + "m ago"@
    } else if mins / 60 < 24 {
        "done "@ + dec_str(mins / 60) + "h ago"@
    } else {
        "done "@ + dec_str(mins / 1440) + "d ago"@
    }
}

/// Append the 12-hour rendering of a clock time.
fn push_time12(s: &mut String, h: u32, mi: u32)
    requires
        h < 24,
        mi < 60,
    ensures
        final(s)@ == old(s)@ + time12_str(h as int, mi as int),
{
    let h12: u32 = if h % 12 == 0 {
        12
    } else {
        h % 12
    };
    push_dec(s, h12 as u64);
    s.append(":");
    push_dec2(s, mi as u64);
    if h < 12 {
        s.append("am");
    } else {
        s.append("pm");
    }
    assert(final(s)@ =~= old(s)@ + time12_str(h as int, mi as int));
}

/// Append the lowercase three-letter weekday name.
fn push_weekday_abbr(s: &mut String, w: u64)
    requires
        w < 7,
    ensures
        final(s)@ == old(s)@ + weekday_abbr(w as int),
{
    if w == 0 {
        s.append("mon");
    } else if w == 1 {
        s.append("tue");
    } else if w == 2 {
        s.append("wed");
    } else if w == 3 {
        s.append("thu");
    } else if w == 4 {
        s.append("fri");
    } else if w == 5 {
        s.append("sat");
    } else {
        s.append("sun");
    }
}

/// Append the lowercase three-letter month name.
fn push_month_abbr(s: &mut String, m: u32)
    requires
        1 <= m <= 12,
    ensures
        final(s)@ == old(s)@ + month_abbr(m as int),
{
    if m == 1 {
        s.append("jan");
    } else if m == 2 {
        s.append("feb");
    } else if m == 3 {
        s.append("mar");
    } else if m == 4 {
        s.append("apr");
    } else if m == 5 {
        s.append("may");
    } else if m == 6 {
        s.append("jun");
    } else if m == 7 {
        s.append("jul");
    } else if m == 8 {
        s.append("aug");
    } else if m == 9 {
        s.append("sep");
    } else if m == 10 {
        s.append("oct");
    } else if m == 11 {
        s.append("nov");
    } else {
        s.append("dec");
    }
}

/// Render a deadline against "now". The caller supplies `is_overdue`, true
/// exactly when the owning task is open and its deadline lies strictly before
/// "now"; overdue deadlines get an aging phrase, others the shortest phrase
/// that still names the moment unambiguously.
pub fn format_deadline(deadline: &Instant, now: &Instant, is_overdue: bool) -> (r: String)
    requires
        deadline.wf(),
        now.wf(),
        is_overdue ==> deadline.minute_index() < now.minute_index(),
    ensures
        r@ == spec_format_deadline(*deadline, *now, is_overdue),
{
    let mut s = String::new();
    if is_overdue {
        let mins = now.minute_index_x() - deadline.minute_index_x();
        let hours = mins / 60;
        let days = mins / 1440;
        s.append("⚠ ");
        if hours < 1 {
            push_dec(&mut s, mins);
            s.append("m ago");
        } else if hours < 24 {
            push_dec(&mut s, hours);
            s.append("h ago");
        } else if days == 1 {
            s.append("yesterday");
            proof {
                reveal_strlit("⚠ ");
                reveal_strlit("yesterday");
                reveal_strlit("⚠ yesterday");
                assert(s@ =~= spec_format_deadline(*deadline, *now, is_overdue));
            }
        } else {
            push_dec(&mut s, days);
            s.append("d ago");
        }
        assert(s@ =~= spec_format_deadline(*deadline, *now, is_overdue));
    } else {
        if deadline.year == now.year && deadline.month == now.month && deadline.day == now.day {
            s.append("today ");
            push_time12(&mut s, deadline.hour, deadline.minute);
        } else {
            let dd = crate::instant::date_to_days(deadline.year, deadline.month, deadline.day);
            let nd = crate::instant::date_to_days(now.year, now.month, now.day);
            proof {
                crate::instant::lemma_days_before_year_bounds(10000);
            }
            if dd == nd + 1 {
                s.append("tomorrow ");
                push_time12(&mut s, deadline.hour, deadline.minute);
            } else if nd < dd && dd < nd + 7 {
                push_weekday_abbr(&mut s, (dd + 5) % 7);
                s.append(" ");
                push_time12(&mut s, deadline.hour, deadline.minute);
            } else if deadline.year == now.year {
                push_month_abbr(&mut s, deadline.month);
                s.append(" ");
                push_dec(&mut s, deadline.day as u64);
            } else {
                push_dec4(&mut s, deadline.year as u64);
                s.append("-");
                push_dec2(&mut s, deadline.month as u64);
                s.append("-");
                push_dec2(&mut s, deadline.day as u64);
            }
        }
        assert(s@ =~= spec_format_deadline(*deadline, *now, is_overdue));
    }
    s
}

/// Render how long ago a task was completed.
pub fn format_completed_time(completed: &Instant, now: &Instant) -> (r: String)
    requires
        completed.wf(),
        now.wf(),
    ensures
        r@ == spec_format_completed(*completed, *now),
{
    let cm = completed.minute_index_x();
    let nm = now.minute_index_x();
    proof {
        crate::instant::lemma_days_before_year_bounds(10000);
    }
    let mut s = String::new();
    if nm < cm + 1 {
        s.append("done just now");
    } else {
        let mins = nm - cm;
        s.append("done ");
        if mins < 60 {
            push_dec(&mut s, mins);
            s.append("m ago");
        } else if mins / 60 < 24 {
            push_dec(&mut s, mins / 60);
            s.append("h ago");
        } else {
            push_dec(&mut s, mins / 1440);
            s.append("d ago");
        }
        assert(s@ =~= spec_format_completed(*completed, *now));
    }
    assert(s@ =~= spec_format_completed(*completed, *now));
    s
}

/// The coarseness of the aging phrase an overdue age in minutes is rendered
/// with: 0 for minutes, 1 for hours, 2 for "yesterday", 3 for days. The four
/// values mirror the overdue branches of `spec_format_deadline`.
pub open spec fn aging_unit(mins: int) -> int {
    if mins / 60 < 1 {
        0
    } else if mins / 60 < 24 {
        1
    } else if mins / 1440 == 1 {
        2
    } else {
        3
    }
}

/// The magnitude shown inside the aging phrase for an age in minutes.
pub open spec fn aging_count(mins: int) -> int {
    if mins / 60 < 1 {
        mins
    } else if mins / 60 < 24 {
        mins / 60
    } else if mins / 1440 == 1 {
        1
    } else {
        mins / 1440
    }
}

/// Law: of two deadlines overdue against the same "now", the older never
/// shows the smaller aging magnitude: its phrase's unit is coarser, or the
/// same unit carries a count at least as large.
pub proof fn lemma_overdue_aging_monotone(d1: Instant, d2: Instant, now: Instant)
    requires
        d1.wf(),
        d2.wf(),
        now.wf(),
        d1.minute_index() < d2.minute_index() < now.minute_index(),
    ensures
        ({
            let m1 = now.minute_index() - d1.minute_index();
            let m2 = now.minute_index() - d2.minute_index();
            aging_unit(m1) > aging_unit(m2) || (aging_unit(m1) == aging_unit(m2) && aging_count(m1)
                >= aging_count(m2))
        }),
{
    let m1 = now.minute_index() - d1.minute_index();
    let m2 = now.minute_index() - d2.minute_index();
    assert(m1 > m2 >= 1);
    vstd::arithmetic::div_mod::lemma_div_is_ordered(m2, m1, 60);
    vstd::arithmetic::div_mod::lemma_div_is_ordered(m2, m1, 1440);
    vstd::arithmetic::div_mod::lemma_fundamental_div_mod(m2, 1440);
    vstd::arithmetic::div_mod::lemma_fundamental_div_mod(m1, 1440);
    vstd::arithmetic::div_mod::lemma_fundamental_div_mod(m2, 60);
    vstd::arithmetic::div_mod::lemma_fundamental_div_mod(m1, 60);
}

/// Law: a deadline exactly 23 hours and 59 minutes past is still phrased in
/// hours; the day boundary is crossed only at a full 24 hours.
pub proof fn lemma_aging_day_boundary(d: Instant, now: Instant)
    requires
        d.wf(),
        now.wf(),
        now.minute_index() - d.minute_index() == 1439,
    ensures
        spec_format_deadline(d, now, true) == "⚠ 23h ago"@,
{
    reveal_strlit("⚠ ");
    reveal_strlit("h ago");
    reveal_strlit("⚠ 23h ago");
    assert(1439int / 60 == 23);
    assert(dec_str(23) =~= seq!['2', '3']) by {
        assert(dec_str(2) =~= seq!['2']);
    }
    assert("⚠ "@ + dec_str(23) + "h ago"@ =~= "⚠ 23h ago"@);
}

/// What `format_age` returns: how long ago a moment was, in whole days,
/// whole hours, or "just now" under an hour.
pub open spec fn spec_format_age(then: Instant, now: Instant) -> Seq<char> {
    let mins = now.minute_index() - then.minute_index();
    if mins >= 1440 {
        dec_str(mins / 1440) + " days"@
    } else if mins >= 60 {
        dec_str(mins / 60) + " hours"@
    } else {
        "just now"@
    }
}

/// Render how long ago `then` was, coarsely: days, hours, or "just now".
pub fn format_age(then: &Instant, now: &Instant) -> (r: String)
    requires
        then.wf(),
        now.wf(),
        then.minute_index() <= now.minute_index(),
    ensures
        r@ == spec_format_age(*then, *now),
{
    let tm = then.minute_index_x();
    let nm = now.minute_index_x();
    let mins = nm - tm;
    let mut s = String::new();
    if mins >= 1440 {
        push_dec(&mut s, mins / 1440);
        s.append(" days");
    } else if mins >= 60 {
        push_dec(&mut s, mins / 60);
        s.append(" hours");
    } else {
        s.append("just now");
    }
    assert(s@ =~= spec_format_age(*then, *now));
    s
}

/// Whether the deadline falls on "now"'s local calendar date.
pub fn is_due_today(deadline: &Instant, now: &Instant) -> (r: bool)
    ensures
        r == deadline.same_date(*now),
{
    deadline.year == now.year && deadline.month == now.month && deadline.day == now.day
}

/// Whether the deadline's date lies between today and seven days out, both
/// ends included.
pub fn is_due_this_week(deadline: &Instant, now: &Instant) -> (r: bool)
    requires
        deadline.wf(),
        now.wf(),
    ensures
        r == (0 <= deadline.day_index() - now.day_index() <= 7),
{
    let dd = crate::instant::date_to_days(deadline.year, deadline.month, deadline.day);
    let nd = crate::instant::date_to_days(now.year, now.month, now.day);
    dd >= nd && dd - nd <= 7
}

} // verus!
