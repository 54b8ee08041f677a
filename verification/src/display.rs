//! Operator-facing number formatting for miner log lines.
//!
//! Energies stay in milli-units internally. These helpers change only the
//! text an operator reads.
use crate::text::{decimal, push_decimal};
use vstd::prelude::*;
use vstd::string::*;

verus! {

/// Floor-divide a milli-energy to whole units for a log line.
///
/// Truncating toward zero would make a negative energy look better than it is.
#[must_use]
pub fn energy_units(milli: i64) -> (units: i64)
    ensures
        units == milli as int / 1000,
        1000 * units <= milli < 1000 * units + 1000,
{
    if milli >= 0 {
        milli / 1000
    } else {
        // Negated first, so that the division rounds away from zero.
        let low: i64 = -(milli + 1);
        -(low / 1000) - 1
    }
}

/// `n` units, rounded to the nearest whole number of `per`.
pub open spec fn nearest(n: nat, per: nat) -> nat {
    (n + per / 2) / per
}

/// `hours` and `minutes`.
pub open spec fn hours_text(hours: nat, minutes: nat) -> Seq<char> {
    decimal(hours) + "h "@ + decimal(minutes) + "m"@
}

/// How a duration reads: the unit is chosen by the duration as it stands, the
/// last unit shown is rounded, and a last unit that rounds up to a full one is
/// carried.
pub open spec fn duration_text(ms: nat) -> Seq<char> {
    if ms < 1_000 {
        decimal(ms) + "ms"@
    } else if ms < 60_000 {
        let tenths = nearest(ms, 100);
        if tenths == 600 {
            "1m 0s"@
        } else {
            decimal(tenths / 10) + "."@ + decimal(tenths % 10) + "s"@
        }
    } else if ms < 3_600_000 {
        let seconds = nearest(ms, 1_000);
        if seconds == 3_600 {
            hours_text(1, 0)
        } else {
            decimal(seconds / 60) + "m "@ + decimal(seconds % 60) + "s"@
        }
    } else {
        let minutes = nearest(ms, 60_000);
        hours_text(minutes / 60, minutes % 60)
    }
}

fn format_hours_minutes(hours: u64, mins: u64) -> (text: String)
    ensures
        text@ == hours_text(hours as nat, mins as nat),
{
    let mut text: String = "".to_owned();
    proof {
        reveal_strlit("");
    }
    push_decimal(&mut text, hours);
    text.append("h ");
    push_decimal(&mut text, mins);
    text.append("m");
    assert(text@ =~= hours_text(hours as nat, mins as nat));
    text
}

/// Render a millisecond duration with a rounded last unit.
///
/// | input | rendered |
/// | --- | --- |
/// | under 1 second | `889ms` |
/// | under 1 minute | `48.9s` |
/// | under 1 hour | `10m 49s` |
/// | 1 hour or more | `1h 12m` |
#[must_use]
pub fn format_duration_ms(ms: u64) -> (text: String)
    ensures
        text@ == duration_text(ms as nat),
{
    let mut text: String = "".to_owned();
    proof {
        reveal_strlit("");
    }
    if ms < 1_000 {
        push_decimal(&mut text, ms);
        text.append("ms");
        assert(text@ =~= duration_text(ms as nat));
        return text;
    }
    if ms < 60_000 {
        let tenths: u64 = (ms + 50) / 100;
        if tenths >= 600 {
            return "1m 0s".to_owned();
        }
        push_decimal(&mut text, tenths / 10);
        text.append(".");
        push_decimal(&mut text, tenths % 10);
        text.append("s");
        assert(text@ =~= duration_text(ms as nat));
        return text;
    }
    if ms < 3_600_000 {
        let seconds: u64 = (ms + 500) / 1_000;
        if seconds >= 3_600 {
            return format_hours_minutes(1, 0);
        }
        push_decimal(&mut text, seconds / 60);
        text.append("m ");
        push_decimal(&mut text, seconds % 60);
        text.append("s");
        assert(text@ =~= duration_text(ms as nat));
        return text;
    }
    // Hours and the rest are rounded apart, so that no sum can overflow.
    let mut hours: u64 = ms / 3_600_000;
    let mut mins: u64 = (ms % 3_600_000 + 30_000) / 60_000;
    proof {
        assert(ms + 30_000 == 3_600_000 * hours + (ms % 3_600_000 + 30_000));
        assert((ms + 30_000) / 60_000 == 60 * hours + mins);
    }
    if mins == 60 {
        hours += 1;
        mins = 0;
    }
    format_hours_minutes(hours, mins)
}

/// What an operator reads of a duration is within half of the last unit shown,
/// and a full half counts up: milliseconds are exact, then come tenths of a
/// second, seconds and minutes.
/// The smaller of two units never reaches a full larger one.
pub proof fn law_durations_read_to_half_a_unit(ms: nat)
    ensures
        ms < 1_000 ==> duration_text(ms) == decimal(ms) + "ms"@,
        1_000 <= ms < 60_000 ==> duration_text(ms) == "1m 0s"@ && ms >= 59_950 || exists|
            whole: nat,
            tenth: nat,
        |
            tenth < 10 && whole < 60 && -50 < 1_000 * whole + 100 * tenth - ms <= 50
                && duration_text(ms) == #[trigger] decimal(whole) + "."@ + #[trigger] decimal(tenth)
                + "s"@,
        60_000 <= ms < 3_600_000 ==> duration_text(ms) == decimal(1) + "h "@ + decimal(0) + "m"@
            && ms >= 3_599_500 || exists|minutes: nat, seconds: nat|
            seconds < 60 && minutes < 60 && -500 < 60_000 * minutes + 1_000 * seconds - ms <= 500
                && duration_text(ms) == #[trigger] decimal(minutes) + "m "@ + #[trigger] decimal(
                seconds,
            ) + "s"@,
        3_600_000 <= ms ==> exists|hours: nat, minutes: nat|
            minutes < 60 && -30_000 < 3_600_000 * hours + 60_000 * minutes - ms <= 30_000
                && duration_text(ms) == #[trigger] decimal(hours) + "h "@ + #[trigger] decimal(
                minutes,
            ) + "m"@,
{
    if 1_000 <= ms < 60_000 {
        let tenths = nearest(ms, 100);
        if tenths < 600 {
            let (whole, tenth) = (tenths / 10, tenths % 10);
            assert(duration_text(ms) == decimal(whole) + "."@ + decimal(tenth) + "s"@);
        }
    } else if 60_000 <= ms < 3_600_000 {
        let total = nearest(ms, 1_000);
        if total < 3_600 {
            let (minutes, seconds) = (total / 60, total % 60);
            assert(duration_text(ms) == decimal(minutes) + "m "@ + decimal(seconds) + "s"@);
        }
    } else if 3_600_000 <= ms {
        let total = nearest(ms, 60_000);
        let (hours, minutes) = (total / 60, total % 60);
        assert(duration_text(ms) == decimal(hours) + "h "@ + decimal(minutes) + "m"@);
    }
}

} // verus!
