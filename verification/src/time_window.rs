//! Time bounds of a query: local days, and timestamps with milliseconds.

use crate::calendar::{self, civil_from_days, days_from_civil};
use crate::error::CliError;
use crate::numeral::{self, parse_int, write_padded};
use crate::pattern::{self, contains, split};
use crate::text::{self, chars_of, text_between};
use vstd::prelude::*;
use vstd::string::StringExecFns;

verus! {

/// The UTC timestamp, with milliseconds, of a number of seconds since 1970-01-01.
pub open spec fn timestamp(epoch: int, millis: int) -> Seq<char> {
    let date = calendar::civil_date(epoch / 86400);
    let secs = epoch % 86400;
    numeral::padded(date.0, 4) + "-"@ + numeral::padded(date.1, 2) + "-"@
        + numeral::padded(date.2, 2) + "T"@ + numeral::padded(secs / 3600, 2) + ":"@
        + numeral::padded((secs % 3600) / 60, 2) + ":"@ + numeral::padded(
        secs % 60,
        2,
    ) + "."@ + numeral::padded(millis, 3) + "Z"@
}

/// Writes the UTC timestamp, with milliseconds, of a number of seconds since 1970-01-01.
pub fn format_epoch(epoch: i64, millis: u16) -> (r: String)
    requires
        calendar::date_fits(epoch as int / 86400),
    ensures
        r@ == timestamp(epoch as int, millis as int),
{
    let days: i64 = if epoch >= 0 {
        epoch / 86400
    } else {
        -1 - (-(epoch + 1)) / 86400
    };
    proof {
        assert(days == epoch as int / 86400);
    }
    let secs: i64 = epoch - days * 86400;
    proof {
        assert(secs == epoch as int % 86400);
        calendar::lemma_year_of_era(calendar::day_of_era(days as int));
    }
    let (year, month, day) = civil_from_days(days);
    let mut out = write_padded(year as i64, 4);
    out.append("-");
    out.append(write_padded(month as i64, 2).as_str());
    out.append("-");
    out.append(write_padded(day as i64, 2).as_str());
    out.append("T");
    out.append(write_padded(secs / 3600, 2).as_str());
    out.append(":");
    out.append(write_padded((secs % 3600) / 60, 2).as_str());
    out.append(":");
    out.append(write_padded(secs % 60, 2).as_str());
    out.append(".");
    out.append(write_padded(millis as i64, 3).as_str());
    out.append("Z");
    out
}

/// The year, month and day that a text of the form `YYYY-MM-DD` names, or the message of the fault.
pub open spec fn day_value(day: Seq<char>) -> Result<(int, int, int), Seq<char>> {
    let parts = pattern::pieces(day, "-"@);
    match numeral::int_value(parts[0], i32::MIN as int, i32::MAX as int) {
        Err(e) => Err(numeral::fault_text(e)),
        Ok(year) => if parts.len() < 2 {
            Err("invalid --day"@)
        } else {
            match numeral::int_value(parts[1], 0, u32::MAX as int) {
                Err(e) => Err(numeral::fault_text(e)),
                Ok(month) => if parts.len() < 3 {
                    Err("invalid --day"@)
                } else {
                    match numeral::int_value(parts[2], 0, u32::MAX as int) {
                        Err(e) => Err(numeral::fault_text(e)),
                        Ok(date) => if parts.len() > 3 {
                            Err("invalid --day"@)
                        } else {
                            Ok((year, month, date))
                        },
                    }
                },
            }
        },
    }
}

/// Reads a day of the form `YYYY-MM-DD`. Month and day are not held to the calendar.
pub fn parse_day(day: &str) -> (r: Result<(i32, u32, u32), CliError>)
    ensures
        match r {
            Ok(d) => day_value(day@) == Ok::<(int, int, int), Seq<char>>(
                (d.0 as int, d.1 as int, d.2 as int),
            ),
            Err(e) => day_value(day@) == Err::<(int, int, int), Seq<char>>(e@),
        },
{
    proof {
        reveal_strlit("-");
    }
    let parts = split(day, "-");
    proof {
        assert(text::texts(parts@)[0] == parts@[0]@);
    }
    let year = match parse_int(parts[0].as_str(), i32::MIN as i64, i32::MAX as i64) {
        Ok(n) => n as i32,
        Err(e) => return Err(CliError::of(e.message())),
    };
    if parts.len() < 2 {
        return Err(CliError::new("invalid --day"));
    }
    proof {
        assert(text::texts(parts@)[1] == parts@[1]@);
    }
    let month = match parse_int(parts[1].as_str(), 0, u32::MAX as i64) {
        Ok(n) => n as u32,
        Err(e) => return Err(CliError::of(e.message())),
    };
    if parts.len() < 3 {
        return Err(CliError::new("invalid --day"));
    }
    proof {
        assert(text::texts(parts@)[2] == parts@[2]@);
    }
    let date = match parse_int(parts[2].as_str(), 0, u32::MAX as i64) {
        Ok(n) => n as u32,
        Err(e) => return Err(CliError::of(e.message())),
    };
    if parts.len() > 3 {
        return Err(CliError::new("invalid --day"));
    }
    Ok((year, month, date))
}

/// The sign, hours and minutes that an offset such as `+07:00` names, or the message of the fault.
pub open spec fn offset_parts(offset: Seq<char>) -> Result<(int, int, int), Seq<char>> {
    if offset[0] != '+' && offset[0] != '-' {
        Err("invalid --tz-offset"@)
    } else {
        let sign = if offset[0] == '+' {
            1int
        } else {
            -1int
        };
        let parts = pattern::pieces(offset.skip(1), ":"@);
        match numeral::int_value(parts[0], i32::MIN as int, i32::MAX as int) {
            Err(e) => Err(numeral::fault_text(e)),
            Ok(hours) => if parts.len() < 2 {
                Err("invalid --tz-offset"@)
            } else {
                match numeral::int_value(parts[1], i32::MIN as int, i32::MAX as int) {
                    Err(e) => Err(numeral::fault_text(e)),
                    Ok(minutes) => Ok((sign, hours, minutes)),
                }
            },
        }
    }
}

/// The minutes east of UTC that an offset names, or the message of the fault.
pub open spec fn offset_value(offset: Seq<char>) -> Result<int, Seq<char>> {
    match offset_parts(offset) {
        Ok(p) => Ok(if p.0 < 0 {
            -(p.1 * 60 + p.2)
        } else {
            p.1 * 60 + p.2
        }),
        Err(e) => Err(e),
    }
}

/// Whether an offset begins with a one-byte character and its minutes can be computed in `i32`.
pub open spec fn offset_fits(offset: Seq<char>) -> bool {
    &&& offset.len() > 0
    &&& offset[0] as u32 <= 127
    &&& offset_parts(offset) matches Ok(p) ==> {
        &&& calendar::fits(p.1 * 60)
        &&& calendar::fits(p.1 * 60 + p.2)
        &&& p.0 < 0 ==> calendar::fits(-(p.1 * 60 + p.2))
    }
}

/// Reads the sign, hours and minutes of an offset such as `+07:00`.
fn parse_offset_parts(offset: &str) -> (r: Result<(i32, i32, i32), CliError>)
    requires
        offset@.len() > 0,
    ensures
        match r {
            Ok(p) => offset_parts(offset@) == Ok::<(int, int, int), Seq<char>>(
                (p.0 as int, p.1 as int, p.2 as int),
            ),
            Err(e) => offset_parts(offset@) == Err::<(int, int, int), Seq<char>>(e@),
        },
        r matches Ok(p) ==> p.0 == 1 || p.0 == -1,
{
    let chars = chars_of(offset);
    let sign: i32 = if chars[0] == '+' {
        1
    } else if chars[0] == '-' {
        -1
    } else {
        return Err(CliError::new("invalid --tz-offset"));
    };
    let rest = text_between(&chars, 1, chars.len());
    proof {
        reveal_strlit(":");
        assert(rest@ == offset@.skip(1));
    }
    let parts = split(rest.as_str(), ":");
    proof {
        assert(text::texts(parts@)[0] == parts@[0]@);
    }
    let hours = match parse_int(parts[0].as_str(), i32::MIN as i64, i32::MAX as i64) {
        Ok(n) => n as i32,
        Err(e) => return Err(CliError::of(e.message())),
    };
    if parts.len() < 2 {
        return Err(CliError::new("invalid --tz-offset"));
    }
    proof {
        assert(text::texts(parts@)[1] == parts@[1]@);
    }
    let minutes = match parse_int(parts[1].as_str(), i32::MIN as i64, i32::MAX as i64) {
        Ok(n) => n as i32,
        Err(e) => return Err(CliError::of(e.message())),
    };
    Ok((sign, hours, minutes))
}

/// Reads a fixed offset such as `+07:00`, in minutes east of UTC.
pub fn parse_offset_minutes(offset: &str) -> (r: Result<i32, CliError>)
    requires
        offset_fits(offset@),
    ensures
        match r {
            Ok(n) => offset_value(offset@) == Ok::<int, Seq<char>>(n as int),
            Err(e) => offset_value(offset@) == Err::<int, Seq<char>>(e@),
        },
{
    match parse_offset_parts(offset) {
        Ok((sign, hours, minutes)) => {
            let total: i32 = hours * 60 + minutes;
            if sign == 1 {
                Ok(total)
            } else {
                Ok(-total)
            }
        },
        Err(e) => Err(e),
    }
}

/// The seconds since 1970-01-01 at which a local day begins.
pub open spec fn day_start(date: (int, int, int), offset: int) -> int {
    calendar::civil_days(date.0, date.1 as u32, date.2 as u32) * 86400 - offset * 60
}

/// The first and the last millisecond, in UTC, of a local day, or the message of the fault.
pub open spec fn day_window(day: Seq<char>, offset: Seq<char>) -> Result<
    (Seq<char>, Seq<char>),
    Seq<char>,
> {
    match day_value(day) {
        Err(e) => Err(e),
        Ok(date) => match offset_value(offset) {
            Err(e) => Err(e),
            Ok(minutes) => {
                let start = day_start(date, minutes);
                Ok((timestamp(start, 0), timestamp(start + 86400 - 1, 999)))
            },
        },
    }
}

/// Whether the window of a local day can be computed.
pub open spec fn window_fits(day: Seq<char>, offset: Seq<char>) -> bool {
    day_value(day) matches Ok(date) ==> {
        &&& offset_fits(offset)
        &&& offset_value(offset) is Ok ==> calendar::civil_fits(
            date.0,
            date.1 as u32,
            date.2 as u32,
        )
    }
}

/// The first and the last millisecond, in UTC, of a local day at a fixed offset.
pub fn local_day_window(day: &str, offset: &str) -> (r: Result<(String, String), CliError>)
    requires
        window_fits(day@, offset@),
    ensures
        match r {
            Ok(w) => day_window(day@, offset@) == Ok::<(Seq<char>, Seq<char>), Seq<char>>(
                (w.0@, w.1@),
            ),
            Err(e) => day_window(day@, offset@) == Err::<(Seq<char>, Seq<char>), Seq<char>>(e@),
        },
{
    let (year, month, date) = match parse_day(day) {
        Ok(d) => d,
        Err(e) => return Err(e),
    };
    let offset_minutes = match parse_offset_minutes(offset) {
        Ok(n) => n,
        Err(e) => return Err(e),
    };
    let start_epoch: i64 = days_from_civil(year, month, date) * 86400 - (offset_minutes as i64
        * 60);
    let end_epoch: i64 = start_epoch + 86400 - 1;
    proof {
        lemma_near_epochs_fit(start_epoch as int);
        lemma_near_epochs_fit(end_epoch as int);
    }
    Ok((format_epoch(start_epoch, 0), format_epoch(end_epoch, 999)))
}

/// A moment within some six million years of 1970 has a timestamp.
proof fn lemma_near_epochs_fit(epoch: int)
    requires
        -190_000_000_000_000 <= epoch <= 190_000_000_000_000,
    ensures
        calendar::date_fits(epoch / 86400),
{
    let days = epoch / 86400;
    calendar::lemma_year_of_era(calendar::day_of_era(days));
    assert(-2_300_000_000 < days < 2_300_000_000);
    assert(-16_000 < calendar::era_of(days) < 16_000);
}

/// Whether every step of the day number of a date stays in `i32`.
fn civil_steps_fit(year: i32, month: u32, day: u32) -> (r: bool)
    ensures
        r == calendar::civil_fits(year as int, month, day),
{
    let low: i64 = i32::MIN as i64;
    let high: i64 = i32::MAX as i64;
    let y: i64 = if month <= 2 {
        year as i64 - 1
    } else {
        year as i64
    };
    let from: i64 = if y >= 0 {
        y
    } else {
        y - 399
    };
    let era: i64 = from / 400;
    proof {
        assert(era == y as int / 400);
    }
    let yoe: i64 = y - era * 400;
    let mp: i64 = month as i32 as i64 + if month > 2 {
        -3i64
    } else {
        9i64
    };
    let doy: i64 = (153 * mp + 2) / 5 + day as i32 as i64 - 1;
    let doe: i64 = yoe * 365 + yoe / 4 - yoe / 100 + doy;
    let total: i64 = era * 146097 + doe;
    low <= from && y <= high && low <= mp && mp <= high && low <= 153 * mp && 153 * mp + 2 <= high
        && low <= doy && doy + 1 <= high && low <= doe && doe <= high && low <= era * 146097 && era
        * 146097 <= high && total <= high && low <= total - 719468
}

/// Whether the window of a local day can be computed: the condition that `local_day_window` asks for.
pub fn day_window_fits(day: &str, offset: &str) -> (r: bool)
    ensures
        r == window_fits(day@, offset@),
{
    let (year, month, date) = match parse_day(day) {
        Ok(d) => d,
        Err(_) => return true,
    };
    let chars = chars_of(offset);
    if chars.len() == 0 || chars[0] as u32 > 127 {
        return false;
    }
    match parse_offset_parts(offset) {
        Ok((sign, hours, minutes)) => {
            let scaled: i64 = hours as i64 * 60;
            let total: i64 = scaled + minutes as i64;
            let low: i64 = i32::MIN as i64;
            let high: i64 = i32::MAX as i64;
            if scaled < low || scaled > high || total < low || total > high || (sign < 0 && -total
                > high) {
                return false;
            }
            civil_steps_fit(year, month, date)
        },
        Err(_) => true,
    }
}

/// A text without the letters `Z` at its end.
pub open spec fn without_zulu(s: Seq<char>) -> Seq<char>
    decreases s.len(),
{
    if s.len() > 0 && s.last() == 'Z' {
        without_zulu(s.drop_last())
    } else {
        s
    }
}

/// A time bound with milliseconds: added where it ends in `Z` and has no fraction.
pub open spec fn bound_text(value: Seq<char>, is_end: bool) -> Seq<char> {
    if value.len() == 0 || value.last() != 'Z' || pattern::occurs(value, "."@) {
        value
    } else {
        without_zulu(value) + "."@ + (if is_end {
            "999"@
        } else {
            "000"@
        }) + "Z"@
    }
}

/// Gives a time bound that ends in `Z` and has no fraction the first or the last millisecond.
pub fn normalize_rfc3339_bound(value: &str, is_end: bool) -> (r: String)
    ensures
        r@ == bound_text(value@, is_end),
{
    let chars = chars_of(value);
    if chars.len() == 0 || chars[chars.len() - 1] != 'Z' || contains(value, ".") {
        return value.to_string();
    }
    let mut end: usize = chars.len();
    proof {
        assert(chars@.take(end as int) == value@);
    }
    while end > 0 && chars[end - 1] == 'Z'
        invariant
            end <= chars@.len(),
            chars@ == value@,
            without_zulu(value@) == without_zulu(chars@.take(end as int)),
        decreases end,
    {
        proof {
            assert(chars@.take(end as int).drop_last() == chars@.take(end - 1));
        }
        end = end - 1;
    }
    let mut out = text_between(&chars, 0, end);
    proof {
        assert(out@ == chars@.take(end as int));
    }
    out.append(".");
    out.append(if is_end {
        "999"
    } else {
        "000"
    });
    out.append("Z");
    out
}

/// A bound that has been given milliseconds is left as it is from then on.
pub proof fn law_bound_is_settled(value: Seq<char>, is_end: bool, again: bool)
    ensures
        bound_text(bound_text(value, is_end), again) == bound_text(value, is_end),
{
    let bound = bound_text(value, is_end);
    if value.len() > 0 && value.last() == 'Z' && !pattern::occurs(value, "."@) {
        reveal_strlit(".");
        assert(pattern::occurs_at(bound, "."@, without_zulu(value).len() as int)) by {
            let k = without_zulu(value).len() as int;
            assert(bound.subrange(k, k + 1) =~= "."@);
        }
    }
}

/// The windows of two days in a row, at one offset, adjoin: the next day begins one second after the
/// last second of the day before it.
pub proof fn law_days_adjoin(year: int, month: u32, day: u32, offset: int)
    requires
        calendar::is_date(year, month as int, day as int),
    ensures
        day_start(calendar::next_date(year, month as int, day as int), offset) == day_start(
            (year, month as int, day as int),
            offset,
        ) + 86400,
{
    calendar::law_next_day(year, month, day);
}

/// A moment, in seconds and milliseconds, whose year has four digits.
pub open spec fn has_plain_year(epoch: int, millis: int) -> bool {
    &&& 0 <= millis < 1000
    &&& calendar::fits(calendar::era_of(epoch / 86400))
    &&& 0 <= calendar::civil_date(epoch / 86400).0 <= 9999
}

/// The fields of a timestamp, the later ones in a group of their own.
proof fn lemma_timestamp_shape(epoch: int, millis: int)
    ensures
        timestamp(epoch, millis) == numeral::padded(calendar::civil_date(epoch / 86400).0, 4) + ("-"@
            + (numeral::padded(calendar::civil_date(epoch / 86400).1, 2) + ("-"@ + (
        numeral::padded(calendar::civil_date(epoch / 86400).2, 2) + ("T"@ + (numeral::padded(
            epoch % 86400 / 3600,
            2,
        ) + (":"@ + (numeral::padded(epoch % 86400 % 3600 / 60, 2) + (":"@ + (numeral::padded(
            epoch % 86400 % 60,
            2,
        ) + ("."@ + (numeral::padded(millis, 3) + "Z"@)))))))))))),
{
    let date = calendar::civil_date(epoch / 86400);
    let secs = epoch % 86400;
    let p0 = numeral::padded(date.0, 4);
    let p2 = numeral::padded(date.1, 2);
    let p4 = numeral::padded(date.2, 2);
    let p6 = numeral::padded(secs / 3600, 2);
    let p8 = numeral::padded((secs % 3600) / 60, 2);
    let p10 = numeral::padded(secs % 60, 2);
    let p12 = numeral::padded(millis, 3);
    let l1 = p0 + "-"@;
    let l2 = l1 + p2;
    let l3 = l2 + "-"@;
    let l4 = l3 + p4;
    let l5 = l4 + "T"@;
    let l6 = l5 + p6;
    let l7 = l6 + ":"@;
    let l8 = l7 + p8;
    let l9 = l8 + ":"@;
    let l10 = l9 + p10;
    let l11 = l10 + "."@;
    let r12 = p12 + "Z"@;
    let r11 = "."@ + r12;
    let r10 = p10 + r11;
    let r9 = ":"@ + r10;
    let r8 = p8 + r9;
    let r7 = ":"@ + r8;
    let r6 = p6 + r7;
    let r5 = "T"@ + r6;
    let r4 = p4 + r5;
    let r3 = "-"@ + r4;
    let r2 = p2 + r3;
    lemma_regroup(l11, p12, "Z"@);
    lemma_regroup(l10, "."@, r12);
    lemma_regroup(l9, p10, r11);
    lemma_regroup(l8, ":"@, r10);
    lemma_regroup(l7, p8, r9);
    lemma_regroup(l6, ":"@, r8);
    lemma_regroup(l5, p6, r7);
    lemma_regroup(l4, "T"@, r6);
    lemma_regroup(l3, p4, r5);
    lemma_regroup(l2, "-"@, r4);
    lemma_regroup(l1, p2, r3);
    lemma_regroup(p0, "-"@, r2);
}

/// Texts in a row can be grouped either way.
proof fn lemma_regroup(a: Seq<char>, b: Seq<char>, c: Seq<char>)
    ensures
        a + b + c == a + (b + c),
{
    assert(a + b + c =~= a + (b + c));
}

/// One field of two texts: fields of one width in order decide, equal fields hand on to what follows.
proof fn lemma_field(a: int, b: int, width: nat, mark: Seq<char>, x: Seq<char>, y: Seq<char>)
    requires
        2 <= width <= 4,
        0 <= a <= b,
        width == 2 ==> b < 100,
        width == 3 ==> b < 1000,
        width == 4 ==> b < 10000,
        a == b ==> text::text_lt(x, y),
    ensures
        text::text_lt(
            numeral::padded(a, width) + (mark + x),
            numeral::padded(b, width) + (mark + y),
        ),
{
    if a < b {
        numeral::lemma_small_decimal(b as nat);
        numeral::lemma_padded_order(a as nat, b as nat, width);
        text::lemma_ordered_start(
            numeral::padded(a, width),
            numeral::padded(b, width),
            mark + x,
            mark + y,
        );
    } else {
        text::lemma_common_start(mark, x, y);
        text::lemma_common_start(numeral::padded(a, width), mark + x, mark + y);
    }
}

/// Timestamps stand in dictionary order exactly as their moments stand in time, while years have four
/// digits: comparing the texts compares the times.
pub proof fn law_timestamps_keep_order(epoch: int, millis: int, later: int, later_millis: int)
    requires
        has_plain_year(epoch, millis),
        has_plain_year(later, later_millis),
        epoch < later || (epoch == later && millis < later_millis),
    ensures
        text::text_lt(timestamp(epoch, millis), timestamp(later, later_millis)),
{
    lemma_timestamp_shape(epoch, millis);
    lemma_timestamp_shape(later, later_millis);
    let d = calendar::civil_date(epoch / 86400);
    let e = calendar::civil_date(later / 86400);
    calendar::law_date_of_day_number(epoch / 86400);
    calendar::law_date_of_day_number(later / 86400);
    let s = epoch % 86400;
    let t = later % 86400;
    let z1 = numeral::padded(millis, 3) + "Z"@;
    let z2 = numeral::padded(later_millis, 3) + "Z"@;
    let c1 = numeral::padded(s % 60, 2) + ("."@ + z1);
    let c2 = numeral::padded(t % 60, 2) + ("."@ + z2);
    let m1 = numeral::padded(s % 3600 / 60, 2) + (":"@ + c1);
    let m2 = numeral::padded(t % 3600 / 60, 2) + (":"@ + c2);
    let h1 = numeral::padded(s / 3600, 2) + (":"@ + m1);
    let h2 = numeral::padded(t / 3600, 2) + (":"@ + m2);
    let d1 = numeral::padded(d.2, 2) + ("T"@ + h1);
    let d2 = numeral::padded(e.2, 2) + ("T"@ + h2);
    let o1 = numeral::padded(d.1, 2) + ("-"@ + d1);
    let o2 = numeral::padded(e.1, 2) + ("-"@ + d2);
    if epoch / 86400 == later / 86400 {
        if s == t {
            numeral::lemma_small_decimal(later_millis as nat);
            numeral::lemma_padded_order(millis as nat, later_millis as nat, 3);
            text::lemma_ordered_start(
                numeral::padded(millis, 3),
                numeral::padded(later_millis, 3),
                "Z"@,
                "Z"@,
            );
        }
        if s / 3600 == t / 3600 {
            if s % 3600 / 60 == t % 3600 / 60 {
                assert(s % 60 <= t % 60);
                lemma_field(s % 60, t % 60, 2, "."@, z1, z2);
            }
            lemma_field(s % 3600 / 60, t % 3600 / 60, 2, ":"@, c1, c2);
        }
        lemma_field(s / 3600, t / 3600, 2, ":"@, m1, m2);
    } else {
        calendar::law_dates_keep_order(epoch / 86400, later / 86400);
    }
    if d.0 == e.0 {
        if d.1 == e.1 {
            lemma_field(d.2, e.2, 2, "T"@, h1, h2);
        }
        lemma_field(d.1, e.1, 2, "-"@, d1, d2);
    }
    lemma_field(d.0, e.0, 4, "-"@, o1, o2);
}

/// What stands at an index of a timestamp: a mark between two fields, or a digit.
pub open spec fn has_form_at(i: int, c: char) -> bool {
    if i == 4 || i == 7 {
        c == '-'
    } else if i == 10 {
        c == 'T'
    } else if i == 13 || i == 16 {
        c == ':'
    } else if i == 19 {
        c == '.'
    } else if i == 23 {
        c == 'Z'
    } else {
        numeral::is_digit(c)
    }
}

/// Whether a text has the form `YYYY-MM-DDTHH:MM:SS.mmmZ`.
pub open spec fn has_timestamp_form(s: Seq<char>) -> bool {
    s.len() == 24 && forall|i: int| 0 <= i < 24 ==> has_form_at(i, #[trigger] s[i])
}

/// A field of digits with a mark behind it, at the start of a text.
proof fn lemma_field_at(n: int, width: nat, mark: Seq<char>, rest: Seq<char>)
    requires
        2 <= width <= 4,
        0 <= n,
        width == 2 ==> n < 100,
        width == 3 ==> n < 1000,
        width == 4 ==> n < 10000,
        mark.len() == 1,
    ensures
        ({
            let all = numeral::padded(n, width) + (mark + rest);
            &&& all.len() == width + 1 + rest.len()
            &&& all.take(width as int) == numeral::padded(n, width)
            &&& forall|i: int| 0 <= i < width ==> numeral::is_digit(#[trigger] all[i])
            &&& all[width as int] == mark[0]
            &&& all.skip(width as int + 1) == rest
        }),
{
    numeral::lemma_small_decimal(n as nat);
    numeral::lemma_padded_digits(n as nat, width);
    let field = numeral::padded(n, width);
    let all = field + (mark + rest);
    assert(all.take(width as int) =~= field);
    assert forall|i: int| 0 <= i < width implies numeral::is_digit(#[trigger] all[i]) by {
        assert(all[i] == field[i]);
    }
    assert(all.skip(width as int + 1) =~= rest);
}

/// A timestamp has the form `YYYY-MM-DDTHH:MM:SS.mmmZ` while years have four digits, and its fields are
/// the date and the time of its moment.
pub proof fn law_timestamps_have_one_form(epoch: int, millis: int)
    requires
        has_plain_year(epoch, millis),
    ensures
        has_timestamp_form(timestamp(epoch, millis)),
        ({
            let s = timestamp(epoch, millis);
            let date = calendar::civil_date(epoch / 86400);
            let secs = epoch % 86400;
            &&& s.subrange(0, 4) == numeral::padded(date.0, 4)
            &&& s.subrange(5, 7) == numeral::padded(date.1, 2)
            &&& s.subrange(8, 10) == numeral::padded(date.2, 2)
            &&& s.subrange(11, 13) == numeral::padded(secs / 3600, 2)
            &&& s.subrange(14, 16) == numeral::padded(secs % 3600 / 60, 2)
            &&& s.subrange(17, 19) == numeral::padded(secs % 60, 2)
            &&& s.subrange(20, 23) == numeral::padded(millis, 3)
        }),
{
    reveal_strlit("-");
    reveal_strlit("T");
    reveal_strlit(":");
    reveal_strlit(".");
    reveal_strlit("Z");
    lemma_timestamp_shape(epoch, millis);
    calendar::law_date_of_day_number(epoch / 86400);
    let s = timestamp(epoch, millis);
    let date = calendar::civil_date(epoch / 86400);
    let secs = epoch % 86400;
    let empty: Seq<char> = seq![];
    let last = numeral::padded(millis, 3) + "Z"@;
    assert(last =~= numeral::padded(millis, 3) + ("Z"@ + empty));
    let second = numeral::padded(secs % 60, 2) + ("."@ + last);
    let minute = numeral::padded(secs % 3600 / 60, 2) + (":"@ + second);
    let hour = numeral::padded(secs / 3600, 2) + (":"@ + minute);
    let day = numeral::padded(date.2, 2) + ("T"@ + hour);
    let month = numeral::padded(date.1, 2) + ("-"@ + day);
    lemma_field_at(millis, 3, "Z"@, empty);
    lemma_field_at(secs % 60, 2, "."@, last);
    lemma_field_at(secs % 3600 / 60, 2, ":"@, second);
    lemma_field_at(secs / 3600, 2, ":"@, minute);
    lemma_field_at(date.2, 2, "T"@, hour);
    lemma_field_at(date.1, 2, "-"@, day);
    lemma_field_at(date.0, 4, "-"@, month);
    assert(s.skip(5) == month);
    assert(s.skip(8) =~= month.skip(3));
    assert(s.skip(11) =~= day.skip(3));
    assert(s.skip(14) =~= hour.skip(3));
    assert(s.skip(17) =~= minute.skip(3));
    assert(s.skip(20) =~= second.skip(3));
    assert(s.subrange(0, 4) =~= s.take(4));
    assert(s.subrange(5, 7) =~= month.take(2));
    assert(s.subrange(8, 10) =~= day.take(2));
    assert(s.subrange(11, 13) =~= hour.take(2));
    assert(s.subrange(14, 16) =~= minute.take(2));
    assert(s.subrange(17, 19) =~= second.take(2));
    assert(s.subrange(20, 23) =~= last.take(3));
    assert forall|i: int| 0 <= i < 24 implies has_form_at(i, #[trigger] s[i]) by {
        if 5 <= i < 8 {
            assert(s[i] == s.skip(5)[i - 5]);
        } else if 8 <= i < 11 {
            assert(s[i] == s.skip(8)[i - 8]);
        } else if 11 <= i < 14 {
            assert(s[i] == s.skip(11)[i - 11]);
        } else if 14 <= i < 17 {
            assert(s[i] == s.skip(14)[i - 14]);
        } else if 17 <= i < 20 {
            assert(s[i] == s.skip(17)[i - 17]);
        } else if 20 <= i {
            assert(s[i] == s.skip(20)[i - 20]);
        }
    }
}

/// One more minute of offset makes every local day begin a minute earlier, and at no offset it begins at
/// midnight, UTC, of its date.
pub proof fn law_offsets_move_days(date: (int, int, int), minutes: int)
    ensures
        day_start(date, minutes + 1) == day_start(date, minutes) - 60,
        day_start(date, 0) == 86400 * calendar::civil_days(date.0, date.1 as u32, date.2 as u32),
{
}

/// Parts with a sign between them, as they are put in a row.
proof fn lemma_three_parts(a: Seq<char>, b: Seq<char>, c: Seq<char>, sep: Seq<char>)
    requires
        sep.len() == 1,
        !a.contains(sep[0]),
        !b.contains(sep[0]),
        !c.contains(sep[0]),
    ensures
        pattern::pieces(a + sep + b + sep + c, sep) == seq![a, b, c],
        pattern::pieces(a + sep + b, sep) == seq![a, b],
{
    let two = seq![a, b];
    let three = seq![a, b, c];
    reveal_with_fuel(pattern::joined, 4);
    assert(two.drop_last() =~= seq![a]);
    assert(three.drop_last() =~= two);
    assert forall|i: int| 0 <= i < three.len() implies !(#[trigger] three[i]).contains(sep[0]) by {}
    assert forall|i: int| 0 <= i < two.len() implies !(#[trigger] two[i]).contains(sep[0]) by {}
    pattern::lemma_join_then_split(three, sep);
    pattern::lemma_join_then_split(two, sep);
}

/// A natural number in decimal, with zeros before it or not, holds digits alone.
proof fn lemma_padded_is_plain(n: nat, width: nat, c: char)
    requires
        !('0' <= c <= '9'),
    ensures
        !numeral::padded(n as int, width).contains(c),
{
    numeral::lemma_decimal_digits(n);
    let s = numeral::padded(n as int, width);
    let digits = numeral::decimal(n);
    let gap: int = if digits.len() < width {
        width - digits.len()
    } else {
        0
    };
    assert(s =~= numeral::zeros(gap as nat) + digits);
    if s.contains(c) {
        let i = choose|i: int| 0 <= i < s.len() && s[i] == c;
        if i >= gap {
            assert(s[i] == digits[i - gap]);
            assert(numeral::is_digit(digits[i - gap]));
        }
    }
}

/// A day that is written as year, month and day, with dashes between them, is read as that day.
pub proof fn law_days_read_back(year: nat, month: nat, day: nat)
    requires
        year <= i32::MAX,
        month <= u32::MAX,
        day <= u32::MAX,
    ensures
        day_value(
            numeral::padded(year as int, 4) + "-"@ + numeral::padded(month as int, 2) + "-"@
                + numeral::padded(day as int, 2),
        ) == Ok::<(int, int, int), Seq<char>>((year as int, month as int, day as int)),
{
    reveal_strlit("-");
    let a = numeral::padded(year as int, 4);
    let b = numeral::padded(month as int, 2);
    let c = numeral::padded(day as int, 2);
    lemma_padded_is_plain(year, 4, '-');
    lemma_padded_is_plain(month, 2, '-');
    lemma_padded_is_plain(day, 2, '-');
    lemma_three_parts(a, b, c, "-"@);
    numeral::law_padded_reads_back(year, 4, i32::MIN as int, i32::MAX as int);
    numeral::law_padded_reads_back(month, 2, 0, u32::MAX as int);
    numeral::law_padded_reads_back(day, 2, 0, u32::MAX as int);
}

/// An offset that is written as a sign, hours and minutes is read as that many minutes, east of UTC
/// behind a plus sign and west of it behind a minus sign.
pub proof fn law_offsets_read_back(hours: nat, minutes: nat)
    requires
        hours <= i32::MAX,
        minutes <= i32::MAX,
    ensures
        ({
            let clock = numeral::padded(hours as int, 2) + ":"@ + numeral::padded(minutes as int, 2);
            &&& offset_value(seq!['+'] + clock) == Ok::<int, Seq<char>>(
                (hours * 60 + minutes) as int,
            )
            &&& offset_value(seq!['-'] + clock) == Ok::<int, Seq<char>>(-(hours * 60 + minutes))
        }),
{
    reveal_strlit(":");
    let a = numeral::padded(hours as int, 2);
    let b = numeral::padded(minutes as int, 2);
    lemma_padded_is_plain(hours, 2, ':');
    lemma_padded_is_plain(minutes, 2, ':');
    lemma_three_parts(a, b, b, ":"@);
    numeral::law_padded_reads_back(hours, 2, i32::MIN as int, i32::MAX as int);
    numeral::law_padded_reads_back(minutes, 2, i32::MIN as int, i32::MAX as int);
    let clock = a + ":"@ + b;
    assert((seq!['+'] + clock).skip(1) =~= clock);
    assert((seq!['-'] + clock).skip(1) =~= clock);
}

/// The window of a local day: from the first millisecond of the day at the offset to the last, one day
/// later less one millisecond. An offset of so many hours and minutes moves the midnight of the date, in
/// UTC, back by them behind a plus sign, and on by them behind a minus sign.
pub proof fn law_window_of_a_local_day(
    year: nat,
    month: nat,
    day: nat,
    hours: nat,
    minutes: nat,
    east: bool,
)
    requires
        year <= i32::MAX,
        month <= u32::MAX,
        day <= u32::MAX,
        hours <= i32::MAX,
        minutes <= i32::MAX,
    ensures
        ({
            let date = numeral::padded(year as int, 4) + "-"@ + numeral::padded(month as int, 2)
                + "-"@ + numeral::padded(day as int, 2);
            let sign = if east {
                '+'
            } else {
                '-'
            };
            let offset = seq![sign] + (numeral::padded(hours as int, 2) + ":"@ + numeral::padded(
                minutes as int,
                2,
            ));
            let midnight = 86400 * calendar::civil_days(year as int, month as u32, day as u32);
            let moved = hours * 3600 + minutes * 60;
            let first = if east {
                midnight - moved
            } else {
                midnight + moved
            };
            day_window(date, offset) == Ok::<(Seq<char>, Seq<char>), Seq<char>>(
                (timestamp(first, 0), timestamp(first + 86399, 999)),
            )
        }),
{
    law_days_read_back(year, month, day);
    law_offsets_read_back(hours, minutes);
    let date = numeral::padded(year as int, 4) + "-"@ + numeral::padded(month as int, 2) + "-"@
        + numeral::padded(day as int, 2);
    let clock = numeral::padded(hours as int, 2) + ":"@ + numeral::padded(minutes as int, 2);
    let total = (hours * 60 + minutes) as int;
    let number = calendar::civil_days(year as int, month as u32, day as u32);
    if east {
        lemma_day_window(
            date,
            seq!['+'] + clock,
            (year as int, month as int, day as int),
            total,
            number,
        );
    } else {
        lemma_day_window(
            date,
            seq!['-'] + clock,
            (year as int, month as int, day as int),
            -total,
            number,
        );
    }
}

/// The window of a day and an offset that were read.
proof fn lemma_day_window(
    day: Seq<char>,
    offset: Seq<char>,
    date: (int, int, int),
    minutes: int,
    number: int,
)
    requires
        day_value(day) == Ok::<(int, int, int), Seq<char>>(date),
        offset_value(offset) == Ok::<int, Seq<char>>(minutes),
        number == calendar::civil_days(date.0, date.1 as u32, date.2 as u32),
    ensures
        day_window(day, offset) == Ok::<(Seq<char>, Seq<char>), Seq<char>>(
            (
                timestamp(86400 * number - 60 * minutes, 0),
                timestamp(86400 * number - 60 * minutes + 86399, 999),
            ),
        ),
{
    assert(day_start(date, minutes) == 86400 * number - 60 * minutes);
}

/// What a timestamp says: its fields, read as numbers, are a date and a time of day, and they are those
/// of its moment.
pub proof fn law_timestamps_name_their_moment(epoch: int, millis: int) -> (r: (
    int,
    int,
    int,
    int,
    int,
    int,
))
    requires
        has_plain_year(epoch, millis),
    ensures
        ({
            let s = timestamp(epoch, millis);
            let read = |from: int, to: int|
                numeral::int_value(s.subrange(from, to), 0, i32::MAX as int);
            &&& read(0, 4) == Ok::<int, numeral::IntFault>(r.0)
            &&& read(5, 7) == Ok::<int, numeral::IntFault>(r.1)
            &&& read(8, 10) == Ok::<int, numeral::IntFault>(r.2)
            &&& read(11, 13) == Ok::<int, numeral::IntFault>(r.3)
            &&& read(14, 16) == Ok::<int, numeral::IntFault>(r.4)
            &&& read(17, 19) == Ok::<int, numeral::IntFault>(r.5)
            &&& read(20, 23) == Ok::<int, numeral::IntFault>(millis)
            &&& calendar::is_date(r.0, r.1, r.2)
            &&& 0 <= r.3 < 24 && 0 <= r.4 < 60 && 0 <= r.5 < 60
            &&& epoch == 86400 * calendar::civil_days(r.0, r.1 as u32, r.2 as u32) + 3600 * r.3 + 60
                * r.4 + r.5
        }),
{
    law_timestamps_have_one_form(epoch, millis);
    calendar::law_date_of_day_number(epoch / 86400);
    let date = calendar::civil_date(epoch / 86400);
    let secs = epoch % 86400;
    let high = i32::MAX as int;
    numeral::law_padded_reads_back(date.0 as nat, 4, 0, high);
    numeral::law_padded_reads_back(date.1 as nat, 2, 0, high);
    numeral::law_padded_reads_back(date.2 as nat, 2, 0, high);
    numeral::law_padded_reads_back((secs / 3600) as nat, 2, 0, high);
    numeral::law_padded_reads_back((secs % 3600 / 60) as nat, 2, 0, high);
    numeral::law_padded_reads_back((secs % 60) as nat, 2, 0, high);
    numeral::law_padded_reads_back(millis as nat, 3, 0, high);
    lemma_clock(epoch);
    (date.0, date.1, date.2, secs / 3600, secs % 3600 / 60, secs % 60)
}

/// A moment is the midnight before it, and the hours, minutes and seconds since.
proof fn lemma_clock(epoch: int)
    ensures
        ({
            let secs = epoch % 86400;
            &&& epoch == 86400 * (epoch / 86400) + 3600 * (secs / 3600) + 60 * (secs % 3600 / 60)
                + secs % 60
            &&& 0 <= secs / 3600 < 24
            &&& 0 <= secs % 3600 / 60 < 60
            &&& 0 <= secs % 60 < 60
        }),
{
}

/// A bound that ends in one `Z` and has no fraction gets the first millisecond of its second where it is
/// a start, and the last where it is an end; one that has a fraction, or does not end in `Z`, is left as
/// it is.
pub proof fn law_bounds_get_milliseconds(value: Seq<char>)
    ensures
        !value.contains('.') && (value.len() == 0 || value.last() != 'Z') ==> {
            &&& bound_text(value + "Z"@, false) == value + ".000Z"@
            &&& bound_text(value + "Z"@, true) == value + ".999Z"@
        },
        value.contains('.') || value.len() == 0 || value.last() != 'Z' ==> {
            &&& bound_text(value, false) == value
            &&& bound_text(value, true) == value
        },
{
    reveal_strlit(".");
    reveal_strlit("Z");
    reveal_strlit("000");
    reveal_strlit("999");
    reveal_strlit(".000Z");
    reveal_strlit(".999Z");
    let whole = value + "Z"@;
    pattern::lemma_occurs_char(value, "."@);
    pattern::lemma_occurs_char(whole, "."@);
    if !value.contains('.') {
        if whole.contains('.') {
            let i = choose|i: int| 0 <= i < whole.len() && whole[i] == '.';
            assert(value[i] == '.');
        }
        assert(whole.drop_last() =~= value);
        if value.len() == 0 || value.last() != 'Z' {
            reveal_with_fuel(without_zulu, 3);
            assert(without_zulu(whole) == value);
            assert(value + "."@ + "000"@ + "Z"@ =~= value + ".000Z"@);
            assert(value + "."@ + "999"@ + "Z"@ =~= value + ".999Z"@);
        }
    }
}

/// What a day and an offset are made of: a day of three whole numbers with dashes between them, and no
/// more; an offset of a sign and two whole numbers with a colon between them.
pub proof fn law_days_and_offsets_have_their_parts(day: Seq<char>, offset: Seq<char>)
    requires
        offset.len() > 0,
    ensures
        day_value(day) matches Ok(date) ==> {
            let parts = pattern::pieces(day, "-"@);
            &&& parts.len() == 3
            &&& numeral::int_value(parts[0], i32::MIN as int, i32::MAX as int) == Ok::<
                int,
                numeral::IntFault,
            >(date.0)
            &&& numeral::int_value(parts[1], 0, u32::MAX as int) == Ok::<int, numeral::IntFault>(
                date.1,
            )
            &&& numeral::int_value(parts[2], 0, u32::MAX as int) == Ok::<int, numeral::IntFault>(
                date.2,
            )
        },
        offset_value(offset) is Ok ==> {
            let parts = pattern::pieces(offset.skip(1), ":"@);
            &&& offset[0] == '+' || offset[0] == '-'
            &&& parts.len() >= 2
            &&& numeral::int_value(parts[0], i32::MIN as int, i32::MAX as int) is Ok
            &&& numeral::int_value(parts[1], i32::MIN as int, i32::MAX as int) is Ok
        },
        offset[0] != '+' && offset[0] != '-' ==> offset_value(offset) == Err::<int, Seq<char>>(
            "invalid --tz-offset"@,
        ),
{
    reveal_strlit("-");
    pattern::law_pieces_make_the_text(day, "-"@);
}

/// A day or an offset that cannot be read gives no window, but the message that says so, first that of
/// the day.
pub proof fn law_windows_need_a_day_and_an_offset(day: Seq<char>, offset: Seq<char>)
    ensures
        day_window(day, offset) is Ok <==> day_value(day) is Ok && offset_value(offset) is Ok,
        day_value(day) matches Err(e) ==> day_window(day, offset) == Err::<
            (Seq<char>, Seq<char>),
            Seq<char>,
        >(e),
        day_value(day) is Ok ==> (offset_value(offset) matches Err(e) ==> day_window(day, offset)
            == Err::<(Seq<char>, Seq<char>), Seq<char>>(e)),
{
}

/// However many letters `Z` a bound ends in, one is left of them behind the milliseconds.
pub proof fn law_bounds_end_in_one_zulu(value: Seq<char>, count: nat)
    requires
        !value.contains('.'),
        value.len() == 0 || value.last() != 'Z',
        count > 0,
    ensures
        ({
            let whole = value + Seq::new(count, |i: int| 'Z');
            &&& bound_text(whole, false) == value + ".000Z"@
            &&& bound_text(whole, true) == value + ".999Z"@
        }),
{
    let whole = value + Seq::new(count, |i: int| 'Z');
    lemma_zulus(value, count);
    reveal_strlit(".");
    reveal_strlit("Z");
    reveal_strlit("000");
    reveal_strlit("999");
    reveal_strlit(".000Z");
    reveal_strlit(".999Z");
    pattern::lemma_occurs_char(whole, "."@);
    if whole.contains('.') {
        let i = choose|i: int| 0 <= i < whole.len() && whole[i] == '.';
        assert(value[i] == '.');
    }
    assert(value + "."@ + "000"@ + "Z"@ =~= value + ".000Z"@);
    assert(value + "."@ + "999"@ + "Z"@ =~= value + ".999Z"@);
}

/// All letters `Z` at the end go.
proof fn lemma_zulus(value: Seq<char>, count: nat)
    requires
        value.len() == 0 || value.last() != 'Z',
    ensures
        without_zulu(value + Seq::new(count, |i: int| 'Z')) == value,
    decreases count,
{
    let whole = value + Seq::new(count, |i: int| 'Z');
    if count == 0 {
        assert(whole =~= value);
    } else {
        let less = (count - 1) as nat;
        assert(whole.drop_last() =~= value + Seq::new(less, |i: int| 'Z'));
        lemma_zulus(value, less);
    }
}

} // verus!
