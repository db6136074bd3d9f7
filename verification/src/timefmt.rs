//! File times as the table shows them: local date and time to the minute.

use vstd::prelude::*;

verus! {

/// The strftime pattern of the table's time column.
pub open spec fn minute_pattern() -> Seq<char> {
    "%Y-%m-%d %H:%M"@
}

/// `s` has the shape `DDDD-DD-DD DD:DD`, every `D` an ASCII digit.
pub open spec fn is_minute_text(s: Seq<char>) -> bool {
    &&& s.len() == 16
    &&& s[4] == '-' && s[7] == '-' && s[10] == ' ' && s[13] == ':'
    &&& forall|i: int|
        0 <= i < 16 && i != 4 && i != 7 && i != 10 && i != 13 ==> '0' <= #[trigger] s[i] <= '9'
}

pub open spec fn nanos_per_sec() -> int {
    1_000_000_000
}

/// A file time (nanoseconds from the Unix epoch) within 8·10^12 seconds, or
/// about 250,000 years, of the epoch: every time a `SystemTime` holds, and
/// inside the dates chrono can write (262144 BCE to 262142 CE).
pub open spec fn in_time_range(t: i128) -> bool {
    -8_000_000_000_000 * nanos_per_sec() <= t <= 8_000_000_000_000 * nanos_per_sec()
}

/// Whole seconds from the epoch (rounded down) and the nanoseconds past them.
pub open spec fn secs_of(t: i128) -> int {
    (t as int) / nanos_per_sec()
}

pub open spec fn subsec_of(t: i128) -> int {
    (t as int) % nanos_per_sec()
}

/// Seconds from the epoch that fall, even shifted by up to a day, between
/// the years 1 and 9999, whose `%Y` is four digits.
pub open spec fn four_digit_year(secs: i64) -> bool {
    -62_135_596_800 + 86_400 <= secs <= 253_402_300_799 - 86_400
}

/// What chrono writes for the instant `secs` seconds and `nsec` nanoseconds
/// after the Unix epoch, shifted by the fixed UTC offset `offset` (seconds
/// east), with the strftime `pattern`.
pub uninterp spec fn offset_text(secs: i64, nsec: u32, offset: i32, pattern: Seq<char>) -> Seq<
    char,
>;

/// chrono's offset of the machine's local time zone at an instant
/// (`DateTime::<Utc>::from_timestamp`, then `with_timezone(&Local)` and
/// `offset().local_minus_utc()`), in seconds east of UTC. It depends on the
/// time-zone settings, so only its range is stated: chrono's `FixedOffset`
/// keeps it strictly within one day. The instant is within chrono's range.
#[verifier::external_body]
fn local_offset_at(secs: i64, nsec: u32) -> (off: i32)
    requires
        -8_000_000_000_000 <= secs <= 8_000_000_000_000,
        nsec < 1_000_000_000,
    ensures
        -86_400 < off < 86_400,
{
    match chrono::DateTime::<chrono::Utc>::from_timestamp(secs, nsec) {
        Some(t) => t.with_timezone(&chrono::Local).offset().local_minus_utc(),
        None => 0,
    }
}

/// chrono's text of an instant at a fixed offset (`FixedOffset::east_opt`,
/// `DateTime::<Utc>::from_timestamp`, `with_timezone`, `format`). With the
/// table's pattern and a year between 1 and 9999 the text is
/// `YYYY-MM-DD HH:MM`: chrono documents `%Y` as the year zero-padded to four
/// digits and `%m`, `%d`, `%H`, `%M` as zero-padded two-digit numbers. Both
/// the instant and the offset are within chrono's ranges.
#[verifier::external_body]
fn format_at_offset(secs: i64, nsec: u32, offset: i32, pattern: &str) -> (s: String)
    requires
        -8_000_000_000_000 <= secs <= 8_000_000_000_000,
        nsec < 1_000_000_000,
        -86_400 < offset < 86_400,
        pattern@ == minute_pattern(),
    ensures
        s@ == offset_text(secs, nsec, offset, pattern@),
        four_digit_year(secs) ==> is_minute_text(s@),
{
    match (
        chrono::FixedOffset::east_opt(offset),
        chrono::DateTime::<chrono::Utc>::from_timestamp(secs, nsec),
    ) {
        (Some(off), Some(t)) => t.with_timezone(&off).format(pattern).to_string(),
        _ => String::new(),
    }
}

/// Splits a time into whole seconds from the epoch (rounded down) and the
/// nanoseconds past them.
fn split_time(t: i128) -> (r: (i64, u32))
    requires
        in_time_range(t),
    ensures
        r.0 as int == secs_of(t),
        r.1 as int == subsec_of(t),
        -8_000_000_000_000 <= r.0 <= 8_000_000_000_000,
        r.1 < 1_000_000_000,
{
    if t >= 0 {
        let m = t as u128;
        let q = m / 1_000_000_000;
        let r = m % 1_000_000_000;
        proof {
            vstd::arithmetic::div_mod::lemma_fundamental_div_mod(m as int, nanos_per_sec());
            vstd::arithmetic::div_mod::lemma_fundamental_div_mod_converse(
                t as int,
                nanos_per_sec(),
                q as int,
                r as int,
            );
        }
        (q as i64, r as u32)
    } else {
        let m = (-t) as u128;
        let q = m / 1_000_000_000;
        let r = m % 1_000_000_000;
        proof {
            vstd::arithmetic::div_mod::lemma_fundamental_div_mod(m as int, nanos_per_sec());
        }
        if r == 0 {
            proof {
                vstd::arithmetic::div_mod::lemma_fundamental_div_mod_converse(
                    t as int,
                    nanos_per_sec(),
                    -(q as int),
                    0,
                );
            }
            (-(q as i64), 0)
        } else {
            proof {
                vstd::arithmetic::div_mod::lemma_fundamental_div_mod_converse(
                    t as int,
                    nanos_per_sec(),
                    -(q as int) - 1,
                    nanos_per_sec() - r,
                );
            }
            (-(q as i64) - 1, (1_000_000_000 - r) as u32)
        }
    }
}

/// The text shown for an unknown time.
pub open spec fn unknown_time_text() -> Seq<char> {
    seq!['\u{2014}']
}

fn dash() -> (s: String)
    ensures
        s@ == unknown_time_text(),
{
    let mut s = String::new();
    crate::text::push_char(&mut s, '\u{2014}');
    s
}

/// A file time (nanoseconds from the Unix epoch) as `YYYY-MM-DD HH:MM` at the
/// UTC offset `offset` (seconds east), or a dash when it is unknown.
pub fn format_time_at(time: Option<i128>, offset: i32) -> (s: String)
    requires
        -86_400 < offset < 86_400,
        time matches Some(t) ==> in_time_range(t),
    ensures
        match time {
            None => s@ == unknown_time_text(),
            Some(t) => s@ == offset_text(secs_of(t) as i64, subsec_of(t) as u32, offset, minute_pattern())
                && (four_digit_year(secs_of(t) as i64) ==> is_minute_text(s@)),
        },
{
    match time {
        Some(t) => {
            let (secs, nsec) = split_time(t);
            format_at_offset(secs, nsec, offset, "%Y-%m-%d %H:%M")
        },
        None => dash(),
    }
}

/// A file time (nanoseconds from the Unix epoch) as local `YYYY-MM-DD HH:MM`,
/// at the offset the machine's time zone has at that instant, or a dash when
/// it is unknown.
pub fn format_time(time: Option<i128>) -> (s: String)
    requires
        time matches Some(t) ==> in_time_range(t),
    ensures
        match time {
            None => s@ == unknown_time_text(),
            Some(t) => (four_digit_year(secs_of(t) as i64) ==> is_minute_text(s@)) && exists|off: i32|
                -86_400 < off < 86_400 && s@ == #[trigger] offset_text(
                    secs_of(t) as i64,
                    subsec_of(t) as u32,
                    off,
                    minute_pattern(),
                ),
        },
{
    match time {
        Some(t) => {
            let (secs, nsec) = split_time(t);
            let off = local_offset_at(secs, nsec);
            format_time_at(Some(t), off)
        },
        None => dash(),
    }
}

} // verus!
