//! Rendering instants: a civil date-time as `YYYY-MM-DD HH:MM:SS +0000`,
//! an epoch-millisecond count as a decimal string, and the
//! timestamp formatter with its seconds/milliseconds heuristic.

use vstd::prelude::*;
use vstd::string::StringExecFns;

use chrono::{Datelike, TimeZone, Timelike, Utc};

use crate::civil::{
    epoch_millis_of_civil, epoch_seconds_of_civil, lemma_epoch_seconds_in_range,
    lemma_epoch_seconds_injective, valid_civil, CivilDateTime, MAX_EPOCH_SECONDS,
    MILLIS_THRESHOLD, MIN_EPOCH_SECONDS,
};
use crate::error::ConvError;

verus! {

/// The ASCII digit character for `d`.
pub open spec fn digit_char(d: int) -> char {
    if d == 0 {
        '0'
    } else if d == 1 {
        '1'
    } else if d == 2 {
        '2'
    } else if d == 3 {
        '3'
    } else if d == 4 {
        '4'
    } else if d == 5 {
        '5'
    } else if d == 6 {
        '6'
    } else if d == 7 {
        '7'
    } else if d == 8 {
        '8'
    } else {
        '9'
    }
}

/// `n` as two digits, zero-padded.
pub open spec fn two_digits(n: int) -> Seq<char> {
    seq![digit_char(n / 10), digit_char(n % 10)]
}

/// `n` as four digits, zero-padded.
pub open spec fn four_digits(n: int) -> Seq<char> {
    seq![
        digit_char(n / 1000),
        digit_char(n / 100 % 10),
        digit_char(n / 10 % 10),
        digit_char(n % 10),
    ]
}

/// The display form of a civil date-time: `YYYY-MM-DD HH:MM:SS +0000`.
pub open spec fn render_civil_spec(c: CivilDateTime) -> Seq<char> {
    four_digits(c.year as int) + "-"@ + two_digits(c.month as int) + "-"@ + two_digits(
        c.day as int,
    ) + " "@ + two_digits(c.hour as int) + ":"@ + two_digits(c.minute as int) + ":"@ + two_digits(
        c.second as int,
    ) + " +0000"@
}

/// `n` as decimal digits, without sign and without padding.
pub open spec fn dec_digits(n: int) -> Seq<char>
    decreases n,
{
    if n < 10 {
        seq![digit_char(n)]
    } else {
        dec_digits(n / 10) + seq![digit_char(n % 10)]
    }
}

/// A signed integer in its usual decimal form.
pub open spec fn dec_i64(n: int) -> Seq<char> {
    if n < 0 {
        "-"@ + dec_digits(-n)
    } else {
        dec_digits(n)
    }
}

/// The one-character string for digit `d`.
fn digit_str(d: u32) -> (r: &'static str)
    requires
        d < 10,
    ensures
        r@ == seq![digit_char(d as int)],
{
    proof {
        reveal_strlit("0");
        reveal_strlit("1");
        reveal_strlit("2");
        reveal_strlit("3");
        reveal_strlit("4");
        reveal_strlit("5");
        reveal_strlit("6");
        reveal_strlit("7");
        reveal_strlit("8");
        reveal_strlit("9");
        assert("0"@ =~= seq!['0']);
        assert("1"@ =~= seq!['1']);
        assert("2"@ =~= seq!['2']);
        assert("3"@ =~= seq!['3']);
        assert("4"@ =~= seq!['4']);
        assert("5"@ =~= seq!['5']);
        assert("6"@ =~= seq!['6']);
        assert("7"@ =~= seq!['7']);
        assert("8"@ =~= seq!['8']);
        assert("9"@ =~= seq!['9']);
    }
    if d == 0 {
        "0"
    } else if d == 1 {
        "1"
    } else if d == 2 {
        "2"
    } else if d == 3 {
        "3"
    } else if d == 4 {
        "4"
    } else if d == 5 {
        "5"
    } else if d == 6 {
        "6"
    } else if d == 7 {
        "7"
    } else if d == 8 {
        "8"
    } else {
        "9"
    }
}

/// Appends `n` as two zero-padded digits.
fn push_two_digits(out: &mut String, n: u32)
    requires
        n < 100,
    ensures
        final(out)@ == old(out)@ + two_digits(n as int),
{
    out.append(digit_str(n / 10));
    out.append(digit_str(n % 10));
    assert(out@ =~= old(out)@ + two_digits(n as int));
}

/// Appends `n` as four zero-padded digits.
fn push_four_digits(out: &mut String, n: u32)
    requires
        n < 10000,
    ensures
        final(out)@ == old(out)@ + four_digits(n as int),
{
    out.append(digit_str(n / 1000));
    out.append(digit_str(n / 100 % 10));
    out.append(digit_str(n / 10 % 10));
    out.append(digit_str(n % 10));
    assert(out@ =~= old(out)@ + four_digits(n as int));
}

/// Renders a civil date-time as `YYYY-MM-DD HH:MM:SS +0000`.
pub fn render_civil(c: &CivilDateTime) -> (r: String)
    requires
        valid_civil(*c),
    ensures
        r@ == render_civil_spec(*c),
{
    let mut out = String::new();
    push_four_digits(&mut out, c.year);
    out.append("-");
    push_two_digits(&mut out, c.month);
    out.append("-");
    push_two_digits(&mut out, c.day);
    out.append(" ");
    push_two_digits(&mut out, c.hour);
    out.append(":");
    push_two_digits(&mut out, c.minute);
    out.append(":");
    push_two_digits(&mut out, c.second);
    out.append(" +0000");
    assert(out@ =~= render_civil_spec(*c));
    out
}

/// Appends the decimal digits of `n`.
fn push_dec_u64(out: &mut String, n: u64)
    ensures
        final(out)@ == old(out)@ + dec_digits(n as int),
    decreases n,
{
    if n >= 10 {
        push_dec_u64(out, n / 10);
        out.append(digit_str((n % 10) as u32));
        assert(out@ =~= old(out)@ + dec_digits(n as int));
    } else {
        out.append(digit_str(n as u32));
    }
}

/// Renders a signed integer in decimal.
pub fn render_i64(n: i64) -> (r: String)
    ensures
        r@ == dec_i64(n as int),
{
    let mut out = String::new();
    if n < 0 {
        out.append("-");
        let mag: u64 = if n == i64::MIN {
            9223372036854775808
        } else {
            (-n) as u64
        };
        push_dec_u64(&mut out, mag);
        assert(out@ =~= dec_i64(n as int));
    } else {
        push_dec_u64(&mut out, n as u64);
        assert(out@ =~= dec_i64(n as int));
    }
    out
}

/// Relies on chrono: `TimeZone::timestamp_opt` on `Utc` builds the UTC
/// date-time counting `secs` non-leap seconds since the epoch (a
/// single result for every in-range second count), and the `Datelike`
/// and `Timelike` accessors `year`, `month`, `day`, `hour`, `minute`
/// and `second` read its calendar fields back.
#[verifier::external_body]
fn civil_of_epoch_seconds(secs: i64) -> (c: CivilDateTime)
    requires
        MIN_EPOCH_SECONDS <= secs <= MAX_EPOCH_SECONDS,
    ensures
        valid_civil(c),
        epoch_seconds_of_civil(c) == secs,
{
    let dt = Utc.timestamp_opt(secs, 0).unwrap();
    CivilDateTime {
        year: dt.year() as u32,
        month: dt.month(),
        day: dt.day(),
        hour: dt.hour(),
        minute: dt.minute(),
        second: dt.second(),
    }
}

/// How an integer argument is read: above the threshold it counts
/// milliseconds (truncated to whole seconds), otherwise seconds.
pub open spec fn seconds_interpretation(n: int) -> int {
    if n > MILLIS_THRESHOLD as int {
        n / 1000
    } else {
        n
    }
}

/// Epoch seconds with a supported civil form.
pub open spec fn in_supported_range(s: int) -> bool {
    MIN_EPOCH_SECONDS as int <= s <= MAX_EPOCH_SECONDS as int
}

/// The civil date-time counting `s` epoch seconds; by
/// `lemma_epoch_seconds_injective` there is at most one.
pub open spec fn civil_of_seconds(s: int) -> CivilDateTime {
    choose|c: CivilDateTime| valid_civil(c) && epoch_seconds_of_civil(c) == s
}

/// Formats a timestamp as its UTC date-time, reading it as
/// milliseconds when it exceeds the epoch seconds of
/// 2099-12-31 00:00:00 UTC and as seconds otherwise.
pub fn format_timestamp(n: i64) -> (r: Result<String, ConvError>)
    ensures
        r is Ok <==> in_supported_range(seconds_interpretation(n as int)),
        r matches Ok(out) ==> ({
            let c = civil_of_seconds(seconds_interpretation(n as int));
            valid_civil(c) && epoch_seconds_of_civil(c) == seconds_interpretation(n as int)
                && out@ == render_civil_spec(c)
        }),
        r matches Err(e) ==> e == ConvError::OutOfRangeTimestamp,
{
    let secs: i64 = if n > MILLIS_THRESHOLD {
        ((n as u64) / 1000) as i64
    } else {
        n
    };
    if secs < MIN_EPOCH_SECONDS || secs > MAX_EPOCH_SECONDS {
        return Err(ConvError::OutOfRangeTimestamp);
    }
    let c = civil_of_epoch_seconds(secs);
    let out = render_civil(&c);
    proof {
        assert(valid_civil(c) && epoch_seconds_of_civil(c) == seconds_interpretation(n as int)
            && out@ == render_civil_spec(c));
        let cc = civil_of_seconds(seconds_interpretation(n as int));
        assert(valid_civil(cc) && epoch_seconds_of_civil(cc) == seconds_interpretation(n as int));
        lemma_epoch_seconds_injective(cc, c);
    }
    Ok(out)
}

/// Round trip: a civil date-time, taken as epoch milliseconds and
/// formatted back, is recovered exactly.  The hypothesis keeps the
/// milliseconds above the threshold, so that the formatter reads them
/// as milliseconds; instants in the first weeks of 1970 and before it
/// have small millisecond counts that the heuristic reads as seconds
/// instead.
pub proof fn lemma_format_round_trip(c: CivilDateTime)
    requires
        valid_civil(c),
        epoch_millis_of_civil(c) > MILLIS_THRESHOLD as int,
    ensures
        in_supported_range(seconds_interpretation(epoch_millis_of_civil(c))),
        civil_of_seconds(seconds_interpretation(epoch_millis_of_civil(c))) == c,
{
    let secs = epoch_seconds_of_civil(c);
    vstd::arithmetic::div_mod::lemma_div_multiples_vanish(secs, 1000);
    assert(seconds_interpretation(epoch_millis_of_civil(c)) == secs);
    lemma_epoch_seconds_in_range(c);
    let cc = civil_of_seconds(secs);
    assert(valid_civil(cc) && epoch_seconds_of_civil(cc) == secs);
    lemma_epoch_seconds_injective(cc, c);
}

} // verus!
