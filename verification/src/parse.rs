//! Parsing date expressions: relative offsets such as `-7d`, and the
//! absolute formats `%Y-%m-%d %H:%M:%S` and `%Y-%m-%d`.
//!
//! An argument is trimmed of surrounding whitespace before either
//! step looks at it.  The absolute grammars follow strftime-style
//! parsing: whitespace may precede each numeric field, a year without
//! a sign takes one to four digits (with a sign, any number of
//! digits), the other fields take one or two digits, the `-` and `:`
//! separators are literal, and the whole (trimmed) input must be
//! consumed.  Parsed fields are then validated as a calendar date.

use vstd::prelude::*;

use crate::civil::{days_in_month, epoch_millis_of_civil, valid_civil, CivilDateTime};
use crate::error::ConvError;
use crate::text::{
    chars_of, digit_run_end, digit_run_exec, digits_val, digits_value_capped,
    lemma_digit_run_digits, lemma_digits_val_at_most_four, lemma_digits_val_nonneg,
    parse_i64_range, skip_ws, skip_ws_exec, spec_parse_i64, trim_bounds, trim_spec,
    trimmed_chars,
};

verus! {

/// An unsigned numeric field: optional leading whitespace, then one to
/// `width` digits, read greedily.  Yields the value and the index just
/// past the digits.
pub open spec fn num_field(s: Seq<char>, i: int, width: int) -> Option<(int, int)> {
    let j = skip_ws(s, i);
    let e = digit_run_end(s, j, width);
    if e > j {
        Some((digits_val(s.subrange(j, e)), e))
    } else {
        None
    }
}

/// The year field: optional leading whitespace, then either a `+` or
/// `-` sign with one or more digits, or one to four digits.
pub open spec fn year_field(s: Seq<char>, i: int) -> Option<(int, int)> {
    let j = skip_ws(s, i);
    if j < s.len() && (s[j] == '+' || s[j] == '-') {
        let e = digit_run_end(s, j + 1, s.len() as int);
        if e > j + 1 {
            let v = digits_val(s.subrange(j + 1, e));
            Some(((if s[j] == '-' { -v } else { v }), e))
        } else {
            None
        }
    } else {
        let e = digit_run_end(s, j, 4);
        if e > j {
            Some((digits_val(s.subrange(j, e)), e))
        } else {
            None
        }
    }
}

/// Builds a civil date-time from parsed fields, if they denote a real
/// date with a four-digit year and an in-range time of day.
pub open spec fn civil_from_fields(y: int, mo: int, d: int, h: int, mi: int, sec: int) -> Option<
    CivilDateTime,
> {
    if 0 <= y <= 9999 && 1 <= mo <= 12 && 1 <= d <= days_in_month(y, mo) && 0 <= h <= 23 && 0 <= mi
        <= 59 && 0 <= sec <= 59 {
        Some(
            CivilDateTime {
                year: y as u32,
                month: mo as u32,
                day: d as u32,
                hour: h as u32,
                minute: mi as u32,
                second: sec as u32,
            },
        )
    } else {
        None
    }
}

/// What `%Y-%m-%d %H:%M:%S` accepts, and the civil date-time it means.
pub open spec fn abs_datetime_spec(s: Seq<char>) -> Option<CivilDateTime> {
    match year_field(s, 0) {
        None => None,
        Some(yp) => if yp.1 < s.len() && s[yp.1] == '-' {
            match num_field(s, yp.1 + 1, 2) {
                None => None,
                Some(mop) => if mop.1 < s.len() && s[mop.1] == '-' {
                    match num_field(s, mop.1 + 1, 2) {
                        None => None,
                        Some(dp) => match num_field(s, dp.1, 2) {
                            None => None,
                            Some(hp) => if hp.1 < s.len() && s[hp.1] == ':' {
                                match num_field(s, hp.1 + 1, 2) {
                                    None => None,
                                    Some(mip) => if mip.1 < s.len() && s[mip.1] == ':' {
                                        match num_field(s, mip.1 + 1, 2) {
                                            None => None,
                                            Some(sp) => if sp.1 == s.len() {
                                                civil_from_fields(
                                                    yp.0,
                                                    mop.0,
                                                    dp.0,
                                                    hp.0,
                                                    mip.0,
                                                    sp.0,
                                                )
                                            } else {
                                                None
                                            },
                                        }
                                    } else {
                                        None
                                    },
                                }
                            } else {
                                None
                            },
                        },
                    }
                } else {
                    None
                },
            }
        } else {
            None
        },
    }
}

/// What `%Y-%m-%d` accepts: the same date fields, meaning midnight UTC.
pub open spec fn abs_date_spec(s: Seq<char>) -> Option<CivilDateTime> {
    match year_field(s, 0) {
        None => None,
        Some(yp) => if yp.1 < s.len() && s[yp.1] == '-' {
            match num_field(s, yp.1 + 1, 2) {
                None => None,
                Some(mop) => if mop.1 < s.len() && s[mop.1] == '-' {
                    match num_field(s, mop.1 + 1, 2) {
                        None => None,
                        Some(dp) => if dp.1 == s.len() {
                            civil_from_fields(yp.0, mop.0, dp.0, 0, 0, 0)
                        } else {
                            None
                        },
                    }
                } else {
                    None
                },
            }
        } else {
            None
        },
    }
}

/// Computes `num_field`.  The value is at most 9999 since the field
/// takes at most four digits.
fn num_field_exec(v: &Vec<char>, i: usize, width: usize) -> (r: Option<(u32, usize)>)
    requires
        i <= v.len(),
        1 <= width <= 4,
    ensures
        match r {
            Some(p) => num_field(v@, i as int, width as int) == Some((p.0 as int, p.1 as int))
                && p.0 <= 9999 && i <= p.1 <= v.len(),
            None => num_field(v@, i as int, width as int) is None,
        },
{
    let j = skip_ws_exec(v, i);
    let e = digit_run_exec(v, j, width);
    proof {
        lemma_digit_run_digits(v@, j as int, width as int);
    }
    if e == j {
        return None;
    }
    proof {
        lemma_digits_val_at_most_four(v@.subrange(j as int, e as int));
    }
    match digits_value_capped(v, j, e, 9999) {
        Some(x) => Some((x as u32, e)),
        None => {
            // unreachable: at most four digits are worth at most 9999
            proof {
                assert(false);
            }
            None
        },
    }
}

/// Computes `year_field`.  The first component is the year when it
/// lies in 0..=9999, and `None` when the parsed year is out of that
/// range (the position is still advanced as the grammar demands).
fn year_field_exec(v: &Vec<char>) -> (r: Option<(Option<u32>, usize)>)
    ensures
        r is None <==> year_field(v@, 0) is None,
        r matches Some(p) ==> year_field(v@, 0) matches Some(yp) && p.1 == yp.1 && p.1 <= v.len()
            && (p.0 is Some <==> 0 <= yp.0 <= 9999) && (p.0 matches Some(x) ==> x == yp.0),
{
    let n: usize = v.len();
    let j = skip_ws_exec(v, 0);
    if j < n && (v[j] == '+' || v[j] == '-') {
        let neg = v[j] == '-';
        let e = digit_run_exec(v, j + 1, n);
        proof {
            lemma_digit_run_digits(v@, j as int + 1, n as int);
        }
        if e == j + 1 {
            return None;
        }
        proof {
            lemma_digits_val_nonneg(v@.subrange(j as int + 1, e as int));
        }
        match digits_value_capped(v, j + 1, e, 9999) {
            Some(mag) => {
                if neg {
                    if mag == 0 {
                        Some((Some(0), e))
                    } else {
                        Some((None, e))
                    }
                } else {
                    Some((Some(mag as u32), e))
                }
            },
            None => Some((None, e)),
        }
    } else {
        let e = digit_run_exec(v, j, 4);
        proof {
            lemma_digit_run_digits(v@, j as int, 4);
        }
        if e == j {
            return None;
        }
        proof {
            lemma_digits_val_at_most_four(v@.subrange(j as int, e as int));
            lemma_digits_val_nonneg(v@.subrange(j as int, e as int));
        }
        match digits_value_capped(v, j, e, 9999) {
            Some(mag) => Some((Some(mag as u32), e)),
            None => {
                // unreachable: at most four digits are worth at most 9999
                proof {
                    assert(false);
                }
                None
            },
        }
    }
}

/// Computes `days_in_month`.
pub fn days_in_month_exec(y: u32, m: u32) -> (r: u32)
    requires
        1 <= m <= 12,
    ensures
        r == days_in_month(y as int, m as int),
{
    if m == 2 {
        if y % 4 == 0 && (y % 100 != 0 || y % 400 == 0) {
            29
        } else {
            28
        }
    } else if m == 4 || m == 6 || m == 9 || m == 11 {
        30
    } else {
        31
    }
}

/// Validates parsed fields and builds the civil date-time, as
/// `civil_from_fields` does.
fn civil_from_fields_exec(y: u32, mo: u32, d: u32, h: u32, mi: u32, sec: u32) -> (r: Option<
    CivilDateTime,
>)
    requires
        y <= 9999,
    ensures
        r == civil_from_fields(y as int, mo as int, d as int, h as int, mi as int, sec as int),
        r matches Some(c) ==> valid_civil(c),
{
    if 1 <= mo && mo <= 12 && 1 <= d && d <= days_in_month_exec(y, mo) && h <= 23 && mi <= 59
        && sec <= 59 {
        Some(CivilDateTime { year: y, month: mo, day: d, hour: h, minute: mi, second: sec })
    } else {
        None
    }
}

/// Parses the absolute date-time format `%Y-%m-%d %H:%M:%S`, after
/// trimming surrounding whitespace from the argument.
pub fn parse_abs_datetime(s: &str) -> (r: Option<CivilDateTime>)
    ensures
        r == abs_datetime_spec(trim_spec(s@)),
        r matches Some(c) ==> valid_civil(c),
{
    let v = trimmed_chars(s);
    let n: usize = v.len();
    let yp = match year_field_exec(&v) {
        None => {
            return None;
        },
        Some(p) => p,
    };
    if !(yp.1 < n && v[yp.1] == '-') {
        return None;
    }
    let mop = match num_field_exec(&v, yp.1 + 1, 2) {
        None => {
            return None;
        },
        Some(p) => p,
    };
    if !(mop.1 < n && v[mop.1] == '-') {
        return None;
    }
    let dp = match num_field_exec(&v, mop.1 + 1, 2) {
        None => {
            return None;
        },
        Some(p) => p,
    };
    let hp = match num_field_exec(&v, dp.1, 2) {
        None => {
            return None;
        },
        Some(p) => p,
    };
    if !(hp.1 < n && v[hp.1] == ':') {
        return None;
    }
    let mip = match num_field_exec(&v, hp.1 + 1, 2) {
        None => {
            return None;
        },
        Some(p) => p,
    };
    if !(mip.1 < n && v[mip.1] == ':') {
        return None;
    }
    let sp = match num_field_exec(&v, mip.1 + 1, 2) {
        None => {
            return None;
        },
        Some(p) => p,
    };
    if sp.1 != n {
        return None;
    }
    match yp.0 {
        None => None,
        Some(y) => civil_from_fields_exec(y, mop.0, dp.0, hp.0, mip.0, sp.0),
    }
}

/// Parses the absolute date format `%Y-%m-%d` (midnight UTC), after
/// trimming surrounding whitespace from the argument.
pub fn parse_abs_date(s: &str) -> (r: Option<CivilDateTime>)
    ensures
        r == abs_date_spec(trim_spec(s@)),
        r matches Some(c) ==> valid_civil(c),
{
    let v = trimmed_chars(s);
    let n: usize = v.len();
    let yp = match year_field_exec(&v) {
        None => {
            return None;
        },
        Some(p) => p,
    };
    if !(yp.1 < n && v[yp.1] == '-') {
        return None;
    }
    let mop = match num_field_exec(&v, yp.1 + 1, 2) {
        None => {
            return None;
        },
        Some(p) => p,
    };
    if !(mop.1 < n && v[mop.1] == '-') {
        return None;
    }
    let dp = match num_field_exec(&v, mop.1 + 1, 2) {
        None => {
            return None;
        },
        Some(p) => p,
    };
    if dp.1 != n {
        return None;
    }
    match yp.0 {
        None => None,
        Some(y) => civil_from_fields_exec(y, mop.0, dp.0, 0, 0, 0),
    }
}

/// Milliseconds in one unit: `d`, `h`, `m` or `s`.
pub open spec fn unit_millis(u: char) -> int {
    if u == 'd' {
        86400000
    } else if u == 'h' {
        3600000
    } else if u == 'm' {
        60000
    } else {
        1000
    }
}

/// What a relative offset expression means: trimmed of surrounding
/// whitespace, a single leading `-`, a non-negative integer magnitude,
/// and a final unit letter among `d`, `h`, `m`, `s`.
pub open spec fn rel_parts(s: Seq<char>) -> Option<(int, char)> {
    let t = trim_spec(s);
    if t.len() >= 2 && t[0] == '-' {
        let u = t.last();
        if u == 'd' || u == 'h' || u == 'm' || u == 's' {
            match spec_parse_i64(t.subrange(1, t.len() - 1)) {
                Some(n) => if n >= 0 {
                    Some((n, u))
                } else {
                    None
                },
                None => None,
            }
        } else {
            None
        }
    } else {
        None
    }
}

/// Relative parsing tolerates surrounding whitespace: an expression
/// and its trimmed form parse to the same magnitude and unit (or both
/// fail).
pub proof fn lemma_relative_parse_ignores_surrounding_whitespace(s: Seq<char>)
    ensures
        rel_parts(s) == rel_parts(trim_spec(s)),
{
    crate::text::lemma_trim_idempotent(s);
}

/// Splits a relative offset expression into magnitude and unit.
pub fn parse_relative_parts(s: &str) -> (r: Option<(i64, char)>)
    ensures
        match r {
            Some(p) => rel_parts(s@) == Some((p.0 as int, p.1)) && p.0 >= 0,
            None => rel_parts(s@) is None,
        },
{
    let v = chars_of(s);
    let (a, b) = trim_bounds(&v);
    let ghost t = trim_spec(s@);
    if b - a < 2 {
        return None;
    }
    if v[a] != '-' {
        return None;
    }
    let u = v[b - 1];
    if !(u == 'd' || u == 'h' || u == 'm' || u == 's') {
        return None;
    }
    proof {
        assert(v@.subrange(a as int + 1, b as int - 1) =~= t.subrange(1, t.len() - 1));
    }
    match parse_i64_range(&v, a + 1, b - 1) {
        None => None,
        Some(n) => {
            if n >= 0 {
                Some((n, u))
            } else {
                None
            }
        },
    }
}

/// Parses a relative offset expression against the supplied current
/// time (epoch milliseconds).  Yields `now_millis` minus the offset;
/// `None` when the expression does not match the relative grammar, or
/// when the offset leaves the range of sixty-four-bit milliseconds.
pub fn parse_relative_time(s: &str, now_millis: i64) -> (r: Option<i64>)
    ensures
        rel_parts(s@) is None ==> r is None,
        rel_parts(s@) matches Some(p) ==> ({
            let off = p.0 * unit_millis(p.1);
            if off <= i64::MAX && i64::MIN <= now_millis - off {
                r == Some((now_millis - off) as i64)
            } else {
                r is None
            }
        }),
{
    let p = match parse_relative_parts(s) {
        None => {
            return None;
        },
        Some(p) => p,
    };
    let unit: i64 = if p.1 == 'd' {
        86400000
    } else if p.1 == 'h' {
        3600000
    } else if p.1 == 'm' {
        60000
    } else {
        1000
    };
    let off = match p.0.checked_mul(unit) {
        None => {
            return None;
        },
        Some(o) => o,
    };
    match now_millis.checked_sub(off) {
        None => None,
        Some(x) => Some(x),
    }
}

/// Epoch milliseconds of a civil date-time.
pub fn epoch_millis_exec(c: &CivilDateTime) -> (r: i64)
    requires
        valid_civil(*c),
    ensures
        r == epoch_millis_of_civil(*c),
{
    let days = crate::civil::days_from_civil_exec(c.year, c.month, c.day);
    let secs: i64 = days * 86400 + (c.hour as i64) * 3600 + (c.minute as i64) * 60 + (
    c.second as i64);
    secs * 1000
}

/// Parses a date expression: first as a relative offset against
/// `now_millis`, then as `%Y-%m-%d %H:%M:%S`, then as `%Y-%m-%d`
/// (midnight UTC).  Yields the epoch milliseconds of the instant it
/// denotes.
pub fn parse_date_expr(s: &str, now_millis: i64) -> (r: Result<i64, ConvError>)
    ensures
        rel_parts(s@) matches Some(p) ==> ({
            let off = p.0 * unit_millis(p.1);
            if off <= i64::MAX && i64::MIN <= now_millis - off {
                r == Ok::<i64, ConvError>((now_millis - off) as i64)
            } else {
                r == Err::<i64, ConvError>(ConvError::OutOfRangeTimestamp)
            }
        }),
        rel_parts(s@) is None && abs_datetime_spec(trim_spec(s@)) is Some ==> (r matches Ok(x)
            && x == epoch_millis_of_civil(abs_datetime_spec(trim_spec(s@)).unwrap())),
        rel_parts(s@) is None && abs_datetime_spec(trim_spec(s@)) is None && abs_date_spec(
            trim_spec(s@),
        ) is Some ==> (r matches Ok(x) && x == epoch_millis_of_civil(
            abs_date_spec(trim_spec(s@)).unwrap(),
        )),
        rel_parts(s@) is None && abs_datetime_spec(trim_spec(s@)) is None && abs_date_spec(
            trim_spec(s@),
        ) is None ==> r
            == Err::<i64, ConvError>(ConvError::UnparseableDate),
{
    match parse_relative_parts(s) {
        Some(p) => {
            let unit: i64 = if p.1 == 'd' {
                86400000
            } else if p.1 == 'h' {
                3600000
            } else if p.1 == 'm' {
                60000
            } else {
                1000
            };
            let off = match p.0.checked_mul(unit) {
                None => {
                    return Err(ConvError::OutOfRangeTimestamp);
                },
                Some(o) => o,
            };
            match now_millis.checked_sub(off) {
                None => Err(ConvError::OutOfRangeTimestamp),
                Some(x) => Ok(x),
            }
        },
        None => {
            if let Some(c) = parse_abs_datetime(s) {
                return Ok(epoch_millis_exec(&c));
            }
            if let Some(c) = parse_abs_date(s) {
                return Ok(epoch_millis_exec(&c));
            }
            Err(ConvError::UnparseableDate)
        },
    }
}

} // verus!
