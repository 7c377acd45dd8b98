//! The per-argument pipeline: classify a token as integer timestamp
//! or date expression, and produce the line to print for it.

use vstd::prelude::*;

use crate::civil::{epoch_millis_of_civil, epoch_seconds_of_civil, valid_civil};
use crate::error::ConvError;
use crate::parse::{abs_date_spec, abs_datetime_spec, parse_date_expr, rel_parts, unit_millis};
use crate::render::{
    civil_of_seconds, dec_i64, format_timestamp, in_supported_range, render_civil_spec,
    render_i64, seconds_interpretation,
};
use crate::text::{parse_i64, spec_parse_i64, trim_spec};

verus! {

/// Converts one argument, against the supplied current time (epoch
/// milliseconds).  A token that parses as an integer is formatted as a
/// UTC date-time; any other token is parsed as a date expression and
/// yields its epoch milliseconds in decimal.
pub fn convert_arg(s: &str, now_millis: i64) -> (r: Result<String, ConvError>)
    ensures
        spec_parse_i64(s@) matches Some(n) ==> ({
            &&& (r is Ok <==> in_supported_range(seconds_interpretation(n)))
            &&& (r matches Ok(out) ==> ({
                let c = civil_of_seconds(seconds_interpretation(n));
                valid_civil(c) && epoch_seconds_of_civil(c) == seconds_interpretation(n) && out@
                    == render_civil_spec(c)
            }))
            &&& (r matches Err(e) ==> e == ConvError::OutOfRangeTimestamp)
        }),
        spec_parse_i64(s@) is None && rel_parts(s@) is Some ==> ({
            let p = rel_parts(s@).unwrap();
            let off = p.0 * unit_millis(p.1);
            if off <= i64::MAX && i64::MIN <= now_millis - off {
                r matches Ok(out) && out@ == dec_i64(now_millis - off)
            } else {
                r == Err::<String, ConvError>(ConvError::OutOfRangeTimestamp)
            }
        }),
        spec_parse_i64(s@) is None && rel_parts(s@) is None && abs_datetime_spec(
            trim_spec(s@),
        ) is Some ==> (r matches Ok(out) && out@ == dec_i64(
            epoch_millis_of_civil(abs_datetime_spec(trim_spec(s@)).unwrap()),
        )),
        spec_parse_i64(s@) is None && rel_parts(s@) is None && abs_datetime_spec(trim_spec(s@))
            is None && abs_date_spec(trim_spec(s@)) is Some ==> (r matches Ok(out) && out@
            == dec_i64(epoch_millis_of_civil(abs_date_spec(trim_spec(s@)).unwrap()))),
        spec_parse_i64(s@) is None && rel_parts(s@) is None && abs_datetime_spec(trim_spec(s@))
            is None && abs_date_spec(trim_spec(s@)) is None ==> r == Err::<String, ConvError>(
            ConvError::UnparseableDate,
        ),
{
    match parse_i64(s) {
        Some(n) => format_timestamp(n),
        None => match parse_date_expr(s, now_millis) {
            Ok(ms) => Ok(render_i64(ms)),
            Err(e) => Err(e),
        },
    }
}

} // verus!
