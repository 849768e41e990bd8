use vstd::prelude::*;

use crate::time;

verus! {

/// What `parse_to_datetime` yields: the string as given, or — when
/// that fails — the string with a midnight time appended.
pub open spec fn parse_result(s: Seq<char>, fmt: Seq<char>) -> Option<i64> {
    if parsed_datetime(s, fmt) is Some {
        parsed_datetime(s, fmt)
    } else {
        parsed_datetime(s + " 00:00"@, fmt)
    }
}

/// The timestamp chrono reads from a string under a format, if any:
/// a function of the two strings alone.
pub uninterp spec fn parsed_datetime(s: Seq<char>, fmt: Seq<char>) -> Option<i64>;

/// Relies on chrono::NaiveDateTime::parse_from_str: deterministic in
/// the string and the format, and any datetime it can represent lies
/// within `TS_LIMIT` seconds of the epoch.
#[verifier::external_body]
fn parse_datetime_str(s: &str, fmt: &str) -> (r: Option<i64>)
    ensures
        r == parsed_datetime(s@, fmt@),
        r is Some ==> time::ts_in_range(r->0 as int),
{
    match chrono::NaiveDateTime::parse_from_str(s, fmt) {
        Ok(dt) => Option::Some(dt.and_utc().timestamp()),
        Err(_) => Option::None,
    }
}

/// Reads a datetime from user input under the configured format; a
/// bare date is retried with a midnight time appended.
pub fn parse_to_datetime(s: &str, fmt: &str) -> (r: Option<i64>)
    ensures
        r == parse_result(s@, fmt@),
        r is Some ==> time::ts_in_range(r->0 as int),
{
    match parse_datetime_str(s, fmt) {
        Option::Some(t) => Option::Some(t),
        Option::None => {
            let mut padded = s.to_owned();
            padded.append(" 00:00");
            parse_datetime_str(padded.as_str(), fmt)
        },
    }
}

/// Reads a tag argument: it must begin with a plus sign, which is
/// stripped.
pub fn convert_tags(v: &str) -> (r: Result<String, String>)
    ensures
        match r {
            Result::Ok(tag) => v@.len() >= 1 && v@[0] == '+' && tag@ == v@.subrange(
                1,
                v@.len() as int,
            ),
            Result::Err(m) => (v@.len() == 0 || v@[0] != '+') && m@ == "Fail"@,
        },
{
    let n = v.unicode_len();
    if n == 0 {
        return Result::Err("Fail".to_owned());
    }
    if v.get_char(0) != '+' {
        return Result::Err("Fail".to_owned());
    }
    Result::Ok(v.substring_char(1, n).to_owned())
}

} // verus!
