//! The record of search metadata that accompanies the trajectory data for
//! the plotter: the start instant in ISO 8601 text and the four day bounds of
//! the search in decimal, then the C3 limit (a floating-point value, which
//! the caller renders).
use vstd::prelude::*;

verus! {

/// The character of a decimal digit 0..=9.
pub open spec fn digit_char(d: int) -> char {
    (48 + d) as char
}

/// The decimal digits of a natural number, most significant first, without
/// leading zeros ("0" for zero).
pub open spec fn decimal_digits(n: nat) -> Seq<char>
    decreases n,
{
    if n < 10 {
        seq![digit_char(n as int)]
    } else {
        decimal_digits(n / 10).push(digit_char((n % 10) as int))
    }
}

/// An integer in decimal: a '-' before the digits of a negative number.
pub open spec fn decimal_text(x: int) -> Seq<char> {
    if x < 0 {
        seq!['-'] + decimal_digits((-x) as nat)
    } else {
        decimal_digits(x as nat)
    }
}

/// The ISO 8601 text ("YYYY-MM-DDTHH:MM:SS.ffffffZ", UTC) that the
/// ephemeris library gives for the instant with the given raw TAI
/// microsecond count.
pub uninterp spec fn iso8601_text(raw: i64) -> Seq<char>;

/// Calls `satkit::Instant::as_iso8601` on the instant with raw count `raw`
/// (`satkit::Instant::new`). Claimed of it: the text depends on the count
/// alone; its content is only named.
#[verifier::external_body]
fn instant_iso8601(raw: i64) -> (res: String)
    ensures
        res@ == iso8601_text(raw),
{
    satkit::Instant::new(raw).as_iso8601()
}

/// Calls `ToString::to_string` on an `i32`. Claimed of it, as std's
/// `Display` for integers documents: the decimal digits, with a leading '-'
/// for a negative number and no leading zeros.
#[verifier::external_body]
fn i32_decimal(x: i32) -> (res: String)
    ensures
        res@ == decimal_text(x as int),
{
    x.to_string()
}

/// The metadata record of a search: the start epoch as ISO 8601 text, the
/// first and last departure day, the shortest and longest time of flight in
/// days, each in decimal, and the C3 limit as the caller rendered it.
pub fn metadata_record(start_epoch: i64, bounds: (i32, i32, i32, i32), max_c3_text: String) -> (res: Vec<String>)
    ensures
        res@.len() == 6,
        res@[0]@ == iso8601_text(start_epoch),
        res@[1]@ == decimal_text(bounds.0 as int),
        res@[2]@ == decimal_text(bounds.1 as int),
        res@[3]@ == decimal_text(bounds.2 as int),
        res@[4]@ == decimal_text(bounds.3 as int),
        res@[5]@ == max_c3_text@,
{
    let (dep_start, dep_end, tof_min, tof_max) = bounds;
    let mut record: Vec<String> = Vec::new();
    record.push(instant_iso8601(start_epoch));
    record.push(i32_decimal(dep_start));
    record.push(i32_decimal(dep_end));
    record.push(i32_decimal(tof_min));
    record.push(i32_decimal(tof_max));
    record.push(max_c3_text);
    record
}

} // verus!
