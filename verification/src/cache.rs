//! The update-check cache holds one value: the Unix-epoch second of the
//! last check, written as an ASCII decimal number, nothing else. Reading
//! tolerates surrounding whitespace and reports absence — never an error —
//! for anything that does not parse; elapsed time saturates at zero when
//! the stored timestamp lies in the future.

use vstd::prelude::*;
use crate::text;

verus! {

/// What stored cache contents yield: the timestamp, if the contents are a
/// decimal number once trimmed.
pub open spec fn last_check_of(contents: Seq<char>) -> Option<u64> {
    text::parse_decimal_spec(text::trim_ws(contents))
}

/// Reads cache-file contents; anything that is not a decimal number gives
/// `None`, indistinguishable from a missing cache.
pub fn parse_last_check(contents: &str) -> (r: Option<u64>)
    ensures
        r == last_check_of(contents@),
{
    text::parse_decimal(text::trim_str(contents))
}

/// Seconds elapsed since the stored timestamp, saturating at zero when the
/// clock has gone backwards.
pub fn time_since_check(now_secs: u64, stored_secs: u64) -> (r: u64)
    ensures
        r == if stored_secs <= now_secs {
            now_secs - stored_secs
        } else {
            0
        },
{
    if stored_secs <= now_secs {
        now_secs - stored_secs
    } else {
        0
    }
}

/// The contents to store for a check at `now_secs`: its decimal digits.
pub fn render_last_check(now_secs: u64) -> (r: String)
    ensures
        r@ == text::dec_digits(now_secs as int),
{
    text::render_decimal(now_secs)
}

/// What the cache writes, the cache reads back: rendering a timestamp and
/// parsing it again yields the same timestamp.
pub proof fn lemma_cache_round_trip(t: u64)
    ensures
        last_check_of(text::dec_digits(t as int)) == Some(t),
{
    text::lemma_dec_digits(t as int);
    let d = text::dec_digits(t as int);
    assert(!text::is_space(d.last()));
    assert(text::trim_end_ws(d) == d);
    assert(!text::is_space(d.first()));
    assert(text::trim_start_ws(d) == d);
    assert(text::trim_ws(d) == d);
}

} // verus!
