//! What the dashboard reads out of query strings and stored documents.

use crate::binary64::Binary64;
use crate::json;
use crate::text;
use serde_json::Value;
use vstd::prelude::*;

verus! {

/// The number that an optional text stands for.
pub open spec fn natural_of(s: Option<String>) -> Option<u64> {
    match s {
        Some(v) => text::parsed_natural(v@),
        None => None,
    }
}

/// The number that an optional text stands for, if it is one.
pub fn parse_u64_opt(s: Option<String>) -> (n: Option<u64>)
    ensures
        n == natural_of(s),
{
    match s {
        Some(v) => text::parse_natural(v.as_str()),
        None => None,
    }
}

/// The seconds since the epoch in a stored time.
pub open spec fn unix_secs(tree: json::JsonTree) -> Option<u64> {
    match tree.field("secs_since_epoch"@) {
        Some(secs) => secs.natural(),
        None => None,
    }
}

/// The seconds since the epoch in a stored time, if it has them.
pub fn unix_secs_from_systemtime_value(v: &Value) -> (secs: Option<u64>)
    ensures
        secs == unix_secs(json::json_tree(*v)),
{
    match json::field(v, "secs_since_epoch") {
        Some(secs) => secs.as_u64(),
        None => None,
    }
}

/// How the standard deviation of a sample comes about.
#[derive(Clone, Copy, Debug, PartialEq, Eq, Structural)]
pub enum Spread {
    /// It is zero, for want of a second reading.
    Zero,
    /// It is the square root of `m2` over `divisor`.
    RootOf { m2: Binary64, divisor: u64 },
}

/// How the standard deviation of stored statistics comes about: nothing where the count is
/// missing, or where it takes a sum of squares and that is missing.
pub open spec fn spread_of(tree: json::JsonTree) -> Option<Spread> {
    match tree.field("count"@) {
        None => None,
        Some(count) => match count.natural() {
            None => None,
            Some(n) => if n <= 1 {
                Some(Spread::Zero)
            } else {
                match tree.field("m2"@) {
                    None => None,
                    Some(m2) => match m2.double() {
                        None => None,
                        Some(bits) => Some(
                            Spread::RootOf { m2: Binary64 { bits }, divisor: (n - 1) as u64 },
                        ),
                    },
                }
            },
        },
    }
}

/// How the standard deviation of stored statistics comes about.
pub fn stddev_from_stats(stats: &Value) -> (spread: Option<Spread>)
    ensures
        spread == spread_of(json::json_tree(*stats)),
{
    let count: u64 = json::field(stats, "count")?.as_u64()?;
    if count <= 1 {
        return Some(Spread::Zero);
    }
    let bits: u64 = json::double_bits(json::field(stats, "m2")?)?;
    Some(Spread::RootOf { m2: Binary64::from_bits(bits), divisor: count - 1 })
}

/// The standard deviation of fewer than two readings is zero; that of more is the root of their
/// sum of squares over one less than their count; without a count, or without the sum of squares
/// where it takes one, there is none.
pub proof fn law_the_spread_follows_count_and_squares(stats: &Value, spread: Option<Spread>)
    requires
        call_ensures(stddev_from_stats, (stats,), spread),
    ensures
        ({
            let tree = json::json_tree(*stats);
            let count = match tree.field("count"@) {
                Some(n) => n.natural(),
                None => None,
            };
            let squares = match tree.field("m2"@) {
                Some(m2) => m2.double(),
                None => None,
            };
            &&& count is None ==> spread is None
            &&& count == Some(0u64) || count == Some(1u64) ==> spread == Some(Spread::Zero)
            &&& count matches Some(n) ==> n >= 2 ==> match squares {
                None => spread is None,
                Some(bits) => match spread {
                    Some(Spread::RootOf { m2, divisor }) => m2.bits == bits && divisor + 1 == n,
                    _ => false,
                },
            }
        }),
{
}

/// The seconds of a stored time are what it has under their name, where that is a natural number.
pub proof fn law_seconds_are_read_from_a_stored_time(v: &Value, secs: Option<u64>)
    requires
        call_ensures(unix_secs_from_systemtime_value, (v,), secs),
    ensures
        match json::json_tree(*v).field("secs_since_epoch"@) {
            Some(n) => secs == n.natural(),
            None => secs is None,
        },
{
}

/// A missing text is no number, and a text is the number that is parsed from it.
pub proof fn law_a_missing_text_is_no_number(
    s: Option<String>,
    text: &str,
    n: Option<u64>,
    parsed: Option<u64>,
)
    requires
        call_ensures(parse_u64_opt, (s,), n),
        call_ensures(text::parse_natural, (text,), parsed),
    ensures
        s is None ==> n is None,
        s is Some && s->Some_0@ == text@ ==> n == parsed,
{
}

} // verus!
