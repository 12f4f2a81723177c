//! Ordering checks between a newly decoded identifier and the previously
//! accepted one.

use vstd::prelude::*;

use crate::codec::{IdView, Identifier};
use crate::order::{lex_gt, lex_lt};

verus! {

/// Result of checking one record against the last accepted baseline.
/// `MalformedToken` is produced by the decoding step, never by `validate`.
#[derive(Clone, Copy, PartialEq, Eq, Structural, Debug)]
pub enum ValidationOutcome {
    Accepted,
    MalformedToken,
    StringOrderViolation,
    IntegerOrderViolation,
    ClockRegression,
    CounterHiViolation,
    CounterLoViolation,
}

/// The outcome the ordering rules assign, first failing check first:
/// text order, integer order, clock regression, then the counter tiers
/// within an unchanged timestamp.
pub open spec fn spec_validate(prev: IdView, curr: IdView) -> ValidationOutcome {
    if !lex_lt(prev.str_bytes, curr.str_bytes) {
        ValidationOutcome::StringOrderViolation
    } else if curr.int_value <= prev.int_value {
        ValidationOutcome::IntegerOrderViolation
    } else if curr.timestamp < prev.timestamp {
        ValidationOutcome::ClockRegression
    } else if curr.timestamp == prev.timestamp && curr.counter_hi < prev.counter_hi {
        ValidationOutcome::CounterHiViolation
    } else if curr.timestamp == prev.timestamp && curr.counter_hi == prev.counter_hi
        && curr.counter_lo <= prev.counter_lo {
        ValidationOutcome::CounterLoViolation
    } else {
        ValidationOutcome::Accepted
    }
}

/// Acceptance implies strict progress at every granularity the checks
/// compare.
pub proof fn lemma_accepted_is_strict_progress(prev: IdView, curr: IdView)
    requires
        spec_validate(prev, curr) is Accepted,
    ensures
        lex_lt(prev.str_bytes, curr.str_bytes),
        prev.int_value < curr.int_value,
        prev.timestamp <= curr.timestamp,
        curr.timestamp == prev.timestamp ==> prev.counter_hi <= curr.counter_hi,
        curr.timestamp == prev.timestamp && curr.counter_hi == prev.counter_hi
            ==> prev.counter_lo < curr.counter_lo,
{
}

/// Classifies `curr` against the previously accepted `prev`.
pub fn validate(prev: &Identifier, curr: &Identifier) -> (r: ValidationOutcome)
    requires
        prev@.str_bytes.len() == curr@.str_bytes.len(),
    ensures
        r == spec_validate(prev@, curr@),
        r !is MalformedToken,
{
    if !lex_gt(&curr.str_bytes, &prev.str_bytes) {
        ValidationOutcome::StringOrderViolation
    } else if curr.int_value <= prev.int_value {
        ValidationOutcome::IntegerOrderViolation
    } else if curr.timestamp < prev.timestamp {
        ValidationOutcome::ClockRegression
    } else if curr.timestamp == prev.timestamp && curr.counter_hi < prev.counter_hi {
        ValidationOutcome::CounterHiViolation
    } else if curr.timestamp == prev.timestamp && curr.counter_hi == prev.counter_hi
        && curr.counter_lo <= prev.counter_lo {
        ValidationOutcome::CounterLoViolation
    } else {
        ValidationOutcome::Accepted
    }
}

} // verus!
