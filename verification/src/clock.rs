//! The jittered clock: the evaluation time handed to the dispatcher.
//!
//! The server never evaluates requests at its exact local time: a random
//! offset of up to a minute is subtracted, so responses do not expose the
//! clock.  Tests and callers that need determinism pass their own time to
//! `handle_request` directly.
use vstd::prelude::*;
use chrono::Utc;
use crate::server::{handle_request, spec_response};
use crate::table::MessageTable;

verus! {

/// Relies on chrono's `Utc::now` / `DateTime::timestamp`: seconds since
/// 1970-01-01T00:00:00 of the current time.  Nothing can be promised of
/// the clock's value.
#[verifier::external_body]
fn now_epoch_seconds() -> (r: i64) {
    Utc::now().timestamp()
}

/// Relies on rand's `random_range`: a uniform draw below one minute of
/// milliseconds.
#[verifier::external_body]
fn jitter_millis() -> (r: u64)
    ensures
        r < 60000,
{
    rand::random_range(0u64..60000)
}

/// Handles one request at the current jittered clock: the evaluation time
/// is the local time minus a random offset below one minute.
pub fn handle_request_now(line: &str, table: &mut MessageTable, min_pow: u64) -> (r: String)
    requires
        old(table).wf(),
    ensures
        final(table).wf(),
        final(table).max_size == old(table).max_size,
        exists|now: int|
            r@ == #[trigger] spec_response(
                line@,
                old(table)@,
                old(table).max_size as int,
                min_pow as int,
                now,
            ).0 && final(table)@ == spec_response(
                line@,
                old(table)@,
                old(table).max_size as int,
                min_pow as int,
                now,
            ).1,
{
    let clock = now_epoch_seconds();
    let j: i64 = (jitter_millis() / 1000) as i64;
    let now: i64 = if clock >= i64::MIN + 60 {
        clock - j
    } else {
        clock
    };
    let r = handle_request(line, table, min_pow, now);
    proof {
        assert(r@ == spec_response(
            line@,
            old(table)@,
            old(table).max_size as int,
            min_pow as int,
            now as int,
        ).0);
    }
    r
}

} // verus!
