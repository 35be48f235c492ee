//! The batch manager: decides which batch a new attempt belongs to, and
//! closes a batch that has gone stale or is cut short by a fresh start.

use vstd::prelude::*;
use crate::error::{EngineError, Fault, StoreFault};
use crate::model::{latest_in, next_id, open_batch, row_of, BatchData, StoreModel};
use crate::rows::Batch;
use crate::store::Store;
use crate::timestamp::{add_hours, elapsed, hours_after, seconds_since, Timestamp, TimestampModel};

verus! {

/// The hours without an attempt after which an open batch is stale.
pub const IDLE_HOURS: u32 = 2;

/// The same limit in seconds.
pub const IDLE_SECONDS: i128 = 7200;

/// Where an attempt has been placed: the batch's id and number, and whether
/// the previous batch was closed to make room for it.
pub type Placement = (int, int, bool);

/// A new open batch of the given number started at `now`.
pub open spec fn started(
    s: StoreModel,
    problem_id: int,
    number: int,
    is_fresh_start: bool,
    now: TimestampModel,
    closed: bool,
) -> (StoreModel, Result<Placement, Fault>) {
    let data = BatchData {
        problem_id,
        batch_number: number,
        started_at: now.text,
        ended_at: None,
        is_fresh_start,
    };
    if number > i32::MAX {
        (s, Err(Fault::Persistence(StoreFault::CounterOverflow)))
    } else {
        match next_id(s.last_batch_id) {
            None => (s, Err(Fault::Persistence(StoreFault::IdsExhausted))),
            Some(id) => match s.batch_fault(id, data) {
                Some(fault) => (s, Err(Fault::Persistence(fault))),
                None => (s.put_batch(id, data), Ok((id, number, closed))),
            },
        }
    }
}

/// The open batch closed at `ended_at` and its successor started.
pub open spec fn succeeded(
    s: StoreModel,
    batch_id: int,
    ended_at: Seq<char>,
    is_fresh_start: bool,
    now: TimestampModel,
) -> (StoreModel, Result<Placement, Fault>) {
    let batch = row_of(s.batches, batch_id);
    started(
        s.close_batch(batch_id, ended_at),
        batch.problem_id,
        batch.batch_number + 1,
        is_fresh_start,
        now,
        true,
    )
}

/// Whether an attempt at `now` must start a new batch, given the time of
/// the open batch's last attempt: on a fresh start always, otherwise where
/// more than the idle limit has passed since that attempt. `None` where
/// the time is needed and cannot be read.
pub open spec fn starts_new_batch(
    is_fresh_start: bool,
    last_time: Option<Seq<char>>,
    now: TimestampModel,
) -> Option<bool> {
    if is_fresh_start {
        Some(true)
    } else {
        match last_time {
            None => Some(false),
            Some(text) => match elapsed(text, now) {
                None => None,
                Some(span) => Some(span > IDLE_SECONDS),
            },
        }
    }
}

/// Decides whether an attempt at `now` must start a new batch.
pub fn should_start_new_batch(is_fresh_start: bool, last_time: &Option<String>, now: &Timestamp)
    -> (r: Result<bool, EngineError>)
    ensures
        match r {
            Ok(decision) => starts_new_batch(
                is_fresh_start,
                crate::rows::text_view(*last_time),
                now@,
            ) == Some(decision),
            Err(e) => starts_new_batch(is_fresh_start, crate::rows::text_view(*last_time), now@)
                is None && e is TimeFormat,
        },
{
    if is_fresh_start {
        return Ok(true);
    }
    match last_time {
        None => Ok(false),
        Some(text) => match seconds_since(text.as_str(), now) {
            Ok(span) => Ok(span > IDLE_SECONDS),
            Err(e) => Err(e),
        },
    }
}

/// What the batch manager does to the store and returns.
///
/// Without an open batch, batch number 1 is started. With one, the attempt
/// joins it unless a new batch is called for; then the open batch is closed
/// two hours after its last attempt (at its own start where it has none)
/// and the batch of the next number is started. What cannot be read as a
/// time, or written as one, ends the step before anything is changed.
pub open spec fn placed(s: StoreModel, problem_id: int, is_fresh_start: bool, now: TimestampModel)
    -> (StoreModel, Result<Placement, Fault>) {
    match open_batch(s.batches, problem_id) {
        None => started(s, problem_id, 1, is_fresh_start, now, false),
        Some(batch_id) => {
            let batch = row_of(s.batches, batch_id);
            let last_time = match latest_in(s.attempts, batch_id) {
                Some(attempt) => Some(attempt.row.timestamp),
                None => None,
            };
            match starts_new_batch(is_fresh_start, last_time, now) {
                None => (s, Err(Fault::TimeFormat)),
                Some(false) => (s, Ok((batch_id, batch.batch_number, false))),
                Some(true) => match last_time {
                    None => succeeded(s, batch_id, batch.started_at, is_fresh_start, now),
                    Some(text) => match hours_after(text, IDLE_HOURS as nat) {
                        None => (s, Err(Fault::TimeFormat)),
                        Some(ended_at) => succeeded(s, batch_id, ended_at, is_fresh_start, now),
                    },
                },
            }
        },
    }
}

/// Starts a new open batch of a problem at `now`.
fn start_batch(
    store: &mut Store,
    problem_id: i64,
    number: i64,
    is_fresh_start: bool,
    now: &Timestamp,
    closed: bool,
) -> (r: Result<(i64, i32, bool), EngineError>)
    requires
        old(store).wf(),
        number >= i32::MIN,
    ensures
        final(store).wf(),
        final(store)@ == started(
            old(store)@,
            problem_id as int,
            number as int,
            is_fresh_start,
            now@,
            closed,
        ).0,
        match r {
            Ok(place) => started(
                old(store)@,
                problem_id as int,
                number as int,
                is_fresh_start,
                now@,
                closed,
            ).1 == Ok::<Placement, Fault>((place.0 as int, place.1 as int, place.2)),
            Err(e) => started(
                old(store)@,
                problem_id as int,
                number as int,
                is_fresh_start,
                now@,
                closed,
            ).1 == Err::<Placement, Fault>(e.fault()),
        },
{
    if number > i32::MAX as i64 {
        return Err(EngineError::Persistence(StoreFault::CounterOverflow));
    }
    let last = store.last_batch_id();
    if last == i64::MAX {
        return Err(EngineError::Persistence(StoreFault::IdsExhausted));
    }
    let row = Batch {
        id: last + 1,
        problem_id,
        batch_number: number as i32,
        started_at: now.text().to_owned(),
        ended_at: None,
        is_fresh_start,
    };
    match store.insert_batch(row) {
        Ok(()) => Ok((last + 1, number as i32, closed)),
        Err(fault) => Err(EngineError::Persistence(fault)),
    }
}

/// Places an attempt at `now` in a batch of the problem: the open batch,
/// or a new one after the open batch has been closed.
///
/// Returns the batch's id and number and whether a batch was closed.
pub fn assign_batch(store: &mut Store, problem_id: i64, is_fresh_start: bool, now: &Timestamp) -> (r:
    Result<(i64, i32, bool), EngineError>)
    requires
        old(store).wf(),
    ensures
        final(store).wf(),
        final(store)@ == placed(old(store)@, problem_id as int, is_fresh_start, now@).0,
        match r {
            Ok(place) => placed(old(store)@, problem_id as int, is_fresh_start, now@).1 == Ok::<
                Placement,
                Fault,
            >((place.0 as int, place.1 as int, place.2)),
            Err(e) => placed(old(store)@, problem_id as int, is_fresh_start, now@).1 == Err::<
                Placement,
                Fault,
            >(e.fault()),
        },
{
    let (batch_id, number, started_at) = match store.open_batch(problem_id) {
        None => {
            return start_batch(store, problem_id, 1, is_fresh_start, now, false);
        },
        Some(batch) => (batch.id, batch.batch_number, batch.started_at.clone()),
    };
    let last_time = match store.latest_attempt(batch_id) {
        Some(attempt) => Some(attempt.timestamp.clone()),
        None => None,
    };
    match should_start_new_batch(is_fresh_start, &last_time, now) {
        Err(e) => {
            return Err(e);
        },
        Ok(false) => {
            return Ok((batch_id, number, false));
        },
        Ok(true) => {},
    }
    let ended_at = match last_time {
        None => started_at,
        Some(text) => match add_hours(text.as_str(), IDLE_HOURS) {
            Ok(ended_at) => ended_at,
            Err(e) => {
                return Err(e);
            },
        },
    };
    store.close_batch(batch_id, ended_at);
    start_batch(store, problem_id, number as i64 + 1, is_fresh_start, now, true)
}

} // verus!
