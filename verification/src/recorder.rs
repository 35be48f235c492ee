//! The attempt recorder: numbers an attempt, stores it under its batch,
//! links the resources used, and has mastery evaluated.

use vstd::prelude::*;
use crate::error::{EngineError, Fault, StoreFault};
use crate::mastery::{check_and_mark_solved, evaluated};
use crate::model::{
    history, named, next_id, AttemptData, Details, ResourceData, ResourceKind, StoreModel,
};
use crate::rows::{texts_view, Attempt, AttemptInput, Resource};
use crate::store::Store;
use crate::timestamp::Timestamp;

verus! {

/// The names of a list that are not empty, each once, in the order in
/// which they first occur.
pub open spec fn distinct_nonempty(names: Seq<Seq<char>>) -> Seq<Seq<char>>
    decreases names.len(),
{
    if names.len() == 0 {
        Seq::empty()
    } else {
        let earlier = distinct_nonempty(names.drop_last());
        if names.last().len() == 0 || earlier.contains(names.last()) {
            earlier
        } else {
            earlier.push(names.last())
        }
    }
}

fn holds(names: &Vec<String>, name: &str) -> (found: bool)
    ensures
        found == texts_view(names@).contains(name@),
{
    let mut at: usize = 0;
    while at < names.len()
        invariant
            at <= names.len(),
            forall|i: int| 0 <= i < at ==> texts_view(names@)[i] != name@,
        decreases names.len() - at,
    {
        if names[at].as_str().eq(name) {
            assert(texts_view(names@)[at as int] == name@);
            return true;
        }
        at = at + 1;
    }
    false
}

/// Drops the empty names and the repetitions from a list of resource
/// names; what stays keeps its place.
pub fn unique_resources(names: &Vec<String>) -> (unique: Vec<String>)
    ensures
        texts_view(unique@) == distinct_nonempty(texts_view(names@)),
{
    let mut unique: Vec<String> = Vec::new();
    let mut at: usize = 0;
    assert(texts_view(names@).take(0) =~= Seq::empty());
    assert(texts_view(unique@) =~= Seq::empty());
    while at < names.len()
        invariant
            at <= names.len(),
            texts_view(unique@) == distinct_nonempty(texts_view(names@).take(at as int)),
        decreases names.len() - at,
    {
        assert(texts_view(names@).take(at + 1).drop_last() =~= texts_view(names@).take(at as int));
        assert(texts_view(names@).take(at + 1).last() == names@[at as int]@);
        let ghost before = texts_view(unique@);
        if !names[at].as_str().is_empty() && !holds(&unique, names[at].as_str()) {
            unique.push(names[at].clone());
            assert(texts_view(unique@) =~= before.push(names@[at as int]@));
        }
        at = at + 1;
    }
    assert(texts_view(names@).take(at as int) =~= texts_view(names@));
    unique
}

/// The resource of a name found, or created under the next id as a
/// resource of the generic kind.
pub open spec fn upsert_resource(s: StoreModel, name: Seq<char>) -> (StoreModel, Result<
    int,
    StoreFault,
>) {
    match named(s.resources, name) {
        Some(id) => (s, Ok(id)),
        None => match next_id(s.last_resource_id) {
            Some(id) => (
                s.put_resource(id, ResourceData { name, kind: ResourceKind::Other }),
                Ok(id),
            ),
            None => (s, Err(StoreFault::IdsExhausted)),
        },
    }
}

/// Returns the id of the resource with a name, creating the resource where
/// there is none. Fails only where the table has no id left.
pub fn resolve_resource(store: &mut Store, name: &str) -> (r: Result<i64, StoreFault>)
    requires
        old(store).wf(),
    ensures
        final(store).wf(),
        final(store)@ == upsert_resource(old(store)@, name@).0,
        match r {
            Ok(id) => upsert_resource(old(store)@, name@).1 == Ok::<int, StoreFault>(id as int),
            Err(fault) => upsert_resource(old(store)@, name@).1 == Err::<int, StoreFault>(fault),
        },
{
    match store.resource_id(name) {
        Some(id) => Ok(id),
        None => {
            let last = store.last_resource_id();
            if last == i64::MAX {
                return Err(StoreFault::IdsExhausted);
            }
            let row = Resource { id: last + 1, name: name.to_owned(), kind: ResourceKind::Other };
            match store.insert_resource(row) {
                Ok(()) => Ok(last + 1),
                Err(fault) => Err(fault),
            }
        },
    }
}

/// The store after the resources of the names have been linked to the
/// attempt, one after the other; the first that the store refuses ends it.
pub open spec fn linked(s: StoreModel, attempt_id: int, names: Seq<Seq<char>>) -> (
    StoreModel,
    Result<(), StoreFault>,
)
    decreases names.len(),
{
    if names.len() == 0 {
        (s, Ok(()))
    } else {
        let (s1, resource) = upsert_resource(s, names[0]);
        match resource {
            Err(fault) => (s1, Err(fault)),
            Ok(resource_id) => match s1.attempt_resource_fault(attempt_id, resource_id) {
                Some(fault) => (s1, Err(fault)),
                None => linked(
                    s1.link_attempt_resource(attempt_id, resource_id),
                    attempt_id,
                    names.drop_first(),
                ),
            },
        }
    }
}

/// Links the resources of the names to an attempt, creating the resources
/// that are missing.
pub fn link_resources(store: &mut Store, attempt_id: i64, names: &Vec<String>) -> (r: Result<
    (),
    StoreFault,
>)
    requires
        old(store).wf(),
    ensures
        final(store).wf(),
        final(store)@ == linked(old(store)@, attempt_id as int, texts_view(names@)).0,
        match r {
            Ok(()) => linked(old(store)@, attempt_id as int, texts_view(names@)).1 is Ok,
            Err(fault) => linked(old(store)@, attempt_id as int, texts_view(names@)).1 == Err::<
                (),
                StoreFault,
            >(fault),
        },
{
    let mut at: usize = 0;
    assert(texts_view(names@).skip(0) =~= texts_view(names@));
    while at < names.len()
        invariant
            at <= names.len(),
            store.wf(),
            linked(old(store)@, attempt_id as int, texts_view(names@)) == linked(
                store@,
                attempt_id as int,
                texts_view(names@).skip(at as int),
            ),
        decreases names.len() - at,
    {
        assert(texts_view(names@).skip(at as int).drop_first() =~= texts_view(names@).skip(
            at + 1,
        ));
        assert(texts_view(names@).skip(at as int)[0] == names@[at as int]@);
        let resource_id = match resolve_resource(store, names[at].as_str()) {
            Ok(id) => id,
            Err(fault) => {
                return Err(fault);
            },
        };
        match store.link_attempt_resource(attempt_id, resource_id) {
            Ok(()) => {},
            Err(fault) => {
                return Err(fault);
            },
        }
        at = at + 1;
    }
    Ok(())
}

/// What the attempt recorder does to the store and returns: the attempt
/// stored under the next id with the next number of its problem and the
/// timestamp `now`, its distinct resources linked, mastery evaluated. The
/// result is the attempt's id and number.
pub open spec fn recorded(
    s: StoreModel,
    problem_id: int,
    batch_id: int,
    details: Details,
    resources: Seq<Seq<char>>,
    now: Seq<char>,
) -> (StoreModel, Result<(int, int), Fault>) {
    let number = history(s.attempts, s.batches, problem_id).len() as int + 1;
    let data = AttemptData { batch_id, attempt_number: number, timestamp: now, details };
    if number > i32::MAX {
        (s, Err(Fault::Persistence(StoreFault::CounterOverflow)))
    } else {
        match next_id(s.last_attempt_id) {
            None => (s, Err(Fault::Persistence(StoreFault::IdsExhausted))),
            Some(id) => match s.attempt_fault(id, data) {
                Some(fault) => (s, Err(Fault::Persistence(fault))),
                None => {
                    let (s1, links) = linked(s.put_attempt(id, data), id, distinct_nonempty(resources));
                    match links {
                        Err(fault) => (s1, Err(Fault::Persistence(fault))),
                        Ok(()) => (evaluated(s1, problem_id, details.successful), Ok((id, number))),
                    }
                },
            },
        }
    }
}

/// Records an attempt at a problem under a batch: numbers it, stores it,
/// links its resources and has mastery evaluated.
///
/// Returns the attempt's id and number.
pub fn record_attempt(
    store: &mut Store,
    problem_id: i64,
    batch_id: i64,
    attempt_data: AttemptInput,
    now: &Timestamp,
) -> (r: Result<(i64, i32), EngineError>)
    requires
        old(store).wf(),
    ensures
        final(store).wf(),
        final(store)@ == recorded(
            old(store)@,
            problem_id as int,
            batch_id as int,
            attempt_data.details(),
            attempt_data.resource_names(),
            now@.text,
        ).0,
        match r {
            Ok(done) => recorded(
                old(store)@,
                problem_id as int,
                batch_id as int,
                attempt_data.details(),
                attempt_data.resource_names(),
                now@.text,
            ).1 == Ok::<(int, int), Fault>((done.0 as int, done.1 as int)),
            Err(e) => recorded(
                old(store)@,
                problem_id as int,
                batch_id as int,
                attempt_data.details(),
                attempt_data.resource_names(),
                now@.text,
            ).1 == Err::<(int, int), Fault>(e.fault()),
        },
{
    let count = store.attempt_count(problem_id);
    if count >= i32::MAX as usize {
        return Err(EngineError::Persistence(StoreFault::CounterOverflow));
    }
    let number = (count + 1) as i32;
    let last = store.last_attempt_id();
    if last == i64::MAX {
        return Err(EngineError::Persistence(StoreFault::IdsExhausted));
    }
    let successful = attempt_data.successful;
    let names = unique_resources(&attempt_data.resources);
    let row = Attempt {
        id: last + 1,
        batch_id,
        attempt_number: number,
        successful,
        time_spent_minutes: attempt_data.time_spent_minutes,
        difficulty_rating: attempt_data.difficulty_rating,
        errors: attempt_data.errors,
        resolution: attempt_data.resolution,
        commentary: attempt_data.commentary,
        status_tag: attempt_data.status_tag,
        timestamp: now.text().to_owned(),
    };
    match store.insert_attempt(row) {
        Ok(()) => {},
        Err(fault) => {
            return Err(EngineError::Persistence(fault));
        },
    }
    match link_resources(store, last + 1, &names) {
        Ok(()) => {},
        Err(fault) => {
            return Err(EngineError::Persistence(fault));
        },
    }
    check_and_mark_solved(store, problem_id, successful);
    Ok((last + 1, number))
}

} // verus!
