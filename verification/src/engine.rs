//! The operations of the engine: logging an attempt, and correcting or
//! removing what has been logged.

use vstd::prelude::*;
use vstd::string::StringExecFns;
use crate::batches::{assign_batch, placed};
use crate::error::{EngineError, Fault};
use crate::model::{Details, StoreModel};
use crate::recorder::{record_attempt, recorded};
use crate::resolver::{missing_field, resolve_identity, resolved, validate_names};
use crate::rows::{text_view, AttemptInput};
use crate::store::Store;
use crate::timestamp::{text_of, Timestamp, TimestampModel};

verus! {

/// What a caller asks to be logged.
pub struct Request {
    pub subject_name: Seq<char>,
    pub material_name_en: Seq<char>,
    pub material_name_ru: Option<Seq<char>>,
    pub problem_title: Seq<char>,
    pub problem_description: Option<Seq<char>>,
    pub problem_image_filename: Option<Seq<char>>,
    pub details: Details,
    pub resources: Seq<Seq<char>>,
    pub is_fresh_start: bool,
}

/// What a logged attempt is answered with.
pub struct Receipt {
    pub attempt_id: int,
    pub problem_id: int,
    pub generated_id: Seq<char>,
    pub batch_number: int,
    pub attempt_number: int,
    pub batch_closed: bool,
}

/// The answer to a logged attempt: where it was stored and under which
/// numbers, and whether a batch was closed on the way.
#[derive(Debug)]
pub struct LogAttemptResponse {
    pub attempt_id: i64,
    pub problem_id: i64,
    pub generated_id: String,
    pub batch_number: i32,
    pub attempt_number: i32,
    pub batch_closed: bool,
}

impl View for LogAttemptResponse {
    type V = Receipt;

    open spec fn view(&self) -> Receipt {
        Receipt {
            attempt_id: self.attempt_id as int,
            problem_id: self.problem_id as int,
            generated_id: self.generated_id@,
            batch_number: self.batch_number as int,
            attempt_number: self.attempt_number as int,
            batch_closed: self.batch_closed,
        }
    }
}

/// The request that the arguments of a call make up.
pub open spec fn request(
    subject_name: String,
    material_name_en: String,
    material_name_ru: Option<String>,
    problem_title: String,
    problem_description: Option<String>,
    problem_image_filename: Option<String>,
    attempt_data: AttemptInput,
    is_fresh_start: bool,
) -> Request {
    Request {
        subject_name: subject_name@,
        material_name_en: material_name_en@,
        material_name_ru: text_view(material_name_ru),
        problem_title: problem_title@,
        problem_description: text_view(problem_description),
        problem_image_filename: text_view(problem_image_filename),
        details: attempt_data.details(),
        resources: attempt_data.resource_names(),
        is_fresh_start,
    }
}

/// What logging an attempt at `now` does to the store and returns.
///
/// A request with a blank required text changes nothing. Otherwise the
/// identity resolver, the batch manager and the attempt recorder run in
/// turn; the first error ends the operation, and what the steps before it
/// did to the store stays.
pub open spec fn logged(s: StoreModel, q: Request, now: TimestampModel) -> (
    StoreModel,
    Result<Receipt, Fault>,
) {
    match missing_field(q.subject_name, q.material_name_en, q.problem_title) {
        Some(field) => (s, Err(Fault::Validation(field))),
        None => {
            let (s1, identity) = resolved(
                s,
                q.subject_name,
                q.material_name_en,
                q.material_name_ru,
                q.problem_title,
                q.problem_description,
                q.problem_image_filename,
                now.secs,
            );
            match identity {
                Err(fault) => (s1, Err(fault)),
                Ok((problem_id, generated_id)) => {
                    let (s2, placement) = placed(s1, problem_id, q.is_fresh_start, now);
                    match placement {
                        Err(fault) => (s2, Err(fault)),
                        Ok((batch_id, batch_number, batch_closed)) => {
                            let (s3, record) = recorded(
                                s2,
                                problem_id,
                                batch_id,
                                q.details,
                                q.resources,
                                now.text,
                            );
                            match record {
                                Err(fault) => (s3, Err(fault)),
                                Ok((attempt_id, attempt_number)) => (
                                    s3,
                                    Ok(
                                        Receipt {
                                            attempt_id,
                                            problem_id,
                                            generated_id,
                                            batch_number,
                                            attempt_number,
                                            batch_closed,
                                        },
                                    ),
                                ),
                            }
                        },
                    }
                },
            }
        },
    }
}

/// A result reports what was expected: the same receipt, or an error of
/// the same kind.
pub open spec fn reports(r: Result<LogAttemptResponse, EngineError>, expected: Result<
    Receipt,
    Fault,
>) -> bool {
    match r {
        Ok(response) => expected == Ok::<Receipt, Fault>(response@),
        Err(e) => expected == Err::<Receipt, Fault>(e.fault()),
    }
}

/// Logs one attempt made at `now`.
///
/// Resolves the subject, the material and the problem (creating what is
/// missing), places the attempt in a batch, stores it with the next number
/// of its problem, links its resources and evaluates mastery.
pub fn log_attempt_at(
    store: &mut Store,
    subject_name: String,
    material_name_en: String,
    material_name_ru: Option<String>,
    problem_title: String,
    problem_description: Option<String>,
    problem_image_filename: Option<String>,
    attempt_data: AttemptInput,
    is_fresh_start: bool,
    now: &Timestamp,
) -> (r: Result<LogAttemptResponse, EngineError>)
    requires
        old(store).wf(),
    ensures
        final(store).wf(),
        final(store)@ == logged(
            old(store)@,
            request(
                subject_name,
                material_name_en,
                material_name_ru,
                problem_title,
                problem_description,
                problem_image_filename,
                attempt_data,
                is_fresh_start,
            ),
            now@,
        ).0,
        reports(
            r,
            logged(
                old(store)@,
                request(
                    subject_name,
                    material_name_en,
                    material_name_ru,
                    problem_title,
                    problem_description,
                    problem_image_filename,
                    attempt_data,
                    is_fresh_start,
                ),
                now@,
            ).1,
        ),
{
    match validate_names(
        subject_name.as_str(),
        material_name_en.as_str(),
        problem_title.as_str(),
    ) {
        Ok(()) => {},
        Err(e) => {
            return Err(e);
        },
    }
    let (problem_id, generated_id) = match resolve_identity(
        store,
        subject_name.as_str(),
        material_name_en.as_str(),
        material_name_ru,
        problem_title.as_str(),
        problem_description,
        problem_image_filename,
        now,
    ) {
        Ok(found) => found,
        Err(e) => {
            return Err(e);
        },
    };
    let (batch_id, batch_number, batch_closed) = match assign_batch(
        store,
        problem_id,
        is_fresh_start,
        now,
    ) {
        Ok(place) => place,
        Err(e) => {
            return Err(e);
        },
    };
    let (attempt_id, attempt_number) = match record_attempt(
        store,
        problem_id,
        batch_id,
        attempt_data,
        now,
    ) {
        Ok(done) => done,
        Err(e) => {
            return Err(e);
        },
    };
    Ok(
        LogAttemptResponse {
            attempt_id,
            problem_id,
            generated_id,
            batch_number,
            attempt_number,
            batch_closed,
        },
    )
}

/// Logs one attempt made now, by the system clock.
///
/// Does what [`log_attempt_at`] does for some point in time; where the
/// clock shows a time that has no canonical text, nothing is changed and a
/// time-format error is returned.
pub fn log_attempt(
    store: &mut Store,
    subject_name: String,
    material_name_en: String,
    material_name_ru: Option<String>,
    problem_title: String,
    problem_description: Option<String>,
    problem_image_filename: Option<String>,
    attempt_data: AttemptInput,
    is_fresh_start: bool,
) -> (r: Result<LogAttemptResponse, EngineError>)
    requires
        old(store).wf(),
    ensures
        final(store).wf(),
        (r matches Err(e) && e is TimeFormat && final(store)@ == old(store)@) || exists|
            now: TimestampModel,
        |
            {
                &&& text_of(now.secs) == Some(now.text)
                &&& final(store)@ == (#[trigger] logged(
                    old(store)@,
                    request(
                        subject_name,
                        material_name_en,
                        material_name_ru,
                        problem_title,
                        problem_description,
                        problem_image_filename,
                        attempt_data,
                        is_fresh_start,
                    ),
                    now,
                )).0
                &&& reports(
                    r,
                    logged(
                        old(store)@,
                        request(
                            subject_name,
                            material_name_en,
                            material_name_ru,
                            problem_title,
                            problem_description,
                            problem_image_filename,
                            attempt_data,
                            is_fresh_start,
                        ),
                        now,
                    ).1,
                )
            },
{
    let now = match Timestamp::now() {
        Some(now) => now,
        None => {
            return Err(EngineError::TimeFormat(String::from_str("input is out of range")));
        },
    };
    let r = log_attempt_at(
        store,
        subject_name,
        material_name_en,
        material_name_ru,
        problem_title,
        problem_description,
        problem_image_filename,
        attempt_data,
        is_fresh_start,
        &now,
    );
    proof {
        let q = request(
            subject_name,
            material_name_en,
            material_name_ru,
            problem_title,
            problem_description,
            problem_image_filename,
            attempt_data,
            is_fresh_start,
        );
        assert(store@ == logged(old(store)@, q, now@).0);
    }
    r
}

/// Overwrites what was reported of an attempt. The attempt stays in its
/// batch under its number and timestamp, its resource links stay as they
/// are, and neither the batches nor the solved flag of its problem are
/// looked at again. An id that no attempt has changes nothing.
///
/// Fails where the attempt is there and the store does not admit the new
/// difficulty or status tag.
pub fn update_attempt(store: &mut Store, attempt_id: i64, attempt_data: AttemptInput) -> (r: Result<
    (),
    EngineError,
>)
    requires
        old(store).wf(),
    ensures
        final(store).wf(),
        match r {
            Ok(()) => {
                &&& old(store)@.details_fault(attempt_id as int, attempt_data.details()) is None
                &&& final(store)@ == old(store)@.set_details(
                    attempt_id as int,
                    attempt_data.details(),
                )
            },
            Err(e) => {
                &&& old(store)@.details_fault(attempt_id as int, attempt_data.details())
                    matches Some(fault) && e == EngineError::Persistence(fault)
                &&& final(store)@ == old(store)@
            },
        },
{
    match store.set_details(attempt_id, attempt_data) {
        Ok(()) => Ok(()),
        Err(fault) => Err(EngineError::Persistence(fault)),
    }
}

/// Removes an attempt and its resource links. The numbers of the other
/// attempts and the solved flag of the problem stay as they are. An id
/// that no attempt has changes nothing.
pub fn delete_attempt(store: &mut Store, attempt_id: i64) -> (r: Result<(), EngineError>)
    requires
        old(store).wf(),
    ensures
        final(store).wf(),
        r is Ok,
        final(store)@ == old(store)@.drop_attempt(attempt_id as int),
{
    store.drop_attempt(attempt_id);
    Ok(())
}

/// Overwrites a problem's title and description. An id that no problem has
/// changes nothing.
///
/// Fails where another problem of the same material has the title.
pub fn update_problem(
    store: &mut Store,
    problem_id: i64,
    title: String,
    description: Option<String>,
) -> (r: Result<(), EngineError>)
    requires
        old(store).wf(),
    ensures
        final(store).wf(),
        match r {
            Ok(()) => {
                &&& old(store)@.problem_text_fault(problem_id as int, title@) is None
                &&& final(store)@ == old(store)@.set_problem_text(
                    problem_id as int,
                    title@,
                    text_view(description),
                )
            },
            Err(e) => {
                &&& old(store)@.problem_text_fault(problem_id as int, title@) matches Some(fault)
                    && e == EngineError::Persistence(fault)
                &&& final(store)@ == old(store)@
            },
        },
{
    match store.set_problem_text(problem_id, title, description) {
        Ok(()) => Ok(()),
        Err(fault) => Err(EngineError::Persistence(fault)),
    }
}

/// Sets or clears a problem's image and derives its content type anew:
/// `text` without an image, `both` with an image and a description that is
/// not empty, `image` otherwise. An id that no problem has changes nothing.
pub fn update_problem_image(store: &mut Store, problem_id: i64, image_filename: Option<String>)
    -> (r: Result<(), EngineError>)
    requires
        old(store).wf(),
    ensures
        final(store).wf(),
        r is Ok,
        final(store)@ == old(store)@.set_problem_image(
            problem_id as int,
            text_view(image_filename),
        ),
{
    store.set_problem_image(problem_id, image_filename);
    Ok(())
}

} // verus!
