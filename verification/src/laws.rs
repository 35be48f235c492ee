//! What holds of the engine for every store and every request.

use vstd::prelude::*;
use crate::batches::{placed, started, starts_new_batch, succeeded, Placement, IDLE_SECONDS};
use crate::engine::{logged, Request};
use crate::error::Fault;
use crate::ident::{
    candidate_id, first_free, generated_id, id_prefix, lemma_first_free, probe_limit,
};
use crate::model::{
    belongs, display_id_taken, has_batch_number, has_id, has_name, has_open_batch, has_pair,
    history, latest_in, lemma_appended, lemma_index_of, lemma_named_appended, lemma_replaced,
    mastered, named, next_id, open_batch, rights_of, row_of, titled, AttemptData, BatchData,
    Details, Entry, Named, Pair, ProblemData, ResourceData, StoreModel,
};
use crate::recorder::{distinct_nonempty, linked, recorded, upsert_resource};
use crate::resolver::{resolved, upsert_material, upsert_problem, upsert_subject};
use crate::timestamp::{hours_after, seconds_of, text_of, TimestampModel};

verus! {

// ---------------------------------------------------------------------------
// Finding and creating rows by name
// ---------------------------------------------------------------------------

/// A name that finds an id finds the id of a row.
pub proof fn lemma_named_is_held<T: Named>(rows: Seq<Entry<T>>, name: Seq<char>)
    ensures
        named(rows, name) matches Some(id) ==> has_id(rows, id),
{
    if has_name(rows, name) {
        let i = choose|i: int| 0 <= i < rows.len() && (#[trigger] rows[i]).row.label() == name;
        assert(has_id(rows, rows[i].id));
    }
}

/// Finding or creating a subject keeps the rules; afterwards the name
/// finds the id that was returned.
pub proof fn lemma_upsert_subject(s: StoreModel, name: Seq<char>)
    requires
        s.valid(),
    ensures
        upsert_subject(s, name).0.valid(),
        upsert_subject(s, name).1 matches Ok(id) ==> named(upsert_subject(s, name).0.subjects, name)
            == Some(id) && has_id(upsert_subject(s, name).0.subjects, id),
{
    lemma_named_is_held(s.subjects, name);
    if named(s.subjects, name) is None && next_id(s.last_subject_id) is Some {
        s.lemma_put_subject(s.last_subject_id + 1, crate::model::SubjectData { name });
    }
}

/// Finding or creating a material keeps the rules; afterwards the name
/// finds the id that was returned.
pub proof fn lemma_upsert_material(s: StoreModel, name_en: Seq<char>, name_ru: Option<Seq<char>>)
    requires
        s.valid(),
    ensures
        upsert_material(s, name_en, name_ru).0.valid(),
        upsert_material(s, name_en, name_ru).1 matches Ok(id) ==> named(
            upsert_material(s, name_en, name_ru).0.materials,
            name_en,
        ) == Some(id) && has_id(upsert_material(s, name_en, name_ru).0.materials, id),
{
    lemma_named_is_held(s.materials, name_en);
    if named(s.materials, name_en) is None && next_id(s.last_material_id) is Some {
        s.lemma_put_material(
            s.last_material_id + 1,
            crate::model::MaterialData { name_en, name_ru },
        );
    }
}

/// Finding or creating a resource keeps the rules and every name that
/// found a resource before; afterwards the name finds the id returned.
pub proof fn lemma_upsert_resource(s: StoreModel, name: Seq<char>)
    requires
        s.valid(),
    ensures
        upsert_resource(s, name).0.valid(),
        upsert_resource(s, name).1 matches Ok(id) ==> named(
            upsert_resource(s, name).0.resources,
            name,
        ) == Some(id) && has_id(upsert_resource(s, name).0.resources, id),
        forall|other: Seq<char>|
            other != name ==> #[trigger] named(upsert_resource(s, name).0.resources, other)
                == named(s.resources, other),
{
    lemma_named_is_held(s.resources, name);
    if named(s.resources, name) is None && next_id(s.last_resource_id) is Some {
        let id = s.last_resource_id + 1;
        let data = ResourceData { name, kind: crate::model::ResourceKind::Other };
        s.lemma_put_resource(id, data);
        lemma_named_appended(s.resources, id, data);
    }
}

/// Finding or creating a problem keeps the rules; afterwards the title
/// finds the problem that was returned, under the display identifier that
/// was returned.
pub proof fn lemma_upsert_problem(
    s: StoreModel,
    subject_name: Seq<char>,
    material_id: int,
    title: Seq<char>,
    description: Option<Seq<char>>,
    image_filename: Option<Seq<char>>,
    secs: int,
)
    requires
        s.valid(),
    ensures
        ({
            let out = upsert_problem(
                s,
                subject_name,
                material_id,
                title,
                description,
                image_filename,
                secs,
            );
            &&& out.0.valid()
            &&& out.1 matches Ok(found) ==> {
                &&& titled(out.0.problems, material_id, title) == Some(found.0)
                &&& has_id(out.0.problems, found.0)
                &&& row_of(out.0.problems, found.0).generated_id == found.1
            }
        }),
{
    match titled(s.problems, material_id, title) {
        Some(id) => {
            let i = choose|i: int|
                0 <= i < s.problems.len() && (#[trigger] s.problems[i]).row.material_id
                    == material_id && s.problems[i].row.title == title;
            lemma_index_of(s.problems, s.last_problem_id, i);
        },
        None => {
            let data = ProblemData {
                generated_id: generated_id(s.problems, subject_name, secs),
                material_id,
                title,
                description,
                image_filename,
                content_type: crate::model::content_type_of(description, image_filename),
                is_solved: false,
            };
            let id = s.last_problem_id + 1;
            if next_id(s.last_problem_id) is Some && s.problem_fault(id, data) is None {
                s.lemma_put_problem(id, data);
            }
        },
    }
}

// ---------------------------------------------------------------------------
// The identity resolver
// ---------------------------------------------------------------------------

/// The identity resolver keeps the rules and touches neither batches nor
/// attempts nor resources; the problem it returns is in the store.
pub proof fn lemma_resolved(
    s: StoreModel,
    subject_name: Seq<char>,
    material_name_en: Seq<char>,
    material_name_ru: Option<Seq<char>>,
    problem_title: Seq<char>,
    problem_description: Option<Seq<char>>,
    problem_image_filename: Option<Seq<char>>,
    secs: int,
)
    requires
        s.valid(),
    ensures
        ({
            let out = resolved(
                s,
                subject_name,
                material_name_en,
                material_name_ru,
                problem_title,
                problem_description,
                problem_image_filename,
                secs,
            );
            &&& out.0.valid()
            &&& out.0.batches == s.batches
            &&& out.0.last_batch_id == s.last_batch_id
            &&& out.0.attempts == s.attempts
            &&& out.0.last_attempt_id == s.last_attempt_id
            &&& out.0.resources == s.resources
            &&& out.0.attempt_resources == s.attempt_resources
            &&& out.1 matches Ok(found) ==> {
                &&& has_id(out.0.problems, found.0)
                &&& row_of(out.0.problems, found.0).generated_id == found.1
            }
        }),
{
    lemma_upsert_subject(s, subject_name);
    let (s1, subject) = upsert_subject(s, subject_name);
    if subject is Ok {
        let subject_id = subject->Ok_0;
        lemma_upsert_material(s1, material_name_en, material_name_ru);
        let (s2, material) = upsert_material(s1, material_name_en, material_name_ru);
        if material is Ok {
            let material_id = material->Ok_0;
            if s2.subject_material_fault(subject_id, material_id) is None {
                s2.lemma_link_subject_material(subject_id, material_id);
                let s3 = s2.link_subject_material(subject_id, material_id);
                lemma_upsert_problem(
                    s3,
                    subject_name,
                    material_id,
                    problem_title,
                    problem_description,
                    problem_image_filename,
                    secs,
                );
            }
        }
    }
}

/// **Identity resolution is idempotent.** Where the identity resolver
/// has succeeded, running it again for the same subject, material and
/// problem title returns the same problem under the same display
/// identifier and leaves the store as it is: no row is added. This holds
/// whatever the second call gives as the material's secondary name, the
/// problem's description and image, and the time.
pub proof fn law_identity_resolution_is_idempotent(
    s: StoreModel,
    subject_name: Seq<char>,
    material_name_en: Seq<char>,
    material_name_ru: Option<Seq<char>>,
    problem_title: Seq<char>,
    problem_description: Option<Seq<char>>,
    problem_image_filename: Option<Seq<char>>,
    secs: int,
    again_name_ru: Option<Seq<char>>,
    again_description: Option<Seq<char>>,
    again_image_filename: Option<Seq<char>>,
    again_secs: int,
)
    requires
        s.valid(),
        resolved(
            s,
            subject_name,
            material_name_en,
            material_name_ru,
            problem_title,
            problem_description,
            problem_image_filename,
            secs,
        ).1 is Ok,
    ensures
        ({
            let first = resolved(
                s,
                subject_name,
                material_name_en,
                material_name_ru,
                problem_title,
                problem_description,
                problem_image_filename,
                secs,
            );
            let second = resolved(
                first.0,
                subject_name,
                material_name_en,
                again_name_ru,
                problem_title,
                again_description,
                again_image_filename,
                again_secs,
            );
            second == first
        }),
{
    lemma_upsert_subject(s, subject_name);
    let (s1, subject) = upsert_subject(s, subject_name);
    let subject_id = subject->Ok_0;
    lemma_upsert_material(s1, material_name_en, material_name_ru);
    let (s2, material) = upsert_material(s1, material_name_en, material_name_ru);
    let material_id = material->Ok_0;
    s2.lemma_link_subject_material(subject_id, material_id);
    let s3 = s2.link_subject_material(subject_id, material_id);
    lemma_upsert_problem(
        s3,
        subject_name,
        material_id,
        problem_title,
        problem_description,
        problem_image_filename,
        secs,
    );
    let (s4, problem) = upsert_problem(
        s3,
        subject_name,
        material_id,
        problem_title,
        problem_description,
        problem_image_filename,
        secs,
    );
    // The second run finds everything the first run left behind.
    assert(named(s4.subjects, subject_name) == Some(subject_id));
    assert(upsert_subject(s4, subject_name) == (s4, Ok::<int, crate::error::StoreFault>(subject_id)));
    assert(named(s4.materials, material_name_en) == Some(material_id));
    assert(upsert_material(s4, material_name_en, again_name_ru) == (
        s4,
        Ok::<int, crate::error::StoreFault>(material_id),
    ));
    assert(has_pair(s4.subject_materials, subject_id, material_id));
    assert(s4.link_subject_material(subject_id, material_id) == s4);
}

// ---------------------------------------------------------------------------
// Display identifiers
// ---------------------------------------------------------------------------

/// **A generated identifier is new, and the numbers run in order.** While
/// a running number below the limit is free, the identifier generated
/// for a subject is the one with the smallest free number from 1 on, and
/// no problem carries it.
pub proof fn law_generated_id_is_first_free(
    problems: Seq<Entry<ProblemData>>,
    subject: Seq<char>,
    secs: int,
    number: nat,
)
    requires
        1 <= number < probe_limit(),
        !display_id_taken(problems, candidate_id(id_prefix(subject), number)),
        forall|k: nat|
            1 <= k < number ==> display_id_taken(
                problems,
                #[trigger] candidate_id(id_prefix(subject), k),
            ),
    ensures
        generated_id(problems, subject, secs) == candidate_id(id_prefix(subject), number),
        !display_id_taken(problems, generated_id(problems, subject, secs)),
{
    let prefix = id_prefix(subject);
    lemma_first_free(problems, prefix, 1);
    match first_free(problems, prefix, 1) {
        Some(found) => {
            if found < number {
                assert(display_id_taken(problems, candidate_id(prefix, found)));
            } else if number < found {
                assert(display_id_taken(problems, candidate_id(prefix, number)));
            }
        },
        None => {
            assert(display_id_taken(problems, candidate_id(prefix, number)));
        },
    }
}

// ---------------------------------------------------------------------------
// Batches
// ---------------------------------------------------------------------------

/// The history of a problem depends on the batches only through which
/// attempt belongs to the problem.
pub proof fn lemma_history_frame(
    attempts: Seq<Entry<AttemptData>>,
    before: Seq<Entry<BatchData>>,
    after: Seq<Entry<BatchData>>,
    problem_id: int,
)
    requires
        forall|i: int|
            0 <= i < attempts.len() ==> belongs(before, (#[trigger] attempts[i]).row, problem_id)
                == belongs(after, attempts[i].row, problem_id),
    ensures
        history(attempts, before, problem_id) == history(attempts, after, problem_id),
    decreases attempts.len(),
{
    if attempts.len() > 0 {
        let front = attempts.drop_last();
        assert forall|i: int| 0 <= i < front.len() implies belongs(
            before,
            (#[trigger] front[i]).row,
            problem_id,
        ) == belongs(after, front[i].row, problem_id) by {
            assert(front[i] == attempts[i]);
        }
        lemma_history_frame(front, before, after, problem_id);
        assert(attempts.last() == attempts[attempts.len() - 1]);
    }
}

/// Closing a batch keeps the rules and every problem's history.
pub proof fn lemma_close_batch(s: StoreModel, batch_id: int, ended_at: Seq<char>, problem_id: int)
    requires
        s.valid(),
    ensures
        s.close_batch(batch_id, ended_at).valid(),
        history(s.attempts, s.close_batch(batch_id, ended_at).batches, problem_id) == history(
            s.attempts,
            s.batches,
            problem_id,
        ),
{
    s.lemma_close_batch(batch_id, ended_at);
    let data = BatchData { ended_at: Some(ended_at), ..row_of(s.batches, batch_id) };
    let next = s.close_batch(batch_id, ended_at);
    lemma_replaced(s.batches, s.last_batch_id, batch_id, data);
    assert forall|i: int| 0 <= i < s.attempts.len() implies belongs(
        s.batches,
        (#[trigger] s.attempts[i]).row,
        problem_id,
    ) == belongs(next.batches, s.attempts[i].row, problem_id) by {
        let id = s.attempts[i].row.batch_id;
        if id == batch_id {
            if has_id(s.batches, batch_id) {
                assert(row_of(next.batches, id) == data);
            }
        } else if has_id(s.batches, id) {
            assert(row_of(next.batches, id) == row_of(s.batches, id));
        }
    }
    lemma_history_frame(s.attempts, s.batches, next.batches, problem_id);
}

/// Starting a batch keeps the rules and every problem's history; the new
/// batch is the open batch of its problem.
pub proof fn lemma_started(
    s: StoreModel,
    problem_id: int,
    number: int,
    is_fresh_start: bool,
    now: TimestampModel,
    closed: bool,
    other: int,
)
    requires
        s.valid(),
    ensures
        ({
            let out = started(s, problem_id, number, is_fresh_start, now, closed);
            &&& out.0.valid()
            &&& out.0.attempts == s.attempts
            &&& out.0.last_attempt_id == s.last_attempt_id
            &&& out.0.problems == s.problems
            &&& out.0.resources == s.resources
            &&& out.0.attempt_resources == s.attempt_resources
            &&& history(out.0.attempts, out.0.batches, other) == history(
                s.attempts,
                s.batches,
                other,
            )
            &&& out.1 is Err ==> out.0 == s
            &&& out.1 is Ok <==> number <= i32::MAX && s.last_batch_id < i64::MAX && !has_batch_number(
                s.batches,
                problem_id,
                number,
            ) && !has_open_batch(s.batches, problem_id) && has_id(s.problems, problem_id)
            &&& out.1 matches Ok(place) ==> {
                &&& place.1 == number
                &&& place.2 == closed
                &&& place.0 == s.last_batch_id + 1
                &&& has_id(out.0.batches, place.0)
                &&& open_batch(out.0.batches, problem_id) == Some(place.0)
                &&& row_of(out.0.batches, place.0) == (BatchData {
                    problem_id,
                    batch_number: number,
                    started_at: now.text,
                    ended_at: None,
                    is_fresh_start,
                })
            }
        }),
{
    let out = started(s, problem_id, number, is_fresh_start, now, closed);
    if out.1 is Ok {
        let place = out.1->Ok_0;
        let data = BatchData {
            problem_id,
            batch_number: number,
            started_at: now.text,
            ended_at: None,
            is_fresh_start,
        };
        let id = place.0;
        s.lemma_put_batch(id, data);
        lemma_appended(s.batches, s.last_batch_id, id, data);
        assert forall|i: int| 0 <= i < s.attempts.len() implies belongs(
            s.batches,
            (#[trigger] s.attempts[i]).row,
            other,
        ) == belongs(out.0.batches, s.attempts[i].row, other) by {
            assert(has_id(s.batches, s.attempts[i].row.batch_id));
        }
        lemma_history_frame(s.attempts, s.batches, out.0.batches, other);
        let last = s.batches.len() as int;
        assert(out.0.batches[last].row.problem_id == problem_id && out.0.batches[last].row.ended_at is None);
        let found = choose|i: int|
            0 <= i < out.0.batches.len() && (#[trigger] out.0.batches[i]).row.problem_id
                == problem_id && out.0.batches[i].row.ended_at is None;
        assert(found == last);
    }
}

/// The batch manager keeps the rules, the problems, the attempts and
/// every problem's history; the batch it returns is the open batch of the
/// problem and carries the number returned.
pub proof fn lemma_placed(
    s: StoreModel,
    problem_id: int,
    is_fresh_start: bool,
    now: TimestampModel,
    other: int,
)
    requires
        s.valid(),
    ensures
        ({
            let out = placed(s, problem_id, is_fresh_start, now);
            &&& out.0.valid()
            &&& out.0.attempts == s.attempts
            &&& out.0.last_attempt_id == s.last_attempt_id
            &&& out.0.problems == s.problems
            &&& out.0.resources == s.resources
            &&& out.0.attempt_resources == s.attempt_resources
            &&& history(out.0.attempts, out.0.batches, other) == history(
                s.attempts,
                s.batches,
                other,
            )
            &&& out.1 matches Ok(place) ==> {
                &&& has_id(out.0.batches, place.0)
                &&& open_batch(out.0.batches, problem_id) == Some(place.0)
                &&& row_of(out.0.batches, place.0).problem_id == problem_id
                &&& row_of(out.0.batches, place.0).batch_number == place.1
                &&& row_of(out.0.batches, place.0).ended_at is None
            }
        }),
{
    match open_batch(s.batches, problem_id) {
        None => {
            lemma_started(s, problem_id, 1, is_fresh_start, now, false, other);
        },
        Some(batch_id) => {
            let at = choose|i: int|
                0 <= i < s.batches.len() && (#[trigger] s.batches[i]).row.problem_id == problem_id
                    && s.batches[i].row.ended_at is None;
            lemma_index_of(s.batches, s.last_batch_id, at);
            let batch = row_of(s.batches, batch_id);
            let last_time = match latest_in(s.attempts, batch_id) {
                Some(attempt) => Some(attempt.row.timestamp),
                None => None,
            };
            if starts_new_batch(is_fresh_start, last_time, now) == Some(true) {
                let ended_at = match last_time {
                    None => Some(batch.started_at),
                    Some(text) => hours_after(text, crate::batches::IDLE_HOURS as nat),
                };
                if ended_at is Some {
                    let end = ended_at->Some_0;
                    lemma_close_batch(s, batch_id, end, other);
                    lemma_started(
                        s.close_batch(batch_id, end),
                        problem_id,
                        batch.batch_number + 1,
                        is_fresh_start,
                        now,
                        true,
                        other,
                    );
                }
            }
        },
    }
}

/// What is known of a store whose problem has an open batch.
pub open spec fn open_batch_is(s: StoreModel, problem_id: int, batch_id: int) -> bool {
    &&& s.valid()
    &&& open_batch(s.batches, problem_id) == Some(batch_id)
}

/// **Batch continuity.** Take a problem with an open batch whose last
/// attempt was made at a time `T` that can be read, and an attempt that
/// is no fresh start.
///
/// - Made at most two hours after `T`, the attempt joins the open batch:
///   the store stays as it is and no batch is closed.
/// - Made later, and with `T + 2h` a time that can be written, the open
///   batch is closed at `T + 2h`, whatever follows; the batch of the next
///   number is started at the time of the attempt exactly where the store
///   admits it (an id is left, the number fits and is free), and the
///   attempt is placed there.
pub proof fn law_batch_continuity(
    s: StoreModel,
    problem_id: int,
    batch_id: int,
    last: Entry<AttemptData>,
    at: int,
    now: TimestampModel,
)
    requires
        open_batch_is(s, problem_id, batch_id),
        latest_in(s.attempts, batch_id) == Some(last),
        seconds_of(last.row.timestamp) == Some(at),
    ensures
        now.secs - at <= IDLE_SECONDS ==> placed(s, problem_id, false, now) == (
            s,
            Ok::<Placement, Fault>((batch_id, row_of(s.batches, batch_id).batch_number, false)),
        ),
        now.secs - at > IDLE_SECONDS && text_of(at + IDLE_SECONDS) is Some ==> ({
            let out = placed(s, problem_id, false, now);
            let number = row_of(s.batches, batch_id).batch_number;
            &&& row_of(out.0.batches, batch_id).ended_at == text_of(at + IDLE_SECONDS)
            &&& out.1 is Ok <==> number + 1 <= i32::MAX && s.last_batch_id < i64::MAX
                && !has_batch_number(s.batches, problem_id, number + 1)
            &&& out.1 matches Ok(place) ==> {
                &&& place.0 != batch_id
                &&& place.1 == number + 1
                &&& place.2
                &&& open_batch(out.0.batches, problem_id) == Some(place.0)
                &&& row_of(out.0.batches, place.0).started_at == now.text
            }
        }),
{
    if now.secs - at > IDLE_SECONDS && text_of(at + IDLE_SECONDS) is Some {
        let end = text_of(at + IDLE_SECONDS)->Some_0;
        lemma_succeeded(s, problem_id, batch_id, end, false, now);
    }
}

/// Closing the open batch of a problem and starting its successor: the
/// old batch has its end, and the successor is started exactly where the
/// store admits it.
pub proof fn lemma_succeeded(
    s: StoreModel,
    problem_id: int,
    batch_id: int,
    ended_at: Seq<char>,
    is_fresh_start: bool,
    now: TimestampModel,
)
    requires
        open_batch_is(s, problem_id, batch_id),
    ensures
        ({
            let out = succeeded(s, batch_id, ended_at, is_fresh_start, now);
            let number = row_of(s.batches, batch_id).batch_number;
            &&& row_of(out.0.batches, batch_id).ended_at == Some(ended_at)
            &&& out.1 is Ok <==> number + 1 <= i32::MAX && s.last_batch_id < i64::MAX
                && !has_batch_number(s.batches, problem_id, number + 1)
            &&& out.1 matches Ok(place) ==> {
                &&& place.0 != batch_id
                &&& place.1 == number + 1
                &&& place.2
                &&& open_batch(out.0.batches, problem_id) == Some(place.0)
                &&& row_of(out.0.batches, place.0).started_at == now.text
                &&& row_of(out.0.batches, place.0).is_fresh_start == is_fresh_start
            }
        }),
{
    let i = choose|i: int|
        0 <= i < s.batches.len() && (#[trigger] s.batches[i]).row.problem_id == problem_id
            && s.batches[i].row.ended_at is None;
    lemma_index_of(s.batches, s.last_batch_id, i);
    let batch = row_of(s.batches, batch_id);
    let data = BatchData { ended_at: Some(ended_at), ..batch };
    let s1 = s.close_batch(batch_id, ended_at);
    s.lemma_close_batch(batch_id, ended_at);
    lemma_replaced(s.batches, s.last_batch_id, batch_id, data);
    assert(row_of(s1.batches, batch_id) == data);
    assert(has_id(s.problems, problem_id)) by {
        assert(has_id(s.problems, s.batches[i].row.problem_id));
    }
    // Closing changes neither the numbers nor the problems of the batches.
    assert(has_batch_number(s1.batches, problem_id, batch.batch_number + 1) == has_batch_number(
        s.batches,
        problem_id,
        batch.batch_number + 1,
    )) by {
        if has_batch_number(s.batches, problem_id, batch.batch_number + 1) {
            let k = choose|k: int|
                0 <= k < s.batches.len() && (#[trigger] s.batches[k]).row.problem_id == problem_id
                    && s.batches[k].row.batch_number == batch.batch_number + 1;
            assert(s1.batches[k].row.problem_id == problem_id && s1.batches[k].row.batch_number
                == batch.batch_number + 1);
        }
        if has_batch_number(s1.batches, problem_id, batch.batch_number + 1) {
            let k = choose|k: int|
                0 <= k < s1.batches.len() && (#[trigger] s1.batches[k]).row.problem_id
                    == problem_id && s1.batches[k].row.batch_number == batch.batch_number + 1;
            assert(s.batches[k].id == s1.batches[k].id);
            if k != i {
                assert(s1.batches[k] == s.batches[k]);
            }
            assert(s.batches[k].row.problem_id == problem_id && s.batches[k].row.batch_number
                == batch.batch_number + 1);
        }
    }
    assert(!has_open_batch(s1.batches, problem_id));
    lemma_started(s1, problem_id, batch.batch_number + 1, is_fresh_start, now, true, problem_id);
    let out = started(s1, problem_id, batch.batch_number + 1, is_fresh_start, now, true);
    if out.1 is Ok {
        let place = out.1->Ok_0;
        lemma_appended(
            s1.batches,
            s1.last_batch_id,
            place.0,
            row_of(out.0.batches, place.0),
        );
        assert(has_id(s1.batches, batch_id));
    }
}

/// **A fresh start forces a new batch.** For a problem with an open batch
/// whose end can be written (two hours after its last attempt, or its own
/// start where it has none), an attempt that is a fresh start never joins
/// that batch, however little time has passed: the open batch is closed,
/// and the attempt is placed in the batch of the next number exactly
/// where the store admits that batch.
pub proof fn law_fresh_start_forces_new_batch(
    s: StoreModel,
    problem_id: int,
    batch_id: int,
    now: TimestampModel,
)
    requires
        open_batch_is(s, problem_id, batch_id),
        latest_in(s.attempts, batch_id) matches Some(last) ==> hours_after(
            last.row.timestamp,
            crate::batches::IDLE_HOURS as nat,
        ) is Some,
    ensures
        ({
            let out = placed(s, problem_id, true, now);
            let number = row_of(s.batches, batch_id).batch_number;
            &&& row_of(out.0.batches, batch_id).ended_at is Some
            &&& out.1 is Ok <==> number + 1 <= i32::MAX && s.last_batch_id < i64::MAX
                && !has_batch_number(s.batches, problem_id, number + 1)
            &&& out.1 matches Ok(place) ==> {
                &&& place.0 != batch_id
                &&& place.1 == number + 1
                &&& place.2
                &&& open_batch(out.0.batches, problem_id) == Some(place.0)
                &&& row_of(out.0.batches, place.0).is_fresh_start
            }
        }),
{
    let batch = row_of(s.batches, batch_id);
    let ended_at = match latest_in(s.attempts, batch_id) {
        Some(last) => hours_after(last.row.timestamp, crate::batches::IDLE_HOURS as nat)->Some_0,
        None => batch.started_at,
    };
    lemma_succeeded(s, problem_id, batch_id, ended_at, true, now);
}

// ---------------------------------------------------------------------------
// Resources
// ---------------------------------------------------------------------------

/// The distinct names of a list: none is empty, none stands twice, and
/// they are the names of the list that are not empty.
pub proof fn lemma_distinct_nonempty(names: Seq<Seq<char>>)
    ensures
        forall|i: int, j: int|
            0 <= i < j < distinct_nonempty(names).len() ==> distinct_nonempty(names)[i]
                != distinct_nonempty(names)[j],
        forall|name: Seq<char>| #[trigger]
            distinct_nonempty(names).contains(name) <==> name.len() > 0 && names.contains(name),
    decreases names.len(),
{
    let distinct = distinct_nonempty(names);
    if names.len() == 0 {
        assert forall|name: Seq<char>| #[trigger]
            distinct.contains(name) <==> name.len() > 0 && names.contains(name) by {}
    } else {
        let front = names.drop_last();
        let earlier = distinct_nonempty(front);
        lemma_distinct_nonempty(front);
        assert forall|name: Seq<char>| names.contains(name) <==> front.contains(name) || name
            == names.last() by {
            if names.contains(name) {
                let i = choose|i: int| 0 <= i < names.len() && names[i] == name;
                if i < front.len() {
                    assert(front[i] == name);
                }
            }
            if front.contains(name) {
                let i = choose|i: int| 0 <= i < front.len() && front[i] == name;
                assert(names[i] == name);
            }
            if name == names.last() {
                assert(names[names.len() - 1] == name);
            }
        }
        if names.last().len() == 0 || earlier.contains(names.last()) {
            assert forall|name: Seq<char>| #[trigger]
                distinct.contains(name) <==> name.len() > 0 && names.contains(name) by {}
        } else {
            assert forall|i: int, j: int| 0 <= i < j < distinct.len() implies distinct[i]
                != distinct[j] by {
                if j == earlier.len() {
                    assert(earlier[i] == distinct[i]);
                    assert(earlier.contains(earlier[i]));
                } else {
                    assert(earlier[i] == distinct[i] && earlier[j] == distinct[j]);
                }
            }
            assert forall|name: Seq<char>| #[trigger]
                distinct.contains(name) <==> name.len() > 0 && names.contains(name) by {
                if distinct.contains(name) {
                    let i = choose|i: int| 0 <= i < distinct.len() && distinct[i] == name;
                    if i < earlier.len() {
                        assert(earlier[i] == name);
                    }
                }
                if earlier.contains(name) {
                    let i = choose|i: int| 0 <= i < earlier.len() && earlier[i] == name;
                    assert(distinct[i] == name);
                }
                if name == names.last() {
                    assert(distinct[distinct.len() - 1] == name);
                }
            }
        }
    }
}

/// A pair stands in a join table exactly when its right id is among those
/// of its left id.
pub proof fn lemma_rights_of(pairs: Seq<Pair>, left: int, right: int)
    ensures
        has_pair(pairs, left, right) <==> rights_of(pairs, left).contains(right),
    decreases pairs.len(),
{
    let wanted = Pair { left, right };
    if pairs.len() > 0 {
        let front = pairs.drop_last();
        lemma_rights_of(front, left, right);
        let rights = rights_of(pairs, left);
        let earlier = rights_of(front, left);
        if has_pair(pairs, left, right) {
            let i = choose|i: int| 0 <= i < pairs.len() && #[trigger] pairs[i] == wanted;
            if i < front.len() {
                assert(front[i] == wanted);
                let k = choose|k: int| 0 <= k < earlier.len() && earlier[k] == right;
                assert(rights[k] == right);
            } else {
                assert(rights[rights.len() - 1] == right);
            }
        }
        if rights.contains(right) {
            let k = choose|k: int| 0 <= k < rights.len() && rights[k] == right;
            if k < earlier.len() {
                assert(earlier[k] == right);
                let i = choose|i: int| 0 <= i < front.len() && #[trigger] front[i] == wanted;
                assert(pairs[i] == wanted);
            } else {
                assert(pairs[pairs.len() - 1] == wanted);
            }
        }
    }
}

/// Linking resources keeps the rules and touches nothing but resources
/// and their links.
pub proof fn lemma_linked(s: StoreModel, attempt_id: int, names: Seq<Seq<char>>)
    requires
        s.valid(),
    ensures
        ({
            let out = linked(s, attempt_id, names);
            &&& out.0.valid()
            &&& out.0.attempts == s.attempts
            &&& out.0.last_attempt_id == s.last_attempt_id
            &&& out.0.batches == s.batches
            &&& out.0.problems == s.problems
            &&& out.0.subjects == s.subjects
            &&& out.0.materials == s.materials
        }),
    decreases names.len(),
{
    if names.len() > 0 {
        lemma_upsert_resource(s, names[0]);
        let (s1, resource) = upsert_resource(s, names[0]);
        if resource is Ok {
            let resource_id = resource->Ok_0;
            if s1.attempt_resource_fault(attempt_id, resource_id) is None {
                s1.lemma_link_attempt_resource(attempt_id, resource_id);
                lemma_linked(
                    s1.link_attempt_resource(attempt_id, resource_id),
                    attempt_id,
                    names.drop_first(),
                );
            }
        }
    }
}

/// Linking names that differ from each other and from those linked
/// before adds one link for each, to the resource of that name.
proof fn lemma_linked_once(
    s: StoreModel,
    attempt_id: int,
    done: Seq<Seq<char>>,
    rest: Seq<Seq<char>>,
)
    requires
        s.valid(),
        has_id(s.attempts, attempt_id),
        forall|i: int, j: int|
            0 <= i < j < (done + rest).len() ==> (done + rest)[i] != (done + rest)[j],
        rights_of(s.attempt_resources, attempt_id).len() == done.len(),
        forall|k: int|
            0 <= k < done.len() ==> named(s.resources, #[trigger] done[k]) == Some(
                rights_of(s.attempt_resources, attempt_id)[k],
            ),
        linked(s, attempt_id, rest).1 is Ok,
    ensures
        ({
            let out = linked(s, attempt_id, rest).0;
            let ids = rights_of(out.attempt_resources, attempt_id);
            &&& ids.len() == done.len() + rest.len()
            &&& forall|k: int|
                0 <= k < (done + rest).len() ==> named(out.resources, #[trigger] (done + rest)[k])
                    == Some(ids[k])
        }),
    decreases rest.len(),
{
    let all = done + rest;
    if rest.len() == 0 {
        assert(all =~= done);
    } else {
        let name = rest[0];
        assert(all[done.len() as int] == name);
        lemma_upsert_resource(s, name);
        let (s1, resource) = upsert_resource(s, name);
        let resource_id = resource->Ok_0;
        let ids = rights_of(s.attempt_resources, attempt_id);
        assert forall|k: int| 0 <= k < done.len() implies named(s1.resources, #[trigger] done[k])
            == Some(ids[k]) by {
            assert(all[k] == done[k]);
            assert(done[k] != name);
        }
        // The resource of a new name is none of those linked before.
        assert(!has_pair(s1.attempt_resources, attempt_id, resource_id)) by {
            lemma_rights_of(s1.attempt_resources, attempt_id, resource_id);
            if ids.contains(resource_id) {
                let k = choose|k: int| 0 <= k < ids.len() && ids[k] == resource_id;
                assert(named(s1.resources, done[k]) == Some(resource_id));
                assert(all[k] == done[k]);
                let i = choose|i: int|
                    0 <= i < s1.resources.len() && (#[trigger] s1.resources[i]).row.label()
                        == done[k];
                let j = choose|j: int|
                    0 <= j < s1.resources.len() && (#[trigger] s1.resources[j]).row.label() == name;
                lemma_index_of(s1.resources, s1.last_resource_id, i);
                lemma_index_of(s1.resources, s1.last_resource_id, j);
                assert(i == j);
            }
        }
        s1.lemma_link_attempt_resource(attempt_id, resource_id);
        let s2 = s1.link_attempt_resource(attempt_id, resource_id);
        assert(s2.attempt_resources.drop_last() =~= s1.attempt_resources);
        assert(rights_of(s2.attempt_resources, attempt_id) == ids.push(resource_id));
        let further = done.push(name);
        assert(further + rest.drop_first() =~= all);
        assert forall|k: int| 0 <= k < further.len() implies named(
            s2.resources,
            #[trigger] further[k],
        ) == Some(rights_of(s2.attempt_resources, attempt_id)[k]) by {
            if k < done.len() {
                assert(further[k] == done[k]);
            }
        }
        lemma_linked_once(s2, attempt_id, further, rest.drop_first());
    }
}

/// **Resources are linked once.** Where the resources of an attempt that
/// has no link yet are linked, the attempt ends up with exactly one link
/// for each distinct name that is not empty, in the order in which the
/// names first occur, and each link leads to the one resource of that
/// name. Empty names and repetitions leave no trace.
pub proof fn law_resources_are_linked_once(
    s: StoreModel,
    attempt_id: int,
    resources: Seq<Seq<char>>,
)
    requires
        s.valid(),
        has_id(s.attempts, attempt_id),
        rights_of(s.attempt_resources, attempt_id).len() == 0,
        linked(s, attempt_id, distinct_nonempty(resources)).1 is Ok,
    ensures
        ({
            let names = distinct_nonempty(resources);
            let out = linked(s, attempt_id, names).0;
            let ids = rights_of(out.attempt_resources, attempt_id);
            &&& out.valid()
            &&& ids.len() == names.len()
            &&& forall|k: int|
                0 <= k < names.len() ==> named(out.resources, #[trigger] names[k]) == Some(ids[k])
            &&& forall|i: int, j: int| 0 <= i < j < names.len() ==> names[i] != names[j]
            &&& forall|name: Seq<char>| #[trigger]
                names.contains(name) <==> name.len() > 0 && resources.contains(name)
        }),
{
    let names = distinct_nonempty(resources);
    lemma_distinct_nonempty(resources);
    lemma_linked(s, attempt_id, names);
    assert(Seq::<Seq<char>>::empty() + names =~= names);
    lemma_linked_once(s, attempt_id, Seq::empty(), names);
}

// ---------------------------------------------------------------------------
// Attempts and mastery
// ---------------------------------------------------------------------------

/// The attempt recorder keeps the rules. An attempt recorded under a batch
/// of the problem receives the next number of the problem, becomes the
/// last of the problem's history, and leaves the problem solved exactly
/// when it is mastered.
pub proof fn lemma_recorded(
    s: StoreModel,
    problem_id: int,
    batch_id: int,
    details: Details,
    resources: Seq<Seq<char>>,
    now: Seq<char>,
)
    requires
        s.valid(),
        has_id(s.problems, problem_id),
        has_id(s.batches, batch_id),
        row_of(s.batches, batch_id).problem_id == problem_id,
    ensures
        ({
            let out = recorded(s, problem_id, batch_id, details, resources, now);
            let past = history(s.attempts, s.batches, problem_id);
            &&& out.0.valid()
            &&& out.0.batches == s.batches
            &&& out.1 matches Ok(done) ==> {
                &&& done.0 == s.last_attempt_id + 1
                &&& done.1 == past.len() + 1
                &&& history(out.0.attempts, out.0.batches, problem_id) == past.push(
                    Entry {
                        id: done.0,
                        row: AttemptData {
                            batch_id,
                            attempt_number: done.1,
                            timestamp: now,
                            details,
                        },
                    },
                )
                &&& has_id(out.0.problems, problem_id)
                &&& row_of(out.0.problems, problem_id).is_solved == mastered(
                    history(out.0.attempts, out.0.batches, problem_id),
                )
            }
        }),
{
    let past = history(s.attempts, s.batches, problem_id);
    let number = past.len() as int + 1;
    let data = AttemptData { batch_id, attempt_number: number, timestamp: now, details };
    let id = s.last_attempt_id + 1;
    if number <= i32::MAX && next_id(s.last_attempt_id) is Some && s.attempt_fault(id, data)
        is None {
        s.lemma_put_attempt(id, data);
        let s0 = s.put_attempt(id, data);
        assert(s0.attempts.drop_last() =~= s.attempts);
        let entry = Entry { id, row: data };
        assert(history(s0.attempts, s0.batches, problem_id) == past.push(entry));
        let names = distinct_nonempty(resources);
        lemma_linked(s0, id, names);
        let (s1, links) = linked(s0, id, names);
        if links is Ok {
            let after = history(s1.attempts, s1.batches, problem_id);
            let solved = details.successful && mastered(after);
            s1.lemma_set_solved(problem_id, solved);
            lemma_replaced(
                s1.problems,
                s1.last_problem_id,
                problem_id,
                ProblemData { is_solved: solved, ..row_of(s1.problems, problem_id) },
            );
            assert(after.last() == entry);
            if !details.successful {
                assert(!after[after.len() - 1].row.details.successful);
            }
        }
    }
}

/// Logging an attempt keeps the rules of the store, whatever comes of it.
pub proof fn law_logging_keeps_the_rules(s: StoreModel, q: Request, now: TimestampModel)
    requires
        s.valid(),
    ensures
        logged(s, q, now).0.valid(),
{
    lemma_logged(s, q, now);
}

/// What a logged attempt leaves behind.
proof fn lemma_logged(s: StoreModel, q: Request, now: TimestampModel)
    requires
        s.valid(),
    ensures
        ({
            let out = logged(s, q, now);
            &&& out.0.valid()
            &&& out.1 matches Ok(receipt) ==> {
                let past = history(s.attempts, s.batches, receipt.problem_id);
                let after = history(out.0.attempts, out.0.batches, receipt.problem_id);
                &&& receipt.attempt_number == past.len() + 1
                &&& after.len() == past.len() + 1
                &&& after.drop_last() == past
                &&& after.last().id == receipt.attempt_id
                &&& after.last().row.attempt_number == receipt.attempt_number
                &&& after.last().row.details == q.details
                &&& after.last().row.timestamp == now.text
                &&& has_id(out.0.problems, receipt.problem_id)
                &&& row_of(out.0.problems, receipt.problem_id).generated_id == receipt.generated_id
                &&& row_of(out.0.problems, receipt.problem_id).is_solved == mastered(after)
                &&& has_id(out.0.batches, after.last().row.batch_id)
                &&& row_of(out.0.batches, after.last().row.batch_id).batch_number
                    == receipt.batch_number
                &&& row_of(out.0.batches, after.last().row.batch_id).problem_id
                    == receipt.problem_id
            }
        }),
{
    if crate::resolver::missing_field(q.subject_name, q.material_name_en, q.problem_title)
        is None {
        lemma_resolved(
            s,
            q.subject_name,
            q.material_name_en,
            q.material_name_ru,
            q.problem_title,
            q.problem_description,
            q.problem_image_filename,
            now.secs,
        );
        let (s1, identity) = resolved(
            s,
            q.subject_name,
            q.material_name_en,
            q.material_name_ru,
            q.problem_title,
            q.problem_description,
            q.problem_image_filename,
            now.secs,
        );
        if identity is Ok {
            let (problem_id, generated_id) = identity->Ok_0;
            lemma_placed(s1, problem_id, q.is_fresh_start, now, problem_id);
            let (s2, placement) = placed(s1, problem_id, q.is_fresh_start, now);
            if placement is Ok {
                let (batch_id, batch_number, batch_closed) = placement->Ok_0;
                lemma_recorded(s2, problem_id, batch_id, q.details, q.resources, now.text);
                let (s3, record) = recorded(
                    s2,
                    problem_id,
                    batch_id,
                    q.details,
                    q.resources,
                    now.text,
                );
                if record is Ok {
                    let past = history(s.attempts, s.batches, problem_id);
                    let after = history(s3.attempts, s3.batches, problem_id);
                    assert(after.drop_last() =~= past);
                    // Setting the solved flag keeps the display identifier.
                    assert(row_of(s3.problems, problem_id).generated_id == generated_id) by {
                        lemma_problem_keeps_its_identifier(
                            s2,
                            problem_id,
                            batch_id,
                            q.details,
                            q.resources,
                            now.text,
                        );
                    }
                }
            }
        }
    }
}

/// Recording an attempt changes nothing of a problem but its solved flag.
proof fn lemma_problem_keeps_its_identifier(
    s: StoreModel,
    problem_id: int,
    batch_id: int,
    details: Details,
    resources: Seq<Seq<char>>,
    now: Seq<char>,
)
    requires
        s.valid(),
        has_id(s.problems, problem_id),
    ensures
        ({
            let out = recorded(s, problem_id, batch_id, details, resources, now);
            row_of(out.0.problems, problem_id).generated_id == row_of(
                s.problems,
                problem_id,
            ).generated_id
        }),
{
    let number = history(s.attempts, s.batches, problem_id).len() as int + 1;
    let data = AttemptData { batch_id, attempt_number: number, timestamp: now, details };
    let id = s.last_attempt_id + 1;
    if number <= i32::MAX && next_id(s.last_attempt_id) is Some && s.attempt_fault(id, data)
        is None {
        let s0 = s.put_attempt(id, data);
        s.lemma_put_attempt(id, data);
        let names = distinct_nonempty(resources);
        lemma_linked(s0, id, names);
        let (s1, links) = linked(s0, id, names);
        if links is Ok {
            let solved = details.successful && mastered(
                history(s1.attempts, s1.batches, problem_id),
            );
            lemma_replaced(
                s1.problems,
                s1.last_problem_id,
                problem_id,
                ProblemData { is_solved: solved, ..row_of(s1.problems, problem_id) },
            );
        }
    }
}

/// **Attempt numbers run per problem, across its batches.** A logged
/// attempt receives the number of attempts that its problem had before,
/// in all its batches, plus one; it becomes the last attempt of the
/// problem's history, with the details and the time of the request, in a
/// batch of the problem that carries the batch number returned.
pub proof fn law_attempt_numbers_run_per_problem(s: StoreModel, q: Request, now: TimestampModel)
    requires
        s.valid(),
        logged(s, q, now).1 is Ok,
    ensures
        ({
            let out = logged(s, q, now);
            let receipt = out.1->Ok_0;
            let past = history(s.attempts, s.batches, receipt.problem_id);
            let after = history(out.0.attempts, out.0.batches, receipt.problem_id);
            &&& receipt.attempt_number == past.len() + 1
            &&& after.len() == past.len() + 1
            &&& after.drop_last() == past
            &&& after.last().id == receipt.attempt_id
            &&& after.last().row.attempt_number == receipt.attempt_number
            &&& after.last().row.details == q.details
            &&& after.last().row.timestamp == now.text
            &&& has_id(out.0.batches, after.last().row.batch_id)
            &&& row_of(out.0.batches, after.last().row.batch_id).batch_number
                == receipt.batch_number
            &&& row_of(out.0.batches, after.last().row.batch_id).problem_id == receipt.problem_id
        }),
{
    lemma_logged(s, q, now);
}

/// **Solved means mastered.** After an attempt has been logged, its
/// problem is marked solved exactly when the problem has five attempts or
/// more and the five most recent ones all succeeded. So a failed attempt
/// leaves the problem unsolved, and so does a success among fewer than
/// five attempts.
pub proof fn law_solved_means_mastered(s: StoreModel, q: Request, now: TimestampModel)
    requires
        s.valid(),
        logged(s, q, now).1 is Ok,
    ensures
        ({
            let out = logged(s, q, now);
            let receipt = out.1->Ok_0;
            let after = history(out.0.attempts, out.0.batches, receipt.problem_id);
            let solved = row_of(out.0.problems, receipt.problem_id).is_solved;
            &&& has_id(out.0.problems, receipt.problem_id)
            &&& solved == mastered(after)
            &&& !q.details.successful ==> !solved
            &&& after.len() < 5 ==> !solved
        }),
{
    lemma_logged(s, q, now);
    let out = logged(s, q, now);
    let receipt = out.1->Ok_0;
    let after = history(out.0.attempts, out.0.batches, receipt.problem_id);
    if !q.details.successful {
        assert(!after[after.len() - 1].row.details.successful);
    }
}

/// A left id that no pair has is paired with nothing.
pub proof fn lemma_rights_of_absent(pairs: Seq<Pair>, left: int)
    requires
        forall|i: int| 0 <= i < pairs.len() ==> (#[trigger] pairs[i]).left != left,
    ensures
        rights_of(pairs, left).len() == 0,
    decreases pairs.len(),
{
    if pairs.len() > 0 {
        let front = pairs.drop_last();
        assert forall|i: int| 0 <= i < front.len() implies (#[trigger] front[i]).left != left by {
            assert(front[i] == pairs[i]);
        }
        lemma_rights_of_absent(front, left);
        assert(pairs.last() == pairs[pairs.len() - 1]);
    }
}

/// **A logged attempt has each of its resources once.** After an attempt
/// has been logged, it is linked to exactly one resource for each distinct
/// name of the request that is not empty, in the order in which the names
/// first occur, and each of these names finds the resource it is linked
/// to; no name finds two resources.
pub proof fn law_logged_resources_are_linked_once(s: StoreModel, q: Request, now: TimestampModel)
    requires
        s.valid(),
        logged(s, q, now).1 is Ok,
    ensures
        ({
            let out = logged(s, q, now);
            let receipt = out.1->Ok_0;
            let names = distinct_nonempty(q.resources);
            let ids = rights_of(out.0.attempt_resources, receipt.attempt_id);
            &&& ids.len() == names.len()
            &&& forall|k: int|
                0 <= k < names.len() ==> named(out.0.resources, #[trigger] names[k]) == Some(ids[k])
            &&& crate::model::names_unique(out.0.resources)
        }),
{
    lemma_logged(s, q, now);
    lemma_resolved(
        s,
        q.subject_name,
        q.material_name_en,
        q.material_name_ru,
        q.problem_title,
        q.problem_description,
        q.problem_image_filename,
        now.secs,
    );
    let (s1, identity) = resolved(
        s,
        q.subject_name,
        q.material_name_en,
        q.material_name_ru,
        q.problem_title,
        q.problem_description,
        q.problem_image_filename,
        now.secs,
    );
    let (problem_id, generated_id) = identity->Ok_0;
    lemma_placed(s1, problem_id, q.is_fresh_start, now, problem_id);
    let (s2, placement) = placed(s1, problem_id, q.is_fresh_start, now);
    let (batch_id, batch_number, batch_closed) = placement->Ok_0;
    let number = history(s2.attempts, s2.batches, problem_id).len() as int + 1;
    let data = AttemptData {
        batch_id,
        attempt_number: number,
        timestamp: now.text,
        details: q.details,
    };
    let id = s2.last_attempt_id + 1;
    s2.lemma_put_attempt(id, data);
    let s3 = s2.put_attempt(id, data);
    assert forall|i: int| 0 <= i < s3.attempt_resources.len() implies (
    #[trigger] s3.attempt_resources[i]).left != id by {
        let left = s2.attempt_resources[i].left;
        assert(has_id(s2.attempts, left));
        let at = crate::model::index_of(s2.attempts, left);
        assert(s2.attempts[at].id <= s2.last_attempt_id);
    }
    lemma_rights_of_absent(s3.attempt_resources, id);
    law_resources_are_linked_once(s3, id, q.resources);
}

} // verus!
