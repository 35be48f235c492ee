use mastery::model::{ContentType, ResourceKind};
use mastery::rows::{Attempt, Batch, Material, Problem, Subject};
use mastery::{
    delete_attempt, log_attempt, log_attempt_at, update_attempt, AttemptInput, EngineError, Fault,
    Field, LogAttemptResponse, Store, StoreFault, Timestamp,
};

fn report(successful: bool) -> AttemptInput {
    AttemptInput {
        successful,
        time_spent_minutes: None,
        difficulty_rating: None,
        errors: None,
        resolution: None,
        commentary: None,
        status_tag: None,
        resources: Vec::new(),
    }
}

fn at(text: &str) -> Timestamp {
    Timestamp::parse(text).unwrap()
}

fn log(
    store: &mut Store,
    subject: &str,
    material: &str,
    title: &str,
    attempt: AttemptInput,
    fresh: bool,
    now: &str,
) -> Result<LogAttemptResponse, EngineError> {
    log_attempt_at(
        store,
        subject.to_string(),
        material.to_string(),
        None,
        title.to_string(),
        None,
        None,
        attempt,
        fresh,
        &at(now),
    )
}

fn practise(store: &mut Store, successful: bool, fresh: bool, now: &str) -> LogAttemptResponse {
    log(store, "Algebra", "Linear Algebra Done Right", "Exercise 1.A.1", report(successful), fresh, now)
        .unwrap()
}

#[test]
fn first_attempt_creates_the_whole_hierarchy() {
    let mut store = Store::new();
    let response = practise(&mut store, true, false, "2025-12-30 19:16:00");
    assert_eq!(response.attempt_id, 1);
    assert_eq!(response.problem_id, 1);
    assert_eq!(response.generated_id, "ALGE_001");
    assert_eq!(response.batch_number, 1);
    assert_eq!(response.attempt_number, 1);
    assert!(!response.batch_closed);

    assert_eq!(store.subjects().len(), 1);
    assert_eq!(store.subjects()[0].id, 1);
    assert_eq!(store.subjects()[0].name, "Algebra");
    assert_eq!(store.materials().len(), 1);
    assert_eq!(store.materials()[0].name_en, "Linear Algebra Done Right");
    assert_eq!(store.subject_materials().len(), 1);
    assert_eq!(store.subject_materials()[0].subject_id, 1);
    assert_eq!(store.subject_materials()[0].material_id, 1);
    let problem = store.problem(1).unwrap();
    assert_eq!(problem.title, "Exercise 1.A.1");
    assert_eq!(problem.material_id, 1);
    assert_eq!(problem.content_type, ContentType::Text);
    assert!(!problem.is_solved);
    let batch = store.batch(1).unwrap();
    assert_eq!(batch.problem_id, 1);
    assert_eq!(batch.batch_number, 1);
    assert_eq!(batch.started_at, "2025-12-30 19:16:00");
    assert_eq!(batch.ended_at, None);
    assert!(!batch.is_fresh_start);
    let attempt = store.attempt(1).unwrap();
    assert_eq!(attempt.batch_id, 1);
    assert_eq!(attempt.attempt_number, 1);
    assert_eq!(attempt.timestamp, "2025-12-30 19:16:00");
    assert!(attempt.successful);
}

#[test]
fn identity_resolution_is_idempotent() {
    let mut store = Store::new();
    let first = practise(&mut store, false, false, "2025-12-30 19:16:00");
    let second = practise(&mut store, false, false, "2025-12-30 19:20:00");
    assert_eq!(first.problem_id, second.problem_id);
    assert_eq!(first.generated_id, second.generated_id);
    assert_eq!(store.subjects().len(), 1);
    assert_eq!(store.materials().len(), 1);
    assert_eq!(store.subject_materials().len(), 1);
    assert_eq!(store.problems().len(), 1);
    assert_eq!(store.subject_id("Algebra"), Some(1));
    assert_eq!(store.material_id("Linear Algebra Done Right"), Some(1));
}

#[test]
fn a_material_keeps_its_secondary_name() {
    let mut store = Store::new();
    log_attempt_at(
        &mut store,
        "Russian".to_string(),
        "Grammar".to_string(),
        Some("Грамматика".to_string()),
        "Cases".to_string(),
        None,
        None,
        report(true),
        false,
        &at("2025-12-30 19:16:00"),
    )
    .unwrap();
    log_attempt_at(
        &mut store,
        "Russian".to_string(),
        "Grammar".to_string(),
        Some("Другое".to_string()),
        "Verbs".to_string(),
        None,
        None,
        report(true),
        false,
        &at("2025-12-30 19:17:00"),
    )
    .unwrap();
    assert_eq!(store.materials().len(), 1);
    assert_eq!(store.materials()[0].name_ru.as_deref(), Some("Грамматика"));
}

#[test]
fn one_material_can_serve_two_subjects() {
    let mut store = Store::new();
    log(&mut store, "Algebra", "Shared Notes", "One", report(true), false, "2025-12-30 19:16:00")
        .unwrap();
    log(&mut store, "Geometry", "Shared Notes", "One", report(true), false, "2025-12-30 19:17:00")
        .unwrap();
    assert_eq!(store.subjects().len(), 2);
    assert_eq!(store.materials().len(), 1);
    assert_eq!(store.subject_materials().len(), 2);
    assert_eq!(store.problems().len(), 1);
}

#[test]
fn content_type_follows_description_and_image() {
    let mut store = Store::new();
    let now = at("2025-12-30 19:16:00");
    let mut kinds = Vec::new();
    for (title, description, image) in [
        ("plain", None, None),
        ("described", Some("text"), None),
        ("pictured", None, Some("a.png")),
        ("both", Some("text"), Some("a.png")),
    ] {
        let response = log_attempt_at(
            &mut store,
            "Algebra".to_string(),
            "Book".to_string(),
            None,
            title.to_string(),
            description.map(str::to_string),
            image.map(str::to_string),
            report(true),
            false,
            &now,
        )
        .unwrap();
        kinds.push(store.problem(response.problem_id).unwrap().content_type);
    }
    assert_eq!(
        kinds,
        vec![ContentType::Text, ContentType::Text, ContentType::Image, ContentType::Both]
    );
}

#[test]
fn blank_subject_is_rejected_before_anything_is_stored() {
    let mut store = Store::new();
    let error = log(&mut store, "   ", "Book", "One", report(true), false, "2025-12-30 19:16:00")
        .unwrap_err();
    assert_eq!(error.kind(), Fault::Validation(Field::SubjectName));
    assert_eq!(error.message(), "Subject name cannot be empty");
    assert_eq!(store.subjects().len(), 0);
    assert_eq!(store.materials().len(), 0);
}

#[test]
fn blank_material_is_rejected_before_anything_is_stored() {
    let mut store = Store::new();
    let error = log(&mut store, "Algebra", "\t\n", "One", report(true), false, "2025-12-30 19:16:00")
        .unwrap_err();
    assert_eq!(error.kind(), Fault::Validation(Field::MaterialName));
    assert_eq!(error.message(), "Material name cannot be empty");
    assert_eq!(store.subjects().len(), 0);
}

#[test]
fn blank_title_is_rejected_before_anything_is_stored() {
    let mut store = Store::new();
    let error =
        log(&mut store, "Algebra", "Book", "", report(true), false, "2025-12-30 19:16:00").unwrap_err();
    assert_eq!(error.kind(), Fault::Validation(Field::ProblemTitle));
    assert_eq!(error.message(), "Problem title cannot be empty");
    assert_eq!(store.subjects().len(), 0);
}

#[test]
fn second_attempt_within_the_hour_joins_the_batch() {
    let mut store = Store::new();
    practise(&mut store, false, false, "2025-12-30 19:16:00");
    let second = practise(&mut store, false, false, "2025-12-30 20:16:00");
    assert_eq!(second.batch_number, 1);
    assert_eq!(second.attempt_number, 2);
    assert!(!second.batch_closed);
    assert_eq!(store.batches().len(), 1);
    assert_eq!(store.batches()[0].ended_at, None);
    assert_eq!(store.attempt(second.attempt_id).unwrap().batch_id, 1);
}

#[test]
fn attempt_after_three_hours_closes_the_batch_two_hours_after_the_last_attempt() {
    let mut store = Store::new();
    practise(&mut store, false, false, "2025-12-30 19:16:00");
    let second = practise(&mut store, false, false, "2025-12-30 22:16:00");
    assert_eq!(second.batch_number, 2);
    assert_eq!(second.attempt_number, 2);
    assert!(second.batch_closed);
    assert_eq!(store.batches().len(), 2);
    assert_eq!(store.batches()[0].ended_at.as_deref(), Some("2025-12-30 21:16:00"));
    assert_eq!(store.batches()[1].batch_number, 2);
    assert_eq!(store.batches()[1].started_at, "2025-12-30 22:16:00");
    assert_eq!(store.batches()[1].ended_at, None);
    assert!(!store.batches()[1].is_fresh_start);
    assert_eq!(store.attempt(second.attempt_id).unwrap().batch_id, store.batches()[1].id);
}

#[test]
fn exactly_two_hours_still_joins_and_one_second_more_does_not() {
    let mut store = Store::new();
    practise(&mut store, false, false, "2025-12-30 19:16:00");
    let on_the_limit = practise(&mut store, false, false, "2025-12-30 21:16:00");
    assert_eq!(on_the_limit.batch_number, 1);
    assert!(!on_the_limit.batch_closed);
    let past_the_limit = practise(&mut store, false, false, "2025-12-30 23:16:01");
    assert_eq!(past_the_limit.batch_number, 2);
    assert!(past_the_limit.batch_closed);
    assert_eq!(store.batches()[0].ended_at.as_deref(), Some("2025-12-30 23:16:00"));
}

#[test]
fn idle_time_counts_from_the_last_attempt_of_the_batch() {
    let mut store = Store::new();
    practise(&mut store, false, false, "2025-12-30 19:00:00");
    practise(&mut store, false, false, "2025-12-30 20:30:00");
    let third = practise(&mut store, false, false, "2025-12-30 22:00:00");
    assert_eq!(third.batch_number, 1);
    assert!(!third.batch_closed);
}

#[test]
fn fresh_start_forces_a_new_batch_under_the_threshold() {
    let mut store = Store::new();
    practise(&mut store, false, false, "2025-12-30 19:16:00");
    let second = practise(&mut store, false, true, "2025-12-30 19:26:00");
    assert_eq!(second.batch_number, 2);
    assert!(second.batch_closed);
    assert_eq!(store.batches()[0].ended_at.as_deref(), Some("2025-12-30 21:16:00"));
    assert!(store.batches()[1].is_fresh_start);
    assert_eq!(store.batches()[1].ended_at, None);
}

#[test]
fn fresh_start_on_a_new_problem_opens_batch_one_and_closes_nothing() {
    let mut store = Store::new();
    let first = practise(&mut store, false, true, "2025-12-30 19:16:00");
    assert_eq!(first.batch_number, 1);
    assert!(!first.batch_closed);
    assert!(store.batches()[0].is_fresh_start);
}

#[test]
fn batches_of_different_problems_do_not_mix() {
    let mut store = Store::new();
    log(&mut store, "Algebra", "Book", "One", report(true), false, "2025-12-30 19:00:00").unwrap();
    let other =
        log(&mut store, "Algebra", "Book", "Two", report(true), false, "2025-12-30 23:00:00").unwrap();
    assert_eq!(other.batch_number, 1);
    assert_eq!(other.attempt_number, 1);
    assert!(!other.batch_closed);
    assert_eq!(store.batches()[0].ended_at, None);
    let back =
        log(&mut store, "Algebra", "Book", "One", report(true), false, "2025-12-30 23:30:00").unwrap();
    assert_eq!(back.batch_number, 2);
    assert!(back.batch_closed);
    assert_eq!(store.batches()[0].ended_at.as_deref(), Some("2025-12-30 21:00:00"));
    assert_eq!(store.batches()[1].ended_at, None);
}

#[test]
fn attempt_numbers_run_across_batches() {
    let mut store = Store::new();
    practise(&mut store, false, false, "2025-12-30 10:00:00");
    practise(&mut store, false, false, "2025-12-30 10:10:00");
    practise(&mut store, false, false, "2025-12-30 10:20:00");
    let fourth = practise(&mut store, false, true, "2025-12-30 10:30:00");
    let fifth = practise(&mut store, false, false, "2025-12-30 10:40:00");
    assert_eq!((fourth.batch_number, fourth.attempt_number), (2, 4));
    assert_eq!((fifth.batch_number, fifth.attempt_number), (2, 5));
    let sixth = practise(&mut store, false, false, "2025-12-30 10:50:00");
    assert_eq!(sixth.attempt_number, 6);
    assert_eq!(sixth.batch_number, 2);
    assert_eq!(store.attempt_count(sixth.problem_id), 6);
}

#[test]
fn attempt_numbers_are_counted_per_problem() {
    let mut store = Store::new();
    log(&mut store, "Algebra", "Book", "One", report(true), false, "2025-12-30 19:00:00").unwrap();
    log(&mut store, "Algebra", "Book", "One", report(true), false, "2025-12-30 19:01:00").unwrap();
    let other =
        log(&mut store, "Algebra", "Book", "Two", report(true), false, "2025-12-30 19:02:00").unwrap();
    assert_eq!(other.attempt_id, 3);
    assert_eq!(other.attempt_number, 1);
}

#[test]
fn five_successes_in_a_row_mark_the_problem_solved_and_a_failure_resets_it() {
    let mut store = Store::new();
    let outcomes = [false, true, true, true, true];
    let mut minute = 10;
    let mut problem_id = 0;
    for outcome in outcomes {
        let response =
            practise(&mut store, outcome, false, &format!("2025-12-30 10:{}:00", minute));
        problem_id = response.problem_id;
        minute += 1;
        assert!(!store.problem(problem_id).unwrap().is_solved);
    }
    practise(&mut store, true, false, "2025-12-30 10:20:00");
    assert!(store.problem(problem_id).unwrap().is_solved);
    practise(&mut store, false, false, "2025-12-30 10:21:00");
    assert!(!store.problem(problem_id).unwrap().is_solved);
}

#[test]
fn four_successes_are_not_mastery() {
    let mut store = Store::new();
    for minute in 10..14 {
        practise(&mut store, true, false, &format!("2025-12-30 10:{}:00", minute));
    }
    assert!(!store.problem(1).unwrap().is_solved);
    practise(&mut store, true, false, "2025-12-30 10:14:00");
    assert!(store.problem(1).unwrap().is_solved);
}

#[test]
fn the_streak_spans_batches() {
    let mut store = Store::new();
    practise(&mut store, true, false, "2025-12-28 10:00:00");
    practise(&mut store, true, false, "2025-12-28 10:05:00");
    practise(&mut store, true, false, "2025-12-29 10:00:00");
    practise(&mut store, true, true, "2025-12-29 10:05:00");
    let last = practise(&mut store, true, false, "2025-12-30 10:00:00");
    assert_eq!(last.batch_number, 4);
    assert!(store.problem(1).unwrap().is_solved);
}

#[test]
fn a_success_evaluates_mastery_afresh() {
    let mut store = Store::new();
    for minute in 10..15 {
        practise(&mut store, true, false, &format!("2025-12-30 10:{}:00", minute));
    }
    assert!(store.problem(1).unwrap().is_solved);
    // A correction turns the fourth attempt into a failure; the flag is not
    // looked at.
    update_attempt(&mut store, 4, report(false)).unwrap();
    assert!(store.problem(1).unwrap().is_solved);
    // The next success looks at the five most recent attempts again.
    practise(&mut store, true, false, "2025-12-30 10:20:00");
    assert!(!store.problem(1).unwrap().is_solved);
}

#[test]
fn mastery_of_one_problem_leaves_the_others_alone() {
    let mut store = Store::new();
    for minute in 10..15 {
        log(&mut store, "Algebra", "Book", "One", report(true), false, &format!("2025-12-30 10:{}:00", minute))
            .unwrap();
        log(&mut store, "Algebra", "Book", "Two", report(minute != 12), false, &format!("2025-12-30 10:{}:30", minute))
            .unwrap();
    }
    assert!(store.problem(1).unwrap().is_solved);
    assert!(!store.problem(2).unwrap().is_solved);
}

#[test]
fn repeated_and_empty_resources_leave_one_row_and_one_link() {
    let mut store = Store::new();
    let mut attempt = report(true);
    attempt.resources = vec!["Book A".to_string(), "Book A".to_string(), String::new()];
    let response =
        log(&mut store, "Algebra", "Book", "One", attempt, false, "2025-12-30 19:16:00").unwrap();
    assert_eq!(store.resources().len(), 1);
    assert_eq!(store.resources()[0].name, "Book A");
    assert_eq!(store.resources()[0].kind, ResourceKind::Other);
    assert_eq!(store.attempt_resources().len(), 1);
    assert_eq!(store.resources_of(response.attempt_id), vec![store.resources()[0].id]);
}

#[test]
fn resources_are_shared_between_attempts_and_matched_by_case() {
    let mut store = Store::new();
    let mut first = report(true);
    first.resources = vec!["Book A".to_string(), "Video".to_string()];
    let mut second = report(true);
    second.resources = vec!["Video".to_string(), "book a".to_string(), "Video".to_string()];
    let one = log(&mut store, "Algebra", "Book", "One", first, false, "2025-12-30 19:16:00").unwrap();
    let two = log(&mut store, "Algebra", "Book", "One", second, false, "2025-12-30 19:17:00").unwrap();
    let names: Vec<&str> = store.resources().iter().map(|row| row.name.as_str()).collect();
    assert_eq!(names, vec!["Book A", "Video", "book a"]);
    assert_eq!(store.resources_of(one.attempt_id), vec![1, 2]);
    assert_eq!(store.resources_of(two.attempt_id), vec![2, 3]);
    assert_eq!(store.attempt_resources().len(), 4);
}

#[test]
fn details_are_stored_as_reported() {
    let mut store = Store::new();
    let attempt = AttemptInput {
        successful: false,
        time_spent_minutes: Some(12.5f64.to_bits()),
        difficulty_rating: Some(4),
        errors: Some("sign error".to_string()),
        resolution: Some("redo".to_string()),
        commentary: Some("close".to_string()),
        status_tag: Some("stuck".to_string()),
        resources: Vec::new(),
    };
    log(&mut store, "Algebra", "Book", "One", attempt, false, "2025-12-30 19:16:00").unwrap();
    let row = store.attempt(1).unwrap();
    assert!(!row.successful);
    assert_eq!(row.time_spent_minutes.map(f64::from_bits), Some(12.5));
    assert_eq!(row.difficulty_rating, Some(4));
    assert_eq!(row.errors.as_deref(), Some("sign error"));
    assert_eq!(row.resolution.as_deref(), Some("redo"));
    assert_eq!(row.commentary.as_deref(), Some("close"));
    assert_eq!(row.status_tag.as_deref(), Some("stuck"));
}

#[test]
fn every_status_tag_of_the_vocabulary_is_admitted() {
    let mut store = Store::new();
    for (minute, tag) in ["stuck", "breakthrough", "review", "first_attempt", "debugging"]
        .iter()
        .enumerate()
    {
        let mut attempt = report(true);
        attempt.status_tag = Some(tag.to_string());
        log(&mut store, "Algebra", "Book", "One", attempt, false, &format!("2025-12-30 10:1{}:00", minute))
            .unwrap();
    }
    assert_eq!(store.attempts().len(), 5);
}

#[test]
fn an_unknown_status_tag_is_refused_after_the_batch_was_opened() {
    let mut store = Store::new();
    let mut attempt = report(true);
    attempt.status_tag = Some("Stuck".to_string());
    let error =
        log(&mut store, "Algebra", "Book", "One", attempt, false, "2025-12-30 19:16:00").unwrap_err();
    assert_eq!(error.kind(), Fault::Persistence(StoreFault::CheckFailed));
    assert_eq!(error.message(), "CHECK constraint failed");
    // What the earlier steps did stays.
    assert_eq!(store.problems().len(), 1);
    assert_eq!(store.batches().len(), 1);
    assert_eq!(store.attempts().len(), 0);
}

#[test]
fn a_difficulty_outside_one_to_five_is_refused() {
    for rating in [0, 6, -1] {
        let mut store = Store::new();
        let mut attempt = report(true);
        attempt.difficulty_rating = Some(rating);
        let error = log(&mut store, "Algebra", "Book", "One", attempt, false, "2025-12-30 19:16:00")
            .unwrap_err();
        assert_eq!(error.kind(), Fault::Persistence(StoreFault::CheckFailed));
    }
    for rating in [1, 5] {
        let mut store = Store::new();
        let mut attempt = report(true);
        attempt.difficulty_rating = Some(rating);
        assert!(log(&mut store, "Algebra", "Book", "One", attempt, false, "2025-12-30 19:16:00").is_ok());
    }
}

#[test]
fn an_open_batch_without_attempts_is_joined() {
    let mut store = Store::new();
    let mut refused = report(true);
    refused.difficulty_rating = Some(9);
    log(&mut store, "Algebra", "Book", "One", refused, false, "2025-12-30 19:16:00").unwrap_err();
    let response =
        log(&mut store, "Algebra", "Book", "One", report(true), false, "2025-12-31 19:16:00").unwrap();
    assert_eq!(response.batch_number, 1);
    assert_eq!(response.attempt_number, 1);
    assert!(!response.batch_closed);
    assert_eq!(store.batches().len(), 1);
}

#[test]
fn a_fresh_start_closes_an_open_batch_without_attempts_at_its_start() {
    let mut store = Store::new();
    let mut refused = report(true);
    refused.difficulty_rating = Some(9);
    log(&mut store, "Algebra", "Book", "One", refused, false, "2025-12-30 19:16:00").unwrap_err();
    let response =
        log(&mut store, "Algebra", "Book", "One", report(true), true, "2025-12-31 08:00:00").unwrap();
    assert_eq!(response.batch_number, 2);
    assert!(response.batch_closed);
    assert_eq!(store.batches()[0].ended_at.as_deref(), Some("2025-12-30 19:16:00"));
    assert_eq!(store.batches()[1].ended_at, None);
}

fn store_with_a_stored_timestamp(timestamp: &str) -> Store {
    let mut store = Store::new();
    store.insert_subject(Subject { id: 1, name: "Algebra".to_string() }).unwrap();
    store
        .insert_material(Material { id: 1, name_en: "Book".to_string(), name_ru: None })
        .unwrap();
    store.link_subject_material(1, 1).unwrap();
    store
        .insert_problem(Problem {
            id: 1,
            generated_id: "ALGE_001".to_string(),
            material_id: 1,
            title: "One".to_string(),
            description: None,
            image_filename: None,
            content_type: ContentType::Text,
            is_solved: false,
        })
        .unwrap();
    store
        .insert_batch(Batch {
            id: 1,
            problem_id: 1,
            batch_number: 1,
            started_at: "2025-12-30 19:00:00".to_string(),
            ended_at: None,
            is_fresh_start: false,
        })
        .unwrap();
    let mut attempt = plain_attempt(1, 1, 1);
    attempt.timestamp = timestamp.to_string();
    store.insert_attempt(attempt).unwrap();
    store
}

fn plain_attempt(id: i64, batch_id: i64, attempt_number: i32) -> Attempt {
    Attempt {
        id,
        batch_id,
        attempt_number,
        successful: true,
        time_spent_minutes: None,
        difficulty_rating: None,
        errors: None,
        resolution: None,
        commentary: None,
        status_tag: None,
        timestamp: "2025-12-30 19:00:00".to_string(),
    }
}

#[test]
fn a_stored_timestamp_that_cannot_be_read_fails_the_call() {
    let mut store = store_with_a_stored_timestamp("yesterday evening");
    let error =
        log(&mut store, "Algebra", "Book", "One", report(true), false, "2025-12-30 19:16:00").unwrap_err();
    assert_eq!(error.kind(), Fault::TimeFormat);
    assert_eq!(error.message(), "Time parse error: input contains invalid characters");
    assert_eq!(store.attempts().len(), 1);
    assert_eq!(store.batches().len(), 1);
    assert_eq!(store.batches()[0].ended_at, None);
}

#[test]
fn a_fresh_start_fails_too_where_the_close_time_cannot_be_computed() {
    let mut store = store_with_a_stored_timestamp("2025-12-30T19:00:00");
    let error =
        log(&mut store, "Algebra", "Book", "One", report(true), true, "2025-12-30 19:16:00").unwrap_err();
    assert_eq!(error.kind(), Fault::TimeFormat);
    assert_eq!(store.batches().len(), 1);
    assert_eq!(store.batches()[0].ended_at, None);
}

#[test]
fn a_loaded_store_continues_where_it_stood() {
    let mut store = store_with_a_stored_timestamp("2025-12-30 19:05:00");
    let response =
        log(&mut store, "Algebra", "Book", "One", report(true), false, "2025-12-30 19:16:00").unwrap();
    assert_eq!(response.problem_id, 1);
    assert_eq!(response.generated_id, "ALGE_001");
    assert_eq!(response.attempt_id, 2);
    assert_eq!(response.attempt_number, 2);
    assert_eq!(response.batch_number, 1);
}

#[test]
fn an_exhausted_table_refuses_a_new_subject() {
    let mut store = Store::new();
    store.insert_subject(Subject { id: i64::MAX, name: "Last".to_string() }).unwrap();
    let error = log(&mut store, "Algebra", "Book", "One", report(true), false, "2025-12-30 19:16:00")
        .unwrap_err();
    assert_eq!(error.kind(), Fault::Persistence(StoreFault::IdsExhausted));
    assert_eq!(error.message(), "database or disk is full");
    assert_eq!(store.subjects().len(), 1);
    // A subject that is there is still found.
    assert!(log(&mut store, "Last", "Book", "One", report(true), false, "2025-12-30 19:16:00").is_ok());
}

#[test]
fn a_batch_number_that_would_overflow_is_refused_after_the_batch_was_closed() {
    let mut store = Store::new();
    store.insert_subject(Subject { id: 1, name: "Algebra".to_string() }).unwrap();
    store
        .insert_material(Material { id: 1, name_en: "Book".to_string(), name_ru: None })
        .unwrap();
    store.link_subject_material(1, 1).unwrap();
    store
        .insert_problem(Problem {
            id: 1,
            generated_id: "ALGE_001".to_string(),
            material_id: 1,
            title: "One".to_string(),
            description: None,
            image_filename: None,
            content_type: ContentType::Text,
            is_solved: false,
        })
        .unwrap();
    store
        .insert_batch(Batch {
            id: 1,
            problem_id: 1,
            batch_number: i32::MAX,
            started_at: "2025-12-30 19:00:00".to_string(),
            ended_at: None,
            is_fresh_start: false,
        })
        .unwrap();
    let error =
        log(&mut store, "Algebra", "Book", "One", report(true), true, "2025-12-30 19:16:00").unwrap_err();
    assert_eq!(error.kind(), Fault::Persistence(StoreFault::CounterOverflow));
    assert_eq!(error.message(), "integer out of range");
    assert_eq!(store.batches()[0].ended_at.as_deref(), Some("2025-12-30 19:00:00"));
    // With no batch open, numbering starts at 1 again.
    let again =
        log(&mut store, "Algebra", "Book", "One", report(true), false, "2025-12-30 19:17:00").unwrap();
    assert_eq!(again.batch_number, 1);
    assert!(!again.batch_closed);
}

#[test]
fn batch_one_is_refused_where_a_closed_batch_has_the_number() {
    let mut store = store_with_a_stored_timestamp("2025-12-30 19:05:00");
    let first =
        log(&mut store, "Algebra", "Book", "One", report(true), true, "2025-12-30 19:16:00").unwrap();
    assert_eq!(first.batch_number, 2);
    // A store in which every batch of the problem is closed.
    let mut closed = Store::new();
    closed.insert_subject(Subject { id: 1, name: "Algebra".to_string() }).unwrap();
    closed
        .insert_material(Material { id: 1, name_en: "Book".to_string(), name_ru: None })
        .unwrap();
    closed.link_subject_material(1, 1).unwrap();
    closed
        .insert_problem(Problem {
            id: 1,
            generated_id: "ALGE_001".to_string(),
            material_id: 1,
            title: "One".to_string(),
            description: None,
            image_filename: None,
            content_type: ContentType::Text,
            is_solved: false,
        })
        .unwrap();
    closed
        .insert_batch(Batch {
            id: 1,
            problem_id: 1,
            batch_number: 1,
            started_at: "2025-12-30 19:00:00".to_string(),
            ended_at: Some("2025-12-30 21:00:00".to_string()),
            is_fresh_start: false,
        })
        .unwrap();
    let error = log(&mut closed, "Algebra", "Book", "One", report(true), false, "2025-12-30 23:00:00")
        .unwrap_err();
    assert_eq!(error.kind(), Fault::Persistence(StoreFault::Duplicate));
    assert_eq!(error.message(), "UNIQUE constraint failed");
    assert_eq!(closed.batches().len(), 1);
    assert_eq!(closed.attempts().len(), 0);
}

#[test]
fn updating_an_attempt_overwrites_its_details_only() {
    let mut store = Store::new();
    let mut first = report(false);
    first.resources = vec!["Book A".to_string()];
    practise(&mut store, true, false, "2025-12-30 19:00:00");
    log(&mut store, "Algebra", "Linear Algebra Done Right", "Exercise 1.A.1", first, false, "2025-12-30 19:10:00")
        .unwrap();
    let mut correction = report(true);
    correction.difficulty_rating = Some(2);
    correction.commentary = Some("it was right after all".to_string());
    correction.resources = vec!["Ignored".to_string()];
    update_attempt(&mut store, 2, correction).unwrap();
    let row = store.attempt(2).unwrap();
    assert!(row.successful);
    assert_eq!(row.difficulty_rating, Some(2));
    assert_eq!(row.commentary.as_deref(), Some("it was right after all"));
    assert_eq!(row.attempt_number, 2);
    assert_eq!(row.batch_id, 1);
    assert_eq!(row.timestamp, "2025-12-30 19:10:00");
    assert_eq!(store.resources().len(), 1);
    assert_eq!(store.resources_of(2), vec![1]);
    assert!(!store.problem(1).unwrap().is_solved);
}

#[test]
fn updating_an_attempt_that_is_not_there_changes_nothing() {
    let mut store = Store::new();
    practise(&mut store, true, false, "2025-12-30 19:00:00");
    assert!(update_attempt(&mut store, 99, report(false)).is_ok());
    assert!(store.attempt(1).unwrap().successful);
    // Not even what the store would refuse of an attempt that is there.
    let mut refused = report(false);
    refused.difficulty_rating = Some(12);
    assert!(update_attempt(&mut store, 99, refused).is_ok());
}

#[test]
fn updating_an_attempt_with_details_that_the_store_refuses_fails() {
    let mut store = Store::new();
    practise(&mut store, true, false, "2025-12-30 19:00:00");
    let mut refused = report(false);
    refused.status_tag = Some("done".to_string());
    let error = update_attempt(&mut store, 1, refused).unwrap_err();
    assert_eq!(error.kind(), Fault::Persistence(StoreFault::CheckFailed));
    assert!(store.attempt(1).unwrap().successful);
}

#[test]
fn deleting_an_attempt_removes_its_links_and_keeps_the_rest() {
    let mut store = Store::new();
    let mut first = report(true);
    first.resources = vec!["Book A".to_string(), "Video".to_string()];
    let mut second = report(true);
    second.resources = vec!["Video".to_string()];
    log(&mut store, "Algebra", "Book", "One", first, false, "2025-12-30 19:00:00").unwrap();
    log(&mut store, "Algebra", "Book", "One", second, false, "2025-12-30 19:10:00").unwrap();
    delete_attempt(&mut store, 1).unwrap();
    assert!(store.attempt(1).is_none());
    assert_eq!(store.attempts().len(), 1);
    assert_eq!(store.resources_of(1), Vec::<i64>::new());
    assert_eq!(store.resources_of(2), vec![2]);
    assert_eq!(store.resources().len(), 2);
    assert_eq!(store.batches().len(), 1);
    assert!(delete_attempt(&mut store, 1).is_ok());
    assert_eq!(store.attempts().len(), 1);
}

#[test]
fn after_a_deletion_the_next_number_is_the_count_plus_one_and_ids_are_not_reused() {
    let mut store = Store::new();
    practise(&mut store, true, false, "2025-12-30 19:00:00");
    practise(&mut store, true, false, "2025-12-30 19:01:00");
    practise(&mut store, true, false, "2025-12-30 19:02:00");
    delete_attempt(&mut store, 3).unwrap();
    let next = practise(&mut store, true, false, "2025-12-30 19:03:00");
    assert_eq!(next.attempt_number, 3);
    assert_eq!(next.attempt_id, 4);
}

#[test]
fn deleting_does_not_look_at_mastery_again() {
    let mut store = Store::new();
    for minute in 10..15 {
        practise(&mut store, true, false, &format!("2025-12-30 10:{}:00", minute));
    }
    delete_attempt(&mut store, 5).unwrap();
    assert!(store.problem(1).unwrap().is_solved);
}

#[test]
fn logging_by_the_clock_stamps_a_readable_time() {
    let mut store = Store::new();
    let response = log_attempt(
        &mut store,
        "Algebra".to_string(),
        "Book".to_string(),
        None,
        "One".to_string(),
        None,
        None,
        report(true),
        false,
    )
    .unwrap();
    assert_eq!(response.attempt_number, 1);
    assert_eq!(response.generated_id, "ALGE_001");
    let stamped = Timestamp::parse(&store.attempt(1).unwrap().timestamp).unwrap();
    let now = Timestamp::now().unwrap();
    assert!(now.unix() - stamped.unix() >= 0);
    assert!(now.unix() - stamped.unix() < 60);
    assert_eq!(store.batch(1).unwrap().started_at, store.attempt(1).unwrap().timestamp);
}
