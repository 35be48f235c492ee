use mastery::model::{ContentType, ResourceKind};
use mastery::rows::{Attempt, Batch, Material, Problem, Resource, Subject};
use mastery::store::{details_admitted, status_known};
use mastery::{update_problem, update_problem_image, Store, StoreFault};

fn subject(id: i64, name: &str) -> Subject {
    Subject { id, name: name.to_string() }
}

fn material(id: i64, name: &str) -> Material {
    Material { id, name_en: name.to_string(), name_ru: None }
}

fn problem(id: i64, material_id: i64, title: &str, generated_id: &str) -> Problem {
    Problem {
        id,
        generated_id: generated_id.to_string(),
        material_id,
        title: title.to_string(),
        description: None,
        image_filename: None,
        content_type: ContentType::Text,
        is_solved: false,
    }
}

fn batch(id: i64, problem_id: i64, number: i32, ended_at: Option<&str>) -> Batch {
    Batch {
        id,
        problem_id,
        batch_number: number,
        started_at: "2025-12-30 19:00:00".to_string(),
        ended_at: ended_at.map(str::to_string),
        is_fresh_start: false,
    }
}

fn attempt(id: i64, batch_id: i64, successful: bool) -> Attempt {
    Attempt {
        id,
        batch_id,
        attempt_number: 1,
        successful,
        time_spent_minutes: None,
        difficulty_rating: None,
        errors: None,
        resolution: None,
        commentary: None,
        status_tag: None,
        timestamp: "2025-12-30 19:00:00".to_string(),
    }
}

fn seeded() -> Store {
    let mut store = Store::new();
    store.insert_subject(subject(1, "Algebra")).unwrap();
    store.insert_material(material(1, "Book")).unwrap();
    store.link_subject_material(1, 1).unwrap();
    store.insert_problem(problem(1, 1, "One", "ALGE_001")).unwrap();
    store.insert_batch(batch(1, 1, 1, None)).unwrap();
    store.insert_attempt(attempt(1, 1, true)).unwrap();
    store.insert_resource(Resource { id: 1, name: "Book A".to_string(), kind: ResourceKind::Book }).unwrap();
    store.link_attempt_resource(1, 1).unwrap();
    store
}

#[test]
fn a_new_store_is_empty() {
    let store = Store::new();
    assert!(store.subjects().is_empty());
    assert!(store.materials().is_empty());
    assert!(store.subject_materials().is_empty());
    assert!(store.problems().is_empty());
    assert!(store.batches().is_empty());
    assert!(store.attempts().is_empty());
    assert!(store.resources().is_empty());
    assert!(store.attempt_resources().is_empty());
    assert_eq!(store.last_subject_id(), 0);
    assert_eq!(store.last_attempt_id(), 0);
    assert_eq!(store.subject_id("Algebra"), None);
    assert!(store.problem(1).is_none());
    assert!(store.open_batch(1).is_none());
    assert!(store.latest_attempt(1).is_none());
    assert_eq!(store.attempt_count(1), 0);
    assert_eq!(store.recent_outcomes(1, 5), Vec::<bool>::new());
}

#[test]
fn ids_must_grow() {
    let mut store = Store::new();
    store.insert_subject(subject(5, "Algebra")).unwrap();
    assert_eq!(store.last_subject_id(), 5);
    assert_eq!(store.insert_subject(subject(5, "Geometry")), Err(StoreFault::StaleId));
    assert_eq!(store.insert_subject(subject(3, "Geometry")), Err(StoreFault::StaleId));
    assert_eq!(store.insert_subject(subject(0, "Geometry")), Err(StoreFault::StaleId));
    assert_eq!(store.insert_subject(subject(6, "Geometry")), Ok(()));
    assert_eq!(store.subjects().len(), 2);
    assert_eq!(store.subject_id("Geometry"), Some(6));
}

#[test]
fn names_are_unique_and_case_sensitive() {
    let mut store = seeded();
    assert_eq!(store.insert_subject(subject(2, "Algebra")), Err(StoreFault::Duplicate));
    assert_eq!(store.insert_subject(subject(2, "algebra")), Ok(()));
    assert_eq!(store.insert_material(material(2, "Book")), Err(StoreFault::Duplicate));
    assert_eq!(
        store.insert_resource(Resource { id: 2, name: "Book A".to_string(), kind: ResourceKind::Other }),
        Err(StoreFault::Duplicate)
    );
    assert_eq!(store.resource_id("Book A"), Some(1));
    assert_eq!(store.resource_id("book a"), None);
}

#[test]
fn links_are_made_once_and_need_both_ends() {
    let mut store = seeded();
    assert_eq!(store.link_subject_material(1, 1), Ok(()));
    assert_eq!(store.subject_materials().len(), 1);
    assert_eq!(store.link_subject_material(1, 7), Err(StoreFault::MissingParent));
    assert_eq!(store.link_subject_material(7, 1), Err(StoreFault::MissingParent));
    assert_eq!(store.link_attempt_resource(1, 1), Ok(()));
    assert_eq!(store.attempt_resources().len(), 1);
    assert_eq!(store.link_attempt_resource(2, 1), Err(StoreFault::MissingParent));
    assert_eq!(store.link_attempt_resource(1, 2), Err(StoreFault::MissingParent));
}

#[test]
fn problems_are_unique_by_title_within_a_material_and_by_identifier() {
    let mut store = seeded();
    store.insert_material(material(2, "Other Book")).unwrap();
    assert_eq!(store.insert_problem(problem(2, 1, "One", "ALGE_002")), Err(StoreFault::Duplicate));
    assert_eq!(store.insert_problem(problem(2, 1, "Two", "ALGE_001")), Err(StoreFault::Duplicate));
    assert_eq!(store.insert_problem(problem(2, 9, "Two", "ALGE_002")), Err(StoreFault::MissingParent));
    assert_eq!(store.insert_problem(problem(1, 1, "Two", "ALGE_002")), Err(StoreFault::StaleId));
    assert_eq!(store.insert_problem(problem(2, 2, "One", "ALGE_002")), Ok(()));
    assert_eq!(store.find_problem(2, "One").map(|row| row.id), Some(2));
    assert_eq!(store.find_problem(1, "One").map(|row| row.id), Some(1));
    assert!(store.find_problem(1, "one").is_none());
    assert!(store.has_display_id("ALGE_002"));
    assert!(!store.has_display_id("ALGE_003"));
}

#[test]
fn a_problem_has_one_open_batch_at_most() {
    let mut store = seeded();
    assert_eq!(store.insert_batch(batch(2, 1, 2, None)), Err(StoreFault::OpenBatchExists));
    assert_eq!(store.insert_batch(batch(2, 1, 1, Some("2025-12-30 21:00:00"))), Err(StoreFault::Duplicate));
    assert_eq!(store.insert_batch(batch(2, 4, 1, None)), Err(StoreFault::MissingParent));
    assert_eq!(store.insert_batch(batch(1, 1, 2, Some("2025-12-30 21:00:00"))), Err(StoreFault::StaleId));
    assert_eq!(store.insert_batch(batch(2, 1, 2, Some("2025-12-30 21:00:00"))), Ok(()));
    assert_eq!(store.open_batch(1).map(|row| row.id), Some(1));
    store.close_batch(1, "2025-12-30 20:00:00".to_string());
    assert!(store.open_batch(1).is_none());
    assert_eq!(store.batch(1).unwrap().ended_at.as_deref(), Some("2025-12-30 20:00:00"));
    assert_eq!(store.insert_batch(batch(3, 1, 3, None)), Ok(()));
    assert_eq!(store.open_batch(1).map(|row| row.batch_number), Some(3));
    assert!(store.has_batch_number(1, 2));
    assert!(!store.has_batch_number(1, 4));
    assert!(!store.has_batch_number(2, 1));
}

#[test]
fn closing_a_batch_that_is_not_there_changes_nothing() {
    let mut store = seeded();
    store.close_batch(9, "2025-12-30 20:00:00".to_string());
    assert_eq!(store.batches().len(), 1);
    assert_eq!(store.batch(1).unwrap().ended_at, None);
}

#[test]
fn attempts_need_a_batch_and_admitted_details() {
    let mut store = seeded();
    assert_eq!(store.insert_attempt(attempt(2, 5, true)), Err(StoreFault::MissingParent));
    assert_eq!(store.insert_attempt(attempt(1, 1, true)), Err(StoreFault::StaleId));
    let mut rated = attempt(2, 1, true);
    rated.difficulty_rating = Some(6);
    assert_eq!(store.insert_attempt(rated), Err(StoreFault::CheckFailed));
    let mut tagged = attempt(2, 1, true);
    tagged.status_tag = Some("solved".to_string());
    assert_eq!(store.insert_attempt(tagged), Err(StoreFault::CheckFailed));
    // The check comes before the id.
    let mut both = attempt(1, 1, true);
    both.difficulty_rating = Some(0);
    assert_eq!(store.insert_attempt(both), Err(StoreFault::CheckFailed));
    assert_eq!(store.attempts().len(), 1);
}

#[test]
fn the_status_vocabulary_is_fixed() {
    for tag in ["stuck", "breakthrough", "review", "first_attempt", "debugging"] {
        assert!(status_known(tag));
    }
    for tag in ["", "Stuck", "stuck ", "first attempt", "done"] {
        assert!(!status_known(tag));
    }
    assert!(details_admitted(&None, &None));
    assert!(details_admitted(&Some(1), &Some("review".to_string())));
    assert!(details_admitted(&Some(5), &None));
    assert!(!details_admitted(&Some(0), &None));
    assert!(!details_admitted(&Some(6), &Some("review".to_string())));
    assert!(!details_admitted(&Some(3), &Some("reviewed".to_string())));
}

#[test]
fn the_latest_attempt_of_a_batch_is_the_one_stored_last() {
    let mut store = seeded();
    store.close_batch(1, "2025-12-30 21:00:00".to_string());
    store.insert_batch(batch(2, 1, 2, None)).unwrap();
    store.insert_attempt(attempt(2, 2, false)).unwrap();
    store.insert_attempt(attempt(3, 1, false)).unwrap();
    store.insert_attempt(attempt(7, 2, true)).unwrap();
    assert_eq!(store.latest_attempt(1).map(|row| row.id), Some(3));
    assert_eq!(store.latest_attempt(2).map(|row| row.id), Some(7));
    assert!(store.latest_attempt(3).is_none());
    assert_eq!(store.attempt_count(1), 4);
    assert_eq!(store.recent_outcomes(1, 5), vec![true, false, false, true]);
    assert_eq!(store.recent_outcomes(1, 2), vec![true, false]);
    assert_eq!(store.recent_outcomes(1, 0), Vec::<bool>::new());
    assert_eq!(store.recent_outcomes(2, 5), Vec::<bool>::new());
}

#[test]
fn the_solved_flag_is_set_on_the_problem_named() {
    let mut store = seeded();
    store.insert_problem(problem(2, 1, "Two", "ALGE_002")).unwrap();
    store.set_solved(2, true);
    assert!(!store.problem(1).unwrap().is_solved);
    assert!(store.problem(2).unwrap().is_solved);
    store.set_solved(9, true);
    store.set_solved(2, false);
    assert!(!store.problem(2).unwrap().is_solved);
}

#[test]
fn a_problem_can_be_retitled_unless_the_title_is_taken() {
    let mut store = seeded();
    store.insert_problem(problem(2, 1, "Two", "ALGE_002")).unwrap();
    let error = update_problem(&mut store, 2, "One".to_string(), None).unwrap_err();
    assert_eq!(error.message(), "UNIQUE constraint failed");
    assert_eq!(store.problem(2).unwrap().title, "Two");
    update_problem(&mut store, 2, "Second".to_string(), Some("the harder one".to_string())).unwrap();
    assert_eq!(store.problem(2).unwrap().title, "Second");
    assert_eq!(store.problem(2).unwrap().description.as_deref(), Some("the harder one"));
    assert_eq!(store.problem(2).unwrap().generated_id, "ALGE_002");
    // Keeping the title is no conflict.
    update_problem(&mut store, 2, "Second".to_string(), None).unwrap();
    assert_eq!(store.problem(2).unwrap().description, None);
    // The content type is not derived anew.
    assert_eq!(store.problem(2).unwrap().content_type, ContentType::Text);
    assert!(update_problem(&mut store, 9, "One".to_string(), None).is_ok());
    assert_eq!(store.problems().len(), 2);
}

#[test]
fn setting_an_image_derives_the_content_type() {
    let mut store = seeded();
    update_problem_image(&mut store, 1, Some("one.png".to_string())).unwrap();
    assert_eq!(store.problem(1).unwrap().image_filename.as_deref(), Some("one.png"));
    assert_eq!(store.problem(1).unwrap().content_type, ContentType::Image);
    update_problem(&mut store, 1, "One".to_string(), Some(String::new())).unwrap();
    update_problem_image(&mut store, 1, Some("one.png".to_string())).unwrap();
    assert_eq!(store.problem(1).unwrap().content_type, ContentType::Image);
    update_problem(&mut store, 1, "One".to_string(), Some("words".to_string())).unwrap();
    update_problem_image(&mut store, 1, Some("two.png".to_string())).unwrap();
    assert_eq!(store.problem(1).unwrap().content_type, ContentType::Both);
    update_problem_image(&mut store, 1, None).unwrap();
    assert_eq!(store.problem(1).unwrap().image_filename, None);
    assert_eq!(store.problem(1).unwrap().content_type, ContentType::Text);
    assert!(update_problem_image(&mut store, 5, None).is_ok());
}

#[test]
fn dropping_an_attempt_takes_its_links_along() {
    let mut store = seeded();
    store.insert_attempt(attempt(2, 1, false)).unwrap();
    store.insert_resource(Resource { id: 2, name: "Video".to_string(), kind: ResourceKind::Video }).unwrap();
    store.link_attempt_resource(2, 2).unwrap();
    store.link_attempt_resource(1, 2).unwrap();
    store.link_attempt_resource(2, 1).unwrap();
    assert_eq!(store.resources_of(1), vec![1, 2]);
    assert_eq!(store.resources_of(2), vec![2, 1]);
    store.drop_attempt(1);
    assert_eq!(store.resources_of(1), Vec::<i64>::new());
    assert_eq!(store.resources_of(2), vec![2, 1]);
    assert_eq!(store.attempt_resources().len(), 2);
    assert_eq!(store.attempts().len(), 1);
    assert_eq!(store.last_attempt_id(), 2);
    assert_eq!(store.insert_attempt(attempt(1, 1, true)), Err(StoreFault::StaleId));
}
