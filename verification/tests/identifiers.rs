use mastery::ident::{format_candidate, format_fallback, subject_prefix};
use mastery::{generate_problem_id, log_attempt_at, AttemptInput, Store, Timestamp};
use mastery::model::ContentType;
use mastery::rows::{Material, Problem, Subject};

fn quiet_report() -> AttemptInput {
    AttemptInput {
        successful: true,
        time_spent_minutes: None,
        difficulty_rating: None,
        errors: None,
        resolution: None,
        commentary: None,
        status_tag: None,
        resources: Vec::new(),
    }
}

fn create(store: &mut Store, subject: &str, title: &str) -> String {
    log_attempt_at(
        store,
        subject.to_string(),
        "Book".to_string(),
        None,
        title.to_string(),
        None,
        None,
        quiet_report(),
        false,
        &Timestamp::parse("2025-12-30 19:16:00").unwrap(),
    )
    .unwrap()
    .generated_id
}

#[test]
fn first_three_problems_of_algebra_are_numbered_in_order() {
    let mut store = Store::new();
    assert_eq!(create(&mut store, "Algebra", "One"), "ALGE_001");
    assert_eq!(create(&mut store, "Algebra", "Two"), "ALGE_002");
    assert_eq!(create(&mut store, "Algebra", "Three"), "ALGE_003");
    // A problem that is there keeps its identifier.
    assert_eq!(create(&mut store, "Algebra", "Two"), "ALGE_002");
}

#[test]
fn numbering_is_per_prefix() {
    let mut store = Store::new();
    assert_eq!(create(&mut store, "Algebra", "One"), "ALGE_001");
    assert_eq!(create(&mut store, "Geometry", "Two"), "GEOM_001");
    assert_eq!(create(&mut store, "Algebraic Topology", "Three"), "ALGE_002");
}

#[test]
fn prefix_takes_the_first_four_letters_in_upper_case() {
    assert_eq!(subject_prefix("Algebra"), "ALGE");
    assert_eq!(subject_prefix("algebra"), "ALGE");
    assert_eq!(subject_prefix("Go"), "GO");
    assert_eq!(subject_prefix("C++ 20 templates"), "CTEM");
    assert_eq!(subject_prefix("3D geometry"), "DGEO");
    assert_eq!(subject_prefix("  x  y  z  "), "XYZ");
}

#[test]
fn prefix_falls_back_where_the_subject_has_no_letter() {
    assert_eq!(subject_prefix(""), "PROB");
    assert_eq!(subject_prefix("2024"), "PROB");
    assert_eq!(subject_prefix("#1 !"), "PROB");
}

#[test]
fn prefix_knows_letters_beyond_ascii() {
    assert_eq!(subject_prefix("Физика"), "ФИЗИ");
    assert_eq!(subject_prefix("élan"), "ÉLAN");
    // Upper case may take more characters than the letters it comes from.
    assert_eq!(subject_prefix("straße"), "STRA");
    assert_eq!(subject_prefix("ßßßß"), "SSSSSSSS");
}

#[test]
fn candidates_are_padded_to_three_digits() {
    assert_eq!(format_candidate("ALGE", 1), "ALGE_001");
    assert_eq!(format_candidate("ALGE", 9), "ALGE_009");
    assert_eq!(format_candidate("ALGE", 10), "ALGE_010");
    assert_eq!(format_candidate("ALGE", 99), "ALGE_099");
    assert_eq!(format_candidate("ALGE", 100), "ALGE_100");
    assert_eq!(format_candidate("ALGE", 999), "ALGE_999");
    assert_eq!(format_candidate("ALGE", 1000), "ALGE_1000");
    assert_eq!(format_candidate("ALGE", 9998), "ALGE_9998");
    assert_eq!(format_candidate("", 0), "_000");
    assert_eq!(format_candidate("PROB", u32::MAX), "PROB_4294967295");
}

#[test]
fn fallback_carries_the_seconds_of_the_time() {
    assert_eq!(format_fallback("ALGE", 1767122160), "ALGE_1767122160");
    assert_eq!(format_fallback("ALGE", 0), "ALGE_0");
    assert_eq!(format_fallback("ALGE", -5), "ALGE_-5");
    assert_eq!(format_fallback("ALGE", i64::MAX), "ALGE_9223372036854775807");
    assert_eq!(format_fallback("ALGE", i64::MIN), "ALGE_-9223372036854775808");
}

fn store_with_identifiers(taken: &[u32]) -> Store {
    let mut store = Store::new();
    store.insert_subject(Subject { id: 1, name: "Algebra".to_string() }).unwrap();
    store
        .insert_material(Material { id: 1, name_en: "Book".to_string(), name_ru: None })
        .unwrap();
    for (index, number) in taken.iter().enumerate() {
        store
            .insert_problem(Problem {
                id: index as i64 + 1,
                generated_id: format_candidate("ALGE", *number),
                material_id: 1,
                title: format!("Problem {}", number),
                description: None,
                image_filename: None,
                content_type: ContentType::Text,
                is_solved: false,
            })
            .unwrap();
    }
    store
}

#[test]
fn generation_takes_the_first_free_number() {
    let now = Timestamp::parse("2025-12-30 19:16:00").unwrap();
    let store = store_with_identifiers(&[1, 2, 4]);
    assert_eq!(generate_problem_id(&store, "Algebra", &now), "ALGE_003");
    let store = store_with_identifiers(&[2, 3]);
    assert_eq!(generate_problem_id(&store, "Algebra", &now), "ALGE_001");
    // Another prefix is not in the way.
    assert_eq!(generate_problem_id(&store, "Geometry", &now), "GEOM_001");
}

#[test]
fn generation_falls_back_on_the_time_where_every_number_is_taken() {
    let now = Timestamp::parse("2025-12-30 19:16:00").unwrap();
    let all: Vec<u32> = (1..9999).collect();
    let mut store = store_with_identifiers(&all);
    assert_eq!(generate_problem_id(&store, "Algebra", &now), format!("ALGE_{}", now.unix()));
    assert_eq!(now.unix(), 1767122160);
    assert_eq!(create(&mut store, "Algebra", "One more"), "ALGE_1767122160");
    // Number 9999 is never tried.
    assert!(!store.has_display_id("ALGE_9999"));
    // A second new problem within the same second collides and is refused.
    let error = log_attempt_at(
        &mut store,
        "Algebra".to_string(),
        "Book".to_string(),
        None,
        "Yet another".to_string(),
        None,
        None,
        quiet_report(),
        false,
        &now,
    )
    .unwrap_err();
    assert_eq!(error.kind(), mastery::Fault::Persistence(mastery::StoreFault::Duplicate));
}
