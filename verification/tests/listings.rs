use mastery::mastery::{check_and_mark_solved, is_streak};
use mastery::recorder::unique_resources;
use mastery::resolver::validate_names;
use mastery::text::is_blank;
use mastery::batches::should_start_new_batch;
use mastery::{
    get_materials_for_subject, get_problems_for_material, get_subjects, log_attempt_at,
    AttemptInput, Fault, Field, Store, Timestamp,
};

fn brief(successful: bool) -> AttemptInput {
    AttemptInput {
        successful,
        time_spent_minutes: None,
        difficulty_rating: None,
        errors: None,
        resolution: None,
        commentary: None,
        status_tag: None,
        resources: Vec::new(),
    }
}

fn enter(store: &mut Store, subject: &str, material: &str, name_ru: Option<&str>, title: &str) {
    log_attempt_at(
        store,
        subject.to_string(),
        material.to_string(),
        name_ru.map(str::to_string),
        title.to_string(),
        None,
        None,
        brief(true),
        false,
        &Timestamp::parse("2025-12-30 19:16:00").unwrap(),
    )
    .unwrap();
}

fn library() -> Store {
    let mut store = Store::new();
    enter(&mut store, "Physics", "Mechanics", None, "Pendulum");
    enter(&mut store, "Algebra", "Rings", Some("Кольца"), "Ideals");
    enter(&mut store, "algebra", "Groups", None, "Cosets");
    enter(&mut store, "Algebra", "Groups", None, "Orbits");
    enter(&mut store, "Algebra", "Fields", None, "Extensions");
    enter(&mut store, "Zoology", "Mechanics", None, "Levers");
    enter(&mut store, "Algebra", "Rings", None, "Units");
    store
}

#[test]
fn subjects_are_listed_in_the_order_of_their_names() {
    let names: Vec<String> = get_subjects(&library()).into_iter().map(|item| item.name).collect();
    assert_eq!(names, vec!["Algebra", "Physics", "Zoology", "algebra"]);
    assert!(get_subjects(&Store::new()).is_empty());
}

#[test]
fn subjects_are_ordered_by_code_point() {
    let mut store = Store::new();
    for name in ["b", "a", "B", "ab", "é", "Z", "aa", "я", "_", "A"] {
        enter(&mut store, name, "Book", None, name);
    }
    let names: Vec<String> = get_subjects(&store).into_iter().map(|item| item.name).collect();
    assert_eq!(names, vec!["A", "B", "Z", "_", "a", "aa", "ab", "b", "é", "я"]);
}

#[test]
fn materials_of_a_subject_are_listed_in_the_order_of_their_names() {
    let store = library();
    let items = get_materials_for_subject(&store, "Algebra");
    let names: Vec<&str> = items.iter().map(|item| item.name_en.as_str()).collect();
    assert_eq!(names, vec!["Fields", "Groups", "Rings"]);
    assert_eq!(items[2].name_ru.as_deref(), Some("Кольца"));
    assert_eq!(items[0].name_ru, None);
    let items = get_materials_for_subject(&store, "algebra");
    let names: Vec<&str> = items.iter().map(|item| item.name_en.as_str()).collect();
    assert_eq!(names, vec!["Groups"]);
    let items = get_materials_for_subject(&store, "Zoology");
    assert_eq!(items.len(), 1);
    assert_eq!(items[0].name_en, "Mechanics");
    assert!(get_materials_for_subject(&store, "Chemistry").is_empty());
}

#[test]
fn problems_of_a_material_are_listed_newest_first() {
    let store = library();
    let items = get_problems_for_material(&store, "Rings");
    let rows: Vec<(i64, &str, &str)> =
        items.iter().map(|item| (item.id, item.generated_id.as_str(), item.title.as_str())).collect();
    assert_eq!(rows, vec![(7, "ALGE_005", "Units"), (2, "ALGE_001", "Ideals")]);
    let items = get_problems_for_material(&store, "Mechanics");
    let titles: Vec<&str> = items.iter().map(|item| item.title.as_str()).collect();
    assert_eq!(titles, vec!["Levers", "Pendulum"]);
    assert!(get_problems_for_material(&store, "rings").is_empty());
    assert!(get_problems_for_material(&Store::new(), "Rings").is_empty());
}

#[test]
fn blank_means_empty_or_whitespace_only() {
    for text in ["", " ", "\t", "\n \r\n", "\u{a0}", "\u{3000} "] {
        assert!(is_blank(text));
    }
    for text in ["a", " a ", "0", "_", "\u{200b}"] {
        assert!(!is_blank(text));
    }
}

#[test]
fn the_first_blank_name_is_reported() {
    assert!(validate_names("Algebra", "Book", "One").is_ok());
    let kind = |subject, material, title| validate_names(subject, material, title).unwrap_err().kind();
    assert_eq!(kind("", "", ""), Fault::Validation(Field::SubjectName));
    assert_eq!(kind("Algebra", " ", ""), Fault::Validation(Field::MaterialName));
    assert_eq!(kind("Algebra", "Book", "\n"), Fault::Validation(Field::ProblemTitle));
}

#[test]
fn resource_names_keep_their_first_place() {
    let names = |texts: &[&str]| texts.iter().map(|text| text.to_string()).collect::<Vec<String>>();
    assert_eq!(unique_resources(&names(&["Book A", "Book A", ""])), names(&["Book A"]));
    assert_eq!(
        unique_resources(&names(&["b", "", "a", "b", "B", "a", " "])),
        names(&["b", "a", "B", " "])
    );
    assert_eq!(unique_resources(&names(&[])), names(&[]));
    assert_eq!(unique_resources(&names(&["", ""])), names(&[]));
}

#[test]
fn a_streak_is_five_successes_or_more_and_nothing_else() {
    assert!(!is_streak(&vec![]));
    assert!(!is_streak(&vec![true; 4]));
    assert!(is_streak(&vec![true; 5]));
    assert!(is_streak(&vec![true; 6]));
    assert!(!is_streak(&vec![true, true, false, true, true]));
    assert!(!is_streak(&vec![true, true, true, true, false]));
    assert!(!is_streak(&vec![false, true, true, true, true]));
}

#[test]
fn mastery_is_evaluated_on_request() {
    let mut store = Store::new();
    for _ in 0..5 {
        enter(&mut store, "Algebra", "Book", None, "One");
    }
    assert!(store.problem(1).unwrap().is_solved);
    check_and_mark_solved(&mut store, 1, false);
    assert!(!store.problem(1).unwrap().is_solved);
    check_and_mark_solved(&mut store, 1, true);
    assert!(store.problem(1).unwrap().is_solved);
    check_and_mark_solved(&mut store, 2, true);
    assert_eq!(store.problems().len(), 1);
}

#[test]
fn a_new_batch_is_called_for_by_a_fresh_start_or_by_idle_time() {
    let now = Timestamp::parse("2025-12-30 21:16:01").unwrap();
    let last = |text: &str| Some(text.to_string());
    assert_eq!(should_start_new_batch(true, &None, &now).unwrap(), true);
    assert_eq!(should_start_new_batch(false, &None, &now).unwrap(), false);
    assert_eq!(should_start_new_batch(false, &last("2025-12-30 19:16:00"), &now).unwrap(), true);
    assert_eq!(should_start_new_batch(false, &last("2025-12-30 19:16:01"), &now).unwrap(), false);
    assert_eq!(should_start_new_batch(false, &last("2025-12-31 19:16:01"), &now).unwrap(), false);
    assert_eq!(should_start_new_batch(true, &last("not a time"), &now).unwrap(), true);
    let error = should_start_new_batch(false, &last("not a time"), &now).unwrap_err();
    assert_eq!(error.kind(), Fault::TimeFormat);
}
