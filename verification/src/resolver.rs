//! The identity resolver: finds or creates the subject, the material, the
//! link between them and the problem that an attempt speaks of.

use vstd::prelude::*;
use crate::error::{EngineError, Fault, Field, StoreFault};
use crate::ident::{generate_problem_id, generated_id};
use crate::model::{
    content_type_of, named, next_id, row_of, titled, ContentType, MaterialData, ProblemData,
    StoreModel, SubjectData,
};
use crate::rows::{text_view, Material, Problem, Subject};
use crate::store::Store;
use crate::text::{blank, is_blank};
use crate::timestamp::Timestamp;

verus! {

/// The first required text that is blank, if any is.
pub open spec fn missing_field(
    subject_name: Seq<char>,
    material_name_en: Seq<char>,
    problem_title: Seq<char>,
) -> Option<Field> {
    if blank(subject_name) {
        Some(Field::SubjectName)
    } else if blank(material_name_en) {
        Some(Field::MaterialName)
    } else if blank(problem_title) {
        Some(Field::ProblemTitle)
    } else {
        None
    }
}

/// Checks that none of the required texts is empty or whitespace only.
pub fn validate_names(subject_name: &str, material_name_en: &str, problem_title: &str) -> (r:
    Result<(), EngineError>)
    ensures
        match r {
            Ok(()) => missing_field(subject_name@, material_name_en@, problem_title@) is None,
            Err(e) => missing_field(subject_name@, material_name_en@, problem_title@)
                matches Some(field) && e == EngineError::Validation(field),
        },
{
    if is_blank(subject_name) {
        Err(EngineError::Validation(Field::SubjectName))
    } else if is_blank(material_name_en) {
        Err(EngineError::Validation(Field::MaterialName))
    } else if is_blank(problem_title) {
        Err(EngineError::Validation(Field::ProblemTitle))
    } else {
        Ok(())
    }
}

/// Derives the content type of a problem from what it is given with.
pub fn content_type(description: &Option<String>, image_filename: &Option<String>) -> (kind:
    ContentType)
    ensures
        kind == content_type_of(text_view(*description), text_view(*image_filename)),
{
    if image_filename.is_some() {
        if description.is_some() {
            ContentType::Both
        } else {
            ContentType::Image
        }
    } else {
        ContentType::Text
    }
}

/// The subject of a name found, or created under the next id.
pub open spec fn upsert_subject(s: StoreModel, name: Seq<char>) -> (StoreModel, Result<
    int,
    StoreFault,
>) {
    match named(s.subjects, name) {
        Some(id) => (s, Ok(id)),
        None => match next_id(s.last_subject_id) {
            Some(id) => (s.put_subject(id, SubjectData { name }), Ok(id)),
            None => (s, Err(StoreFault::IdsExhausted)),
        },
    }
}

/// Returns the id of the subject with a name, creating the subject where
/// there is none. Fails only where the table has no id left.
pub fn resolve_subject(store: &mut Store, name: &str) -> (r: Result<i64, StoreFault>)
    requires
        old(store).wf(),
    ensures
        final(store).wf(),
        final(store)@ == upsert_subject(old(store)@, name@).0,
        match r {
            Ok(id) => upsert_subject(old(store)@, name@).1 == Ok::<int, StoreFault>(id as int),
            Err(fault) => upsert_subject(old(store)@, name@).1 == Err::<int, StoreFault>(fault),
        },
{
    match store.subject_id(name) {
        Some(id) => Ok(id),
        None => {
            let last = store.last_subject_id();
            if last == i64::MAX {
                return Err(StoreFault::IdsExhausted);
            }
            let row = Subject { id: last + 1, name: name.to_owned() };
            match store.insert_subject(row) {
                Ok(()) => Ok(last + 1),
                Err(fault) => Err(fault),
            }
        },
    }
}

/// The material of an English name found, or created under the next id
/// with the secondary name given.
pub open spec fn upsert_material(s: StoreModel, name_en: Seq<char>, name_ru: Option<Seq<char>>)
    -> (StoreModel, Result<int, StoreFault>) {
    match named(s.materials, name_en) {
        Some(id) => (s, Ok(id)),
        None => match next_id(s.last_material_id) {
            Some(id) => (s.put_material(id, MaterialData { name_en, name_ru }), Ok(id)),
            None => (s, Err(StoreFault::IdsExhausted)),
        },
    }
}

/// Returns the id of the material with an English name, creating the
/// material where there is none; a material that is there keeps its
/// secondary name. Fails only where the table has no id left.
pub fn resolve_material(store: &mut Store, name_en: &str, name_ru: Option<String>) -> (r: Result<
    i64,
    StoreFault,
>)
    requires
        old(store).wf(),
    ensures
        final(store).wf(),
        final(store)@ == upsert_material(old(store)@, name_en@, text_view(name_ru)).0,
        match r {
            Ok(id) => upsert_material(old(store)@, name_en@, text_view(name_ru)).1 == Ok::<
                int,
                StoreFault,
            >(id as int),
            Err(fault) => upsert_material(old(store)@, name_en@, text_view(name_ru)).1 == Err::<
                int,
                StoreFault,
            >(fault),
        },
{
    match store.material_id(name_en) {
        Some(id) => Ok(id),
        None => {
            let last = store.last_material_id();
            if last == i64::MAX {
                return Err(StoreFault::IdsExhausted);
            }
            let row = Material { id: last + 1, name_en: name_en.to_owned(), name_ru };
            match store.insert_material(row) {
                Ok(()) => Ok(last + 1),
                Err(fault) => Err(fault),
            }
        },
    }
}

/// The problem of a title within a material found, or created under the
/// next id with a freshly generated display identifier.
pub open spec fn upsert_problem(
    s: StoreModel,
    subject_name: Seq<char>,
    material_id: int,
    title: Seq<char>,
    description: Option<Seq<char>>,
    image_filename: Option<Seq<char>>,
    secs: int,
) -> (StoreModel, Result<(int, Seq<char>), StoreFault>) {
    match titled(s.problems, material_id, title) {
        Some(id) => (s, Ok((id, row_of(s.problems, id).generated_id))),
        None => {
            let data = ProblemData {
                generated_id: generated_id(s.problems, subject_name, secs),
                material_id,
                title,
                description,
                image_filename,
                content_type: content_type_of(description, image_filename),
                is_solved: false,
            };
            match next_id(s.last_problem_id) {
                None => (s, Err(StoreFault::IdsExhausted)),
                Some(id) => match s.problem_fault(id, data) {
                    Some(fault) => (s, Err(fault)),
                    None => (s.put_problem(id, data), Ok((id, data.generated_id))),
                },
            }
        },
    }
}

/// Returns the id and the display identifier of the material's problem
/// with a title, creating the problem where there is none.
///
/// A new problem is unsolved, has the content type that its description
/// and image call for, and the display identifier generated for the
/// subject at `now`. It is refused where the table has no id left, where
/// the generated identifier is taken, and where the store does not hold
/// the material.
pub fn resolve_problem(
    store: &mut Store,
    subject_name: &str,
    material_id: i64,
    title: &str,
    description: Option<String>,
    image_filename: Option<String>,
    now: &Timestamp,
) -> (r: Result<(i64, String), StoreFault>)
    requires
        old(store).wf(),
    ensures
        final(store).wf(),
        final(store)@ == upsert_problem(
            old(store)@,
            subject_name@,
            material_id as int,
            title@,
            text_view(description),
            text_view(image_filename),
            now@.secs,
        ).0,
        match r {
            Ok(found) => upsert_problem(
                old(store)@,
                subject_name@,
                material_id as int,
                title@,
                text_view(description),
                text_view(image_filename),
                now@.secs,
            ).1 == Ok::<(int, Seq<char>), StoreFault>((found.0 as int, found.1@)),
            Err(fault) => upsert_problem(
                old(store)@,
                subject_name@,
                material_id as int,
                title@,
                text_view(description),
                text_view(image_filename),
                now@.secs,
            ).1 == Err::<(int, Seq<char>), StoreFault>(fault),
        },
{
    if let Some(row) = store.find_problem(material_id, title) {
        return Ok((row.id, row.generated_id.clone()));
    }
    let generated = generate_problem_id(store, subject_name, now);
    let last = store.last_problem_id();
    if last == i64::MAX {
        return Err(StoreFault::IdsExhausted);
    }
    let row = Problem {
        id: last + 1,
        generated_id: generated.clone(),
        material_id,
        title: title.to_owned(),
        content_type: content_type(&description, &image_filename),
        description,
        image_filename,
        is_solved: false,
    };
    match store.insert_problem(row) {
        Ok(()) => Ok((last + 1, generated)),
        Err(fault) => Err(fault),
    }
}

/// What the identity resolver does to the store and returns: subject and
/// material found or created, the link between them made where it was
/// missing, the problem found or created. The first step that the store
/// refuses ends it; what was done before stays.
pub open spec fn resolved(
    s: StoreModel,
    subject_name: Seq<char>,
    material_name_en: Seq<char>,
    material_name_ru: Option<Seq<char>>,
    problem_title: Seq<char>,
    problem_description: Option<Seq<char>>,
    problem_image_filename: Option<Seq<char>>,
    secs: int,
) -> (StoreModel, Result<(int, Seq<char>), Fault>) {
    let (s1, subject) = upsert_subject(s, subject_name);
    match subject {
        Err(fault) => (s1, Err(Fault::Persistence(fault))),
        Ok(subject_id) => {
            let (s2, material) = upsert_material(s1, material_name_en, material_name_ru);
            match material {
                Err(fault) => (s2, Err(Fault::Persistence(fault))),
                Ok(material_id) => match s2.subject_material_fault(subject_id, material_id) {
                    Some(fault) => (s2, Err(Fault::Persistence(fault))),
                    None => {
                        let s3 = s2.link_subject_material(subject_id, material_id);
                        let (s4, problem) = upsert_problem(
                            s3,
                            subject_name,
                            material_id,
                            problem_title,
                            problem_description,
                            problem_image_filename,
                            secs,
                        );
                        match problem {
                            Err(fault) => (s4, Err(Fault::Persistence(fault))),
                            Ok(found) => (s4, Ok(found)),
                        }
                    },
                },
            }
        },
    }
}

/// Resolves the subject, the material and the problem of a request,
/// creating what is missing, and returns the problem's id and display
/// identifier.
pub fn resolve_identity(
    store: &mut Store,
    subject_name: &str,
    material_name_en: &str,
    material_name_ru: Option<String>,
    problem_title: &str,
    problem_description: Option<String>,
    problem_image_filename: Option<String>,
    now: &Timestamp,
) -> (r: Result<(i64, String), EngineError>)
    requires
        old(store).wf(),
    ensures
        final(store).wf(),
        final(store)@ == resolved(
            old(store)@,
            subject_name@,
            material_name_en@,
            text_view(material_name_ru),
            problem_title@,
            text_view(problem_description),
            text_view(problem_image_filename),
            now@.secs,
        ).0,
        match r {
            Ok(found) => resolved(
                old(store)@,
                subject_name@,
                material_name_en@,
                text_view(material_name_ru),
                problem_title@,
                text_view(problem_description),
                text_view(problem_image_filename),
                now@.secs,
            ).1 == Ok::<(int, Seq<char>), Fault>((found.0 as int, found.1@)),
            Err(e) => resolved(
                old(store)@,
                subject_name@,
                material_name_en@,
                text_view(material_name_ru),
                problem_title@,
                text_view(problem_description),
                text_view(problem_image_filename),
                now@.secs,
            ).1 == Err::<(int, Seq<char>), Fault>(e.fault()),
        },
{
    let subject_id = match resolve_subject(store, subject_name) {
        Ok(id) => id,
        Err(fault) => {
            return Err(EngineError::Persistence(fault));
        },
    };
    let material_id = match resolve_material(store, material_name_en, material_name_ru) {
        Ok(id) => id,
        Err(fault) => {
            return Err(EngineError::Persistence(fault));
        },
    };
    match store.link_subject_material(subject_id, material_id) {
        Ok(()) => {},
        Err(fault) => {
            return Err(EngineError::Persistence(fault));
        },
    }
    match resolve_problem(
        store,
        subject_name,
        material_id,
        problem_title,
        problem_description,
        problem_image_filename,
        now,
    ) {
        Ok(found) => Ok(found),
        Err(fault) => Err(EngineError::Persistence(fault)),
    }
}

} // verus!
