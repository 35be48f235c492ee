//! The store: the persisted state of the engine, held in memory. Every
//! change goes through a function that keeps the store's rules.

use vstd::prelude::*;
use crate::error::StoreFault;
use crate::model::{
    admits, appended, belongs, display_id_taken, has_batch_number, has_id, history, known_status,
    latest_in, lemma_index_of, lemma_named, named, open_batch, recent_outcomes, removed, rights_of,
    row_of, titled, without_left, ContentType, Entry, Pair, StoreModel,
};
use crate::rows::{
    entries, pairs, position, position_named, position_pair, rating_view, text_view, Attempt,
    AttemptInput, AttemptResource, Batch, Material, Problem, Resource, Subject, SubjectMaterial,
};

verus! {

/// The persisted state: subjects, materials, problems, batches, attempts and
/// resources, with the links between them.
pub struct Store {
    subjects: Vec<Subject>,
    last_subject_id: i64,
    materials: Vec<Material>,
    last_material_id: i64,
    subject_materials: Vec<SubjectMaterial>,
    problems: Vec<Problem>,
    last_problem_id: i64,
    batches: Vec<Batch>,
    last_batch_id: i64,
    attempts: Vec<Attempt>,
    last_attempt_id: i64,
    resources: Vec<Resource>,
    last_resource_id: i64,
    attempt_resources: Vec<AttemptResource>,
}

impl View for Store {
    type V = StoreModel;

    closed spec fn view(&self) -> StoreModel {
        StoreModel {
            subjects: entries(self.subjects@),
            last_subject_id: self.last_subject_id as int,
            materials: entries(self.materials@),
            last_material_id: self.last_material_id as int,
            subject_materials: pairs(self.subject_materials@),
            problems: entries(self.problems@),
            last_problem_id: self.last_problem_id as int,
            batches: entries(self.batches@),
            last_batch_id: self.last_batch_id as int,
            attempts: entries(self.attempts@),
            last_attempt_id: self.last_attempt_id as int,
            resources: entries(self.resources@),
            last_resource_id: self.last_resource_id as int,
            attempt_resources: pairs(self.attempt_resources@),
        }
    }
}

/// Tells whether a status tag belongs to the fixed vocabulary.
pub fn status_known(tag: &str) -> (known: bool)
    ensures
        known == known_status(tag@),
{
    tag.eq("stuck") || tag.eq("breakthrough") || tag.eq("review") || tag.eq("first_attempt")
        || tag.eq("debugging")
}

/// Tells whether the attempts table admits a difficulty and a status tag.
pub fn details_admitted(difficulty_rating: &Option<i32>, status_tag: &Option<String>) -> (ok: bool)
    ensures
        ok == admits(rating_view(*difficulty_rating), text_view(*status_tag)),
{
    let rating_ok = match difficulty_rating {
        Some(rating) => 1 <= *rating && *rating <= 5,
        None => true,
    };
    let tag_ok = match status_tag {
        Some(tag) => status_known(tag.as_str()),
        None => true,
    };
    rating_ok && tag_ok
}

impl Store {
    /// The store obeys its rules.
    pub open spec fn wf(&self) -> bool {
        self@.valid()
    }

    /// A store that holds nothing.
    pub fn new() -> (store: Store)
        ensures
            store@ == StoreModel::empty(),
            store.wf(),
    {
        let store = Store {
            subjects: Vec::new(),
            last_subject_id: 0,
            materials: Vec::new(),
            last_material_id: 0,
            subject_materials: Vec::new(),
            problems: Vec::new(),
            last_problem_id: 0,
            batches: Vec::new(),
            last_batch_id: 0,
            attempts: Vec::new(),
            last_attempt_id: 0,
            resources: Vec::new(),
            last_resource_id: 0,
            attempt_resources: Vec::new(),
        };
        proof {
            assert(store@.subjects =~= Seq::empty());
            assert(store@.materials =~= Seq::empty());
            assert(store@.subject_materials =~= Seq::empty());
            assert(store@.problems =~= Seq::empty());
            assert(store@.batches =~= Seq::empty());
            assert(store@.attempts =~= Seq::empty());
            assert(store@.resources =~= Seq::empty());
            assert(store@.attempt_resources =~= Seq::empty());
            StoreModel::lemma_empty_valid();
        }
        store
    }

    // --- subjects ---------------------------------------------------------

    /// The subjects, in the order of their ids.
    pub fn subjects(&self) -> (rows: &Vec<Subject>)
        ensures
            entries(rows@) == self@.subjects,
    {
        &self.subjects
    }

    /// The largest id that a subject has had.
    pub fn last_subject_id(&self) -> (id: i64)
        ensures
            id == self@.last_subject_id,
    {
        self.last_subject_id
    }

    /// The id of the subject with a name.
    pub fn subject_id(&self, name: &str) -> (r: Option<i64>)
        requires
            self.wf(),
        ensures
            match r {
                Some(id) => named(self@.subjects, name@) == Some(id as int),
                None => named(self@.subjects, name@) is None,
            },
    {
        match position_named(&self.subjects, name) {
            Some(at) => {
                proof {
                    lemma_named(self@.subjects, at as int);
                }
                Some(self.subjects[at].id)
            },
            None => None,
        }
    }

    /// Adds a subject under the id it carries.
    ///
    /// Refused where the id is not above every id handed out so far, and
    /// where the name is taken.
    pub fn insert_subject(&mut self, row: Subject) -> (r: Result<(), StoreFault>)
        requires
            old(self).wf(),
        ensures
            final(self).wf(),
            match r {
                Ok(()) => {
                    &&& old(self)@.subject_fault(row@.id, row@.row) is None
                    &&& final(self)@ == old(self)@.put_subject(row@.id, row@.row)
                },
                Err(fault) => {
                    &&& old(self)@.subject_fault(row@.id, row@.row) == Some(fault)
                    &&& final(self)@ == old(self)@
                },
            },
    {
        if row.id <= self.last_subject_id {
            return Err(StoreFault::StaleId);
        }
        if let Some(at) = position_named(&self.subjects, row.name.as_str()) {
            assert(self@.subjects[at as int].row.name == row@.row.name);
            return Err(StoreFault::Duplicate);
        }
        proof {
            self@.lemma_put_subject(row@.id, row@.row);
        }
        self.last_subject_id = row.id;
        self.subjects.push(row);
        proof {
            assert(self@.subjects =~= appended(old(self)@.subjects, row@.id, row@.row));
        }
        Ok(())
    }

    // --- materials --------------------------------------------------------

    /// The materials, in the order of their ids.
    pub fn materials(&self) -> (rows: &Vec<Material>)
        ensures
            entries(rows@) == self@.materials,
    {
        &self.materials
    }

    /// The largest id that a material has had.
    pub fn last_material_id(&self) -> (id: i64)
        ensures
            id == self@.last_material_id,
    {
        self.last_material_id
    }

    /// The id of the material with an English name.
    pub fn material_id(&self, name_en: &str) -> (r: Option<i64>)
        requires
            self.wf(),
        ensures
            match r {
                Some(id) => named(self@.materials, name_en@) == Some(id as int),
                None => named(self@.materials, name_en@) is None,
            },
    {
        match position_named(&self.materials, name_en) {
            Some(at) => {
                proof {
                    lemma_named(self@.materials, at as int);
                }
                Some(self.materials[at].id)
            },
            None => None,
        }
    }

    /// Adds a material under the id it carries.
    ///
    /// Refused where the id is not above every id handed out so far, and
    /// where the English name is taken.
    pub fn insert_material(&mut self, row: Material) -> (r: Result<(), StoreFault>)
        requires
            old(self).wf(),
        ensures
            final(self).wf(),
            match r {
                Ok(()) => {
                    &&& old(self)@.material_fault(row@.id, row@.row) is None
                    &&& final(self)@ == old(self)@.put_material(row@.id, row@.row)
                },
                Err(fault) => {
                    &&& old(self)@.material_fault(row@.id, row@.row) == Some(fault)
                    &&& final(self)@ == old(self)@
                },
            },
    {
        if row.id <= self.last_material_id {
            return Err(StoreFault::StaleId);
        }
        if let Some(at) = position_named(&self.materials, row.name_en.as_str()) {
            assert(self@.materials[at as int].row.name_en == row@.row.name_en);
            return Err(StoreFault::Duplicate);
        }
        proof {
            self@.lemma_put_material(row@.id, row@.row);
        }
        self.last_material_id = row.id;
        self.materials.push(row);
        proof {
            assert(self@.materials =~= appended(old(self)@.materials, row@.id, row@.row));
        }
        Ok(())
    }

    // --- subject-material links --------------------------------------------

    /// The links between subjects and materials, in the order they were made.
    pub fn subject_materials(&self) -> (rows: &Vec<SubjectMaterial>)
        ensures
            pairs(rows@) == self@.subject_materials,
    {
        &self.subject_materials
    }

    /// Links a material to a subject; nothing changes where the link is
    /// there already.
    ///
    /// Refused where a new link names a subject or a material that the
    /// store does not hold.
    pub fn link_subject_material(&mut self, subject_id: i64, material_id: i64) -> (r: Result<
        (),
        StoreFault,
    >)
        requires
            old(self).wf(),
        ensures
            final(self).wf(),
            match r {
                Ok(()) => {
                    &&& old(self)@.subject_material_fault(subject_id as int, material_id as int)
                        is None
                    &&& final(self)@ == old(self)@.link_subject_material(
                        subject_id as int,
                        material_id as int,
                    )
                },
                Err(fault) => {
                    &&& old(self)@.subject_material_fault(subject_id as int, material_id as int)
                        == Some(fault)
                    &&& final(self)@ == old(self)@
                },
            },
    {
        if let Some(at) = position_pair(&self.subject_materials, subject_id, material_id) {
            assert(self@.subject_materials[at as int] == (Pair {
                left: subject_id as int,
                right: material_id as int,
            }));
            return Ok(());
        }
        if position(&self.subjects, subject_id).is_none() || position(
            &self.materials,
            material_id,
        ).is_none() {
            return Err(StoreFault::MissingParent);
        }
        proof {
            self@.lemma_link_subject_material(subject_id as int, material_id as int);
        }
        self.subject_materials.push(SubjectMaterial { subject_id, material_id });
        proof {
            assert(self@.subject_materials =~= old(self)@.subject_materials.push(
                Pair { left: subject_id as int, right: material_id as int },
            ));
        }
        Ok(())
    }

    // --- problems ---------------------------------------------------------

    /// The problems, in the order of their ids.
    pub fn problems(&self) -> (rows: &Vec<Problem>)
        ensures
            entries(rows@) == self@.problems,
    {
        &self.problems
    }

    /// The largest id that a problem has had.
    pub fn last_problem_id(&self) -> (id: i64)
        ensures
            id == self@.last_problem_id,
    {
        self.last_problem_id
    }

    /// The problem with an id.
    pub fn problem(&self, id: i64) -> (r: Option<&Problem>)
        requires
            self.wf(),
        ensures
            match r {
                Some(row) => has_id(self@.problems, id as int) && row@ == (Entry {
                    id: id as int,
                    row: row_of(self@.problems, id as int),
                }),
                None => !has_id(self@.problems, id as int),
            },
    {
        match position(&self.problems, id) {
            Some(at) => {
                proof {
                    lemma_index_of(self@.problems, self@.last_problem_id, at as int);
                }
                Some(&self.problems[at])
            },
            None => None,
        }
    }

    /// The material's problem with a title.
    pub fn find_problem(&self, material_id: i64, title: &str) -> (r: Option<&Problem>)
        requires
            self.wf(),
        ensures
            match r {
                Some(row) => {
                    &&& titled(self@.problems, material_id as int, title@) == Some(row@.id)
                    &&& has_id(self@.problems, row@.id)
                    &&& row@.row == row_of(self@.problems, row@.id)
                },
                None => titled(self@.problems, material_id as int, title@) is None,
            },
    {
        let mut at: usize = 0;
        while at < self.problems.len()
            invariant
                at <= self.problems.len(),
                self.wf(),
                forall|i: int|
                    0 <= i < at ==> !((#[trigger] self@.problems[i]).row.material_id == material_id
                        && self@.problems[i].row.title == title@),
            decreases self.problems.len() - at,
        {
            if self.problems[at].material_id == material_id && self.problems[at].title.as_str().eq(
                title,
            ) {
                proof {
                    let found = choose|i: int|
                        0 <= i < self@.problems.len() && (
                        #[trigger] self@.problems[i]).row.material_id == material_id
                            && self@.problems[i].row.title == title@;
                    assert(self@.problems[at as int].row.material_id == material_id);
                    assert(found == at);
                    lemma_index_of(self@.problems, self@.last_problem_id, at as int);
                }
                return Some(&self.problems[at]);
            }
            at = at + 1;
        }
        None
    }

    /// Tells whether a problem carries the display identifier.
    pub fn has_display_id(&self, generated_id: &str) -> (taken: bool)
        ensures
            taken == display_id_taken(self@.problems, generated_id@),
    {
        let mut at: usize = 0;
        while at < self.problems.len()
            invariant
                at <= self.problems.len(),
                forall|i: int|
                    0 <= i < at ==> (#[trigger] self@.problems[i]).row.generated_id
                        != generated_id@,
            decreases self.problems.len() - at,
        {
            if self.problems[at].generated_id.as_str().eq(generated_id) {
                assert(self@.problems[at as int].row.generated_id == generated_id@);
                return true;
            }
            at = at + 1;
        }
        false
    }

    /// Adds a problem under the id it carries.
    ///
    /// Refused where the id is not above every id handed out so far, where
    /// the material has a problem of that title or the display identifier is
    /// taken, and where the store does not hold the material.
    pub fn insert_problem(&mut self, row: Problem) -> (r: Result<(), StoreFault>)
        requires
            old(self).wf(),
        ensures
            final(self).wf(),
            match r {
                Ok(()) => {
                    &&& old(self)@.problem_fault(row@.id, row@.row) is None
                    &&& final(self)@ == old(self)@.put_problem(row@.id, row@.row)
                },
                Err(fault) => {
                    &&& old(self)@.problem_fault(row@.id, row@.row) == Some(fault)
                    &&& final(self)@ == old(self)@
                },
            },
    {
        if row.id <= self.last_problem_id {
            return Err(StoreFault::StaleId);
        }
        if self.find_problem(row.material_id, row.title.as_str()).is_some() || self.has_display_id(
            row.generated_id.as_str(),
        ) {
            return Err(StoreFault::Duplicate);
        }
        if position(&self.materials, row.material_id).is_none() {
            return Err(StoreFault::MissingParent);
        }
        proof {
            self@.lemma_put_problem(row@.id, row@.row);
        }
        self.last_problem_id = row.id;
        self.problems.push(row);
        proof {
            assert(self@.problems =~= appended(old(self)@.problems, row@.id, row@.row));
        }
        Ok(())
    }

    /// Sets a problem's solved flag; nothing changes without the problem.
    pub fn set_solved(&mut self, problem_id: i64, solved: bool)
        requires
            old(self).wf(),
        ensures
            final(self).wf(),
            final(self)@ == old(self)@.set_solved(problem_id as int, solved),
    {
        proof {
            self@.lemma_set_solved(problem_id as int, solved);
        }
        match position(&self.problems, problem_id) {
            Some(at) => {
                proof {
                    lemma_index_of(self@.problems, self@.last_problem_id, at as int);
                }
                self.problems[at].is_solved = solved;
                proof {
                    assert(self@.problems =~= old(self)@.set_solved(
                        problem_id as int,
                        solved,
                    ).problems);
                }
            },
            None => {},
        }
    }

    /// Overwrites a problem's title and description; nothing changes
    /// without the problem.
    ///
    /// Refused where another problem of the same material has the title.
    pub fn set_problem_text(&mut self, problem_id: i64, title: String, description: Option<String>)
        -> (r: Result<(), StoreFault>)
        requires
            old(self).wf(),
        ensures
            final(self).wf(),
            match r {
                Ok(()) => {
                    &&& old(self)@.problem_text_fault(problem_id as int, title@) is None
                    &&& final(self)@ == old(self)@.set_problem_text(
                        problem_id as int,
                        title@,
                        text_view(description),
                    )
                },
                Err(fault) => {
                    &&& old(self)@.problem_text_fault(problem_id as int, title@) == Some(fault)
                    &&& final(self)@ == old(self)@
                },
            },
    {
        match position(&self.problems, problem_id) {
            Some(at) => {
                proof {
                    lemma_index_of(self@.problems, self@.last_problem_id, at as int);
                }
                match self.find_problem(self.problems[at].material_id, title.as_str()) {
                    Some(other) => {
                        if other.id != problem_id {
                            return Err(StoreFault::Duplicate);
                        }
                    },
                    None => {},
                }
                proof {
                    self@.lemma_set_problem_text(
                        problem_id as int,
                        title@,
                        text_view(description),
                    );
                }
                self.problems[at].title = title;
                self.problems[at].description = description;
                proof {
                    assert(self@.problems =~= old(self)@.set_problem_text(
                        problem_id as int,
                        title@,
                        text_view(description),
                    ).problems);
                }
                Ok(())
            },
            None => Ok(()),
        }
    }

    /// Sets or clears a problem's image and derives its content type anew;
    /// nothing changes without the problem.
    pub fn set_problem_image(&mut self, problem_id: i64, image_filename: Option<String>)
        requires
            old(self).wf(),
        ensures
            final(self).wf(),
            final(self)@ == old(self)@.set_problem_image(
                problem_id as int,
                text_view(image_filename),
            ),
    {
        proof {
            self@.lemma_set_problem_image(problem_id as int, text_view(image_filename));
        }
        match position(&self.problems, problem_id) {
            Some(at) => {
                proof {
                    lemma_index_of(self@.problems, self@.last_problem_id, at as int);
                }
                let described = match &self.problems[at].description {
                    Some(text) => !text.as_str().is_empty(),
                    None => false,
                };
                let content_type = if image_filename.is_none() {
                    ContentType::Text
                } else if described {
                    ContentType::Both
                } else {
                    ContentType::Image
                };
                self.problems[at].image_filename = image_filename;
                self.problems[at].content_type = content_type;
                proof {
                    assert(self@.problems =~= old(self)@.set_problem_image(
                        problem_id as int,
                        text_view(image_filename),
                    ).problems);
                }
            },
            None => {},
        }
    }

    // --- batches ----------------------------------------------------------

    /// The batches, in the order of their ids.
    pub fn batches(&self) -> (rows: &Vec<Batch>)
        ensures
            entries(rows@) == self@.batches,
    {
        &self.batches
    }

    /// The largest id that a batch has had.
    pub fn last_batch_id(&self) -> (id: i64)
        ensures
            id == self@.last_batch_id,
    {
        self.last_batch_id
    }

    /// The batch with an id.
    pub fn batch(&self, id: i64) -> (r: Option<&Batch>)
        requires
            self.wf(),
        ensures
            match r {
                Some(row) => has_id(self@.batches, id as int) && row@ == (Entry {
                    id: id as int,
                    row: row_of(self@.batches, id as int),
                }),
                None => !has_id(self@.batches, id as int),
            },
    {
        match position(&self.batches, id) {
            Some(at) => {
                proof {
                    lemma_index_of(self@.batches, self@.last_batch_id, at as int);
                }
                Some(&self.batches[at])
            },
            None => None,
        }
    }

    /// The problem's batch that has no end.
    pub fn open_batch(&self, problem_id: i64) -> (r: Option<&Batch>)
        requires
            self.wf(),
        ensures
            match r {
                Some(row) => {
                    &&& open_batch(self@.batches, problem_id as int) == Some(row@.id)
                    &&& has_id(self@.batches, row@.id)
                    &&& row@.row == row_of(self@.batches, row@.id)
                    &&& row@.row.problem_id == problem_id
                    &&& row@.row.ended_at is None
                },
                None => open_batch(self@.batches, problem_id as int) is None,
            },
    {
        let mut at: usize = 0;
        while at < self.batches.len()
            invariant
                at <= self.batches.len(),
                self.wf(),
                forall|i: int|
                    0 <= i < at ==> !((#[trigger] self@.batches[i]).row.problem_id == problem_id
                        && self@.batches[i].row.ended_at is None),
            decreases self.batches.len() - at,
        {
            if self.batches[at].problem_id == problem_id && self.batches[at].ended_at.is_none() {
                proof {
                    let found = choose|i: int|
                        0 <= i < self@.batches.len() && (
                        #[trigger] self@.batches[i]).row.problem_id == problem_id
                            && self@.batches[i].row.ended_at is None;
                    assert(self@.batches[at as int].row.problem_id == problem_id);
                    assert(found == at);
                    lemma_index_of(self@.batches, self@.last_batch_id, at as int);
                }
                return Some(&self.batches[at]);
            }
            at = at + 1;
        }
        None
    }

    /// Tells whether the problem has a batch of the number.
    pub fn has_batch_number(&self, problem_id: i64, number: i32) -> (found: bool)
        ensures
            found == has_batch_number(self@.batches, problem_id as int, number as int),
    {
        let mut at: usize = 0;
        while at < self.batches.len()
            invariant
                at <= self.batches.len(),
                forall|i: int|
                    0 <= i < at ==> !((#[trigger] self@.batches[i]).row.problem_id == problem_id
                        && self@.batches[i].row.batch_number == number),
            decreases self.batches.len() - at,
        {
            if self.batches[at].problem_id == problem_id && self.batches[at].batch_number
                == number {
                assert(self@.batches[at as int].row.problem_id == problem_id);
                return true;
            }
            at = at + 1;
        }
        false
    }

    /// Adds a batch under the id it carries.
    ///
    /// Refused where the id is not above every id handed out so far, where
    /// the problem has a batch of that number, where the batch has no end
    /// and the problem has such a batch already, and where the store does
    /// not hold the problem.
    pub fn insert_batch(&mut self, row: Batch) -> (r: Result<(), StoreFault>)
        requires
            old(self).wf(),
        ensures
            final(self).wf(),
            match r {
                Ok(()) => {
                    &&& old(self)@.batch_fault(row@.id, row@.row) is None
                    &&& final(self)@ == old(self)@.put_batch(row@.id, row@.row)
                },
                Err(fault) => {
                    &&& old(self)@.batch_fault(row@.id, row@.row) == Some(fault)
                    &&& final(self)@ == old(self)@
                },
            },
    {
        if row.id <= self.last_batch_id {
            return Err(StoreFault::StaleId);
        }
        if self.has_batch_number(row.problem_id, row.batch_number) {
            return Err(StoreFault::Duplicate);
        }
        if row.ended_at.is_none() && self.open_batch(row.problem_id).is_some() {
            return Err(StoreFault::OpenBatchExists);
        }
        if position(&self.problems, row.problem_id).is_none() {
            return Err(StoreFault::MissingParent);
        }
        proof {
            self@.lemma_put_batch(row@.id, row@.row);
        }
        self.last_batch_id = row.id;
        self.batches.push(row);
        proof {
            assert(self@.batches =~= appended(old(self)@.batches, row@.id, row@.row));
        }
        Ok(())
    }

    /// Gives a batch its end; nothing changes without the batch.
    pub fn close_batch(&mut self, batch_id: i64, ended_at: String)
        requires
            old(self).wf(),
        ensures
            final(self).wf(),
            final(self)@ == old(self)@.close_batch(batch_id as int, ended_at@),
    {
        proof {
            self@.lemma_close_batch(batch_id as int, ended_at@);
        }
        match position(&self.batches, batch_id) {
            Some(at) => {
                proof {
                    lemma_index_of(self@.batches, self@.last_batch_id, at as int);
                }
                self.batches[at].ended_at = Some(ended_at);
                proof {
                    assert(self@.batches =~= old(self)@.close_batch(
                        batch_id as int,
                        ended_at@,
                    ).batches);
                }
            },
            None => {},
        }
    }

    // --- attempts ---------------------------------------------------------

    /// The attempts, in the order of their ids.
    pub fn attempts(&self) -> (rows: &Vec<Attempt>)
        ensures
            entries(rows@) == self@.attempts,
    {
        &self.attempts
    }

    /// The largest id that an attempt has had.
    pub fn last_attempt_id(&self) -> (id: i64)
        ensures
            id == self@.last_attempt_id,
    {
        self.last_attempt_id
    }

    /// The attempt with an id.
    pub fn attempt(&self, id: i64) -> (r: Option<&Attempt>)
        requires
            self.wf(),
        ensures
            match r {
                Some(row) => has_id(self@.attempts, id as int) && row@ == (Entry {
                    id: id as int,
                    row: row_of(self@.attempts, id as int),
                }),
                None => !has_id(self@.attempts, id as int),
            },
    {
        match position(&self.attempts, id) {
            Some(at) => {
                proof {
                    lemma_index_of(self@.attempts, self@.last_attempt_id, at as int);
                }
                Some(&self.attempts[at])
            },
            None => None,
        }
    }

    /// The batch's most recent attempt.
    pub fn latest_attempt(&self, batch_id: i64) -> (r: Option<&Attempt>)
        ensures
            match r {
                Some(row) => latest_in(self@.attempts, batch_id as int) == Some(row@),
                None => latest_in(self@.attempts, batch_id as int) is None,
            },
    {
        let mut below: usize = self.attempts.len();
        assert(self@.attempts.take(below as int) =~= self@.attempts);
        while below > 0
            invariant
                below <= self.attempts.len(),
                latest_in(self@.attempts, batch_id as int) == latest_in(
                    self@.attempts.take(below as int),
                    batch_id as int,
                ),
            decreases below,
        {
            assert(self@.attempts.take(below as int).drop_last() =~= self@.attempts.take(
                below - 1,
            ));
            if self.attempts[below - 1].batch_id == batch_id {
                return Some(&self.attempts[below - 1]);
            }
            below = below - 1;
        }
        None
    }

    /// Tells whether an attempt was made in a batch of the problem.
    fn attempt_belongs(&self, at: usize, problem_id: i64) -> (b: bool)
        requires
            self.wf(),
            at < self.attempts.len(),
        ensures
            b == belongs(self@.batches, self@.attempts[at as int].row, problem_id as int),
    {
        match position(&self.batches, self.attempts[at].batch_id) {
            Some(place) => {
                proof {
                    lemma_index_of(self@.batches, self@.last_batch_id, place as int);
                }
                self.batches[place].problem_id == problem_id
            },
            None => false,
        }
    }

    /// The number of attempts at a problem, across all its batches.
    pub fn attempt_count(&self, problem_id: i64) -> (count: usize)
        requires
            self.wf(),
        ensures
            count == history(self@.attempts, self@.batches, problem_id as int).len(),
    {
        let mut count: usize = 0;
        let mut at: usize = 0;
        assert(self@.attempts.take(0) =~= Seq::empty());
        while at < self.attempts.len()
            invariant
                at <= self.attempts.len(),
                self.wf(),
                count <= at,
                count == history(
                    self@.attempts.take(at as int),
                    self@.batches,
                    problem_id as int,
                ).len(),
            decreases self.attempts.len() - at,
        {
            assert(self@.attempts.take(at + 1).drop_last() =~= self@.attempts.take(at as int));
            if self.attempt_belongs(at, problem_id) {
                count = count + 1;
            }
            at = at + 1;
        }
        assert(self@.attempts.take(at as int) =~= self@.attempts);
        count
    }

    /// The outcomes of the problem's most recent attempts, newest first, at
    /// most `limit` of them.
    pub fn recent_outcomes(&self, problem_id: i64, limit: usize) -> (outcomes: Vec<bool>)
        requires
            self.wf(),
        ensures
            outcomes@ == recent_outcomes(
                self@.attempts,
                self@.batches,
                problem_id as int,
                limit as nat,
            ),
    {
        let mut outcomes: Vec<bool> = Vec::new();
        let mut below: usize = self.attempts.len();
        assert(self@.attempts.take(below as int) =~= self@.attempts);
        while below > 0 && outcomes.len() < limit
            invariant
                below <= self.attempts.len(),
                self.wf(),
                outcomes.len() <= limit,
                recent_outcomes(self@.attempts, self@.batches, problem_id as int, limit as nat)
                    == outcomes@ + recent_outcomes(
                    self@.attempts.take(below as int),
                    self@.batches,
                    problem_id as int,
                    (limit - outcomes.len()) as nat,
                ),
            decreases below,
        {
            assert(self@.attempts.take(below as int).drop_last() =~= self@.attempts.take(
                below - 1,
            ));
            let ghost before = outcomes@;
            let ghost rest = recent_outcomes(
                self@.attempts.take(below - 1),
                self@.batches,
                problem_id as int,
                (limit - outcomes.len() - 1) as nat,
            );
            if self.attempt_belongs(below - 1, problem_id) {
                outcomes.push(self.attempts[below - 1].successful);
                assert(outcomes@ + rest =~= before + (seq![
                    self@.attempts[below - 1].row.details.successful,
                ] + rest));
            }
            below = below - 1;
        }
        assert(outcomes@ + Seq::<bool>::empty() =~= outcomes@);
        outcomes
    }

    /// Adds an attempt under the id it carries.
    ///
    /// Refused where the difficulty is not from 1 to 5 or the status tag is
    /// not of the fixed vocabulary, where the id is not above every id
    /// handed out so far, and where the store does not hold the batch.
    pub fn insert_attempt(&mut self, row: Attempt) -> (r: Result<(), StoreFault>)
        requires
            old(self).wf(),
        ensures
            final(self).wf(),
            match r {
                Ok(()) => {
                    &&& old(self)@.attempt_fault(row@.id, row@.row) is None
                    &&& final(self)@ == old(self)@.put_attempt(row@.id, row@.row)
                },
                Err(fault) => {
                    &&& old(self)@.attempt_fault(row@.id, row@.row) == Some(fault)
                    &&& final(self)@ == old(self)@
                },
            },
    {
        if !details_admitted(&row.difficulty_rating, &row.status_tag) {
            return Err(StoreFault::CheckFailed);
        }
        if row.id <= self.last_attempt_id {
            return Err(StoreFault::StaleId);
        }
        if position(&self.batches, row.batch_id).is_none() {
            return Err(StoreFault::MissingParent);
        }
        proof {
            self@.lemma_put_attempt(row@.id, row@.row);
        }
        self.last_attempt_id = row.id;
        self.attempts.push(row);
        proof {
            assert(self@.attempts =~= appended(old(self)@.attempts, row@.id, row@.row));
        }
        Ok(())
    }

    /// Overwrites what is reported of an attempt; its batch, number and
    /// timestamp stay, and so do its resource links. Nothing changes without
    /// the attempt.
    ///
    /// Refused where the attempt is there and the difficulty is not from 1
    /// to 5 or the status tag is not of the fixed vocabulary.
    pub fn set_details(&mut self, attempt_id: i64, input: AttemptInput) -> (r: Result<
        (),
        StoreFault,
    >)
        requires
            old(self).wf(),
        ensures
            final(self).wf(),
            match r {
                Ok(()) => {
                    &&& old(self)@.details_fault(attempt_id as int, input.details()) is None
                    &&& final(self)@ == old(self)@.set_details(attempt_id as int, input.details())
                },
                Err(fault) => {
                    &&& old(self)@.details_fault(attempt_id as int, input.details()) == Some(fault)
                    &&& final(self)@ == old(self)@
                },
            },
    {
        match position(&self.attempts, attempt_id) {
            Some(at) => {
                if !details_admitted(&input.difficulty_rating, &input.status_tag) {
                    return Err(StoreFault::CheckFailed);
                }
                proof {
                    lemma_index_of(self@.attempts, self@.last_attempt_id, at as int);
                    self@.lemma_set_details(attempt_id as int, input.details());
                }
                self.attempts[at].successful = input.successful;
                self.attempts[at].time_spent_minutes = input.time_spent_minutes;
                self.attempts[at].difficulty_rating = input.difficulty_rating;
                self.attempts[at].errors = input.errors;
                self.attempts[at].resolution = input.resolution;
                self.attempts[at].commentary = input.commentary;
                self.attempts[at].status_tag = input.status_tag;
                proof {
                    assert(self@.attempts =~= old(self)@.set_details(
                        attempt_id as int,
                        input.details(),
                    ).attempts);
                }
                Ok(())
            },
            None => Ok(()),
        }
    }

    /// Takes an attempt out, and its resource links with it; nothing
    /// changes without the attempt.
    pub fn drop_attempt(&mut self, attempt_id: i64)
        requires
            old(self).wf(),
        ensures
            final(self).wf(),
            final(self)@ == old(self)@.drop_attempt(attempt_id as int),
    {
        proof {
            self@.lemma_drop_attempt(attempt_id as int);
        }
        match position(&self.attempts, attempt_id) {
            Some(at) => {
                proof {
                    lemma_index_of(self@.attempts, self@.last_attempt_id, at as int);
                }
                let _ = self.attempts.remove(at);
                proof {
                    assert(self@.attempts =~= removed(old(self)@.attempts, attempt_id as int));
                }
            },
            None => {},
        }
        let mut kept: Vec<AttemptResource> = Vec::new();
        let mut at: usize = 0;
        assert(pairs(self.attempt_resources@).take(0) =~= Seq::empty());
        assert(pairs(kept@) =~= Seq::empty());
        while at < self.attempt_resources.len()
            invariant
                at <= self.attempt_resources.len(),
                self.attempt_resources == old(self).attempt_resources,
                pairs(kept@) == without_left(
                    pairs(self.attempt_resources@).take(at as int),
                    attempt_id as int,
                ),
            decreases self.attempt_resources.len() - at,
        {
            assert(pairs(self.attempt_resources@).take(at + 1).drop_last() =~= pairs(
                self.attempt_resources@,
            ).take(at as int));
            let ghost before = pairs(kept@);
            if self.attempt_resources[at].attempt_id != attempt_id {
                kept.push(self.attempt_resources[at]);
                assert(pairs(kept@) =~= before.push(pairs(self.attempt_resources@)[at as int]));
            }
            at = at + 1;
        }
        assert(pairs(self.attempt_resources@).take(at as int) =~= pairs(self.attempt_resources@));
        self.attempt_resources = kept;
    }

    // --- resources --------------------------------------------------------

    /// The resources, in the order of their ids.
    pub fn resources(&self) -> (rows: &Vec<Resource>)
        ensures
            entries(rows@) == self@.resources,
    {
        &self.resources
    }

    /// The largest id that a resource has had.
    pub fn last_resource_id(&self) -> (id: i64)
        ensures
            id == self@.last_resource_id,
    {
        self.last_resource_id
    }

    /// The id of the resource with a name.
    pub fn resource_id(&self, name: &str) -> (r: Option<i64>)
        requires
            self.wf(),
        ensures
            match r {
                Some(id) => named(self@.resources, name@) == Some(id as int),
                None => named(self@.resources, name@) is None,
            },
    {
        match position_named(&self.resources, name) {
            Some(at) => {
                proof {
                    lemma_named(self@.resources, at as int);
                }
                Some(self.resources[at].id)
            },
            None => None,
        }
    }

    /// Adds a resource under the id it carries.
    ///
    /// Refused where the id is not above every id handed out so far, and
    /// where the name is taken.
    pub fn insert_resource(&mut self, row: Resource) -> (r: Result<(), StoreFault>)
        requires
            old(self).wf(),
        ensures
            final(self).wf(),
            match r {
                Ok(()) => {
                    &&& old(self)@.resource_fault(row@.id, row@.row) is None
                    &&& final(self)@ == old(self)@.put_resource(row@.id, row@.row)
                },
                Err(fault) => {
                    &&& old(self)@.resource_fault(row@.id, row@.row) == Some(fault)
                    &&& final(self)@ == old(self)@
                },
            },
    {
        if row.id <= self.last_resource_id {
            return Err(StoreFault::StaleId);
        }
        if let Some(at) = position_named(&self.resources, row.name.as_str()) {
            assert(self@.resources[at as int].row.name == row@.row.name);
            return Err(StoreFault::Duplicate);
        }
        proof {
            self@.lemma_put_resource(row@.id, row@.row);
        }
        self.last_resource_id = row.id;
        self.resources.push(row);
        proof {
            assert(self@.resources =~= appended(old(self)@.resources, row@.id, row@.row));
        }
        Ok(())
    }

    // --- attempt-resource links ---------------------------------------------

    /// The links between attempts and resources, in the order they were made.
    pub fn attempt_resources(&self) -> (rows: &Vec<AttemptResource>)
        ensures
            pairs(rows@) == self@.attempt_resources,
    {
        &self.attempt_resources
    }

    /// The ids of the resources linked to an attempt, in the order they
    /// were linked.
    pub fn resources_of(&self, attempt_id: i64) -> (ids: Vec<i64>)
        ensures
            ids@.map_values(|id: i64| id as int) == rights_of(
                self@.attempt_resources,
                attempt_id as int,
            ),
    {
        let mut ids: Vec<i64> = Vec::new();
        let mut at: usize = 0;
        assert(self@.attempt_resources.take(0) =~= Seq::empty());
        assert(ids@.map_values(|id: i64| id as int) =~= Seq::empty());
        while at < self.attempt_resources.len()
            invariant
                at <= self.attempt_resources.len(),
                ids@.map_values(|id: i64| id as int) == rights_of(
                    self@.attempt_resources.take(at as int),
                    attempt_id as int,
                ),
            decreases self.attempt_resources.len() - at,
        {
            assert(self@.attempt_resources.take(at + 1).drop_last()
                =~= self@.attempt_resources.take(at as int));
            let ghost before = ids@.map_values(|id: i64| id as int);
            if self.attempt_resources[at].attempt_id == attempt_id {
                ids.push(self.attempt_resources[at].resource_id);
                assert(ids@.map_values(|id: i64| id as int) =~= before.push(
                    self@.attempt_resources[at as int].right,
                ));
            }
            at = at + 1;
        }
        assert(self@.attempt_resources.take(at as int) =~= self@.attempt_resources);
        ids
    }

    /// Links a resource to an attempt; nothing changes where the link is
    /// there already.
    ///
    /// Refused where a new link names an attempt or a resource that the
    /// store does not hold.
    pub fn link_attempt_resource(&mut self, attempt_id: i64, resource_id: i64) -> (r: Result<
        (),
        StoreFault,
    >)
        requires
            old(self).wf(),
        ensures
            final(self).wf(),
            match r {
                Ok(()) => {
                    &&& old(self)@.attempt_resource_fault(attempt_id as int, resource_id as int)
                        is None
                    &&& final(self)@ == old(self)@.link_attempt_resource(
                        attempt_id as int,
                        resource_id as int,
                    )
                },
                Err(fault) => {
                    &&& old(self)@.attempt_resource_fault(attempt_id as int, resource_id as int)
                        == Some(fault)
                    &&& final(self)@ == old(self)@
                },
            },
    {
        if let Some(at) = position_pair(&self.attempt_resources, attempt_id, resource_id) {
            assert(self@.attempt_resources[at as int] == (Pair {
                left: attempt_id as int,
                right: resource_id as int,
            }));
            return Ok(());
        }
        if position(&self.attempts, attempt_id).is_none() || position(
            &self.resources,
            resource_id,
        ).is_none() {
            return Err(StoreFault::MissingParent);
        }
        proof {
            self@.lemma_link_attempt_resource(attempt_id as int, resource_id as int);
        }
        self.attempt_resources.push(AttemptResource { attempt_id, resource_id });
        proof {
            assert(self@.attempt_resources =~= old(self)@.attempt_resources.push(
                Pair { left: attempt_id as int, right: resource_id as int },
            ));
        }
        Ok(())
    }
}

} // verus!
