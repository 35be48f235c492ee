//! Every elementary change of the store keeps the store's rules, provided
//! the change is one the store admits.

use vstd::prelude::*;
use crate::model::{
    admitted, batch_numbers_unique, content_type_with_image, display_ids_unique, has_id,
    has_open_batch, has_pair, has_title, index_of, lemma_appended, lemma_index_of,
    lemma_named_appended, lemma_removed, lemma_replaced, lemma_with_pair, lemma_without_left,
    named, one_open_batch, open_batch, replaced, row_of, shifted, titled, titles_unique,
    AttemptData, BatchData, Details, MaterialData, ProblemData, ResourceData, StoreModel,
    SubjectData,
};

verus! {

impl StoreModel {
    /// The empty store obeys the rules.
    pub proof fn lemma_empty_valid()
        ensures
            StoreModel::empty().valid(),
    {
    }

    /// A subject that the store admits keeps the rules; its name finds it.
    pub proof fn lemma_put_subject(self, id: int, data: SubjectData)
        requires
            self.valid(),
            self.subject_fault(id, data) is None,
            id <= i64::MAX,
        ensures
            self.put_subject(id, data).valid(),
            named(self.put_subject(id, data).subjects, data.name) == Some(id),
            has_id(self.put_subject(id, data).subjects, id),
    {
        let next = self.put_subject(id, data);
        lemma_appended(self.subjects, self.last_subject_id, id, data);
        lemma_named_appended(self.subjects, id, data);
        assert(next.keys_valid());
        assert(next.uniques_valid());
        assert(next.references_valid());
    }

    /// A material that the store admits keeps the rules; its name finds it.
    pub proof fn lemma_put_material(self, id: int, data: MaterialData)
        requires
            self.valid(),
            self.material_fault(id, data) is None,
            id <= i64::MAX,
        ensures
            self.put_material(id, data).valid(),
            named(self.put_material(id, data).materials, data.name_en) == Some(id),
            has_id(self.put_material(id, data).materials, id),
    {
        let next = self.put_material(id, data);
        lemma_appended(self.materials, self.last_material_id, id, data);
        lemma_named_appended(self.materials, id, data);
        assert(next.keys_valid());
        assert(next.uniques_valid());
        assert(next.references_valid());
    }

    /// A link between a subject and a material that the store admits keeps the rules.
    pub proof fn lemma_link_subject_material(self, subject_id: int, material_id: int)
        requires
            self.valid(),
            self.subject_material_fault(subject_id, material_id) is None,
        ensures
            self.link_subject_material(subject_id, material_id).valid(),
            has_pair(
                self.link_subject_material(subject_id, material_id).subject_materials,
                subject_id,
                material_id,
            ),
    {
        let next = self.link_subject_material(subject_id, material_id);
        lemma_with_pair(self.subject_materials, subject_id, material_id);
        if !has_pair(self.subject_materials, subject_id, material_id) {
            assert forall|i: int| 0 <= i < next.subject_materials.len() implies has_id(
                next.subjects,
                (#[trigger] next.subject_materials[i]).left,
            ) && has_id(next.materials, next.subject_materials[i].right) by {
                if i < self.subject_materials.len() {
                    assert(next.subject_materials[i] == self.subject_materials[i]);
                }
            }
        }
        assert(next.references_valid());
    }

    /// A problem that the store admits keeps the rules; its title finds it.
    pub proof fn lemma_put_problem(self, id: int, data: ProblemData)
        requires
            self.valid(),
            self.problem_fault(id, data) is None,
            id <= i64::MAX,
        ensures
            self.put_problem(id, data).valid(),
            has_id(self.put_problem(id, data).problems, id),
            row_of(self.put_problem(id, data).problems, id) == data,
            titled(self.put_problem(id, data).problems, data.material_id, data.title) == Some(id),
    {
        let next = self.put_problem(id, data);
        lemma_appended(self.problems, self.last_problem_id, id, data);
        assert(next.keys_valid());
        assert(titles_unique(next.problems)) by {
            assert forall|i: int, j: int|
                0 <= i < next.problems.len() && 0 <= j < next.problems.len() && (
                #[trigger] next.problems[i]).row.material_id == (
                #[trigger] next.problems[j]).row.material_id && next.problems[i].row.title
                    == next.problems[j].row.title implies i == j by {
                if i < self.problems.len() {
                    assert(self.problems[i] == next.problems[i]);
                }
                if j < self.problems.len() {
                    assert(self.problems[j] == next.problems[j]);
                }
            }
        }
        assert(display_ids_unique(next.problems)) by {
            assert forall|i: int, j: int|
                0 <= i < next.problems.len() && 0 <= j < next.problems.len() && (
                #[trigger] next.problems[i]).row.generated_id == (
                #[trigger] next.problems[j]).row.generated_id implies i == j by {
                if i < self.problems.len() {
                    assert(self.problems[i] == next.problems[i]);
                }
                if j < self.problems.len() {
                    assert(self.problems[j] == next.problems[j]);
                }
            }
        }
        assert(next.uniques_valid());
        assert(next.references_valid()) by {
            assert forall|i: int| 0 <= i < next.problems.len() implies has_id(
                next.materials,
                (#[trigger] next.problems[i]).row.material_id,
            ) by {
                if i < self.problems.len() {
                    assert(self.problems[i] == next.problems[i]);
                }
            }
        }
        let last = self.problems.len() as int;
        assert(next.problems[last].row.material_id == data.material_id && next.problems[last].row.title
            == data.title);
        let found = choose|i: int|
            0 <= i < next.problems.len() && (#[trigger] next.problems[i]).row.material_id
                == data.material_id && next.problems[i].row.title == data.title;
        assert(found == last);
    }

    /// Replacing a problem's row by one with the same material, title and
    /// display identifier keeps the rules.
    proof fn lemma_problem_rewritten(self, problem_id: int, data: ProblemData)
        requires
            self.valid(),
            has_id(self.problems, problem_id) ==> {
                let old_row = row_of(self.problems, problem_id);
                &&& data.material_id == old_row.material_id
                &&& data.generated_id == old_row.generated_id
                &&& data.title == old_row.title || !has_title(
                    self.problems,
                    data.material_id,
                    data.title,
                )
            },
        ensures
            (StoreModel { problems: replaced(self.problems, problem_id, data), ..self }).valid(),
    {
        let next = StoreModel { problems: replaced(self.problems, problem_id, data), ..self };
        lemma_replaced(self.problems, self.last_problem_id, problem_id, data);
        if has_id(self.problems, problem_id) {
            let at = index_of(self.problems, problem_id);
            lemma_index_of(self.problems, self.last_problem_id, at);
            assert(titles_unique(next.problems)) by {
                assert forall|i: int, j: int|
                    0 <= i < next.problems.len() && 0 <= j < next.problems.len() && (
                    #[trigger] next.problems[i]).row.material_id == (
                    #[trigger] next.problems[j]).row.material_id && next.problems[i].row.title
                        == next.problems[j].row.title implies i == j by {
                    assert(self.problems[i].id == next.problems[i].id);
                    assert(self.problems[j].id == next.problems[j].id);
                    if i != at && j != at {
                        assert(self.problems[i] == next.problems[i]);
                        assert(self.problems[j] == next.problems[j]);
                    } else if i != at {
                        assert(self.problems[i] == next.problems[i]);
                        assert(self.problems[i].row.material_id == data.material_id);
                        assert(self.problems[at].row.material_id == data.material_id);
                    } else if j != at {
                        assert(self.problems[j] == next.problems[j]);
                        assert(self.problems[j].row.material_id == data.material_id);
                        assert(self.problems[at].row.material_id == data.material_id);
                    }
                }
            }
            assert(display_ids_unique(next.problems)) by {
                assert forall|i: int, j: int|
                    0 <= i < next.problems.len() && 0 <= j < next.problems.len() && (
                    #[trigger] next.problems[i]).row.generated_id == (
                    #[trigger] next.problems[j]).row.generated_id implies i == j by {
                    assert(self.problems[i].row.generated_id == next.problems[i].row.generated_id);
                    assert(self.problems[j].row.generated_id == next.problems[j].row.generated_id);
                }
            }
            assert(next.references_valid()) by {
                assert forall|i: int| 0 <= i < next.problems.len() implies has_id(
                    next.materials,
                    (#[trigger] next.problems[i]).row.material_id,
                ) by {
                    assert(self.problems[i].row.material_id == next.problems[i].row.material_id);
                }
            }
        }
    }

    /// Setting a solved flag keeps the rules.
    pub proof fn lemma_set_solved(self, problem_id: int, solved: bool)
        requires
            self.valid(),
        ensures
            self.set_solved(problem_id, solved).valid(),
    {
        self.lemma_problem_rewritten(
            problem_id,
            ProblemData { is_solved: solved, ..row_of(self.problems, problem_id) },
        );
    }

    /// A new title and description that the store admits keep the rules.
    pub proof fn lemma_set_problem_text(
        self,
        problem_id: int,
        title: Seq<char>,
        description: Option<Seq<char>>,
    )
        requires
            self.valid(),
            self.problem_text_fault(problem_id, title) is None,
        ensures
            self.set_problem_text(problem_id, title, description).valid(),
    {
        if has_id(self.problems, problem_id) {
            let at = index_of(self.problems, problem_id);
            lemma_index_of(self.problems, self.last_problem_id, at);
            let row = row_of(self.problems, problem_id);
            if has_title(self.problems, row.material_id, title) {
                let found = choose|i: int|
                    0 <= i < self.problems.len() && (#[trigger] self.problems[i]).row.material_id
                        == row.material_id && self.problems[i].row.title == title;
                lemma_index_of(self.problems, self.last_problem_id, found);
                assert(found == at);
            }
        }
        self.lemma_problem_rewritten(
            problem_id,
            ProblemData { title, description, ..row_of(self.problems, problem_id) },
        );
    }

    /// Setting or clearing an image keeps the rules.
    pub proof fn lemma_set_problem_image(self, problem_id: int, image: Option<Seq<char>>)
        requires
            self.valid(),
        ensures
            self.set_problem_image(problem_id, image).valid(),
    {
        let row = row_of(self.problems, problem_id);
        self.lemma_problem_rewritten(
            problem_id,
            ProblemData {
                image_filename: image,
                content_type: content_type_with_image(row.description, image),
                ..row
            },
        );
    }

    /// A batch that the store admits keeps the rules.
    pub proof fn lemma_put_batch(self, id: int, data: BatchData)
        requires
            self.valid(),
            self.batch_fault(id, data) is None,
            id <= i64::MAX,
        ensures
            self.put_batch(id, data).valid(),
            has_id(self.put_batch(id, data).batches, id),
            row_of(self.put_batch(id, data).batches, id) == data,
    {
        let next = self.put_batch(id, data);
        lemma_appended(self.batches, self.last_batch_id, id, data);
        assert(next.keys_valid());
        assert(batch_numbers_unique(next.batches)) by {
            assert forall|i: int, j: int|
                0 <= i < next.batches.len() && 0 <= j < next.batches.len() && (
                #[trigger] next.batches[i]).row.problem_id == (
                #[trigger] next.batches[j]).row.problem_id && next.batches[i].row.batch_number
                    == next.batches[j].row.batch_number implies i == j by {
                if i < self.batches.len() {
                    assert(self.batches[i] == next.batches[i]);
                }
                if j < self.batches.len() {
                    assert(self.batches[j] == next.batches[j]);
                }
            }
        }
        assert(one_open_batch(next.batches)) by {
            assert forall|i: int, j: int|
                0 <= i < next.batches.len() && 0 <= j < next.batches.len() && (
                #[trigger] next.batches[i]).row.problem_id == (
                #[trigger] next.batches[j]).row.problem_id && next.batches[i].row.ended_at is None
                    && next.batches[j].row.ended_at is None implies i == j by {
                if i < self.batches.len() {
                    assert(self.batches[i] == next.batches[i]);
                }
                if j < self.batches.len() {
                    assert(self.batches[j] == next.batches[j]);
                }
            }
        }
        assert(next.uniques_valid());
        assert(next.references_valid()) by {
            assert forall|i: int| 0 <= i < next.batches.len() implies has_id(
                next.problems,
                (#[trigger] next.batches[i]).row.problem_id,
            ) by {
                if i < self.batches.len() {
                    assert(self.batches[i] == next.batches[i]);
                }
            }
        }
    }

    /// Closing a batch keeps the rules; where the batch was the open batch of its
    /// problem, the problem has no open batch afterwards.
    pub proof fn lemma_close_batch(self, batch_id: int, ended_at: Seq<char>)
        requires
            self.valid(),
        ensures
            self.close_batch(batch_id, ended_at).valid(),
            forall|problem_id: int|
                has_id(self.batches, batch_id) && row_of(self.batches, batch_id).problem_id
                    == problem_id ==> !has_open_batch(
                    #[trigger] self.close_batch(batch_id, ended_at).batches,
                    problem_id,
                ) || open_batch(self.batches, problem_id) != Some(batch_id),
    {
        let data = BatchData { ended_at: Some(ended_at), ..row_of(self.batches, batch_id) };
        let next = self.close_batch(batch_id, ended_at);
        lemma_replaced(self.batches, self.last_batch_id, batch_id, data);
        if has_id(self.batches, batch_id) {
            let at = index_of(self.batches, batch_id);
            lemma_index_of(self.batches, self.last_batch_id, at);
            assert forall|i: int| 0 <= i < next.batches.len() implies (
            #[trigger] next.batches[i]).row.problem_id == self.batches[i].row.problem_id
                && next.batches[i].row.batch_number == self.batches[i].row.batch_number && (
            next.batches[i].row.ended_at is None ==> self.batches[i].row.ended_at is None && i
                != at) by {
                if i != at {
                    assert(next.batches[i] == self.batches[i]);
                }
            }
            assert(batch_numbers_unique(next.batches)) by {
                assert forall|i: int, j: int|
                    0 <= i < next.batches.len() && 0 <= j < next.batches.len() && (
                    #[trigger] next.batches[i]).row.problem_id == (
                    #[trigger] next.batches[j]).row.problem_id && next.batches[i].row.batch_number
                        == next.batches[j].row.batch_number implies i == j by {
                    assert(self.batches[i].row.problem_id == self.batches[j].row.problem_id);
                }
            }
            assert(one_open_batch(next.batches)) by {
                assert forall|i: int, j: int|
                    0 <= i < next.batches.len() && 0 <= j < next.batches.len() && (
                    #[trigger] next.batches[i]).row.problem_id == (
                    #[trigger] next.batches[j]).row.problem_id && next.batches[i].row.ended_at is None
                        && next.batches[j].row.ended_at is None implies i == j by {
                    assert(self.batches[i].row.problem_id == self.batches[j].row.problem_id);
                }
            }
            assert(next.references_valid()) by {
                assert forall|i: int| 0 <= i < next.batches.len() implies has_id(
                    next.problems,
                    (#[trigger] next.batches[i]).row.problem_id,
                ) by {
                    assert(self.batches[i].row.problem_id == next.batches[i].row.problem_id);
                }
            }
            let problem_id = row_of(self.batches, batch_id).problem_id;
            if has_open_batch(next.batches, problem_id) && open_batch(self.batches, problem_id)
                == Some(batch_id) {
                let i = choose|i: int|
                    0 <= i < next.batches.len() && (#[trigger] next.batches[i]).row.problem_id
                        == problem_id && next.batches[i].row.ended_at is None;
                assert(self.batches[i].row.ended_at is None && i != at);
                let j = choose|j: int|
                    0 <= j < self.batches.len() && (#[trigger] self.batches[j]).row.problem_id
                        == problem_id && self.batches[j].row.ended_at is None;
                assert(self.batches[j].id == batch_id);
                lemma_index_of(self.batches, self.last_batch_id, j);
                assert(j == at);
                assert(self.batches[i].row.problem_id == self.batches[j].row.problem_id);
                assert(false);
            }
        }
    }

    /// An attempt that the store admits keeps the rules.
    pub proof fn lemma_put_attempt(self, id: int, data: AttemptData)
        requires
            self.valid(),
            self.attempt_fault(id, data) is None,
            id <= i64::MAX,
        ensures
            self.put_attempt(id, data).valid(),
            has_id(self.put_attempt(id, data).attempts, id),
    {
        let next = self.put_attempt(id, data);
        lemma_appended(self.attempts, self.last_attempt_id, id, data);
        assert(next.keys_valid());
        assert(next.references_valid()) by {
            assert forall|i: int| 0 <= i < next.attempts.len() implies has_id(
                next.batches,
                (#[trigger] next.attempts[i]).row.batch_id,
            ) by {
                if i < self.attempts.len() {
                    assert(self.attempts[i] == next.attempts[i]);
                }
            }
        }
        assert(next.attempts_admitted()) by {
            assert forall|i: int| 0 <= i < next.attempts.len() implies admitted(
                (#[trigger] next.attempts[i]).row.details,
            ) by {
                if i < self.attempts.len() {
                    assert(self.attempts[i] == next.attempts[i]);
                }
            }
        }
    }

    /// New details that the store admits keep the rules.
    pub proof fn lemma_set_details(self, attempt_id: int, details: Details)
        requires
            self.valid(),
            self.details_fault(attempt_id, details) is None,
        ensures
            self.set_details(attempt_id, details).valid(),
    {
        let data = AttemptData { details, ..row_of(self.attempts, attempt_id) };
        let next = self.set_details(attempt_id, details);
        lemma_replaced(self.attempts, self.last_attempt_id, attempt_id, data);
        if has_id(self.attempts, attempt_id) {
            let at = index_of(self.attempts, attempt_id);
            lemma_index_of(self.attempts, self.last_attempt_id, at);
            assert forall|i: int| 0 <= i < next.attempts.len() implies has_id(
                next.batches,
                (#[trigger] next.attempts[i]).row.batch_id,
            ) && admitted(next.attempts[i].row.details) by {
                if i != at {
                    assert(next.attempts[i] == self.attempts[i]);
                } else {
                    assert(next.attempts[i].row == data);
                    assert(self.attempts[at].row.batch_id == data.batch_id);
                }
            }
            assert(next.references_valid());
        }
    }

    /// Taking an attempt out, with its links, keeps the rules.
    pub proof fn lemma_drop_attempt(self, attempt_id: int)
        requires
            self.valid(),
        ensures
            self.drop_attempt(attempt_id).valid(),
    {
        let next = self.drop_attempt(attempt_id);
        lemma_removed(self.attempts, self.last_attempt_id, attempt_id);
        lemma_without_left(self.attempt_resources, attempt_id);
        assert forall|i: int| 0 <= i < next.attempts.len() implies has_id(
            next.batches,
            (#[trigger] next.attempts[i]).row.batch_id,
        ) && admitted(next.attempts[i].row.details) by {
            let j = shifted(self.attempts, attempt_id, i);
            assert(next.attempts[i] == self.attempts[j]);
        }
        assert forall|i: int| 0 <= i < next.attempt_resources.len() implies has_id(
            next.attempts,
            (#[trigger] next.attempt_resources[i]).left,
        ) && has_id(next.resources, next.attempt_resources[i].right) by {
            let pair = next.attempt_resources[i];
            assert(has_pair(next.attempt_resources, pair.left, pair.right));
            assert(pair.left != attempt_id && has_pair(
                self.attempt_resources,
                pair.left,
                pair.right,
            ));
            let j = choose|j: int|
                0 <= j < self.attempt_resources.len() && #[trigger] self.attempt_resources[j]
                    == pair;
            assert(has_id(self.attempts, self.attempt_resources[j].left));
        }
        assert(next.references_valid());
        assert(next.attempts_admitted());
    }

    /// A resource that the store admits keeps the rules; its name finds it.
    pub proof fn lemma_put_resource(self, id: int, data: ResourceData)
        requires
            self.valid(),
            self.resource_fault(id, data) is None,
            id <= i64::MAX,
        ensures
            self.put_resource(id, data).valid(),
            named(self.put_resource(id, data).resources, data.name) == Some(id),
            has_id(self.put_resource(id, data).resources, id),
    {
        let next = self.put_resource(id, data);
        lemma_appended(self.resources, self.last_resource_id, id, data);
        lemma_named_appended(self.resources, id, data);
        assert(next.keys_valid());
        assert(next.uniques_valid());
        assert(next.references_valid());
    }

    /// A link between an attempt and a resource that the store admits keeps the
    /// rules.
    pub proof fn lemma_link_attempt_resource(self, attempt_id: int, resource_id: int)
        requires
            self.valid(),
            self.attempt_resource_fault(attempt_id, resource_id) is None,
        ensures
            self.link_attempt_resource(attempt_id, resource_id).valid(),
    {
        let next = self.link_attempt_resource(attempt_id, resource_id);
        lemma_with_pair(self.attempt_resources, attempt_id, resource_id);
        if !has_pair(self.attempt_resources, attempt_id, resource_id) {
            assert forall|i: int| 0 <= i < next.attempt_resources.len() implies has_id(
                next.attempts,
                (#[trigger] next.attempt_resources[i]).left,
            ) && has_id(next.resources, next.attempt_resources[i].right) by {
                if i < self.attempt_resources.len() {
                    assert(next.attempt_resources[i] == self.attempt_resources[i]);
                }
            }
        }
        assert(next.references_valid());
    }
}

} // verus!
