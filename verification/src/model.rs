//! The mathematical model of the store: tables as sequences of rows in the
//! order of their ids, the rules that every store obeys, and the effect of
//! each elementary change.

use vstd::prelude::*;
use crate::error::StoreFault;

verus! {

/// A row under its id.
pub struct Entry<T> {
    pub id: int,
    pub row: T,
}

/// How the content of a problem is given.
#[derive(Clone, Copy, Debug, PartialEq, Eq, Structural)]
pub enum ContentType {
    Text,
    Image,
    Both,
}

/// What kind of thing a resource is.
#[derive(Clone, Copy, Debug, PartialEq, Eq, Structural)]
pub enum ResourceKind {
    Ai,
    Book,
    Video,
    Web,
    Human,
    Other,
}

/// What a subject is: its name.
pub struct SubjectData {
    pub name: Seq<char>,
}

/// What a material is: its English name, and a secondary name where it has one.
pub struct MaterialData {
    pub name_en: Seq<char>,
    pub name_ru: Option<Seq<char>>,
}

/// What a problem is.
pub struct ProblemData {
    pub generated_id: Seq<char>,
    pub material_id: int,
    pub title: Seq<char>,
    pub description: Option<Seq<char>>,
    pub image_filename: Option<Seq<char>>,
    pub content_type: ContentType,
    pub is_solved: bool,
}

/// What a batch is; it is open while it has no end.
pub struct BatchData {
    pub problem_id: int,
    pub batch_number: int,
    pub started_at: Seq<char>,
    pub ended_at: Option<Seq<char>>,
    pub is_fresh_start: bool,
}

/// What a caller reports of one attempt.
pub struct Details {
    pub successful: bool,
    pub time_spent_minutes: Option<u64>,
    pub difficulty_rating: Option<int>,
    pub errors: Option<Seq<char>>,
    pub resolution: Option<Seq<char>>,
    pub commentary: Option<Seq<char>>,
    pub status_tag: Option<Seq<char>>,
}

/// What an attempt is: its batch, its number among the attempts at its
/// problem, its time and what was reported of it.
pub struct AttemptData {
    pub batch_id: int,
    pub attempt_number: int,
    pub timestamp: Seq<char>,
    pub details: Details,
}

/// What a resource is.
pub struct ResourceData {
    pub name: Seq<char>,
    pub kind: ResourceKind,
}

/// A pair of ids that a join table holds.
pub struct Pair {
    pub left: int,
    pub right: int,
}

/// The whole persisted state. Each `last_*_id` is the largest id its table
/// has ever handed out; ids are never used twice.
pub struct StoreModel {
    pub subjects: Seq<Entry<SubjectData>>,
    pub last_subject_id: int,
    pub materials: Seq<Entry<MaterialData>>,
    pub last_material_id: int,
    /// Subject on the left, material on the right.
    pub subject_materials: Seq<Pair>,
    pub problems: Seq<Entry<ProblemData>>,
    pub last_problem_id: int,
    pub batches: Seq<Entry<BatchData>>,
    pub last_batch_id: int,
    pub attempts: Seq<Entry<AttemptData>>,
    pub last_attempt_id: int,
    pub resources: Seq<Entry<ResourceData>>,
    pub last_resource_id: int,
    /// Attempt on the left, resource on the right.
    pub attempt_resources: Seq<Pair>,
}

// ---------------------------------------------------------------------------
// Rows and ids
// ---------------------------------------------------------------------------

/// Ids grow along the table and none lies above `last_id`.
pub open spec fn keyed<T>(rows: Seq<Entry<T>>, last_id: int) -> bool {
    &&& 0 <= last_id <= i64::MAX
    &&& forall|i: int| 0 <= i < rows.len() ==> 0 < (#[trigger] rows[i]).id <= last_id
    &&& forall|i: int, j: int|
        0 <= i < j < rows.len() ==> (#[trigger] rows[i]).id < (#[trigger] rows[j]).id
}

/// Some row has the id.
pub open spec fn has_id<T>(rows: Seq<Entry<T>>, id: int) -> bool {
    exists|i: int| 0 <= i < rows.len() && (#[trigger] rows[i]).id == id
}

/// Where the row with the id stands.
pub open spec fn index_of<T>(rows: Seq<Entry<T>>, id: int) -> int {
    choose|i: int| 0 <= i < rows.len() && (#[trigger] rows[i]).id == id
}

/// The row with the id.
pub open spec fn row_of<T>(rows: Seq<Entry<T>>, id: int) -> T {
    rows[index_of(rows, id)].row
}

/// The table with one more row at its end.
pub open spec fn appended<T>(rows: Seq<Entry<T>>, id: int, row: T) -> Seq<Entry<T>> {
    rows.push(Entry { id, row })
}

/// The table with the row of the id replaced; unchanged without such a row.
pub open spec fn replaced<T>(rows: Seq<Entry<T>>, id: int, row: T) -> Seq<Entry<T>> {
    if has_id(rows, id) {
        rows.update(index_of(rows, id), Entry { id, row })
    } else {
        rows
    }
}

/// The table without the row of the id; unchanged without such a row.
pub open spec fn removed<T>(rows: Seq<Entry<T>>, id: int) -> Seq<Entry<T>> {
    if has_id(rows, id) {
        rows.remove(index_of(rows, id))
    } else {
        rows
    }
}

/// The id that a table hands out next, if it has one left.
pub open spec fn next_id(last_id: int) -> Option<int> {
    if last_id < i64::MAX {
        Some(last_id + 1)
    } else {
        None
    }
}

/// In a keyed table an id stands at one place only.
pub proof fn lemma_index_of<T>(rows: Seq<Entry<T>>, last_id: int, i: int)
    requires
        keyed(rows, last_id),
        0 <= i < rows.len(),
    ensures
        has_id(rows, rows[i].id),
        index_of(rows, rows[i].id) == i,
        row_of(rows, rows[i].id) == rows[i].row,
{
    let j = index_of(rows, rows[i].id);
    assert(0 <= j < rows.len() && rows[j].id == rows[i].id);
    if j < i {
        assert(rows[j].id < rows[i].id);
    } else if i < j {
        assert(rows[i].id < rows[j].id);
    }
}

/// Appending a row under a new largest id keeps the table keyed, keeps every
/// row findable, and makes the new row findable.
pub proof fn lemma_appended<T>(rows: Seq<Entry<T>>, last_id: int, id: int, row: T)
    requires
        keyed(rows, last_id),
        last_id < id <= i64::MAX,
    ensures
        keyed(appended(rows, id, row), id),
        !has_id(rows, id),
        forall|other: int| has_id(appended(rows, id, row), other) <==> other == id || has_id(rows, other),
        row_of(appended(rows, id, row), id) == row,
        forall|other: int|
            has_id(rows, other) ==> #[trigger] row_of(appended(rows, id, row), other) == row_of(
                rows,
                other,
            ),
{
    let next = appended(rows, id, row);
    assert(keyed(next, id));
    assert forall|other: int| has_id(next, other) <==> other == id || has_id(rows, other) by {
        if has_id(rows, other) {
            let i = index_of(rows, other);
            assert(next[i].id == other);
        }
        if other == id {
            assert(next[rows.len() as int].id == id);
        }
        if has_id(next, other) {
            let i = index_of(next, other);
            if i < rows.len() {
                assert(rows[i].id == other);
            }
        }
    }
    lemma_index_of(next, id, rows.len() as int);
    assert forall|other: int| has_id(rows, other) implies #[trigger] row_of(next, other) == row_of(
        rows,
        other,
    ) by {
        let i = index_of(rows, other);
        lemma_index_of(next, id, i);
    }
}

/// Replacing a row keeps the ids where they are.
pub proof fn lemma_replaced<T>(rows: Seq<Entry<T>>, last_id: int, id: int, row: T)
    requires
        keyed(rows, last_id),
    ensures
        keyed(replaced(rows, id, row), last_id),
        replaced(rows, id, row).len() == rows.len(),
        forall|i: int|
            0 <= i < rows.len() ==> (#[trigger] replaced(rows, id, row)[i]).id == rows[i].id,
        forall|i: int|
            0 <= i < rows.len() && rows[i].id != id ==> #[trigger] replaced(rows, id, row)[i]
                == rows[i],
        forall|i: int|
            0 <= i < rows.len() && rows[i].id == id ==> (#[trigger] replaced(rows, id, row)[i]).row
                == row,
        forall|other: int| has_id(replaced(rows, id, row), other) <==> has_id(rows, other),
        has_id(rows, id) ==> row_of(replaced(rows, id, row), id) == row,
        forall|other: int|
            other != id && has_id(rows, other) ==> #[trigger] row_of(
                replaced(rows, id, row),
                other,
            ) == row_of(rows, other),
{
    let next = replaced(rows, id, row);
    if has_id(rows, id) {
        let at = index_of(rows, id);
        lemma_index_of(rows, last_id, at);
        assert forall|i: int| 0 <= i < rows.len() implies (#[trigger] next[i]).id == rows[i].id by {}
        assert(keyed(next, last_id));
        assert forall|other: int| has_id(next, other) <==> has_id(rows, other) by {
            if has_id(rows, other) {
                let i = index_of(rows, other);
                assert(next[i].id == other);
            }
            if has_id(next, other) {
                let i = index_of(next, other);
                assert(rows[i].id == other);
            }
        }
        lemma_index_of(next, last_id, at);
        assert forall|other: int| other != id && has_id(rows, other) implies #[trigger] row_of(
            next,
            other,
        ) == row_of(rows, other) by {
            let i = index_of(rows, other);
            lemma_index_of(rows, last_id, i);
            lemma_index_of(next, last_id, i);
        }
    }
}

// ---------------------------------------------------------------------------
// Names
// ---------------------------------------------------------------------------

/// Rows that are found by a name.
pub trait Named {
    spec fn label(&self) -> Seq<char>;
}

impl Named for SubjectData {
    open spec fn label(&self) -> Seq<char> {
        self.name
    }
}

impl Named for MaterialData {
    open spec fn label(&self) -> Seq<char> {
        self.name_en
    }
}

impl Named for ResourceData {
    open spec fn label(&self) -> Seq<char> {
        self.name
    }
}

/// No two rows share a name.
pub open spec fn names_unique<T: Named>(rows: Seq<Entry<T>>) -> bool {
    forall|i: int, j: int|
        0 <= i < rows.len() && 0 <= j < rows.len() && (#[trigger] rows[i]).row.label() == (
        #[trigger] rows[j]).row.label() ==> i == j
}

/// Some row has the name.
pub open spec fn has_name<T: Named>(rows: Seq<Entry<T>>, name: Seq<char>) -> bool {
    exists|i: int| 0 <= i < rows.len() && (#[trigger] rows[i]).row.label() == name
}

/// The id of the row with the name.
pub open spec fn id_of_name<T: Named>(rows: Seq<Entry<T>>, name: Seq<char>) -> int {
    rows[choose|i: int| 0 <= i < rows.len() && (#[trigger] rows[i]).row.label() == name].id
}

/// The id of the row with the name, if there is one.
pub open spec fn named<T: Named>(rows: Seq<Entry<T>>, name: Seq<char>) -> Option<int> {
    if has_name(rows, name) {
        Some(id_of_name(rows, name))
    } else {
        None
    }
}

/// Where names are unique, the row at a place is the one its name finds.
pub proof fn lemma_named<T: Named>(rows: Seq<Entry<T>>, i: int)
    requires
        names_unique(rows),
        0 <= i < rows.len(),
    ensures
        named(rows, rows[i].row.label()) == Some(rows[i].id),
{
    let name = rows[i].row.label();
    let j = choose|j: int| 0 <= j < rows.len() && (#[trigger] rows[j]).row.label() == name;
    assert(0 <= j < rows.len() && rows[j].row.label() == name);
}

/// Appending a row with a name that was free keeps names unique; the new
/// name finds the new row and every other name finds what it found.
pub proof fn lemma_named_appended<T: Named>(rows: Seq<Entry<T>>, id: int, row: T)
    requires
        names_unique(rows),
        !has_name(rows, row.label()),
    ensures
        names_unique(appended(rows, id, row)),
        named(appended(rows, id, row), row.label()) == Some(id),
        forall|name: Seq<char>|
            name != row.label() ==> #[trigger] named(appended(rows, id, row), name) == named(
                rows,
                name,
            ),
{
    let next = appended(rows, id, row);
    assert forall|i: int, j: int|
        0 <= i < next.len() && 0 <= j < next.len() && (#[trigger] next[i]).row.label() == (
        #[trigger] next[j]).row.label() implies i == j by {
        if i < rows.len() {
            assert(rows[i].row.label() == next[i].row.label());
        }
        if j < rows.len() {
            assert(rows[j].row.label() == next[j].row.label());
        }
    }
    lemma_named(next, rows.len() as int);
    assert forall|name: Seq<char>| name != row.label() implies #[trigger] named(next, name)
        == named(rows, name) by {
        if has_name(rows, name) {
            let i = choose|i: int| 0 <= i < rows.len() && (#[trigger] rows[i]).row.label() == name;
            lemma_named(rows, i);
            assert(next[i] == rows[i]);
            lemma_named(next, i);
        } else if has_name(next, name) {
            let i = choose|i: int| 0 <= i < next.len() && (#[trigger] next[i]).row.label() == name;
            assert(i < rows.len());
            assert(rows[i].row.label() == name);
        }
    }
}

// ---------------------------------------------------------------------------
// Pairs
// ---------------------------------------------------------------------------

/// The join table holds the pair.
pub open spec fn has_pair(pairs: Seq<Pair>, left: int, right: int) -> bool {
    exists|i: int| 0 <= i < pairs.len() && #[trigger] pairs[i] == (Pair { left, right })
}

/// No pair stands twice.
pub open spec fn pairs_unique(pairs: Seq<Pair>) -> bool {
    forall|i: int, j: int|
        0 <= i < pairs.len() && 0 <= j < pairs.len() && #[trigger] pairs[i] == #[trigger] pairs[j]
            ==> i == j
}

/// The join table with the pair in it: added at the end unless it is there.
pub open spec fn with_pair(pairs: Seq<Pair>, left: int, right: int) -> Seq<Pair> {
    if has_pair(pairs, left, right) {
        pairs
    } else {
        pairs.push(Pair { left, right })
    }
}

/// The join table without the pairs of one left id, the others in order.
pub open spec fn without_left(pairs: Seq<Pair>, left: int) -> Seq<Pair>
    decreases pairs.len(),
{
    if pairs.len() == 0 {
        pairs
    } else if pairs.last().left == left {
        without_left(pairs.drop_last(), left)
    } else {
        without_left(pairs.drop_last(), left).push(pairs.last())
    }
}

/// The right ids that a left id is paired with, in order.
pub open spec fn rights_of(pairs: Seq<Pair>, left: int) -> Seq<int>
    decreases pairs.len(),
{
    if pairs.len() == 0 {
        Seq::empty()
    } else if pairs.last().left == left {
        rights_of(pairs.drop_last(), left).push(pairs.last().right)
    } else {
        rights_of(pairs.drop_last(), left)
    }
}

/// Putting a pair into a join table keeps every pair once, and the pair
/// is there afterwards.
pub proof fn lemma_with_pair(pairs: Seq<Pair>, left: int, right: int)
    requires
        pairs_unique(pairs),
    ensures
        pairs_unique(with_pair(pairs, left, right)),
        has_pair(with_pair(pairs, left, right), left, right),
        forall|l: int, r: int|
            has_pair(pairs, l, r) ==> #[trigger] has_pair(with_pair(pairs, left, right), l, r),
{
    let next = with_pair(pairs, left, right);
    if has_pair(pairs, left, right) {
    } else {
        assert(next[pairs.len() as int] == (Pair { left, right }));
        assert forall|i: int, j: int|
            0 <= i < next.len() && 0 <= j < next.len() && #[trigger] next[i] == #[trigger] next[j]
            implies i == j by {
            if i < pairs.len() {
                assert(pairs[i] == next[i]);
            }
            if j < pairs.len() {
                assert(pairs[j] == next[j]);
            }
        }
        assert forall|l: int, r: int| has_pair(pairs, l, r) implies #[trigger] has_pair(
            next,
            l,
            r,
        ) by {
            let i = choose|i: int| 0 <= i < pairs.len() && #[trigger] pairs[i] == (Pair {
                left: l,
                right: r,
            });
            assert(next[i] == pairs[i]);
        }
    }
}

/// What is left after the pairs of one left id are taken out: every other
/// pair, once, and none of that id.
pub proof fn lemma_without_left(pairs: Seq<Pair>, left: int)
    requires
        pairs_unique(pairs),
    ensures
        pairs_unique(without_left(pairs, left)),
        forall|l: int, r: int|
            #[trigger] has_pair(without_left(pairs, left), l, r) <==> l != left && has_pair(
                pairs,
                l,
                r,
            ),
    decreases pairs.len(),
{
    let next = without_left(pairs, left);
    if pairs.len() == 0 {
        assert forall|l: int, r: int| #[trigger]
            has_pair(next, l, r) <==> l != left && has_pair(pairs, l, r) by {}
    } else {
        let front = pairs.drop_last();
        let last = pairs.last();
        assert forall|i: int, j: int|
            0 <= i < front.len() && 0 <= j < front.len() && #[trigger] front[i]
                == #[trigger] front[j] implies i == j by {
            assert(pairs[i] == front[i] && pairs[j] == front[j]);
        }
        lemma_without_left(front, left);
        let kept = without_left(front, left);
        assert forall|l: int, r: int| has_pair(pairs, l, r) <==> has_pair(front, l, r) || last == (
        Pair { left: l, right: r }) by {
            let p = Pair { left: l, right: r };
            if has_pair(pairs, l, r) {
                let i = choose|i: int| 0 <= i < pairs.len() && #[trigger] pairs[i] == p;
                if i < front.len() {
                    assert(front[i] == p);
                }
            }
            if has_pair(front, l, r) {
                let i = choose|i: int| 0 <= i < front.len() && #[trigger] front[i] == p;
                assert(pairs[i] == p);
            }
            if last == p {
                assert(pairs[pairs.len() - 1] == p);
            }
        }
        if last.left == left {
        } else {
            assert(!has_pair(kept, last.left, last.right)) by {
                if has_pair(front, last.left, last.right) {
                    let i = choose|i: int| 0 <= i < front.len() && #[trigger] front[i] == last;
                    assert(pairs[i] == pairs[pairs.len() - 1]);
                }
            }
            assert forall|i: int, j: int|
                0 <= i < next.len() && 0 <= j < next.len() && #[trigger] next[i]
                    == #[trigger] next[j] implies i == j by {
                if i < kept.len() {
                    assert(kept[i] == next[i]);
                }
                if j < kept.len() {
                    assert(kept[j] == next[j]);
                }
            }
            assert forall|l: int, r: int| #[trigger]
                has_pair(next, l, r) <==> l != left && has_pair(pairs, l, r) by {
                let p = Pair { left: l, right: r };
                if has_pair(next, l, r) {
                    let i = choose|i: int| 0 <= i < next.len() && #[trigger] next[i] == p;
                    if i < kept.len() {
                        assert(kept[i] == p);
                    }
                }
                if has_pair(kept, l, r) {
                    let i = choose|i: int| 0 <= i < kept.len() && #[trigger] kept[i] == p;
                    assert(next[i] == p);
                }
                if last == p {
                    assert(next[next.len() - 1] == p);
                }
            }
        }
    }
}

// ---------------------------------------------------------------------------
// Problems
// ---------------------------------------------------------------------------

/// Some problem of the material has the title.
pub open spec fn has_title(
    problems: Seq<Entry<ProblemData>>,
    material_id: int,
    title: Seq<char>,
) -> bool {
    exists|i: int|
        0 <= i < problems.len() && (#[trigger] problems[i]).row.material_id == material_id
            && problems[i].row.title == title
}

/// The id of the material's problem with the title, if there is one.
pub open spec fn titled(problems: Seq<Entry<ProblemData>>, material_id: int, title: Seq<char>)
    -> Option<int> {
    if has_title(problems, material_id, title) {
        Some(
            problems[choose|i: int|
                0 <= i < problems.len() && (#[trigger] problems[i]).row.material_id == material_id
                    && problems[i].row.title == title].id,
        )
    } else {
        None
    }
}

/// Within a material no two problems share a title.
pub open spec fn titles_unique(problems: Seq<Entry<ProblemData>>) -> bool {
    forall|i: int, j: int|
        0 <= i < problems.len() && 0 <= j < problems.len() && (
        #[trigger] problems[i]).row.material_id == (#[trigger] problems[j]).row.material_id
            && problems[i].row.title == problems[j].row.title ==> i == j
}

/// Some problem carries the display identifier.
pub open spec fn display_id_taken(problems: Seq<Entry<ProblemData>>, generated_id: Seq<char>)
    -> bool {
    exists|i: int| 0 <= i < problems.len() && (#[trigger] problems[i]).row.generated_id == generated_id
}

/// No two problems share a display identifier.
pub open spec fn display_ids_unique(problems: Seq<Entry<ProblemData>>) -> bool {
    forall|i: int, j: int|
        0 <= i < problems.len() && 0 <= j < problems.len() && (
        #[trigger] problems[i]).row.generated_id == (#[trigger] problems[j]).row.generated_id ==> i
            == j
}

/// The content type that a description and an image call for.
pub open spec fn content_type_of(description: Option<Seq<char>>, image: Option<Seq<char>>)
    -> ContentType {
    if image is Some {
        if description is Some {
            ContentType::Both
        } else {
            ContentType::Image
        }
    } else {
        ContentType::Text
    }
}

/// The content type of a problem whose image has just been set or cleared:
/// `text` without an image, `both` with an image and a description that is
/// not empty, `image` otherwise.
pub open spec fn content_type_with_image(description: Option<Seq<char>>, image: Option<Seq<char>>)
    -> ContentType {
    if image is None {
        ContentType::Text
    } else if description matches Some(text) && text.len() > 0 {
        ContentType::Both
    } else {
        ContentType::Image
    }
}

// ---------------------------------------------------------------------------
// Batches
// ---------------------------------------------------------------------------

/// Some batch of the problem has the number.
pub open spec fn has_batch_number(batches: Seq<Entry<BatchData>>, problem_id: int, number: int)
    -> bool {
    exists|i: int|
        0 <= i < batches.len() && (#[trigger] batches[i]).row.problem_id == problem_id
            && batches[i].row.batch_number == number
}

/// Within a problem no two batches share a number.
pub open spec fn batch_numbers_unique(batches: Seq<Entry<BatchData>>) -> bool {
    forall|i: int, j: int|
        0 <= i < batches.len() && 0 <= j < batches.len() && (
        #[trigger] batches[i]).row.problem_id == (#[trigger] batches[j]).row.problem_id
            && batches[i].row.batch_number == batches[j].row.batch_number ==> i == j
}

/// Some batch of the problem has no end.
pub open spec fn has_open_batch(batches: Seq<Entry<BatchData>>, problem_id: int) -> bool {
    exists|i: int|
        0 <= i < batches.len() && (#[trigger] batches[i]).row.problem_id == problem_id
            && batches[i].row.ended_at is None
}

/// The id of the problem's open batch, if it has one.
pub open spec fn open_batch(batches: Seq<Entry<BatchData>>, problem_id: int) -> Option<int> {
    if has_open_batch(batches, problem_id) {
        Some(
            batches[choose|i: int|
                0 <= i < batches.len() && (#[trigger] batches[i]).row.problem_id == problem_id
                    && batches[i].row.ended_at is None].id,
        )
    } else {
        None
    }
}

/// No problem has two batches without an end.
pub open spec fn one_open_batch(batches: Seq<Entry<BatchData>>) -> bool {
    forall|i: int, j: int|
        0 <= i < batches.len() && 0 <= j < batches.len() && (
        #[trigger] batches[i]).row.problem_id == (#[trigger] batches[j]).row.problem_id
            && batches[i].row.ended_at is None && batches[j].row.ended_at is None ==> i == j
}

// ---------------------------------------------------------------------------
// Attempts
// ---------------------------------------------------------------------------

/// The status tags that an attempt may carry.
pub open spec fn known_status(tag: Seq<char>) -> bool {
    ||| tag == "stuck"@
    ||| tag == "breakthrough"@
    ||| tag == "review"@
    ||| tag == "first_attempt"@
    ||| tag == "debugging"@
}

/// What the attempts table admits: a difficulty from 1 to 5 and a status tag
/// of the fixed vocabulary, where either is given.
pub open spec fn admitted(details: Details) -> bool {
    admits(details.difficulty_rating, details.status_tag)
}

/// A difficulty from 1 to 5 and a status tag of the fixed vocabulary, where
/// either is given.
pub open spec fn admits(difficulty_rating: Option<int>, status_tag: Option<Seq<char>>) -> bool {
    &&& difficulty_rating matches Some(rating) ==> 1 <= rating <= 5
    &&& status_tag matches Some(tag) ==> known_status(tag)
}

/// The batch's most recent attempt, if it has any.
pub open spec fn latest_in(attempts: Seq<Entry<AttemptData>>, batch_id: int) -> Option<
    Entry<AttemptData>,
>
    decreases attempts.len(),
{
    if attempts.len() == 0 {
        None
    } else if attempts.last().row.batch_id == batch_id {
        Some(attempts.last())
    } else {
        latest_in(attempts.drop_last(), batch_id)
    }
}

/// The attempt was made in a batch of the problem.
pub open spec fn belongs(batches: Seq<Entry<BatchData>>, attempt: AttemptData, problem_id: int)
    -> bool {
    has_id(batches, attempt.batch_id) && row_of(batches, attempt.batch_id).problem_id == problem_id
}

/// The problem's attempts across all its batches, oldest first.
pub open spec fn history(
    attempts: Seq<Entry<AttemptData>>,
    batches: Seq<Entry<BatchData>>,
    problem_id: int,
) -> Seq<Entry<AttemptData>>
    decreases attempts.len(),
{
    if attempts.len() == 0 {
        Seq::empty()
    } else if belongs(batches, attempts.last().row, problem_id) {
        history(attempts.drop_last(), batches, problem_id).push(attempts.last())
    } else {
        history(attempts.drop_last(), batches, problem_id)
    }
}

/// The number of most recent attempts that mastery looks at.
pub open spec fn streak_length() -> nat {
    5
}

/// Mastery: there are at least five attempts and the five most recent ones
/// all succeeded.
pub open spec fn mastered(past: Seq<Entry<AttemptData>>) -> bool {
    &&& past.len() >= streak_length()
    &&& forall|i: int|
        past.len() - streak_length() <= i < past.len() ==> (#[trigger] past[i]).row.details.successful
}

/// The outcomes of the problem's most recent attempts, newest first, at
/// most `limit` of them.
pub open spec fn recent_outcomes(
    attempts: Seq<Entry<AttemptData>>,
    batches: Seq<Entry<BatchData>>,
    problem_id: int,
    limit: nat,
) -> Seq<bool>
    decreases attempts.len(),
{
    if limit == 0 || attempts.len() == 0 {
        Seq::empty()
    } else if belongs(batches, attempts.last().row, problem_id) {
        seq![attempts.last().row.details.successful] + recent_outcomes(
            attempts.drop_last(),
            batches,
            problem_id,
            (limit - 1) as nat,
        )
    } else {
        recent_outcomes(attempts.drop_last(), batches, problem_id, limit)
    }
}

/// The streak that mastery asks for: five outcomes or more, all successes.
pub open spec fn streak_reached(outcomes: Seq<bool>) -> bool {
    &&& outcomes.len() >= streak_length()
    &&& forall|i: int| 0 <= i < outcomes.len() ==> outcomes[i]
}

/// The recent outcomes are the end of the history, read backwards.
pub proof fn lemma_recent_outcomes(
    attempts: Seq<Entry<AttemptData>>,
    batches: Seq<Entry<BatchData>>,
    problem_id: int,
    limit: nat,
)
    ensures
        ({
            let past = history(attempts, batches, problem_id);
            let recent = recent_outcomes(attempts, batches, problem_id, limit);
            &&& recent.len() == if past.len() < limit {
                past.len()
            } else {
                limit
            }
            &&& forall|k: int|
                0 <= k < recent.len() ==> recent[k] == past[past.len() - 1 - k].row.details.successful
        }),
    decreases attempts.len(),
{
    if limit == 0 || attempts.len() == 0 {
    } else if belongs(batches, attempts.last().row, problem_id) {
        lemma_recent_outcomes(attempts.drop_last(), batches, problem_id, (limit - 1) as nat);
    } else {
        lemma_recent_outcomes(attempts.drop_last(), batches, problem_id, limit);
    }
}

/// A problem is mastered exactly when its five most recent outcomes reach
/// the streak.
pub proof fn lemma_mastered(
    attempts: Seq<Entry<AttemptData>>,
    batches: Seq<Entry<BatchData>>,
    problem_id: int,
)
    ensures
        mastered(history(attempts, batches, problem_id)) == streak_reached(
            recent_outcomes(attempts, batches, problem_id, streak_length()),
        ),
{
    let past = history(attempts, batches, problem_id);
    let recent = recent_outcomes(attempts, batches, problem_id, streak_length());
    lemma_recent_outcomes(attempts, batches, problem_id, streak_length());
    if mastered(past) {
        assert forall|i: int| 0 <= i < recent.len() implies recent[i] by {
            assert(past[past.len() - 1 - i].row.details.successful);
        }
    }
    if streak_reached(recent) {
        assert forall|i: int| past.len() - streak_length() <= i < past.len() implies (
        #[trigger] past[i]).row.details.successful by {
            assert(recent[past.len() - 1 - i]);
        }
    }
}

/// Where the row at place `i` of the table without the id stood before.
pub open spec fn shifted<T>(rows: Seq<Entry<T>>, id: int, i: int) -> int {
    if has_id(rows, id) && i >= index_of(rows, id) {
        i + 1
    } else {
        i
    }
}

/// Removing a row keeps the others, in order.
pub proof fn lemma_removed<T>(rows: Seq<Entry<T>>, last_id: int, id: int)
    requires
        keyed(rows, last_id),
    ensures
        keyed(removed(rows, id), last_id),
        forall|other: int| has_id(removed(rows, id), other) <==> other != id && has_id(rows, other),
        forall|i: int|
            0 <= i < removed(rows, id).len() ==> 0 <= shifted(rows, id, i) < rows.len()
                && #[trigger] removed(rows, id)[i] == rows[shifted(rows, id, i)],
{
    let next = removed(rows, id);
    if has_id(rows, id) {
        let at = index_of(rows, id);
        lemma_index_of(rows, last_id, at);
        assert forall|i: int| 0 <= i < next.len() implies #[trigger] next[i] == rows[if i < at {
            i
        } else {
            i + 1
        }] by {}
        assert forall|i: int, j: int| 0 <= i < j < next.len() implies (#[trigger] next[i]).id < (
        #[trigger] next[j]).id by {
            let a = if i < at {
                i
            } else {
                i + 1
            };
            let b = if j < at {
                j
            } else {
                j + 1
            };
            assert(rows[a].id < rows[b].id);
        }
        assert forall|i: int| 0 <= i < next.len() implies 0 < (#[trigger] next[i]).id
            <= last_id by {
            let a = if i < at {
                i
            } else {
                i + 1
            };
            assert(0 < rows[a].id <= last_id);
        }
        assert forall|other: int| has_id(next, other) <==> other != id && has_id(rows, other) by {
            if has_id(next, other) {
                let i = index_of(next, other);
                let a = if i < at {
                    i
                } else {
                    i + 1
                };
                assert(rows[a].id == other);
                lemma_index_of(rows, last_id, a);
            }
            if other != id && has_id(rows, other) {
                let j = index_of(rows, other);
                let i = if j < at {
                    j
                } else {
                    j - 1
                };
                assert(next[i].id == other);
            }
        }
    }
}

// ---------------------------------------------------------------------------
// The store
// ---------------------------------------------------------------------------

impl StoreModel {
    /// The store that holds nothing and has handed out no id.
    pub open spec fn empty() -> StoreModel {
        StoreModel {
            subjects: Seq::empty(),
            last_subject_id: 0,
            materials: Seq::empty(),
            last_material_id: 0,
            subject_materials: Seq::empty(),
            problems: Seq::empty(),
            last_problem_id: 0,
            batches: Seq::empty(),
            last_batch_id: 0,
            attempts: Seq::empty(),
            last_attempt_id: 0,
            resources: Seq::empty(),
            last_resource_id: 0,
            attempt_resources: Seq::empty(),
        }
    }

    /// Every table is in the order of its ids.
    pub open spec fn keys_valid(self) -> bool {
        &&& keyed(self.subjects, self.last_subject_id)
        &&& keyed(self.materials, self.last_material_id)
        &&& keyed(self.problems, self.last_problem_id)
        &&& keyed(self.batches, self.last_batch_id)
        &&& keyed(self.attempts, self.last_attempt_id)
        &&& keyed(self.resources, self.last_resource_id)
    }

    /// Every unique key is unique.
    pub open spec fn uniques_valid(self) -> bool {
        &&& names_unique(self.subjects)
        &&& names_unique(self.materials)
        &&& names_unique(self.resources)
        &&& titles_unique(self.problems)
        &&& display_ids_unique(self.problems)
        &&& batch_numbers_unique(self.batches)
        &&& pairs_unique(self.subject_materials)
        &&& pairs_unique(self.attempt_resources)
    }

    /// Every row that names a parent row has one.
    pub open spec fn references_valid(self) -> bool {
        &&& forall|i: int|
            0 <= i < self.subject_materials.len() ==> has_id(
                self.subjects,
                (#[trigger] self.subject_materials[i]).left,
            ) && has_id(self.materials, self.subject_materials[i].right)
        &&& forall|i: int|
            0 <= i < self.problems.len() ==> has_id(
                self.materials,
                (#[trigger] self.problems[i]).row.material_id,
            )
        &&& forall|i: int|
            0 <= i < self.batches.len() ==> has_id(
                self.problems,
                (#[trigger] self.batches[i]).row.problem_id,
            )
        &&& forall|i: int|
            0 <= i < self.attempts.len() ==> has_id(
                self.batches,
                (#[trigger] self.attempts[i]).row.batch_id,
            )
        &&& forall|i: int|
            0 <= i < self.attempt_resources.len() ==> has_id(
                self.attempts,
                (#[trigger] self.attempt_resources[i]).left,
            ) && has_id(self.resources, self.attempt_resources[i].right)
    }

    /// Every attempt is one that the table admits.
    pub open spec fn attempts_admitted(self) -> bool {
        forall|i: int|
            0 <= i < self.attempts.len() ==> admitted((#[trigger] self.attempts[i]).row.details)
    }

    /// The rules that every store obeys.
    pub open spec fn valid(self) -> bool {
        &&& self.keys_valid()
        &&& self.uniques_valid()
        &&& one_open_batch(self.batches)
        &&& self.references_valid()
        &&& self.attempts_admitted()
    }

    // --- subjects ---------------------------------------------------------

    /// Why the store refuses a subject under an id, if it does.
    pub open spec fn subject_fault(self, id: int, data: SubjectData) -> Option<StoreFault> {
        if id <= self.last_subject_id {
            Some(StoreFault::StaleId)
        } else if has_name(self.subjects, data.name) {
            Some(StoreFault::Duplicate)
        } else {
            None
        }
    }

    /// The store with the subject added under the id.
    pub open spec fn put_subject(self, id: int, data: SubjectData) -> StoreModel {
        StoreModel { subjects: appended(self.subjects, id, data), last_subject_id: id, ..self }
    }

    // --- materials --------------------------------------------------------

    /// Why the store refuses a material under an id, if it does.
    pub open spec fn material_fault(self, id: int, data: MaterialData) -> Option<StoreFault> {
        if id <= self.last_material_id {
            Some(StoreFault::StaleId)
        } else if has_name(self.materials, data.name_en) {
            Some(StoreFault::Duplicate)
        } else {
            None
        }
    }

    /// The store with the material added under the id.
    pub open spec fn put_material(self, id: int, data: MaterialData) -> StoreModel {
        StoreModel { materials: appended(self.materials, id, data), last_material_id: id, ..self }
    }

    // --- subject-material links --------------------------------------------

    /// Why the store refuses to link a material to a subject, if it does.
    pub open spec fn subject_material_fault(self, subject_id: int, material_id: int) -> Option<
        StoreFault,
    > {
        if has_pair(self.subject_materials, subject_id, material_id) {
            None
        } else if !has_id(self.subjects, subject_id) || !has_id(self.materials, material_id) {
            Some(StoreFault::MissingParent)
        } else {
            None
        }
    }

    /// The store with the material linked to the subject.
    pub open spec fn link_subject_material(self, subject_id: int, material_id: int) -> StoreModel {
        StoreModel {
            subject_materials: with_pair(self.subject_materials, subject_id, material_id),
            ..self
        }
    }

    // --- problems ---------------------------------------------------------

    /// Why the store refuses a problem under an id, if it does.
    pub open spec fn problem_fault(self, id: int, data: ProblemData) -> Option<StoreFault> {
        if id <= self.last_problem_id {
            Some(StoreFault::StaleId)
        } else if has_title(self.problems, data.material_id, data.title) || display_id_taken(
            self.problems,
            data.generated_id,
        ) {
            Some(StoreFault::Duplicate)
        } else if !has_id(self.materials, data.material_id) {
            Some(StoreFault::MissingParent)
        } else {
            None
        }
    }

    /// The store with the problem added under the id.
    pub open spec fn put_problem(self, id: int, data: ProblemData) -> StoreModel {
        StoreModel { problems: appended(self.problems, id, data), last_problem_id: id, ..self }
    }

    /// The problem's solved flag set; nothing changes without the problem.
    pub open spec fn set_solved(self, problem_id: int, solved: bool) -> StoreModel {
        StoreModel {
            problems: replaced(
                self.problems,
                problem_id,
                ProblemData { is_solved: solved, ..row_of(self.problems, problem_id) },
            ),
            ..self
        }
    }

    /// Why the store refuses a new title for a problem, if it does.
    pub open spec fn problem_text_fault(self, problem_id: int, title: Seq<char>) -> Option<
        StoreFault,
    > {
        if has_id(self.problems, problem_id) && titled(
            self.problems,
            row_of(self.problems, problem_id).material_id,
            title,
        ) is Some && titled(
            self.problems,
            row_of(self.problems, problem_id).material_id,
            title,
        ) != Some(problem_id) {
            Some(StoreFault::Duplicate)
        } else {
            None
        }
    }

    /// The problem's title and description overwritten.
    pub open spec fn set_problem_text(
        self,
        problem_id: int,
        title: Seq<char>,
        description: Option<Seq<char>>,
    ) -> StoreModel {
        StoreModel {
            problems: replaced(
                self.problems,
                problem_id,
                ProblemData { title, description, ..row_of(self.problems, problem_id) },
            ),
            ..self
        }
    }

    /// The problem's image set or cleared, and its content type with it.
    pub open spec fn set_problem_image(self, problem_id: int, image: Option<Seq<char>>)
        -> StoreModel {
        let row = row_of(self.problems, problem_id);
        StoreModel {
            problems: replaced(
                self.problems,
                problem_id,
                ProblemData {
                    image_filename: image,
                    content_type: content_type_with_image(row.description, image),
                    ..row
                },
            ),
            ..self
        }
    }

    // --- batches ----------------------------------------------------------

    /// Why the store refuses a batch under an id, if it does.
    pub open spec fn batch_fault(self, id: int, data: BatchData) -> Option<StoreFault> {
        if id <= self.last_batch_id {
            Some(StoreFault::StaleId)
        } else if has_batch_number(self.batches, data.problem_id, data.batch_number) {
            Some(StoreFault::Duplicate)
        } else if data.ended_at is None && has_open_batch(self.batches, data.problem_id) {
            Some(StoreFault::OpenBatchExists)
        } else if !has_id(self.problems, data.problem_id) {
            Some(StoreFault::MissingParent)
        } else {
            None
        }
    }

    /// The store with the batch added under the id.
    pub open spec fn put_batch(self, id: int, data: BatchData) -> StoreModel {
        StoreModel { batches: appended(self.batches, id, data), last_batch_id: id, ..self }
    }

    /// The batch given an end; nothing changes without the batch.
    pub open spec fn close_batch(self, batch_id: int, ended_at: Seq<char>) -> StoreModel {
        StoreModel {
            batches: replaced(
                self.batches,
                batch_id,
                BatchData { ended_at: Some(ended_at), ..row_of(self.batches, batch_id) },
            ),
            ..self
        }
    }

    // --- attempts ---------------------------------------------------------

    /// Why the store refuses an attempt under an id, if it does.
    pub open spec fn attempt_fault(self, id: int, data: AttemptData) -> Option<StoreFault> {
        if !admitted(data.details) {
            Some(StoreFault::CheckFailed)
        } else if id <= self.last_attempt_id {
            Some(StoreFault::StaleId)
        } else if !has_id(self.batches, data.batch_id) {
            Some(StoreFault::MissingParent)
        } else {
            None
        }
    }

    /// The store with the attempt added under the id.
    pub open spec fn put_attempt(self, id: int, data: AttemptData) -> StoreModel {
        StoreModel { attempts: appended(self.attempts, id, data), last_attempt_id: id, ..self }
    }

    /// Why the store refuses new details for an attempt, if it does.
    pub open spec fn details_fault(self, attempt_id: int, details: Details) -> Option<StoreFault> {
        if has_id(self.attempts, attempt_id) && !admitted(details) {
            Some(StoreFault::CheckFailed)
        } else {
            None
        }
    }

    /// The attempt's details overwritten; nothing changes without the attempt.
    pub open spec fn set_details(self, attempt_id: int, details: Details) -> StoreModel {
        StoreModel {
            attempts: replaced(
                self.attempts,
                attempt_id,
                AttemptData { details, ..row_of(self.attempts, attempt_id) },
            ),
            ..self
        }
    }

    /// The attempt taken out, and its resource links with it.
    pub open spec fn drop_attempt(self, attempt_id: int) -> StoreModel {
        StoreModel {
            attempts: removed(self.attempts, attempt_id),
            attempt_resources: without_left(self.attempt_resources, attempt_id),
            ..self
        }
    }

    // --- resources --------------------------------------------------------

    /// Why the store refuses a resource under an id, if it does.
    pub open spec fn resource_fault(self, id: int, data: ResourceData) -> Option<StoreFault> {
        if id <= self.last_resource_id {
            Some(StoreFault::StaleId)
        } else if has_name(self.resources, data.name) {
            Some(StoreFault::Duplicate)
        } else {
            None
        }
    }

    /// The store with the resource added under the id.
    pub open spec fn put_resource(self, id: int, data: ResourceData) -> StoreModel {
        StoreModel { resources: appended(self.resources, id, data), last_resource_id: id, ..self }
    }

    /// Why the store refuses to link a resource to an attempt, if it does.
    pub open spec fn attempt_resource_fault(self, attempt_id: int, resource_id: int) -> Option<
        StoreFault,
    > {
        if has_pair(self.attempt_resources, attempt_id, resource_id) {
            None
        } else if !has_id(self.attempts, attempt_id) || !has_id(self.resources, resource_id) {
            Some(StoreFault::MissingParent)
        } else {
            None
        }
    }

    /// The store with the resource linked to the attempt.
    pub open spec fn link_attempt_resource(self, attempt_id: int, resource_id: int) -> StoreModel {
        StoreModel {
            attempt_resources: with_pair(self.attempt_resources, attempt_id, resource_id),
            ..self
        }
    }
}

} // verus!
