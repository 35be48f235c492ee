//! The rows of the store as plain values, each with the model it stands for.

use vstd::prelude::*;
use crate::model::{
    has_id, has_pair, AttemptData, BatchData, ContentType, Details, Entry, MaterialData, Pair,
    ProblemData, ResourceData, ResourceKind, SubjectData,
};

verus! {

/// The characters of an optional text.
pub open spec fn text_view(text: Option<String>) -> Option<Seq<char>> {
    match text {
        Some(text) => Some(text@),
        None => None,
    }
}

/// The characters of each text of a list.
pub open spec fn texts_view(texts: Seq<String>) -> Seq<Seq<char>> {
    texts.map_values(|text: String| text@)
}

/// A row of a table: an id and what stands under it.
pub trait Record {
    type Data;

    spec fn key(&self) -> int;

    spec fn data(&self) -> Self::Data;

    fn id(&self) -> (id: i64)
        ensures
            id == self.key(),
    ;
}

/// The model of a row.
pub open spec fn entry<R: Record>(row: R) -> Entry<R::Data> {
    Entry { id: row.key(), row: row.data() }
}

/// The model of a table.
pub open spec fn entries<R: Record>(rows: Seq<R>) -> Seq<Entry<R::Data>> {
    Seq::new(rows.len(), |i: int| entry(rows[i]))
}

/// The model of a join table.
pub open spec fn pairs<R: Link>(rows: Seq<R>) -> Seq<Pair> {
    Seq::new(rows.len(), |i: int| rows[i].pair())
}

/// A row that is found by a name.
pub trait Labeled {
    spec fn label_of(&self) -> Seq<char>;

    fn label(&self) -> (name: &str)
        ensures
            name@ == self.label_of(),
    ;
}

/// A row of a join table.
pub trait Link {
    spec fn pair(&self) -> Pair;

    fn left(&self) -> (id: i64)
        ensures
            id == self.pair().left,
    ;

    fn right(&self) -> (id: i64)
        ensures
            id == self.pair().right,
    ;
}

/// A subject of study.
#[derive(Debug)]
pub struct Subject {
    pub id: i64,
    pub name: String,
}

impl Record for Subject {
    type Data = SubjectData;

    open spec fn key(&self) -> int {
        self.id as int
    }

    open spec fn data(&self) -> SubjectData {
        SubjectData { name: self.name@ }
    }

    fn id(&self) -> (id: i64) {
        self.id
    }
}

impl View for Subject {
    type V = Entry<SubjectData>;

    open spec fn view(&self) -> Entry<SubjectData> {
        entry(*self)
    }
}

impl Labeled for Subject {
    open spec fn label_of(&self) -> Seq<char> {
        self.name@
    }

    fn label(&self) -> (name: &str) {
        self.name.as_str()
    }
}

/// A material that problems are taken from, under its English name and an
/// optional secondary one.
#[derive(Debug)]
pub struct Material {
    pub id: i64,
    pub name_en: String,
    pub name_ru: Option<String>,
}

impl Record for Material {
    type Data = MaterialData;

    open spec fn key(&self) -> int {
        self.id as int
    }

    open spec fn data(&self) -> MaterialData {
        MaterialData { name_en: self.name_en@, name_ru: text_view(self.name_ru) }
    }

    fn id(&self) -> (id: i64) {
        self.id
    }
}

impl View for Material {
    type V = Entry<MaterialData>;

    open spec fn view(&self) -> Entry<MaterialData> {
        entry(*self)
    }
}

impl Labeled for Material {
    open spec fn label_of(&self) -> Seq<char> {
        self.name_en@
    }

    fn label(&self) -> (name: &str) {
        self.name_en.as_str()
    }
}

/// A subject and a material that belongs to it.
#[derive(Clone, Copy, Debug)]
pub struct SubjectMaterial {
    pub subject_id: i64,
    pub material_id: i64,
}

impl View for SubjectMaterial {
    type V = Pair;

    open spec fn view(&self) -> Pair {
        Pair { left: self.subject_id as int, right: self.material_id as int }
    }
}

impl Link for SubjectMaterial {
    open spec fn pair(&self) -> Pair {
        self@
    }

    fn left(&self) -> (id: i64) {
        self.subject_id
    }

    fn right(&self) -> (id: i64) {
        self.material_id
    }
}

/// A problem of a material, under its display identifier.
#[derive(Debug)]
pub struct Problem {
    pub id: i64,
    pub generated_id: String,
    pub material_id: i64,
    pub title: String,
    pub description: Option<String>,
    pub image_filename: Option<String>,
    pub content_type: ContentType,
    pub is_solved: bool,
}

impl Record for Problem {
    type Data = ProblemData;

    open spec fn key(&self) -> int {
        self.id as int
    }

    open spec fn data(&self) -> ProblemData {
        ProblemData {
            generated_id: self.generated_id@,
            material_id: self.material_id as int,
            title: self.title@,
            description: text_view(self.description),
            image_filename: text_view(self.image_filename),
            content_type: self.content_type,
            is_solved: self.is_solved,
        }
    }

    fn id(&self) -> (id: i64) {
        self.id
    }
}

impl View for Problem {
    type V = Entry<ProblemData>;

    open spec fn view(&self) -> Entry<ProblemData> {
        entry(*self)
    }
}

/// A run of consecutive attempts at a problem; it is open while it has no end.
#[derive(Debug)]
pub struct Batch {
    pub id: i64,
    pub problem_id: i64,
    pub batch_number: i32,
    pub started_at: String,
    pub ended_at: Option<String>,
    pub is_fresh_start: bool,
}

impl Record for Batch {
    type Data = BatchData;

    open spec fn key(&self) -> int {
        self.id as int
    }

    open spec fn data(&self) -> BatchData {
        BatchData {
            problem_id: self.problem_id as int,
            batch_number: self.batch_number as int,
            started_at: self.started_at@,
            ended_at: text_view(self.ended_at),
            is_fresh_start: self.is_fresh_start,
        }
    }

    fn id(&self) -> (id: i64) {
        self.id
    }
}

impl View for Batch {
    type V = Entry<BatchData>;

    open spec fn view(&self) -> Entry<BatchData> {
        entry(*self)
    }
}

/// What a caller reports of one attempt, and the resources used in it.
///
/// `time_spent_minutes` carries the minutes as the bit pattern of a
/// double-precision number; the store keeps it and never computes with it.
#[derive(Debug)]
pub struct AttemptInput {
    pub successful: bool,
    pub time_spent_minutes: Option<u64>,
    pub difficulty_rating: Option<i32>,
    pub errors: Option<String>,
    pub resolution: Option<String>,
    pub commentary: Option<String>,
    pub status_tag: Option<String>,
    pub resources: Vec<String>,
}

/// A difficulty rating as a mathematical integer.
pub open spec fn rating_view(rating: Option<i32>) -> Option<int> {
    match rating {
        Some(rating) => Some(rating as int),
        None => None,
    }
}

impl AttemptInput {
    /// What is reported of the attempt itself.
    pub open spec fn details(&self) -> Details {
        Details {
            successful: self.successful,
            time_spent_minutes: self.time_spent_minutes,
            difficulty_rating: rating_view(self.difficulty_rating),
            errors: text_view(self.errors),
            resolution: text_view(self.resolution),
            commentary: text_view(self.commentary),
            status_tag: text_view(self.status_tag),
        }
    }

    /// The names of the resources, as given.
    pub open spec fn resource_names(&self) -> Seq<Seq<char>> {
        texts_view(self.resources@)
    }
}

/// One attempt at a problem, in a batch, with the number it has among all
/// attempts at the problem.
#[derive(Debug)]
pub struct Attempt {
    pub id: i64,
    pub batch_id: i64,
    pub attempt_number: i32,
    pub successful: bool,
    pub time_spent_minutes: Option<u64>,
    pub difficulty_rating: Option<i32>,
    pub errors: Option<String>,
    pub resolution: Option<String>,
    pub commentary: Option<String>,
    pub status_tag: Option<String>,
    pub timestamp: String,
}

impl Record for Attempt {
    type Data = AttemptData;

    open spec fn key(&self) -> int {
        self.id as int
    }

    open spec fn data(&self) -> AttemptData {
        AttemptData {
            batch_id: self.batch_id as int,
            attempt_number: self.attempt_number as int,
            timestamp: self.timestamp@,
            details: Details {
                successful: self.successful,
                time_spent_minutes: self.time_spent_minutes,
                difficulty_rating: rating_view(self.difficulty_rating),
                errors: text_view(self.errors),
                resolution: text_view(self.resolution),
                commentary: text_view(self.commentary),
                status_tag: text_view(self.status_tag),
            },
        }
    }

    fn id(&self) -> (id: i64) {
        self.id
    }
}

impl View for Attempt {
    type V = Entry<AttemptData>;

    open spec fn view(&self) -> Entry<AttemptData> {
        entry(*self)
    }
}

/// Something that was used in an attempt.
#[derive(Debug)]
pub struct Resource {
    pub id: i64,
    pub name: String,
    pub kind: ResourceKind,
}

impl Record for Resource {
    type Data = ResourceData;

    open spec fn key(&self) -> int {
        self.id as int
    }

    open spec fn data(&self) -> ResourceData {
        ResourceData { name: self.name@, kind: self.kind }
    }

    fn id(&self) -> (id: i64) {
        self.id
    }
}

impl View for Resource {
    type V = Entry<ResourceData>;

    open spec fn view(&self) -> Entry<ResourceData> {
        entry(*self)
    }
}

impl Labeled for Resource {
    open spec fn label_of(&self) -> Seq<char> {
        self.name@
    }

    fn label(&self) -> (name: &str) {
        self.name.as_str()
    }
}

/// An attempt and a resource that was used in it.
#[derive(Clone, Copy, Debug)]
pub struct AttemptResource {
    pub attempt_id: i64,
    pub resource_id: i64,
}

impl View for AttemptResource {
    type V = Pair;

    open spec fn view(&self) -> Pair {
        Pair { left: self.attempt_id as int, right: self.resource_id as int }
    }
}

impl Link for AttemptResource {
    open spec fn pair(&self) -> Pair {
        self@
    }

    fn left(&self) -> (id: i64) {
        self.attempt_id
    }

    fn right(&self) -> (id: i64) {
        self.resource_id
    }
}

/// Finds the first place of a pair in a join table.
pub fn position_pair<R: Link>(rows: &Vec<R>, left: i64, right: i64) -> (r: Option<usize>)
    ensures
        match r {
            Some(at) => {
                &&& at < rows.len()
                &&& pairs(rows@)[at as int] == (Pair { left: left as int, right: right as int })
                &&& forall|i: int|
                    0 <= i < at ==> #[trigger] pairs(rows@)[i] != (Pair {
                        left: left as int,
                        right: right as int,
                    })
            },
            None => !has_pair(pairs(rows@), left as int, right as int),
        },
{
    let mut at: usize = 0;
    while at < rows.len()
        invariant
            at <= rows.len(),
            forall|i: int|
                0 <= i < at ==> #[trigger] pairs(rows@)[i] != (Pair {
                    left: left as int,
                    right: right as int,
                }),
        decreases rows.len() - at,
    {
        if rows[at].left() == left && rows[at].right() == right {
            return Some(at);
        }
        at = at + 1;
    }
    None
}

/// Finds the first place of a row with an id.
pub fn position<R: Record>(rows: &Vec<R>, id: i64) -> (r: Option<usize>)
    ensures
        match r {
            Some(at) => {
                &&& at < rows.len()
                &&& entries(rows@)[at as int].id == id
                &&& has_id(entries(rows@), id as int)
                &&& forall|i: int| 0 <= i < at ==> (#[trigger] entries(rows@)[i]).id != id
            },
            None => !has_id(entries(rows@), id as int),
        },
{
    let mut at: usize = 0;
    while at < rows.len()
        invariant
            at <= rows.len(),
            forall|i: int| 0 <= i < at ==> (#[trigger] entries(rows@)[i]).id != id,
        decreases rows.len() - at,
    {
        if rows[at].id() == id {
            assert(entries(rows@)[at as int].id == id);
            return Some(at);
        }
        at = at + 1;
    }
    None
}

/// Finds the first place of a row with a name.
pub fn position_named<R: Labeled>(rows: &Vec<R>, name: &str) -> (r: Option<usize>)
    ensures
        match r {
            Some(at) => {
                &&& at < rows.len()
                &&& rows[at as int].label_of() == name@
                &&& forall|i: int| 0 <= i < at ==> (#[trigger] rows[i]).label_of() != name@
            },
            None => forall|i: int| 0 <= i < rows.len() ==> (#[trigger] rows[i]).label_of() != name@,
        },
{
    let mut at: usize = 0;
    while at < rows.len()
        invariant
            at <= rows.len(),
            forall|i: int| 0 <= i < at ==> (#[trigger] rows[i]).label_of() != name@,
        decreases rows.len() - at,
    {
        if rows[at].label().eq(name) {
            return Some(at);
        }
        at = at + 1;
    }
    None
}

} // verus!
