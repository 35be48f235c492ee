//! Listings for a caller that browses the store: subjects, the materials
//! of a subject, the problems of a material.

use vstd::prelude::*;
use vstd::string::StringExecFns;
use crate::ident::{decimal, push_decimal};
use crate::model::{has_name, has_pair, named, Entry, Named, ProblemData, StoreModel};
use crate::rows::{text_view, Labeled};
use crate::store::Store;
use crate::text::{lemma_precedes_total, lemma_precedes_transitive, precedes, text_before};

verus! {

/// A subject in a listing.
#[derive(Debug)]
pub struct SubjectItem {
    pub name: String,
}

impl Labeled for SubjectItem {
    open spec fn label_of(&self) -> Seq<char> {
        self.name@
    }

    fn label(&self) -> (name: &str) {
        self.name.as_str()
    }
}

/// A material in a listing.
#[derive(Debug)]
pub struct MaterialItem {
    pub name_en: String,
    pub name_ru: Option<String>,
}

impl Labeled for MaterialItem {
    open spec fn label_of(&self) -> Seq<char> {
        self.name_en@
    }

    fn label(&self) -> (name: &str) {
        self.name_en.as_str()
    }
}

/// A problem in a listing.
#[derive(Debug)]
pub struct ProblemSummary {
    pub id: i64,
    pub generated_id: String,
    pub title: String,
}

/// What a [`ProblemSummary`] stands for.
pub struct Summary {
    pub id: int,
    pub generated_id: Seq<char>,
    pub title: Seq<char>,
}

impl View for ProblemSummary {
    type V = Summary;

    open spec fn view(&self) -> Summary {
        Summary { id: self.id as int, generated_id: self.generated_id@, title: self.title@ }
    }
}

/// The names that a list of items goes by.
pub open spec fn labels<T: Labeled>(items: Seq<T>) -> Seq<Seq<char>> {
    Seq::new(items.len(), |i: int| items[i].label_of())
}

/// Each text comes before all that follow it.
pub open spec fn ascending(texts: Seq<Seq<char>>) -> bool {
    forall|i: int, j: int| 0 <= i < j < texts.len() ==> precedes(texts[i], texts[j])
}

/// Puts an item into a list that is in the order of its names, at the
/// place that keeps the order.
pub fn insert_sorted<T: Labeled>(items: &mut Vec<T>, item: T)
    requires
        ascending(labels(old(items)@)),
        !labels(old(items)@).contains(item.label_of()),
    ensures
        ascending(labels(final(items)@)),
        exists|at: int| 0 <= at <= old(items).len() && final(items)@ == old(items)@.insert(at, item),
{
    let mut at: usize = 0;
    while at < items.len() && text_before(items[at].label(), item.label())
        invariant
            at <= items.len(),
            *items == *old(items),
            forall|i: int| 0 <= i < at ==> precedes(labels(items@)[i], item.label_of()),
        decreases items.len() - at,
    {
        at = at + 1;
    }
    proof {
        let before = labels(items@);
        let after = labels(items@.insert(at as int, item));
        assert forall|i: int, j: int| 0 <= i < j < after.len() implies precedes(
            after[i],
            after[j],
        ) by {
            if j < at {
                assert(after[i] == before[i] && after[j] == before[j]);
            } else if j == at {
                assert(after[i] == before[i]);
            } else if i == at {
                assert(after[j] == before[j - 1]);
                assert(before.contains(before[at as int]));
                lemma_precedes_total(before[at as int], item.label_of());
                if j - 1 > at {
                    assert(precedes(before[at as int], before[j - 1]));
                    lemma_precedes_transitive(item.label_of(), before[at as int], before[j - 1]);
                }
            } else if i < at {
                assert(after[i] == before[i] && after[j] == before[j - 1]);
            } else {
                assert(after[i] == before[i - 1] && after[j] == before[j - 1]);
            }
        }
    }
    items.insert(at, item);
}

/// Lists the subjects in the order of their names.
pub fn get_subjects(store: &Store) -> (items: Vec<SubjectItem>)
    requires
        store.wf(),
    ensures
        ascending(labels(items@)),
        items.len() == store@.subjects.len(),
        forall|name: Seq<char>|
            labels(items@).contains(name) <==> #[trigger] has_name(store@.subjects, name),
{
    let rows = store.subjects();
    let mut items: Vec<SubjectItem> = Vec::new();
    let mut at: usize = 0;
    while at < rows.len()
        invariant
            at <= rows.len(),
            store.wf(),
            crate::rows::entries(rows@) == store@.subjects,
            ascending(labels(items@)),
            items.len() == at,
            forall|name: Seq<char>|
                labels(items@).contains(name) <==> exists|i: int|
                    0 <= i < at && (#[trigger] store@.subjects[i]).row.name == name,
        decreases rows.len() - at,
    {
        let item = SubjectItem { name: rows[at].name.clone() };
        let ghost before = labels(items@);
        let ghost earlier = items@;
        proof {
            assert(store@.subjects[at as int].row.name == item.name@);
            if before.contains(item.label_of()) {
                let i = choose|i: int|
                    0 <= i < at && (#[trigger] store@.subjects[i]).row.name == item.name@;
                assert(store@.subjects[i].row.name == store@.subjects[at as int].row.name);
            }
        }
        insert_sorted(&mut items, item);
        proof {
            let place = choose|place: int|
                0 <= place <= before.len() && items@ == earlier.insert(place, item);
            let after = labels(items@);
            assert forall|name: Seq<char>| after.contains(name) <==> exists|i: int|
                0 <= i < at + 1 && (#[trigger] store@.subjects[i]).row.name == name by {
                if after.contains(name) {
                    let k = choose|k: int| 0 <= k < after.len() && after[k] == name;
                    if k < place {
                        assert(before[k] == name);
                    } else if k > place {
                        assert(before[k - 1] == name);
                    }
                }
                if before.contains(name) {
                    let k = choose|k: int| 0 <= k < before.len() && before[k] == name;
                    if k < place {
                        assert(after[k] == name);
                    } else {
                        assert(after[k + 1] == name);
                    }
                }
                if name == item.name@ {
                    assert(after[place] == name);
                }
            }
        }
        at = at + 1;
    }
    items
}

/// A material of the name stands in the store and is linked to the subject.
pub open spec fn offered(m: StoreModel, subject_name: Seq<char>, name_en: Seq<char>) -> bool {
    &&& named(m.subjects, subject_name) matches Some(subject_id)
    &&& named(m.materials, name_en) matches Some(material_id)
    &&& has_pair(m.subject_materials, subject_id, material_id)
}

/// The item shows a material of the store as it stands there.
pub open spec fn shows(m: StoreModel, item: MaterialItem) -> bool {
    exists|i: int|
        0 <= i < m.materials.len() && (#[trigger] m.materials[i]).row.name_en == item.name_en@
            && m.materials[i].row.name_ru == text_view(item.name_ru)
}

/// Lists the materials of a subject in the order of their English names.
/// A name that no subject has gives an empty listing.
pub fn get_materials_for_subject(store: &Store, subject_name: &str) -> (items: Vec<MaterialItem>)
    requires
        store.wf(),
    ensures
        ascending(labels(items@)),
        forall|name: Seq<char>|
            labels(items@).contains(name) <==> #[trigger] offered(store@, subject_name@, name),
        forall|k: int| 0 <= k < items.len() ==> shows(store@, #[trigger] items[k]),
{
    let mut items: Vec<MaterialItem> = Vec::new();
    let subject_id = match store.subject_id(subject_name) {
        Some(id) => id,
        None => {
            return items;
        },
    };
    let rows = store.materials();
    let links = store.subject_materials();
    let mut at: usize = 0;
    while at < rows.len()
        invariant
            at <= rows.len(),
            store.wf(),
            crate::rows::entries(rows@) == store@.materials,
            crate::rows::pairs(links@) == store@.subject_materials,
            named(store@.subjects, subject_name@) == Some(subject_id as int),
            ascending(labels(items@)),
            forall|name: Seq<char>|
                labels(items@).contains(name) <==> exists|i: int|
                    0 <= i < at && (#[trigger] store@.materials[i]).row.name_en == name && has_pair(
                        store@.subject_materials,
                        subject_id as int,
                        store@.materials[i].id,
                    ),
            forall|k: int| 0 <= k < items.len() ==> shows(store@, #[trigger] items[k]),
        decreases rows.len() - at,
    {
        if crate::rows::position_pair(links, subject_id, rows[at].id).is_some() {
            let item = MaterialItem {
                name_en: rows[at].name_en.clone(),
                name_ru: match &rows[at].name_ru {
                    Some(text) => Some(text.clone()),
                    None => None,
                },
            };
            let ghost before = labels(items@);
            let ghost earlier = items@;
            proof {
                assert(store@.materials[at as int].row.name_en == item.name_en@);
                assert(store@.materials[at as int].row.name_ru == text_view(item.name_ru));
                assert(shows(store@, item));
                if before.contains(item.label_of()) {
                    let i = choose|i: int|
                        0 <= i < at && (#[trigger] store@.materials[i]).row.name_en
                            == item.name_en@ && has_pair(
                            store@.subject_materials,
                            subject_id as int,
                            store@.materials[i].id,
                        );
                    assert(store@.materials[i].row.name_en
                        == store@.materials[at as int].row.name_en);
                }
            }
            insert_sorted(&mut items, item);
            proof {
                let place = choose|place: int|
                    0 <= place <= before.len() && items@ == earlier.insert(place, item);
                let after = labels(items@);
                assert forall|k: int| 0 <= k < items.len() implies shows(
                    store@,
                    #[trigger] items[k],
                ) by {
                    if k < place {
                        assert(items[k] == earlier[k]);
                    } else if k > place {
                        assert(items[k] == earlier[k - 1]);
                    }
                }
                assert forall|name: Seq<char>| after.contains(name) <==> exists|i: int|
                    0 <= i < at + 1 && (#[trigger] store@.materials[i]).row.name_en == name
                        && has_pair(
                        store@.subject_materials,
                        subject_id as int,
                        store@.materials[i].id,
                    ) by {
                    if after.contains(name) {
                        let k = choose|k: int| 0 <= k < after.len() && after[k] == name;
                        if k < place {
                            assert(before[k] == name);
                        } else if k > place {
                            assert(before[k - 1] == name);
                        }
                    }
                    if before.contains(name) {
                        let k = choose|k: int| 0 <= k < before.len() && before[k] == name;
                        if k < place {
                            assert(after[k] == name);
                        } else {
                            assert(after[k + 1] == name);
                        }
                    }
                    if name == item.name_en@ {
                        assert(after[place] == name);
                    }
                }
            }
        }
        at = at + 1;
    }
    proof {
        assert forall|name: Seq<char>|
            labels(items@).contains(name) <==> #[trigger] offered(
                store@,
                subject_name@,
                name,
            ) by {
            if labels(items@).contains(name) {
                let i = choose|i: int|
                    0 <= i < at && (#[trigger] store@.materials[i]).row.name_en == name
                        && has_pair(
                        store@.subject_materials,
                        subject_id as int,
                        store@.materials[i].id,
                    );
                crate::model::lemma_named(store@.materials, i);
            }
            if offered(store@, subject_name@, name) {
                let i = choose|i: int|
                    0 <= i < store@.materials.len() && (#[trigger] store@.materials[i]).row.label()
                        == name;
                crate::model::lemma_named(store@.materials, i);
                assert(store@.materials[i].row.name_en == name);
            }
        }
    }
    items
}

/// The summaries of a material's problems, newest first.
pub open spec fn summaries(problems: Seq<Entry<ProblemData>>, material_id: int) -> Seq<Summary>
    decreases problems.len(),
{
    if problems.len() == 0 {
        Seq::empty()
    } else if problems.last().row.material_id == material_id {
        seq![
            Summary {
                id: problems.last().id,
                generated_id: problems.last().row.generated_id,
                title: problems.last().row.title,
            },
        ] + summaries(problems.drop_last(), material_id)
    } else {
        summaries(problems.drop_last(), material_id)
    }
}

/// What a listing of problems stands for.
pub open spec fn listing(items: Seq<ProblemSummary>) -> Seq<Summary> {
    Seq::new(items.len(), |i: int| items[i]@)
}

/// Lists the problems of the material with an English name, newest first.
/// A name that no material has gives an empty listing.
pub fn get_problems_for_material(store: &Store, material_name: &str) -> (items: Vec<ProblemSummary>)
    requires
        store.wf(),
    ensures
        listing(items@) == match named(store@.materials, material_name@) {
            Some(material_id) => summaries(store@.problems, material_id),
            None => Seq::empty(),
        },
{
    let mut items: Vec<ProblemSummary> = Vec::new();
    assert(listing(items@) =~= Seq::empty());
    let material_id = match store.material_id(material_name) {
        Some(id) => id,
        None => {
            return items;
        },
    };
    let rows = store.problems();
    let mut below: usize = rows.len();
    assert(store@.problems.take(below as int) =~= store@.problems);
    assert(listing(items@) + summaries(store@.problems, material_id as int) =~= summaries(
        store@.problems,
        material_id as int,
    ));
    while below > 0
        invariant
            below <= rows.len(),
            crate::rows::entries(rows@) == store@.problems,
            summaries(store@.problems, material_id as int) == listing(items@) + summaries(
                store@.problems.take(below as int),
                material_id as int,
            ),
        decreases below,
    {
        assert(store@.problems.take(below as int).drop_last() =~= store@.problems.take(below - 1));
        let ghost before = listing(items@);
        let ghost rest = summaries(store@.problems.take(below - 1), material_id as int);
        if rows[below - 1].material_id == material_id {
            let item = ProblemSummary {
                id: rows[below - 1].id,
                generated_id: rows[below - 1].generated_id.clone(),
                title: rows[below - 1].title.clone(),
            };
            items.push(item);
            assert(listing(items@) + rest =~= before + (seq![item@] + rest));
        }
        below = below - 1;
    }
    assert(listing(items@) + Seq::<Summary>::empty() =~= listing(items@));
    items
}

/// The one-line report on a store: how many subjects it holds.
pub open spec fn store_report(subjects: nat) -> Seq<char> {
    "Database connected! "@ + decimal(subjects) + " subjects found."@
}

/// Reports that the store is there, and how many subjects it holds.
pub fn test_database(store: &Store) -> (report: String)
    ensures
        report@ == store_report(store@.subjects.len()),
{
    let mut report = String::from_str("Database connected! ");
    push_decimal(&mut report, store.subjects().len() as u64);
    report.append(" subjects found.");
    assert(report@ =~= store_report(store@.subjects.len()));
    report
}

} // verus!
