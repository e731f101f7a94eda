//! The world codec: between the entities of a world and the records of a
//! document.
//!
//! Saving writes one record for every entity, in the order in which the world
//! is walked; an entity without components becomes an empty record. Loading
//! reads every record before it creates the first entity, so a document with
//! one bad record yields an error and no world.

use crate::document::record_views;
use crate::entity::{
    components_of,
    deserialize_entity,
    lemma_components_wf,
    lemma_duplicate_tag_rejected,
    lemma_entity_round_trip,
    lemma_unknown_tag_rejected,
    record_of,
    serialize_entity,
    ComponentSet,
    ComponentSetView,
    Fault,
};
use crate::json::{distinct_keys, Json};
use crate::registry::{lookup_tag, ComponentId, Registry};
use crate::world::{set_views, spawn, world_rows, world_snapshot};
use vstd::prelude::*;

verus! {

/// Why a document was not loaded.
#[derive(Clone, Debug, PartialEq, Eq)]
pub enum LoadError {
    /// The text is no JSON array of objects; `offset` is the byte at which
    /// reading stopped.
    Syntax { offset: usize },
    /// The record with index `record` has an entry with the tag `tag` that
    /// was not accepted.
    Entity { record: usize, fault: Fault, tag: String },
    /// The document holds more entities than a world can number.
    TooManyEntities,
}

/// What a [`LoadError`] holds.
pub enum LoadErrorView {
    Syntax { offset: int },
    Entity { record: int, fault: Fault, tag: Seq<char> },
    TooManyEntities,
}

impl View for LoadError {
    type V = LoadErrorView;

    open spec fn view(&self) -> LoadErrorView {
        match self {
            LoadError::Syntax { offset } => LoadErrorView::Syntax { offset: *offset as int },
            LoadError::Entity { record, fault, tag } => LoadErrorView::Entity {
                record: *record as int,
                fault: *fault,
                tag: tag@,
            },
            LoadError::TooManyEntities => LoadErrorView::TooManyEntities,
        }
    }
}

/// The records of the entities `rows`: one for each, in their order.
pub open spec fn save_records(order: Seq<ComponentId>, rows: Seq<ComponentSetView>) -> Seq<
    Seq<(Seq<char>, Json)>,
> {
    rows.map_values(|set: ComponentSetView| record_of(order, set))
}

/// The entities that `records` stand for, one for each record and in their
/// order, or the first record that is not accepted, with the fault and the
/// tag of its first entry that is not accepted.
pub open spec fn load_records(order: Seq<ComponentId>, records: Seq<Seq<(Seq<char>, Json)>>) -> Result<
    Seq<ComponentSetView>,
    (int, Fault, Seq<char>),
>
    decreases records.len(),
{
    if records.len() == 0 {
        Ok(Seq::empty())
    } else {
        match load_records(order, records.drop_last()) {
            Err(e) => Err(e),
            Ok(rows) => match components_of(order, records.last()) {
                Ok(set) => Ok(rows.push(set)),
                Err((fault, tag)) => Err((records.len() - 1, fault, tag)),
            },
        }
    }
}

/// The entities of the world that loading `records` gives, or the error that
/// it gives instead.
pub open spec fn scene_of(order: Seq<ComponentId>, records: Seq<Seq<(Seq<char>, Json)>>) -> Result<
    Seq<ComponentSetView>,
    LoadErrorView,
> {
    match load_records(order, records) {
        Err((record, fault, tag)) => Err(LoadErrorView::Entity { record, fault, tag }),
        Ok(rows) => if rows.len() <= u32::MAX {
            Ok(rows)
        } else {
            Err(LoadErrorView::TooManyEntities)
        },
    }
}

/// Writes the records of every entity of a world, in walking order. The
/// world is not changed.
pub fn save_document(registry: &Registry, world: &mut hecs::World) -> (doc: Vec<
    Vec<(String, serde_json::Value)>,
>)
    ensures
        record_views(doc@) == save_records(registry@, world_rows(*old(world))),
        forall|i: int| 0 <= i < doc@.len() ==> distinct_keys(#[trigger] record_views(doc@)[i]),
        world_rows(*final(world)) == world_rows(*old(world)),
{
    let rows = world_snapshot(world);
    let mut doc: Vec<Vec<(String, serde_json::Value)>> = Vec::new();
    let mut i: usize = 0;
    while i < rows.len()
        invariant
            i <= rows.len(),
            doc.len() == i,
            forall|k: int|
                0 <= k < i ==> (#[trigger] record_views(doc@)[k]) == record_of(
                    registry@,
                    rows@[k]@,
                ),
            forall|k: int| 0 <= k < i ==> distinct_keys(#[trigger] record_views(doc@)[k]),
        decreases rows.len() - i,
    {
        let ghost before = record_views(doc@);
        let record = serialize_entity(registry, &rows[i]);
        doc.push(record);
        assert(record_views(doc@) =~= before.push(record_of(registry@, rows@[i as int]@)));
        i = i + 1;
    }
    assert(record_views(doc@) =~= save_records(registry@, set_views(rows@)));
    doc
}

/// Reads the components of every record, in document order.
fn read_entities(registry: &Registry, doc: &Vec<Vec<(String, serde_json::Value)>>) -> (r: Result<
    Vec<ComponentSet>,
    LoadError,
>)
    ensures
        match load_records(registry@, record_views(doc@)) {
            Ok(rows) => r is Ok && set_views(r->Ok_0@) == rows,
            Err((record, fault, tag)) => r is Err && r->Err_0@ == (LoadErrorView::Entity {
                record,
                fault,
                tag,
            }),
        },
{
    let ghost records = record_views(doc@);
    let mut sets: Vec<ComponentSet> = Vec::new();
    let mut i: usize = 0;
    assert(records.take(0) =~= Seq::<Seq<(Seq<char>, Json)>>::empty());
    assert(set_views(sets@) =~= Seq::<ComponentSetView>::empty());
    while i < doc.len()
        invariant
            i <= doc.len(),
            records == record_views(doc@),
            load_records(registry@, records.take(i as int)) == Ok::<
                Seq<ComponentSetView>,
                (int, Fault, Seq<char>),
            >(set_views(sets@)),
        decreases doc.len() - i,
    {
        proof {
            assert(records.take(i + 1).drop_last() =~= records.take(i as int));
            assert(records.take(i + 1).last() == records[i as int]);
            lemma_load_prefix(registry@, records, i + 1);
        }
        match deserialize_entity(registry, &doc[i]) {
            Ok(set) => {
                let ghost before = set_views(sets@);
                let ghost row = set@;
                sets.push(set);
                assert(set_views(sets@) =~= before.push(row));
            },
            Err(e) => {
                return Err(LoadError::Entity { record: i, fault: e.fault, tag: e.tag });
            },
        }
        i = i + 1;
    }
    assert(records.take(i as int) =~= records);
    Ok(sets)
}

/// Builds a world from the records of a document: one new entity for each
/// record, with the components that the record stands for. Where a record is
/// not accepted no world is made.
pub fn load_document(registry: &Registry, doc: &Vec<Vec<(String, serde_json::Value)>>) -> (r:
    Result<hecs::World, LoadError>)
    ensures
        match scene_of(registry@, record_views(doc@)) {
            Ok(rows) => r is Ok && world_rows(r->Ok_0).to_multiset() == rows.to_multiset(),
            Err(e) => r is Err && r->Err_0@ == e,
        },
{
    let sets = match read_entities(registry, doc) {
        Ok(sets) => sets,
        Err(e) => {
            return Err(e);
        },
    };
    if sets.len() > u32::MAX as usize {
        return Err(LoadError::TooManyEntities);
    }
    let ghost rows = set_views(sets@);
    let mut world = hecs::World::new();
    assert(rows.take(0) =~= Seq::<ComponentSetView>::empty());
    for set in it: sets
        invariant
            rows == set_views(it.seq()),
            rows.len() <= u32::MAX,
            world_rows(world).len() == it.index(),
            world_rows(world).to_multiset() == rows.take(it.index() as int).to_multiset(),
    {
        broadcast use vstd::seq_lib::to_multiset_build;

        assert(rows.take(it.index() + 1) =~= rows.take(it.index() as int).push(set@));
        spawn(&mut world, set);
    }
    assert(rows.take(rows.len() as int) =~= rows);
    Ok(world)
}

/// A failure among the first `k` records is a failure of the whole.
pub proof fn lemma_load_prefix(
    order: Seq<ComponentId>,
    records: Seq<Seq<(Seq<char>, Json)>>,
    k: int,
)
    requires
        0 <= k <= records.len(),
    ensures
        load_records(order, records.take(k)) is Err ==> load_records(order, records)
            == load_records(order, records.take(k)),
    decreases records.len() - k,
{
    if k < records.len() {
        lemma_load_prefix(order, records, k + 1);
        assert(records.take(k + 1).drop_last() =~= records.take(k));
    } else {
        assert(records.take(k) =~= records);
    }
}

/// Atomic failure: where any one record is not accepted, loading gives an
/// error, however many records around it are good.
pub proof fn lemma_one_bad_record_fails_all(
    order: Seq<ComponentId>,
    records: Seq<Seq<(Seq<char>, Json)>>,
    k: int,
)
    requires
        0 <= k < records.len(),
        components_of(order, records[k]) is Err,
    ensures
        load_records(order, records) is Err,
        scene_of(order, records) is Err,
{
    lemma_load_prefix(order, records, k + 1);
    assert(records.take(k + 1).last() == records[k]);
}

/// Unknown tag: a document in which some record has a key that names no
/// registered kind is not loaded.
pub proof fn lemma_unknown_tag_fails_load(
    order: Seq<ComponentId>,
    records: Seq<Seq<(Seq<char>, Json)>>,
    k: int,
    i: int,
)
    requires
        0 <= k < records.len(),
        0 <= i < records[k].len(),
        lookup_tag(order, records[k][i].0) is None,
    ensures
        scene_of(order, records) is Err,
{
    lemma_unknown_tag_rejected(order, records[k], i);
    lemma_one_bad_record_fails_all(order, records, k);
}

/// Duplicate tag: a document in which some record has the same key twice is
/// not loaded.
pub proof fn lemma_duplicate_tag_fails_load(
    order: Seq<ComponentId>,
    records: Seq<Seq<(Seq<char>, Json)>>,
    k: int,
    i: int,
    j: int,
)
    requires
        0 <= k < records.len(),
        0 <= i < j < records[k].len(),
        records[k][i].0 == records[k][j].0,
    ensures
        scene_of(order, records) is Err,
{
    lemma_duplicate_tag_rejected(order, records[k], i, j);
    lemma_one_bad_record_fails_all(order, records, k);
}

/// The entities that are read from a document are well formed and carry
/// components of registered kinds only, so they can be written again.
pub proof fn lemma_loaded_rows_wf(order: Seq<ComponentId>, records: Seq<Seq<(Seq<char>, Json)>>)
    requires
        load_records(order, records) is Ok,
    ensures
        load_records(order, records)->Ok_0.len() == records.len(),
        forall|i: int|
            0 <= i < records.len() ==> (#[trigger] load_records(order, records)->Ok_0[i]).wf()
                && load_records(order, records)->Ok_0[i].within(order),
    decreases records.len(),
{
    if records.len() > 0 {
        lemma_loaded_rows_wf(order, records.drop_last());
        lemma_components_wf(order, records.last());
    }
}

/// Round trip: the records written for well-formed entities with components
/// of registered kinds are read back as those entities, one for one.
pub proof fn lemma_scene_round_trip(order: Seq<ComponentId>, rows: Seq<ComponentSetView>)
    requires
        order.no_duplicates(),
        forall|i: int| 0 <= i < rows.len() ==> (#[trigger] rows[i]).wf() && rows[i].within(order),
    ensures
        load_records(order, save_records(order, rows)) == Ok::<
            Seq<ComponentSetView>,
            (int, Fault, Seq<char>),
        >(rows),
        rows.len() <= u32::MAX ==> scene_of(order, save_records(order, rows)) == Ok::<
            Seq<ComponentSetView>,
            LoadErrorView,
        >(rows),
    decreases rows.len(),
{
    let records = save_records(order, rows);
    if rows.len() == 0 {
        assert(rows =~= Seq::<ComponentSetView>::empty());
    } else {
        lemma_scene_round_trip(order, rows.drop_last());
        assert(records.drop_last() =~= save_records(order, rows.drop_last()));
        lemma_entity_round_trip(order, rows.last());
        assert(rows.drop_last().push(rows.last()) =~= rows);
    }
}

/// What was loaded stays: the entities read from a document, written and
/// read again, are the same entities.
pub proof fn lemma_reload(order: Seq<ComponentId>, records: Seq<Seq<(Seq<char>, Json)>>)
    requires
        order.no_duplicates(),
        load_records(order, records) is Ok,
    ensures
        load_records(order, save_records(order, load_records(order, records)->Ok_0))
            == load_records(order, records),
{
    lemma_loaded_rows_wf(order, records);
    lemma_scene_round_trip(order, load_records(order, records)->Ok_0);
}

} // verus!
