//! Scenes: worlds of entities, each an open set of typed components, saved
//! to and loaded from a JSON document.
//!
//! A document is an array of entity records. A record is an object that maps
//! the tag of a component kind to the value of that component; a kind that
//! the entity lacks has no key. Entities have no identity in a document
//! beyond their place in it, and get fresh identities when loaded.
//!
//! The library does no input or output: [`save`] returns the text of the
//! document and [`load`] takes it.

use vstd::prelude::*;
use vstd::string::StringSliceAdditionalSpecFns;

pub mod codec;
pub mod document;
pub mod entity;
pub mod json;
pub mod math;
pub mod number;
pub mod primitive;
pub mod registry;
pub mod scene;
pub mod world;

use crate::document::{document_records, document_text, parse_document, render_document};
use crate::entity::ComponentSetView;
use crate::registry::{create_registry, lemma_standard_order, standard_order};
use crate::scene::{
    lemma_scene_round_trip,
    load_document,
    save_document,
    save_records,
    scene_of,
    LoadError,
    LoadErrorView,
};
use crate::world::world_rows;

verus! {

/// The text of a saved world with the entities `rows`: one record for each,
/// written with the standard registry.
pub open spec fn saved_text(rows: Seq<ComponentSetView>) -> Seq<char> {
    document_text(save_records(standard_order(), rows))
}

/// The entities of the world that loading the text `bytes` gives, or the
/// error that it gives instead: a syntax error where the text is no array of
/// objects, else what the records of the text give.
pub open spec fn load_outcome(bytes: Seq<u8>) -> Result<Seq<ComponentSetView>, LoadErrorView> {
    match document_records(bytes) {
        Err(at) => Err(LoadErrorView::Syntax { offset: at }),
        Ok(records) => scene_of(standard_order(), records),
    }
}

/// Loads a world from the text of a document, with the standard registry.
///
/// The whole text is read before the first entity is created. On success the
/// world holds one entity for each record of the document, with the
/// components that the record stands for. On failure there is no world.
pub fn load(text: &str) -> (r: Result<hecs::World, LoadError>)
    ensures
        match load_outcome(text.spec_bytes()) {
            Ok(rows) => r is Ok && world_rows(r->Ok_0).to_multiset() == rows.to_multiset(),
            Err(e) => r is Err && r->Err_0@ == e,
        },
{
    let registry = create_registry();
    match parse_document(text.as_bytes()) {
        Ok(doc) => load_document(&registry, &doc),
        Err(offset) => Err(LoadError::Syntax { offset }),
    }
}

/// Saves a world as the text of a document, with the standard registry.
///
/// The text is that of one record for each entity, in the order in which the
/// world is walked. It depends on nothing but what the world holds, and the
/// world is not changed: saving again gives the same text, byte for byte.
pub fn save(world: &mut hecs::World) -> (text: String)
    ensures
        text@ == saved_text(world_rows(*old(world))),
        world_rows(*final(world)) == world_rows(*old(world)),
{
    let registry = create_registry();
    let doc = save_document(&registry, world);
    render_document(doc)
}

/// Round trip with the standard registry: the records that saving writes for
/// well-formed entities are loaded as those same entities, one for one,
/// whatever components each of them carries.
pub proof fn lemma_round_trip(rows: Seq<ComponentSetView>)
    requires
        forall|i: int| 0 <= i < rows.len() ==> (#[trigger] rows[i]).wf(),
        rows.len() <= u32::MAX,
    ensures
        scene_of(standard_order(), save_records(standard_order(), rows)) == Ok::<
            Seq<ComponentSetView>,
            LoadErrorView,
        >(rows),
{
    lemma_standard_order();
    lemma_scene_round_trip(standard_order(), rows);
}

} // verus!
