//! The store of entities.
//!
//! A world is a `hecs::World`. Transforms and models are attached to its
//! entities as components of their own type, so that queries by component
//! type work on a loaded world as on any other. Verus cannot look inside a
//! world, so this module names what a world holds, [`world_rows`], and states
//! over that name what the few `hecs` operations used by the codec do. Those
//! statements are taken from the source of `hecs`; the one function below
//! them is proved from them.

use crate::entity::{ComponentSet, ComponentSetView};
use crate::math::Transform;
use crate::primitive::Model;
use vstd::prelude::*;

verus! {

/// `hecs::World`, taken as it is: nothing of its inside is used here.
#[verifier::external_type_specification]
#[verifier::external_body]
pub struct ExWorld(hecs::World);

/// `hecs::EntityBuilder`, taken as it is: nothing of its inside is used here.
#[verifier::external_type_specification]
#[verifier::external_body]
pub struct ExEntityBuilder(hecs::EntityBuilder);

/// The transform and the model of every live entity of a world, one row for
/// each entity, in the order in which `hecs` walks the world. Components of
/// other types are not part of a row.
pub uninterp spec fn world_rows(w: hecs::World) -> Seq<ComponentSetView>;

/// The transform and the model that a builder holds.
pub uninterp spec fn builder_set(b: hecs::EntityBuilder) -> ComponentSetView;

/// The views of a sequence of component sets.
pub open spec fn set_views(s: Seq<ComponentSet>) -> Seq<ComponentSetView> {
    s.map_values(|x: ComponentSet| x@)
}

/// `hecs::World::new`: a world without entities.
pub assume_specification[ hecs::World::new ]() -> (w: hecs::World)
    ensures
        world_rows(w) == Seq::<ComponentSetView>::empty(),
;

/// `hecs::EntityBuilder::new`: a builder without components.
pub assume_specification[ hecs::EntityBuilder::new ]() -> (b: hecs::EntityBuilder)
    ensures
        builder_set(b) == ComponentSetView::empty(),
;

/// `hecs::EntityBuilder::add` with a transform: the builder then holds this
/// transform, in place of an earlier one if there was one, and its model is
/// untouched.
#[verifier::external_body]
pub(crate) fn builder_add_transform(builder: &mut hecs::EntityBuilder, t: Transform)
    ensures
        builder_set(*final(builder)) == (ComponentSetView {
            transform: Some(t@),
            ..builder_set(*old(builder))
        }),
{
    builder.add(t);
}

/// `hecs::EntityBuilder::add` with a model: the builder then holds this
/// model, in place of an earlier one if there was one, and its transform is
/// untouched.
#[verifier::external_body]
pub(crate) fn builder_add_model(builder: &mut hecs::EntityBuilder, m: Model)
    ensures
        builder_set(*final(builder)) == (ComponentSetView {
            model: Some(m@),
            ..builder_set(*old(builder))
        }),
{
    builder.add(m);
}

/// `hecs::World::spawn` on `hecs::EntityBuilder::build`: the world gains one
/// entity with the components of the builder, all at once; its other
/// entities keep theirs; the builder is left empty. `hecs` numbers entities
/// with 32 bits and stops the program when they run out, so a full world is
/// left out.
#[verifier::external_body]
pub(crate) fn world_spawn(world: &mut hecs::World, builder: &mut hecs::EntityBuilder)
    requires
        world_rows(*old(world)).len() < u32::MAX,
    ensures
        world_rows(*final(world)).to_multiset() == world_rows(*old(world)).to_multiset().insert(
            builder_set(*old(builder)),
        ),
        builder_set(*final(builder)) == ComponentSetView::empty(),
{
    world.spawn(builder.build());
}

/// `hecs::World::query_mut` for an optional transform and an optional model,
/// walked to its end: a copy of the row of every entity, in walking order.
/// The world is borrowed uniquely so that no component can be lent out
/// meanwhile; it is not changed.
#[verifier::external_body]
pub(crate) fn world_snapshot(world: &mut hecs::World) -> (rows: Vec<ComponentSet>)
    ensures
        set_views(rows@) == world_rows(*old(world)),
        world_rows(*final(world)) == world_rows(*old(world)),
{
    world.query_mut::<(Option<&Transform>, Option<&Model>)>().into_iter().map(
        |(_, (t, m))| ComponentSet { transform: t.cloned(), model: m.cloned() },
    ).collect()
}

/// Creates one entity with the components of `set`. The entity enters the
/// world with all its components or, had the program stopped before, not at
/// all.
pub fn spawn(world: &mut hecs::World, set: ComponentSet)
    requires
        world_rows(*old(world)).len() < u32::MAX,
    ensures
        world_rows(*final(world)).to_multiset() == world_rows(*old(world)).to_multiset().insert(
            set@,
        ),
        world_rows(*final(world)).len() == world_rows(*old(world)).len() + 1,
{
    let mut builder = hecs::EntityBuilder::new();
    let ComponentSet { transform, model } = set;
    if let Some(t) = transform {
        builder_add_transform(&mut builder, t);
    }
    if let Some(m) = model {
        builder_add_model(&mut builder, m);
    }
    assert(builder_set(builder) == set@);
    world_spawn(world, &mut builder);
    proof {
        world_rows(*old(world)).to_multiset_ensures();
        world_rows(*world).to_multiset_ensures();
    }
}

} // verus!
