//! The simulation world.  Entities, their components and the two shared
//! resources are kept by a `specs::World`; this module declares that type to
//! the verifier, names what it holds, and wraps the calls that the rest of the
//! library makes on it.  Nothing in this module is proved: each contract
//! restates what the `specs` crate documents or its source shows.

use vstd::prelude::*;
use specs::{Builder, Join, WorldExt};
use crate::types::{DrawCommand, Entry, Identity, MousePosition, Pos, Selected};

verus! {

/// `specs::World`, a container of resources and component storages keyed by
/// type.  Its inside is not visible to the verifier.
#[verifier::external_type_specification]
#[verifier::external_body]
pub struct ExWorld(specs::World);

/// `specs::VecStorage`, the storage that the three component kinds use.  It
/// only occurs as their associated type.
#[verifier::external_type_specification]
#[verifier::external_body]
#[verifier::reject_recursive_types(T)]
pub struct ExVecStorage<T>(specs::VecStorage<T>);

impl specs::Component for Identity {
    type Storage = specs::VecStorage<Self>;
}

impl specs::Component for Pos {
    type Storage = specs::VecStorage<Self>;
}

impl specs::Component for Selected {
    type Storage = specs::VecStorage<Self>;
}

/// The documented limit of the bit sets that `specs` tracks entities with on
/// the narrowest supported target; adding an index beyond it panics.
pub const INDEX_LIMIT: u32 = 1_048_576;

/// The world has storages registered for `Identity`, `Pos` and `Selected`
/// and holds a `MousePosition` and a `Vec<DrawCommand>` resource.
pub uninterp spec fn world_ready(w: specs::World) -> bool;

/// What a join over the `Identity`, `Pos` and `Selected` storages yields: the
/// entities that carry all three components, in the join's order.
pub uninterp spec fn world_entries(w: specs::World) -> Seq<Entry>;

/// The `MousePosition` resource.
pub uninterp spec fn world_pointer(w: specs::World) -> MousePosition;

/// The `Vec<DrawCommand>` resource.
pub uninterp spec fn world_commands(w: specs::World) -> Seq<DrawCommand>;

/// An upper bound on the entity indices in use: how many distinct indices the
/// world's allocator has handed out.
pub uninterp spec fn world_issued(w: specs::World) -> nat;

/// `WorldExt::new`, then `WorldExt::register` for the three component kinds
/// and `World::insert` for the two resources.  The new world is ready, has no
/// entity, and holds the two resources as given.
#[verifier::external_body]
pub(crate) fn fresh_world(pointer: MousePosition, commands: Vec<DrawCommand>) -> (w:
    specs::World)
    ensures
        world_ready(w),
        world_entries(w) == Seq::<Entry>::empty(),
        world_pointer(w) == pointer,
        world_commands(w) == commands@,
        world_issued(w) == 0,
{
    let mut w = specs::World::new();
    w.register::<Identity>();
    w.register::<Pos>();
    w.register::<Selected>();
    w.insert(pointer);
    w.insert(commands);
    w
}

/// `WorldExt::create_entity` with `Builder::with`, `Builder::maybe_with` and
/// `Builder::build`.  The new entity always carries `id`; it takes part in the
/// join exactly if both other components are given, and then stands where its
/// index puts it among the others.  The resources are not touched.  The
/// allocator hands out at most one new index, and panics past `INDEX_LIMIT`.
#[verifier::external_body]
pub(crate) fn spawn(
    w: &mut specs::World,
    id: Identity,
    pos: Option<Pos>,
    selected: Option<Selected>,
)
    requires
        world_ready(*old(w)),
        world_issued(*old(w)) < INDEX_LIMIT,
    ensures
        world_ready(*final(w)),
        world_pointer(*final(w)) == world_pointer(*old(w)),
        world_commands(*final(w)) == world_commands(*old(w)),
        world_issued(*final(w)) <= world_issued(*old(w)) + 1,
        match (pos, selected) {
            (Some(p), Some(s)) => exists|k: int|
                0 <= k <= world_entries(*old(w)).len() && world_entries(*final(w))
                    == #[trigger] world_entries(*old(w)).insert(
                    k,
                    Entry { id: id, pos: p, selected: s },
                ),
            _ => world_entries(*final(w)) == world_entries(*old(w)),
        },
{
    w.create_entity().with(id).maybe_with(selected).maybe_with(pos).build();
}

/// `WorldExt::read_storage` for the three component kinds and `Join::join`
/// over them, each item copied into an `Entry`.
#[verifier::external_body]
pub(crate) fn read_entries(w: &specs::World) -> (entries: Vec<Entry>)
    requires
        world_ready(*w),
    ensures
        entries@ == world_entries(*w),
{
    let (ids, ps, ss) = (
        w.read_storage::<Identity>(),
        w.read_storage::<Pos>(),
        w.read_storage::<Selected>(),
    );
    (&ids, &ps, &ss)
        .join()
        .map(|(id, pos, selected)| Entry { id: *id, pos: *pos, selected: *selected })
        .collect()
}

/// `WorldExt::write_storage` and `Join::join`: the same join as
/// [`read_entries`], with box and flag of each item overwritten from
/// `entries`, item by item.  Identities are not written, so `entries` has to
/// repeat them.
#[verifier::external_body]
pub(crate) fn write_entries(w: &mut specs::World, entries: &Vec<Entry>)
    requires
        world_ready(*old(w)),
        entries.len() == world_entries(*old(w)).len(),
        forall|i: int| 0 <= i < entries.len() ==> entries@[i].id == world_entries(*old(w))[i].id,
    ensures
        world_ready(*final(w)),
        world_entries(*final(w)) == entries@,
        world_pointer(*final(w)) == world_pointer(*old(w)),
        world_commands(*final(w)) == world_commands(*old(w)),
        world_issued(*final(w)) == world_issued(*old(w)),
{
    let (ids, mut ps, mut ss) = (
        w.read_storage::<Identity>(),
        w.write_storage::<Pos>(),
        w.write_storage::<Selected>(),
    );
    for ((_, pos, selected), e) in (&ids, &mut ps, &mut ss).join().zip(entries.iter()) {
        *pos = e.pos;
        *selected = e.selected;
    }
}

/// `WorldExt::read_resource` for the pointer, copied out.
#[verifier::external_body]
pub(crate) fn read_pointer(w: &specs::World) -> (pointer: MousePosition)
    requires
        world_ready(*w),
    ensures
        pointer == world_pointer(*w),
{
    *w.read_resource::<MousePosition>()
}

/// `WorldExt::write_resource` for the pointer: the slot is overwritten, the
/// rest of the world stays.
#[verifier::external_body]
pub(crate) fn write_pointer(w: &mut specs::World, pointer: MousePosition)
    requires
        world_ready(*old(w)),
    ensures
        world_ready(*final(w)),
        world_pointer(*final(w)) == pointer,
        world_entries(*final(w)) == world_entries(*old(w)),
        world_commands(*final(w)) == world_commands(*old(w)),
        world_issued(*final(w)) == world_issued(*old(w)),
{
    *w.write_resource::<MousePosition>() = pointer;
}

/// `WorldExt::read_resource` for the command queue, cloned.
#[verifier::external_body]
pub(crate) fn read_commands(w: &specs::World) -> (commands: Vec<DrawCommand>)
    requires
        world_ready(*w),
    ensures
        commands@ == world_commands(*w),
{
    (*w.read_resource::<Vec<DrawCommand>>()).clone()
}

/// `WorldExt::write_resource` for the command queue: the slot is overwritten,
/// the rest of the world stays.
#[verifier::external_body]
pub(crate) fn write_commands(w: &mut specs::World, commands: Vec<DrawCommand>)
    requires
        world_ready(*old(w)),
    ensures
        world_ready(*final(w)),
        world_commands(*final(w)) == commands@,
        world_entries(*final(w)) == world_entries(*old(w)),
        world_pointer(*final(w)) == world_pointer(*old(w)),
        world_issued(*final(w)) == world_issued(*old(w)),
{
    *w.write_resource::<Vec<DrawCommand>>() = commands;
}

} // verus!
