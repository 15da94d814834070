//! The entity-component store. Entities and their component records are
//! kept in a `specs::World`; this module states what each call into it does
//! to the records, and offers the store to the rest of the library through
//! verified methods.

use vstd::prelude::*;
use specs::Builder;
use specs::Join;
use specs::WorldExt;
use crate::components::Displayable;
use crate::components::Fighter;
use crate::components::HpChange;
use crate::components::MeleeEvent;
use crate::components::MoveEvent;
use crate::components::Position;
use crate::components::Properties;

verus! {

/// `specs::World`, which holds the entities and the storages of their
/// component records.
#[verifier::external_type_specification]
#[verifier::external_body]
pub struct ExWorld(specs::World);

/// The identity of an entity: its slot and the generation of that slot.
#[derive(Clone, Copy, Debug, PartialEq, Eq, Structural)]
pub struct EntityId {
    pub index: u32,
    pub generation: i32,
}

/// The component records of one entity, `None` where it has no record of a
/// kind, and whether the entity is marked for removal.
pub struct Components {
    pub position: Option<Position>,
    pub properties: Option<Properties>,
    pub displayable: Option<Displayable>,
    pub fighter: Option<Fighter>,
    pub move_event: Option<MoveEvent>,
    pub melee_event: Option<MeleeEvent>,
    pub hp_change: Option<HpChange>,
    pub doomed: bool,
}

impl Components {
    /// The records of an entity that has none.
    pub open spec fn blank() -> Components {
        Components {
            position: None,
            properties: None,
            displayable: None,
            fighter: None,
            move_event: None,
            melee_event: None,
            hp_change: None,
            doomed: false,
        }
    }
}

/// The slot of a `specs::Entity`: what its `id` returns.
pub uninterp spec fn entity_index(e: specs::Entity) -> u32;

/// The generation of a `specs::Entity`: what the `id` of its `gen` returns.
pub uninterp spec fn entity_generation(e: specs::Entity) -> i32;

/// The identity of an entity.
pub closed spec fn entity_id(e: specs::Entity) -> EntityId {
    EntityId { index: entity_index(e), generation: entity_generation(e) }
}

/// The living entities of a `specs::World`, those that its `is_alive`
/// holds to be alive, each with its component records and with whether its
/// deletion is pending.
pub uninterp spec fn stored(w: specs::World) -> Map<EntityId, Components>;

/// The living entities of a `specs::World`, by ascending slot.
pub uninterp spec fn listed(w: specs::World) -> Seq<specs::Entity>;

/// The number of entities that were ever created in a `specs::World`,
/// living or not. No slot number and no generation exceeds it.
pub uninterp spec fn created(w: specs::World) -> nat;

/// The most entities that a store ever creates. Below it every slot number
/// is one that the bit sets of `specs` take, and no generation overflows.
pub const ENTITY_LIMIT: u32 = 1_048_576;

/// Whether a `specs::World` is in order: the storages of all seven
/// component kinds are registered, no creation of an entity is pending, no
/// lazy update is queued, and no storage keeps a record for an entity that
/// is not living.
pub uninterp spec fn ready(w: specs::World) -> bool;

/// The records of `id` in `m`, blank where `id` is no living entity.
pub open spec fn records(m: Map<EntityId, Components>, id: EntityId) -> Components {
    if m.contains_key(id) {
        m[id]
    } else {
        Components::blank()
    }
}

/// `m` with the records of `id` replaced by `c`, unchanged where `id` is no
/// living entity.
pub open spec fn with_records(m: Map<EntityId, Components>, id: EntityId, c: Components) -> Map<
    EntityId,
    Components,
> {
    if m.contains_key(id) {
        m.insert(id, c)
    } else {
        m
    }
}

/// The entities of `m` that are not marked for removal.
pub open spec fn survivors(m: Map<EntityId, Components>) -> Map<EntityId, Components> {
    Map::new(|id: EntityId| m.contains_key(id) && !m[id].doomed, |id: EntityId| m[id])
}

/// Whether `order` lists the entities of `m`, each once, by ascending slot,
/// and each of a generation above zero.
pub open spec fn lists(order: Seq<specs::Entity>, m: Map<EntityId, Components>) -> bool {
    &&& forall|i: int| 0 <= i < order.len() ==> m.contains_key(#[trigger] entity_id(order[i]))
    &&& forall|i: int| 0 <= i < order.len() ==> (#[trigger] entity_id(order[i])).generation > 0
    &&& forall|id: EntityId|
        m.contains_key(id) ==> exists|i: int|
            0 <= i < order.len() && #[trigger] entity_id(order[i]) == id
    &&& forall|i: int, j: int|
        0 <= i < j < order.len() ==> entity_id(#[trigger] order[i]).index < entity_id(
            #[trigger] order[j],
        ).index
}

/// `specs::World::new` followed by `register` for each component kind: a
/// world in order, without entities, in which none was ever created.
#[verifier::external_body]
fn fresh_store() -> (w: specs::World)
    ensures
        ready(w),
        created(w) == 0,
        stored(w) =~= Map::empty(),
{
    let mut w = specs::World::new();
    w.register::<Position>();
    w.register::<Properties>();
    w.register::<Displayable>();
    w.register::<Fighter>();
    w.register::<MoveEvent>();
    w.register::<MeleeEvent>();
    w.register::<HpChange>();
    w
}

/// `specs::Entity::id`: the slot of `e`.
#[verifier::external_body]
fn index_of(e: specs::Entity) -> (index: u32)
    ensures
        index == entity_index(e),
{
    e.id()
}

/// `specs::Entity::gen` and the `id` of the generation: the generation of
/// `e`, as a number.
#[verifier::external_body]
fn generation_of(e: specs::Entity) -> (generation: i32)
    ensures
        generation == entity_generation(e),
{
    e.gen().id()
}

/// The identity of `e`.
fn id_of(e: specs::Entity) -> (id: EntityId)
    ensures
        id == entity_id(e),
{
    EntityId { index: index_of(e), generation: generation_of(e) }
}

/// `specs::World::is_alive`: whether `e` is a living entity of the world.
/// The call panics on an entity of a dead generation, one that is not above
/// zero.
#[verifier::external_body]
fn is_living(w: &specs::World, e: specs::Entity) -> (alive: bool)
    requires
        ready(*w),
        entity_id(e).generation > 0,
    ensures
        alive == stored(*w).contains_key(entity_id(e)),
{
    w.is_alive(e)
}

/// `specs::World::create_entity` and `build`: a new living entity without
/// records, whose identity no living entity had; all else is unchanged.
/// The call panics where the slot number passes what a bit set takes or a
/// generation overflows, which the limit on creations rules out.
#[verifier::external_body]
fn spawn(w: &mut specs::World) -> (e: specs::Entity)
    requires
        ready(*old(w)),
        created(*old(w)) < ENTITY_LIMIT,
    ensures
        ready(*final(w)),
        created(*final(w)) == created(*old(w)) + 1,
        !stored(*old(w)).contains_key(entity_id(e)),
        stored(*final(w)) == stored(*old(w)).insert(entity_id(e), Components::blank()),
{
    w.create_entity().build()
}

/// `EntitiesRes::delete`: marks a living entity for deletion and leaves all
/// else as it was. The entity lives on until the world is maintained.
#[verifier::external_body]
fn condemn(w: &mut specs::World, e: specs::Entity)
    requires
        ready(*old(w)),
        stored(*old(w)).contains_key(entity_id(e)),
    ensures
        ready(*final(w)),
        created(*final(w)) == created(*old(w)),
        listed(*final(w)) == listed(*old(w)),
        stored(*final(w)) == stored(*old(w)).insert(
            entity_id(e),
            (Components { doomed: true, ..stored(*old(w))[entity_id(e)] }),
        ),
{
    let _ = w.entities().delete(e);
}

/// `specs::World::maintain`: the entities that were marked for deletion
/// are gone with their records; the others are as they were.
#[verifier::external_body]
fn settle(w: &mut specs::World)
    requires
        ready(*old(w)),
    ensures
        ready(*final(w)),
        created(*final(w)) == created(*old(w)),
        stored(*final(w)) == survivors(stored(*old(w))),
{
    w.maintain();
}

/// `specs::World::entities` joined: the living entities, by ascending slot.
/// The generation of a living entity is above zero.
#[verifier::external_body]
fn roster(w: &specs::World) -> (order: Vec<specs::Entity>)
    requires
        ready(*w),
    ensures
        order@ == listed(*w),
        lists(order@, stored(*w)),
{
    w.entities().join().collect()
}

/// `Storage::get` on the `Position` storage: the record of a living entity.
#[verifier::external_body]
fn get_position(w: &specs::World, e: specs::Entity) -> (r: Option<Position>)
    requires
        ready(*w),
        stored(*w).contains_key(entity_id(e)),
    ensures
        r == stored(*w)[entity_id(e)].position,
{
    w.read_storage::<Position>().get(e).copied()
}

/// `Storage::insert` on the `Position` storage: sets the record of a living
/// entity and leaves all else as it was.
#[verifier::external_body]
fn put_position(w: &mut specs::World, e: specs::Entity, v: Position)
    requires
        ready(*old(w)),
        stored(*old(w)).contains_key(entity_id(e)),
    ensures
        ready(*final(w)),
        created(*final(w)) == created(*old(w)),
        listed(*final(w)) == listed(*old(w)),
        stored(*final(w)) == stored(*old(w)).insert(
            entity_id(e),
            (Components { position: Some(v), ..stored(*old(w))[entity_id(e)] }),
        ),
{
    let _ = w.write_storage::<Position>().insert(e, v);
}

/// `Storage::remove` on the `Position` storage: takes the record of a living
/// entity away and leaves all else as it was.
#[verifier::external_body]
fn drop_position(w: &mut specs::World, e: specs::Entity)
    requires
        ready(*old(w)),
        stored(*old(w)).contains_key(entity_id(e)),
    ensures
        ready(*final(w)),
        created(*final(w)) == created(*old(w)),
        listed(*final(w)) == listed(*old(w)),
        stored(*final(w)) == stored(*old(w)).insert(
            entity_id(e),
            (Components { position: None, ..stored(*old(w))[entity_id(e)] }),
        ),
{
    w.write_storage::<Position>().remove(e);
}

/// `Storage::get` on the `Properties` storage: the record of a living entity.
#[verifier::external_body]
fn get_properties(w: &specs::World, e: specs::Entity) -> (r: Option<Properties>)
    requires
        ready(*w),
        stored(*w).contains_key(entity_id(e)),
    ensures
        r == stored(*w)[entity_id(e)].properties,
{
    w.read_storage::<Properties>().get(e).cloned()
}

/// `Storage::insert` on the `Properties` storage: sets the record of a living
/// entity and leaves all else as it was.
#[verifier::external_body]
fn put_properties(w: &mut specs::World, e: specs::Entity, v: Properties)
    requires
        ready(*old(w)),
        stored(*old(w)).contains_key(entity_id(e)),
    ensures
        ready(*final(w)),
        created(*final(w)) == created(*old(w)),
        listed(*final(w)) == listed(*old(w)),
        stored(*final(w)) == stored(*old(w)).insert(
            entity_id(e),
            (Components { properties: Some(v), ..stored(*old(w))[entity_id(e)] }),
        ),
{
    let _ = w.write_storage::<Properties>().insert(e, v);
}

/// `Storage::remove` on the `Properties` storage: takes the record of a living
/// entity away and leaves all else as it was.
#[verifier::external_body]
fn drop_properties(w: &mut specs::World, e: specs::Entity)
    requires
        ready(*old(w)),
        stored(*old(w)).contains_key(entity_id(e)),
    ensures
        ready(*final(w)),
        created(*final(w)) == created(*old(w)),
        listed(*final(w)) == listed(*old(w)),
        stored(*final(w)) == stored(*old(w)).insert(
            entity_id(e),
            (Components { properties: None, ..stored(*old(w))[entity_id(e)] }),
        ),
{
    w.write_storage::<Properties>().remove(e);
}

/// `Storage::get` on the `Displayable` storage: the record of a living entity.
#[verifier::external_body]
fn get_displayable(w: &specs::World, e: specs::Entity) -> (r: Option<Displayable>)
    requires
        ready(*w),
        stored(*w).contains_key(entity_id(e)),
    ensures
        r == stored(*w)[entity_id(e)].displayable,
{
    w.read_storage::<Displayable>().get(e).copied()
}

/// `Storage::insert` on the `Displayable` storage: sets the record of a living
/// entity and leaves all else as it was.
#[verifier::external_body]
fn put_displayable(w: &mut specs::World, e: specs::Entity, v: Displayable)
    requires
        ready(*old(w)),
        stored(*old(w)).contains_key(entity_id(e)),
    ensures
        ready(*final(w)),
        created(*final(w)) == created(*old(w)),
        listed(*final(w)) == listed(*old(w)),
        stored(*final(w)) == stored(*old(w)).insert(
            entity_id(e),
            (Components { displayable: Some(v), ..stored(*old(w))[entity_id(e)] }),
        ),
{
    let _ = w.write_storage::<Displayable>().insert(e, v);
}

/// `Storage::remove` on the `Displayable` storage: takes the record of a living
/// entity away and leaves all else as it was.
#[verifier::external_body]
fn drop_displayable(w: &mut specs::World, e: specs::Entity)
    requires
        ready(*old(w)),
        stored(*old(w)).contains_key(entity_id(e)),
    ensures
        ready(*final(w)),
        created(*final(w)) == created(*old(w)),
        listed(*final(w)) == listed(*old(w)),
        stored(*final(w)) == stored(*old(w)).insert(
            entity_id(e),
            (Components { displayable: None, ..stored(*old(w))[entity_id(e)] }),
        ),
{
    w.write_storage::<Displayable>().remove(e);
}

/// `Storage::get` on the `Fighter` storage: the record of a living entity.
#[verifier::external_body]
fn get_fighter(w: &specs::World, e: specs::Entity) -> (r: Option<Fighter>)
    requires
        ready(*w),
        stored(*w).contains_key(entity_id(e)),
    ensures
        r == stored(*w)[entity_id(e)].fighter,
{
    w.read_storage::<Fighter>().get(e).copied()
}

/// `Storage::insert` on the `Fighter` storage: sets the record of a living
/// entity and leaves all else as it was.
#[verifier::external_body]
fn put_fighter(w: &mut specs::World, e: specs::Entity, v: Fighter)
    requires
        ready(*old(w)),
        stored(*old(w)).contains_key(entity_id(e)),
    ensures
        ready(*final(w)),
        created(*final(w)) == created(*old(w)),
        listed(*final(w)) == listed(*old(w)),
        stored(*final(w)) == stored(*old(w)).insert(
            entity_id(e),
            (Components { fighter: Some(v), ..stored(*old(w))[entity_id(e)] }),
        ),
{
    let _ = w.write_storage::<Fighter>().insert(e, v);
}

/// `Storage::remove` on the `Fighter` storage: takes the record of a living
/// entity away and leaves all else as it was.
#[verifier::external_body]
fn drop_fighter(w: &mut specs::World, e: specs::Entity)
    requires
        ready(*old(w)),
        stored(*old(w)).contains_key(entity_id(e)),
    ensures
        ready(*final(w)),
        created(*final(w)) == created(*old(w)),
        listed(*final(w)) == listed(*old(w)),
        stored(*final(w)) == stored(*old(w)).insert(
            entity_id(e),
            (Components { fighter: None, ..stored(*old(w))[entity_id(e)] }),
        ),
{
    w.write_storage::<Fighter>().remove(e);
}

/// `Storage::get` on the `MoveEvent` storage: the record of a living entity.
#[verifier::external_body]
fn get_move_event(w: &specs::World, e: specs::Entity) -> (r: Option<MoveEvent>)
    requires
        ready(*w),
        stored(*w).contains_key(entity_id(e)),
    ensures
        r == stored(*w)[entity_id(e)].move_event,
{
    w.read_storage::<MoveEvent>().get(e).copied()
}

/// `Storage::insert` on the `MoveEvent` storage: sets the record of a living
/// entity and leaves all else as it was.
#[verifier::external_body]
fn put_move_event(w: &mut specs::World, e: specs::Entity, v: MoveEvent)
    requires
        ready(*old(w)),
        stored(*old(w)).contains_key(entity_id(e)),
    ensures
        ready(*final(w)),
        created(*final(w)) == created(*old(w)),
        listed(*final(w)) == listed(*old(w)),
        stored(*final(w)) == stored(*old(w)).insert(
            entity_id(e),
            (Components { move_event: Some(v), ..stored(*old(w))[entity_id(e)] }),
        ),
{
    let _ = w.write_storage::<MoveEvent>().insert(e, v);
}

/// `Storage::remove` on the `MoveEvent` storage: takes the record of a living
/// entity away and leaves all else as it was.
#[verifier::external_body]
fn drop_move_event(w: &mut specs::World, e: specs::Entity)
    requires
        ready(*old(w)),
        stored(*old(w)).contains_key(entity_id(e)),
    ensures
        ready(*final(w)),
        created(*final(w)) == created(*old(w)),
        listed(*final(w)) == listed(*old(w)),
        stored(*final(w)) == stored(*old(w)).insert(
            entity_id(e),
            (Components { move_event: None, ..stored(*old(w))[entity_id(e)] }),
        ),
{
    w.write_storage::<MoveEvent>().remove(e);
}

/// `Storage::get` on the `MeleeEvent` storage: the record of a living entity.
#[verifier::external_body]
fn get_melee_event(w: &specs::World, e: specs::Entity) -> (r: Option<MeleeEvent>)
    requires
        ready(*w),
        stored(*w).contains_key(entity_id(e)),
    ensures
        r == stored(*w)[entity_id(e)].melee_event,
{
    w.read_storage::<MeleeEvent>().get(e).copied()
}

/// `Storage::insert` on the `MeleeEvent` storage: sets the record of a living
/// entity and leaves all else as it was.
#[verifier::external_body]
fn put_melee_event(w: &mut specs::World, e: specs::Entity, v: MeleeEvent)
    requires
        ready(*old(w)),
        stored(*old(w)).contains_key(entity_id(e)),
    ensures
        ready(*final(w)),
        created(*final(w)) == created(*old(w)),
        listed(*final(w)) == listed(*old(w)),
        stored(*final(w)) == stored(*old(w)).insert(
            entity_id(e),
            (Components { melee_event: Some(v), ..stored(*old(w))[entity_id(e)] }),
        ),
{
    let _ = w.write_storage::<MeleeEvent>().insert(e, v);
}

/// `Storage::remove` on the `MeleeEvent` storage: takes the record of a living
/// entity away and leaves all else as it was.
#[verifier::external_body]
fn drop_melee_event(w: &mut specs::World, e: specs::Entity)
    requires
        ready(*old(w)),
        stored(*old(w)).contains_key(entity_id(e)),
    ensures
        ready(*final(w)),
        created(*final(w)) == created(*old(w)),
        listed(*final(w)) == listed(*old(w)),
        stored(*final(w)) == stored(*old(w)).insert(
            entity_id(e),
            (Components { melee_event: None, ..stored(*old(w))[entity_id(e)] }),
        ),
{
    w.write_storage::<MeleeEvent>().remove(e);
}

/// `Storage::get` on the `HpChange` storage: the record of a living entity.
#[verifier::external_body]
fn get_hp_change(w: &specs::World, e: specs::Entity) -> (r: Option<HpChange>)
    requires
        ready(*w),
        stored(*w).contains_key(entity_id(e)),
    ensures
        r == stored(*w)[entity_id(e)].hp_change,
{
    w.read_storage::<HpChange>().get(e).copied()
}

/// `Storage::insert` on the `HpChange` storage: sets the record of a living
/// entity and leaves all else as it was.
#[verifier::external_body]
fn put_hp_change(w: &mut specs::World, e: specs::Entity, v: HpChange)
    requires
        ready(*old(w)),
        stored(*old(w)).contains_key(entity_id(e)),
    ensures
        ready(*final(w)),
        created(*final(w)) == created(*old(w)),
        listed(*final(w)) == listed(*old(w)),
        stored(*final(w)) == stored(*old(w)).insert(
            entity_id(e),
            (Components { hp_change: Some(v), ..stored(*old(w))[entity_id(e)] }),
        ),
{
    let _ = w.write_storage::<HpChange>().insert(e, v);
}

/// `Storage::remove` on the `HpChange` storage: takes the record of a living
/// entity away and leaves all else as it was.
#[verifier::external_body]
fn drop_hp_change(w: &mut specs::World, e: specs::Entity)
    requires
        ready(*old(w)),
        stored(*old(w)).contains_key(entity_id(e)),
    ensures
        ready(*final(w)),
        created(*final(w)) == created(*old(w)),
        listed(*final(w)) == listed(*old(w)),
        stored(*final(w)) == stored(*old(w)).insert(
            entity_id(e),
            (Components { hp_change: None, ..stored(*old(w))[entity_id(e)] }),
        ),
{
    w.write_storage::<HpChange>().remove(e);
}

/// The store of entities and their component records.
pub struct Store {
    store: specs::World,
    made: u32,
}

impl Store {
    /// Whether the store is usable: it was made by `Store::new` and has
    /// counted the entities it created.
    pub closed spec fn wf(&self) -> bool {
        &&& ready(self.store)
        &&& self.made == created(self.store)
        &&& self.made <= ENTITY_LIMIT
    }

    /// The number of entities that this store ever created.
    pub closed spec fn created(&self) -> nat {
        self.made as nat
    }

    /// The living entities, each with its component records.
    pub closed spec fn entities(&self) -> Map<EntityId, Components> {
        stored(self.store)
    }

    /// The living entities, by ascending slot: the order in which every
    /// system visits them.
    pub closed spec fn order(&self) -> Seq<specs::Entity> {
        listed(self.store)
    }

    /// The records of the entity `e`, blank if it is not living.
    pub open spec fn of(&self, e: specs::Entity) -> Components {
        records(self.entities(), entity_id(e))
    }

    /// Whether `e` is a living entity of this store.
    pub open spec fn has(&self, e: specs::Entity) -> bool {
        self.entities().contains_key(entity_id(e))
    }

    /// This store's entities with the records of `e` replaced by `c`.
    pub open spec fn with(&self, e: specs::Entity, c: Components) -> Map<EntityId, Components> {
        with_records(self.entities(), entity_id(e), c)
    }

    /// A store without entities.
    pub fn new() -> (s: Store)
        ensures
            s.wf(),
            s.created() == 0,
            s.entities() == Map::<EntityId, Components>::empty(),
    {
        Store { store: fresh_store(), made: 0 }
    }

    /// The number of entities that this store ever created.
    pub fn created_count(&self) -> (n: u32)
        requires
            self.wf(),
        ensures
            n == self.created(),
            n <= ENTITY_LIMIT,
    {
        self.made
    }

    /// Creates an entity without records. Its identity is one that no living
    /// entity has. A store that has created `ENTITY_LIMIT` entities creates
    /// no more: it returns `None` and stays as it is.
    pub fn create_entity(&mut self) -> (made: Option<specs::Entity>)
        requires
            old(self).wf(),
        ensures
            final(self).wf(),
            made is Some <==> old(self).created() < ENTITY_LIMIT,
            match made {
                Some(e) => {
                    &&& !old(self).has(e)
                    &&& final(self).created() == old(self).created() + 1
                    &&& final(self).entities() == old(self).entities().insert(
                        entity_id(e),
                        Components::blank(),
                    )
                },
                None => {
                    &&& final(self).created() == old(self).created()
                    &&& final(self).entities() == old(self).entities()
                    &&& final(self).order() == old(self).order()
                },
            },
    {
        if self.made < ENTITY_LIMIT {
            let e = spawn(&mut self.store);
            self.made = self.made + 1;
            Some(e)
        } else {
            None
        }
    }

    /// The living entities, by ascending slot.
    pub fn entity_list(&self) -> (order: Vec<specs::Entity>)
        requires
            self.wf(),
        ensures
            order@ == self.order(),
            lists(order@, self.entities()),
    {
        roster(&self.store)
    }

    /// The identity of `e`.
    pub fn id(e: specs::Entity) -> (id: EntityId)
        ensures
            id == entity_id(e),
    {
        id_of(e)
    }

    /// Whether `e` is a living entity of this store.
    pub fn contains(&self, e: specs::Entity) -> (b: bool)
        requires
            self.wf(),
        ensures
            b == self.has(e),
            b ==> entity_id(e).generation > 0,
    {
        if id_of(e).generation > 0 {
            is_living(&self.store, e)
        } else {
            let order = roster(&self.store);
            assert(!self.has(e)) by {
                if self.has(e) {
                    let i = choose|i: int|
                        0 <= i < order@.len() && #[trigger] entity_id(order@[i]) == entity_id(e);
                    assert(entity_id(order@[i]).generation > 0);
                }
            }
            false
        }
    }

    /// Marks `e` for removal. It stays a living entity, with its records,
    /// until `maintain` removes it. On an entity that is not living this
    /// does nothing and returns `false`.
    pub fn destroy(&mut self, e: specs::Entity) -> (done: bool)
        requires
            old(self).wf(),
        ensures
            final(self).wf(),
            final(self).created() == old(self).created(),
            final(self).order() == old(self).order(),
            done == old(self).has(e),
            final(self).entities() == old(self).with(
                e,
                Components { doomed: true, ..old(self).of(e) },
            ),
    {
        if self.contains(e) {
            condemn(&mut self.store, e);
            true
        } else {
            false
        }
    }

    /// Removes the entities that are marked for removal, with their
    /// records.
    pub fn maintain(&mut self)
        requires
            old(self).wf(),
        ensures
            final(self).wf(),
            final(self).created() == old(self).created(),
            final(self).entities() == survivors(old(self).entities()),
    {
        settle(&mut self.store);
    }

    /// The `Position` record of `e`, if it is living and has one.
    pub fn position(&self, e: specs::Entity) -> (r: Option<Position>)
        requires
            self.wf(),
        ensures
            r == self.of(e).position,
    {
        if self.contains(e) {
            get_position(&self.store, e)
        } else {
            None
        }
    }

    /// Gives `e` the `Position` record `v`, in place of the one it had. On an
    /// entity that is not living this does nothing and returns `false`.
    pub fn attach_position(&mut self, e: specs::Entity, v: Position) -> (done: bool)
        requires
            old(self).wf(),
        ensures
            final(self).wf(),
            final(self).created() == old(self).created(),
            final(self).order() == old(self).order(),
            done == old(self).has(e),
            final(self).entities() == old(self).with(
                e,
                Components { position: Some(v), ..old(self).of(e) },
            ),
    {
        if self.contains(e) {
            put_position(&mut self.store, e, v);
            true
        } else {
            false
        }
    }

    /// Takes the `Position` record of `e` away, if it has one.
    pub fn detach_position(&mut self, e: specs::Entity)
        requires
            old(self).wf(),
        ensures
            final(self).wf(),
            final(self).created() == old(self).created(),
            final(self).order() == old(self).order(),
            final(self).entities() == old(self).with(
                e,
                Components { position: None, ..old(self).of(e) },
            ),
    {
        if self.contains(e) {
            drop_position(&mut self.store, e);
        }
    }

    /// The `Properties` record of `e`, if it is living and has one.
    pub fn properties(&self, e: specs::Entity) -> (r: Option<Properties>)
        requires
            self.wf(),
        ensures
            r == self.of(e).properties,
    {
        if self.contains(e) {
            get_properties(&self.store, e)
        } else {
            None
        }
    }

    /// Gives `e` the `Properties` record `v`, in place of the one it had. On an
    /// entity that is not living this does nothing and returns `false`.
    pub fn attach_properties(&mut self, e: specs::Entity, v: Properties) -> (done: bool)
        requires
            old(self).wf(),
        ensures
            final(self).wf(),
            final(self).created() == old(self).created(),
            final(self).order() == old(self).order(),
            done == old(self).has(e),
            final(self).entities() == old(self).with(
                e,
                Components { properties: Some(v), ..old(self).of(e) },
            ),
    {
        if self.contains(e) {
            put_properties(&mut self.store, e, v);
            true
        } else {
            false
        }
    }

    /// Takes the `Properties` record of `e` away, if it has one.
    pub fn detach_properties(&mut self, e: specs::Entity)
        requires
            old(self).wf(),
        ensures
            final(self).wf(),
            final(self).created() == old(self).created(),
            final(self).order() == old(self).order(),
            final(self).entities() == old(self).with(
                e,
                Components { properties: None, ..old(self).of(e) },
            ),
    {
        if self.contains(e) {
            drop_properties(&mut self.store, e);
        }
    }

    /// The `Displayable` record of `e`, if it is living and has one.
    pub fn displayable(&self, e: specs::Entity) -> (r: Option<Displayable>)
        requires
            self.wf(),
        ensures
            r == self.of(e).displayable,
    {
        if self.contains(e) {
            get_displayable(&self.store, e)
        } else {
            None
        }
    }

    /// Gives `e` the `Displayable` record `v`, in place of the one it had. On an
    /// entity that is not living this does nothing and returns `false`.
    pub fn attach_displayable(&mut self, e: specs::Entity, v: Displayable) -> (done: bool)
        requires
            old(self).wf(),
        ensures
            final(self).wf(),
            final(self).created() == old(self).created(),
            final(self).order() == old(self).order(),
            done == old(self).has(e),
            final(self).entities() == old(self).with(
                e,
                Components { displayable: Some(v), ..old(self).of(e) },
            ),
    {
        if self.contains(e) {
            put_displayable(&mut self.store, e, v);
            true
        } else {
            false
        }
    }

    /// Takes the `Displayable` record of `e` away, if it has one.
    pub fn detach_displayable(&mut self, e: specs::Entity)
        requires
            old(self).wf(),
        ensures
            final(self).wf(),
            final(self).created() == old(self).created(),
            final(self).order() == old(self).order(),
            final(self).entities() == old(self).with(
                e,
                Components { displayable: None, ..old(self).of(e) },
            ),
    {
        if self.contains(e) {
            drop_displayable(&mut self.store, e);
        }
    }

    /// The `Fighter` record of `e`, if it is living and has one.
    pub fn fighter(&self, e: specs::Entity) -> (r: Option<Fighter>)
        requires
            self.wf(),
        ensures
            r == self.of(e).fighter,
    {
        if self.contains(e) {
            get_fighter(&self.store, e)
        } else {
            None
        }
    }

    /// Gives `e` the `Fighter` record `v`, in place of the one it had. On an
    /// entity that is not living this does nothing and returns `false`.
    pub fn attach_fighter(&mut self, e: specs::Entity, v: Fighter) -> (done: bool)
        requires
            old(self).wf(),
        ensures
            final(self).wf(),
            final(self).created() == old(self).created(),
            final(self).order() == old(self).order(),
            done == old(self).has(e),
            final(self).entities() == old(self).with(
                e,
                Components { fighter: Some(v), ..old(self).of(e) },
            ),
    {
        if self.contains(e) {
            put_fighter(&mut self.store, e, v);
            true
        } else {
            false
        }
    }

    /// Takes the `Fighter` record of `e` away, if it has one.
    pub fn detach_fighter(&mut self, e: specs::Entity)
        requires
            old(self).wf(),
        ensures
            final(self).wf(),
            final(self).created() == old(self).created(),
            final(self).order() == old(self).order(),
            final(self).entities() == old(self).with(
                e,
                Components { fighter: None, ..old(self).of(e) },
            ),
    {
        if self.contains(e) {
            drop_fighter(&mut self.store, e);
        }
    }

    /// The `MoveEvent` record of `e`, if it is living and has one.
    pub fn move_event(&self, e: specs::Entity) -> (r: Option<MoveEvent>)
        requires
            self.wf(),
        ensures
            r == self.of(e).move_event,
    {
        if self.contains(e) {
            get_move_event(&self.store, e)
        } else {
            None
        }
    }

    /// Gives `e` the `MoveEvent` record `v`, in place of the one it had. On an
    /// entity that is not living this does nothing and returns `false`.
    pub fn attach_move_event(&mut self, e: specs::Entity, v: MoveEvent) -> (done: bool)
        requires
            old(self).wf(),
        ensures
            final(self).wf(),
            final(self).created() == old(self).created(),
            final(self).order() == old(self).order(),
            done == old(self).has(e),
            final(self).entities() == old(self).with(
                e,
                Components { move_event: Some(v), ..old(self).of(e) },
            ),
    {
        if self.contains(e) {
            put_move_event(&mut self.store, e, v);
            true
        } else {
            false
        }
    }

    /// Takes the `MoveEvent` record of `e` away, if it has one.
    pub fn detach_move_event(&mut self, e: specs::Entity)
        requires
            old(self).wf(),
        ensures
            final(self).wf(),
            final(self).created() == old(self).created(),
            final(self).order() == old(self).order(),
            final(self).entities() == old(self).with(
                e,
                Components { move_event: None, ..old(self).of(e) },
            ),
    {
        if self.contains(e) {
            drop_move_event(&mut self.store, e);
        }
    }

    /// The `MeleeEvent` record of `e`, if it is living and has one.
    pub fn melee_event(&self, e: specs::Entity) -> (r: Option<MeleeEvent>)
        requires
            self.wf(),
        ensures
            r == self.of(e).melee_event,
    {
        if self.contains(e) {
            get_melee_event(&self.store, e)
        } else {
            None
        }
    }

    /// Gives `e` the `MeleeEvent` record `v`, in place of the one it had. On an
    /// entity that is not living this does nothing and returns `false`.
    pub fn attach_melee_event(&mut self, e: specs::Entity, v: MeleeEvent) -> (done: bool)
        requires
            old(self).wf(),
        ensures
            final(self).wf(),
            final(self).created() == old(self).created(),
            final(self).order() == old(self).order(),
            done == old(self).has(e),
            final(self).entities() == old(self).with(
                e,
                Components { melee_event: Some(v), ..old(self).of(e) },
            ),
    {
        if self.contains(e) {
            put_melee_event(&mut self.store, e, v);
            true
        } else {
            false
        }
    }

    /// Takes the `MeleeEvent` record of `e` away, if it has one.
    pub fn detach_melee_event(&mut self, e: specs::Entity)
        requires
            old(self).wf(),
        ensures
            final(self).wf(),
            final(self).created() == old(self).created(),
            final(self).order() == old(self).order(),
            final(self).entities() == old(self).with(
                e,
                Components { melee_event: None, ..old(self).of(e) },
            ),
    {
        if self.contains(e) {
            drop_melee_event(&mut self.store, e);
        }
    }

    /// The `HpChange` record of `e`, if it is living and has one.
    pub fn hp_change(&self, e: specs::Entity) -> (r: Option<HpChange>)
        requires
            self.wf(),
        ensures
            r == self.of(e).hp_change,
    {
        if self.contains(e) {
            get_hp_change(&self.store, e)
        } else {
            None
        }
    }

    /// Gives `e` the `HpChange` record `v`, in place of the one it had. On an
    /// entity that is not living this does nothing and returns `false`.
    pub fn attach_hp_change(&mut self, e: specs::Entity, v: HpChange) -> (done: bool)
        requires
            old(self).wf(),
        ensures
            final(self).wf(),
            final(self).created() == old(self).created(),
            final(self).order() == old(self).order(),
            done == old(self).has(e),
            final(self).entities() == old(self).with(
                e,
                Components { hp_change: Some(v), ..old(self).of(e) },
            ),
    {
        if self.contains(e) {
            put_hp_change(&mut self.store, e, v);
            true
        } else {
            false
        }
    }

    /// Takes the `HpChange` record of `e` away, if it has one.
    pub fn detach_hp_change(&mut self, e: specs::Entity)
        requires
            old(self).wf(),
        ensures
            final(self).wf(),
            final(self).created() == old(self).created(),
            final(self).order() == old(self).order(),
            final(self).entities() == old(self).with(
                e,
                Components { hp_change: None, ..old(self).of(e) },
            ),
    {
        if self.contains(e) {
            drop_hp_change(&mut self.store, e);
        }
    }

}

} // verus!
