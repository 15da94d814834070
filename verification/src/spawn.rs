//! Making the world and the entities that live in it: the player and the
//! monsters of a room.

use vstd::prelude::*;
use crate::components::Color;
use crate::components::DeathEffect;
use crate::components::Displayable;
use crate::components::Fighter;
use crate::components::Position;
use crate::components::Properties;
use crate::map::GameMap;
use crate::observer::Dispatcher;
use crate::random::Rng;
use crate::rect::Rect;
use crate::store::entity_id;
use crate::store::Components;
use crate::store::EntityId;
use crate::store::ENTITY_LIMIT;
use crate::store::Store;
use crate::systems::HandleHpChange;
use crate::systems::HandleMelee;
use crate::systems::HandleMoveEvents;
use crate::systems::turn;
use crate::systems::turn_reports;
use crate::systems::told;
use crate::systems::told_heard;
use crate::systems::lemma_told_in_a_row;
use crate::systems::blockers;
use crate::systems::player_step;
use crate::systems::melee_reports;

verus! {

/// The most monsters that are drawn for a room is one more than this.
pub const MAX_ROOM_MONSTERS: i32 = 3;

/// What is known of an entity when it is made.
pub struct Blueprint {
    pub x: i32,
    pub y: i32,
    pub z: i8,
    pub glyph: char,
    pub color: Color,
    pub name: Seq<char>,
    pub max_hp: i32,
    pub hp: i32,
    pub fighter: Option<Fighter>,
    pub on_death: DeathEffect,
}

impl Blueprint {
    /// Whether `c` are the records of an entity made to this blueprint: it
    /// stands at `(x, y)` and has not moved, is alive and in the way, and
    /// holds no transient record.
    pub open spec fn made(self, c: Components) -> bool {
        &&& c.position == Some(
            Position { x: self.x, y: self.y, old_x: self.x, old_y: self.y, z: self.z },
        )
        &&& c.displayable == Some(Displayable { glyph: self.glyph, color: self.color })
        &&& c.properties is Some
        &&& c.properties.unwrap().name@ == self.name
        &&& c.properties.unwrap().blocks
        &&& c.properties.unwrap().alive
        &&& c.properties.unwrap().max_hp == self.max_hp
        &&& c.properties.unwrap().hp == self.hp
        &&& c.properties.unwrap().on_death == Some(self.on_death)
        &&& c.fighter == self.fighter
        &&& c.move_event is None
        &&& c.melee_event is None
        &&& c.hp_change is None
        &&& !c.doomed
    }

    /// The blueprint of the player at `(x, y)`.
    pub open spec fn player(x: i32, y: i32) -> Blueprint {
        Blueprint {
            x,
            y,
            z: 1,
            glyph: '@',
            color: Color::white(),
            name: "You"@,
            max_hp: 30,
            hp: 30,
            fighter: Some(Fighter { attack: 5, defense: 2 }),
            on_death: DeathEffect::Collapse,
        }
    }

    /// The blueprint of an orc at `(x, y)`.
    pub open spec fn orc(x: i32, y: i32) -> Blueprint {
        Blueprint {
            x,
            y,
            z: 0,
            glyph: 'o',
            color: Color::desaturated_green(),
            name: "Orc"@,
            max_hp: 10,
            hp: 10,
            fighter: Some(Fighter { attack: 3, defense: 0 }),
            on_death: DeathEffect::BecomeCorpse,
        }
    }

    /// The blueprint of a troll at `(x, y)`.
    pub open spec fn troll(x: i32, y: i32) -> Blueprint {
        Blueprint {
            x,
            y,
            z: 0,
            glyph: 'T',
            color: Color::darker_green(),
            name: "Troll"@,
            max_hp: 16,
            hp: 16,
            fighter: Some(Fighter { attack: 4, defense: 1 }),
            on_death: DeathEffect::BecomeCorpse,
        }
    }
}

/// Whether `after` is `before` with one more entity, `e`, and nothing else
/// changed.
pub open spec fn one_more(
    before: Map<EntityId, Components>,
    after: Map<EntityId, Components>,
    e: specs::Entity,
) -> bool {
    &&& !before.contains_key(entity_id(e))
    &&& after.dom() == before.dom().insert(entity_id(e))
    &&& forall|id: EntityId| before.contains_key(id) ==> #[trigger] after[id] == before[id]
}

/// The resolution systems in the order in which they run.
pub struct Pipeline {
    pub movement: HandleMoveEvents,
    pub melee: HandleMelee,
    pub health: HandleHpChange,
}

impl Pipeline {
    /// Runs one turn: movement resolution, then melee resolution on what
    /// movement left, then health resolution on what melee left.
    pub fn dispatch(
        &mut self,
        store: &mut Store,
        map: &mut GameMap,
        observers: &mut Dispatcher,
        player: specs::Entity,
    )
        requires
            old(store).wf(),
            old(map).wf(),
            old(observers).wf(),
        ensures
            final(store).wf(),
            final(map).wf(),
            final(observers).wf(),
            final(store).order() == old(store).order(),
            final(store).entities() == turn(
                old(store).entities(),
                old(map),
                old(store).order(),
                player,
            ),
            final(observers).issued() == old(observers).issued(),
            final(observers).history() == old(observers).history() + turn_reports(
                old(store).entities(),
                old(map),
                old(store).order(),
                player,
            ),
            final(observers).subscriptions() == told(
                old(observers).subscriptions(),
                turn_reports(old(store).entities(), old(map), old(store).order(), player).len(),
            ),
            final(observers).heard() == told_heard(
                old(observers).subscriptions(),
                old(observers).heard(),
                turn_reports(old(store).entities(), old(map), old(store).order(), player),
            ),
            final(map).same_tiles(old(map)),
            final(map).rooms_spec() == old(map).rooms_spec(),
            match player_step(
                old(store).entities(),
                old(map),
                blockers(old(store).entities(), old(store).order(), player),
                old(store).order(),
                player,
            ) {
                Some(to) => {
                    &&& final(map).fov_spec().same_terrain(&old(map).fov_spec())
                    &&& forall|a: int, b: int| #[trigger]
                        final(map).fov_spec().visible_at(a, b) == old(map).fov_spec().lit(
                            to.0 as int,
                            to.1 as int,
                            crate::map::TORCH_RADIUS as int,
                            a,
                            b,
                        )
                    &&& forall|a: int, b: int| #[trigger]
                        final(map).fov_spec().seen_at(a, b) == (old(map).fov_spec().seen_at(a, b)
                            || final(map).fov_spec().visible_at(a, b))
                },
                None => final(map).fov_spec() == old(map).fov_spec(),
            },
    {
        let ghost m = store.entities();
        let ghost order = store.order();
        let ghost subs = observers.subscriptions();
        let ghost told_before = observers.history();
        self.movement.run(store, map, player);
        let ghost moved = store.entities();
        self.melee.run(store, observers);
        let ghost fought = store.entities();
        self.health.run(store, observers);
        proof {
            let blows = melee_reports(moved, order);
            let deaths = crate::systems::health_reports(fought, order);
            assert((told_before + blows) + deaths == told_before + (blows + deaths));
            old(observers).lemma_aligned();
            lemma_told_in_a_row(subs, old(observers).heard(), blows, deaths);
        }
    }
}

/// A world without entities, and the pipeline that runs its turns.
pub fn create_world() -> (made: (Store, Pipeline))
    ensures
        made.0.wf(),
        made.0.created() == 0,
        made.0.entities() == Map::<EntityId, Components>::empty(),
{
    (
        Store::new(),
        Pipeline { movement: HandleMoveEvents, melee: HandleMelee, health: HandleHpChange },
    )
}

/// Makes an entity with a position, a display, properties and, if given,
/// fighting ratings. It starts alive and in the way.
pub fn create_npc(
    world: &mut Store,
    x: i32,
    y: i32,
    c: char,
    name: &str,
    max_hp: i32,
    hp: i32,
    fighter: Option<Fighter>,
    f: DeathEffect,
    color: Color,
) -> (e: specs::Entity)
    requires
        old(world).wf(),
        old(world).created() < ENTITY_LIMIT,
    ensures
        final(world).wf(),
        final(world).created() == old(world).created() + 1,
        one_more(old(world).entities(), final(world).entities(), e),
        (Blueprint {
            x,
            y,
            z: 0,
            glyph: c,
            color,
            name: name@,
            max_hp,
            hp,
            fighter,
            on_death: f,
        }).made(final(world).of(e)),
{
    let ghost before = world.entities();
    let e = world.create_entity().unwrap();
    world.attach_position(e, Position::new(x, y, 0));
    world.attach_displayable(e, Displayable::new(c, color));
    world.attach_properties(e, Properties::new(name, true, true, max_hp, hp, f));
    if let Some(f) = fighter {
        world.attach_fighter(e, f);
    }
    proof {
        assert(world.entities().dom() =~= before.dom().insert(entity_id(e)));
    }
    e
}

/// Makes the player at `(x, y)`.
pub fn create_player(world: &mut Store, x: i32, y: i32) -> (e: specs::Entity)
    requires
        old(world).wf(),
        old(world).created() < ENTITY_LIMIT,
    ensures
        final(world).wf(),
        final(world).created() == old(world).created() + 1,
        one_more(old(world).entities(), final(world).entities(), e),
        Blueprint::player(x, y).made(final(world).of(e)),
{
    let ghost before = world.entities();
    let e = world.create_entity().unwrap();
    world.attach_position(e, Position::new(x, y, 1));
    world.attach_displayable(e, Displayable::new('@', Color::white()));
    world.attach_properties(
        e,
        Properties::new("You", true, true, 30, 30, DeathEffect::Collapse),
    );
    world.attach_fighter(e, Fighter::new(5, 2));
    proof {
        assert(world.entities().dom() =~= before.dom().insert(entity_id(e)));
    }
    e
}

/// Of a hundred and one rolls, those below this make an orc, the others a
/// troll.
pub const ORC_ROLLS: i32 = 80;

/// Makes a monster at `(x, y)`: an orc if `roll` is below `ORC_ROLLS`, else
/// a troll.
pub fn create_monster(world: &mut Store, x: i32, y: i32, roll: i32) -> (e: specs::Entity)
    requires
        old(world).wf(),
        old(world).created() < ENTITY_LIMIT,
    ensures
        final(world).wf(),
        final(world).created() == old(world).created() + 1,
        one_more(old(world).entities(), final(world).entities(), e),
        roll < ORC_ROLLS ==> Blueprint::orc(x, y).made(final(world).of(e)),
        roll >= ORC_ROLLS ==> Blueprint::troll(x, y).made(final(world).of(e)),
{
    if roll < ORC_ROLLS {
        create_npc(
            world,
            x,
            y,
            'o',
            "Orc",
            10,
            10,
            Some(Fighter::new(3, 0)),
            DeathEffect::BecomeCorpse,
            Color::desaturated_green(),
        )
    } else {
        create_npc(
            world,
            x,
            y,
            'T',
            "Troll",
            16,
            16,
            Some(Fighter::new(4, 1)),
            DeathEffect::BecomeCorpse,
            Color::darker_green(),
        )
    }
}

/// Whether `c` are the records of a monster that was just made inside
/// `room`: an orc or a troll.
pub open spec fn monster_in(room: Rect, c: Components) -> bool {
    exists|x: i32, y: i32| room.holds(x as int, y as int) && #[trigger] monster_at(x, y, c)
}

/// Whether `c` are the records of a monster that was just made at `(x, y)`.
pub open spec fn monster_at(x: i32, y: i32, c: Components) -> bool {
    Blueprint::orc(x, y).made(c) || Blueprint::troll(x, y).made(c)
}

/// Whether `made` are the entities by which `after` exceeds `before`: each
/// of them is new, no two of them are the same, `after` holds them beside
/// the entities of `before` and nobody else, and the entities of `before`
/// are as they were.
pub open spec fn newcomers(
    before: Map<EntityId, Components>,
    after: Map<EntityId, Components>,
    made: Seq<specs::Entity>,
) -> bool {
    &&& forall|i: int|
        0 <= i < made.len() ==> !before.contains_key(#[trigger] entity_id(made[i]))
            && after.contains_key(entity_id(made[i]))
    &&& forall|i: int, j: int|
        0 <= i < j < made.len() ==> #[trigger] entity_id(made[i]) != #[trigger] entity_id(made[j])
    &&& forall|id: EntityId|
        #[trigger] after.contains_key(id) ==> before.contains_key(id) || exists|i: int|
            0 <= i < made.len() && #[trigger] entity_id(made[i]) == id
    &&& forall|id: EntityId| before.contains_key(id) ==> after.contains_key(id)
    &&& forall|id: EntityId| before.contains_key(id) ==> #[trigger] after[id] == before[id]
}

/// Whether each of `made` has, in `m`, the records of a monster that was
/// just made inside `room`.
pub open spec fn monsters_of(
    room: Rect,
    m: Map<EntityId, Components>,
    made: Seq<specs::Entity>,
) -> bool {
    forall|i: int| 0 <= i < made.len() ==> monster_in(room, m[#[trigger] entity_id(made[i])])
}

/// Makes `count` monsters, each at a random cell inside `room` and of a
/// kind that a roll between 0 and 100 decides, and returns them in the
/// order of making. A count below zero makes none.
pub fn spawn_monsters(world: &mut Store, room: &Rect, rng: &mut Rng, count: i32) -> (made: Vec<
    specs::Entity,
>)
    requires
        old(world).wf(),
        old(world).created() + count <= ENTITY_LIMIT,
        room.x2 - room.x1 >= 2,
        room.y2 - room.y1 >= 2,
    ensures
        final(world).wf(),
        final(world).created() == old(world).created() + made@.len(),
        made@.len() == if count > 0 {
            count as int
        } else {
            0
        },
        newcomers(old(world).entities(), final(world).entities(), made@),
        monsters_of(*room, final(world).entities(), made@),
{
    let ghost start = world.entities();
    let mut made: Vec<specs::Entity> = Vec::new();
    let mut k: i32 = 0;
    while k < count
        invariant
            world.wf(),
            start == old(world).entities(),
            0 <= k,
            count > 0 ==> k <= count,
            count <= 0 ==> k == 0,
            made@.len() == k,
            world.created() == old(world).created() + k,
            old(world).created() + count <= ENTITY_LIMIT,
            room.x2 - room.x1 >= 2,
            room.y2 - room.y1 >= 2,
            newcomers(start, world.entities(), made@),
            monsters_of(*room, world.entities(), made@),
        decreases count - k,
    {
        let x = rng.get_int(room.x1 + 1, room.x2 - 1);
        let y = rng.get_int(room.y1 + 1, room.y2 - 1);
        let roll = rng.get_int(0, 100);
        let ghost before = world.entities();
        let ghost sooner = made@;
        let e = create_monster(world, x, y, roll);
        made.push(e);
        proof {
            let after = world.entities();
            let now = made@;
            assert(room.holds(x as int, y as int));
            assert(monster_at(x, y, after[entity_id(e)]));
            assert(now[sooner.len() as int] == e);
            assert forall|i: int| 0 <= i < now.len() implies !start.contains_key(
                #[trigger] entity_id(now[i]),
            ) && after.contains_key(entity_id(now[i])) by {
                if i < sooner.len() {
                    assert(now[i] == sooner[i]);
                    assert(before.contains_key(entity_id(sooner[i])));
                }
            }
            assert forall|i: int, j: int| 0 <= i < j < now.len() implies #[trigger] entity_id(
                now[i],
            ) != #[trigger] entity_id(now[j]) by {
                assert(now[i] == sooner[i]);
                assert(before.contains_key(entity_id(sooner[i])));
                if j < sooner.len() {
                    assert(now[j] == sooner[j]);
                }
            }
            assert forall|id: EntityId| #[trigger] after.contains_key(id) implies start.contains_key(
                id,
            ) || exists|i: int| 0 <= i < now.len() && #[trigger] entity_id(now[i]) == id by {
                if id == entity_id(e) {
                    assert(entity_id(now[sooner.len() as int]) == id);
                } else {
                    assert(before.contains_key(id));
                    if !start.contains_key(id) {
                        let i = choose|i: int|
                            0 <= i < sooner.len() && #[trigger] entity_id(sooner[i]) == id;
                        assert(now[i] == sooner[i]);
                        assert(entity_id(now[i]) == id);
                    }
                }
            }
            assert forall|id: EntityId| start.contains_key(id) implies #[trigger] after[id]
                == start[id] by {
                assert(before.contains_key(id));
                assert(after[id] == before[id]);
            }
            assert forall|i: int| 0 <= i < now.len() implies monster_in(
                *room,
                after[#[trigger] entity_id(now[i])],
            ) by {
                if i < sooner.len() {
                    assert(now[i] == sooner[i]);
                    assert(before.contains_key(entity_id(sooner[i])));
                    assert(after[entity_id(sooner[i])] == before[entity_id(sooner[i])]);
                }
            }
        }
        k = k + 1;
    }
    made
}

/// Puts the monsters of a room into the world: a number of them that is
/// drawn between 0 and `MAX_ROOM_MONSTERS + 1`, each at a random cell
/// inside the room and of a kind that a roll between 0 and 100 decides.
/// Returns their number.
pub fn populate_room(world: &mut Store, room: &Rect, rng: &mut Rng) -> (n: i32)
    requires
        old(world).wf(),
        old(world).created() + MAX_ROOM_MONSTERS + 1 <= ENTITY_LIMIT,
        room.x2 - room.x1 >= 2,
        room.y2 - room.y1 >= 2,
    ensures
        final(world).wf(),
        final(world).created() == old(world).created() + n,
        0 <= n <= MAX_ROOM_MONSTERS + 1,
        exists|made: Seq<specs::Entity>|
            made.len() == n && #[trigger] newcomers(
                old(world).entities(),
                final(world).entities(),
                made,
            ) && monsters_of(*room, final(world).entities(), made),
        old(world).entities().dom().subset_of(final(world).entities().dom()),
        forall|id: EntityId|
            old(world).entities().contains_key(id) ==> #[trigger] final(world).entities()[id]
                == old(world).entities()[id],
        forall|id: EntityId|
            final(world).entities().contains_key(id) && !old(world).entities().contains_key(id)
                ==> monster_in(*room, #[trigger] final(world).entities()[id]),
{
    let num_monsters = rng.get_int(0, MAX_ROOM_MONSTERS + 1);
    let made = spawn_monsters(world, room, rng, num_monsters);
    proof {
        let before = old(world).entities();
        let after = world.entities();
        assert forall|id: EntityId| after.contains_key(id) && !before.contains_key(id)
            implies monster_in(*room, #[trigger] after[id]) by {
            let i = choose|i: int| 0 <= i < made@.len() && #[trigger] entity_id(made@[i]) == id;
            assert(monster_in(*room, after[entity_id(made@[i])]));
        }
        assert(newcomers(before, after, made@));
    }
    num_monsters
}

} // verus!
