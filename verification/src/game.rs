//! The game: the world, the map and the shared counters under one roof,
//! advanced one turn at a time from the player's intents.

use vstd::prelude::*;
use crate::components::MoveEvent;
use crate::components::Player;
use crate::components::Turns;
use crate::map::GameMap;
use crate::map::MAX_ROOMS;
use crate::map::ROOM_MAX_SIZE;
use crate::spawn::MAX_ROOM_MONSTERS;
use crate::observer::Dispatcher;
use crate::observer::Listener;
use crate::observer::Subscription;
use crate::random::Rng;
use crate::rect::Rect;
use crate::render::by_depth;
use crate::render::drawn;
use crate::render::erased;
use crate::render::sprites;
use crate::render::Print;
use crate::render::Scene;
use crate::grid::cell;
use crate::spawn::create_player;
use crate::spawn::create_world;
use crate::spawn::monster_in;
use crate::spawn::populate_room;
use crate::spawn::Blueprint;
use crate::spawn::Pipeline;
use crate::store::entity_id;
use crate::store::survivors;
use crate::store::Components;
use crate::store::EntityId;
use crate::store::Store;
use crate::systems::blockers;
use crate::systems::all_vital;
use crate::systems::law_turn_consumes_transients;
use crate::systems::law_turn_keeps_vital_signs;
use crate::systems::vital;
use crate::spawn::monster_at;
use crate::systems::lemma_turn_frame;
use crate::systems::Transient;
use crate::systems::player_step;
use crate::systems::told;
use crate::systems::told_heard;
use crate::systems::turn;
use crate::systems::turn_reports;

verus! {

/// The rows of the screen below the map, kept for the status lines.
pub const STATUS_ROWS: i32 = 15;

/// Whether an intent has taken a turn that has not run yet.
#[derive(Clone, Copy, Debug, PartialEq, Eq, Structural)]
pub enum PlayerAction {
    TookTurn,
    DidntTakeTurn,
}

/// What the player asks for.
#[derive(Clone, Copy, Debug, PartialEq, Eq, Structural)]
pub enum Intent {
    Up,
    Down,
    Left,
    Right,
    Idle,
    Quit,
}

impl Intent {
    /// The displacement that this intent asks for.
    pub open spec fn delta(self) -> (i32, i32) {
        match self {
            Intent::Up => (0i32, -1i32),
            Intent::Down => (0i32, 1i32),
            Intent::Left => (-1i32, 0i32),
            Intent::Right => (1i32, 0i32),
            Intent::Idle => (0i32, 0i32),
            Intent::Quit => (0i32, 0i32),
        }
    }
}

/// What the state stack is to do next.
#[derive(Clone, Copy, Debug, PartialEq, Eq, Structural)]
pub enum Transition {
    /// Go on.
    Continue,
    /// Leave this state.
    Pop,
}

/// What comes in from outside.
#[derive(Clone, Copy, Debug, PartialEq, Eq, Structural)]
pub enum Input {
    Key(Intent),
}

/// A scene with the number of turns taken.
pub struct Frame {
    pub scene: Scene,
    pub turns: i64,
}

/// Whether `c` are the records of a monster that was just made inside one
/// of `rooms`.
pub open spec fn lair(rooms: Seq<Rect>, c: Components) -> bool {
    exists|i: int| 0 <= i < rooms.len() && monster_in(#[trigger] rooms[i], c)
}

/// Whether no entity of `m` holds a transient record, but for a requested
/// move of the player.
pub open spec fn between_turns(m: Map<EntityId, Components>, player: EntityId) -> bool {
    forall|id: EntityId|
        m.contains_key(id) ==> {
            &&& (#[trigger] m[id]).melee_event is None
            &&& m[id].hp_change is None
            &&& id != player ==> m[id].move_event is None
        }
}

/// The running game.
pub struct Game {
    world: Store,
    dispatcher: Pipeline,
    map: GameMap,
    observers: Dispatcher,
    turns: Turns,
    rng: Rng,
    player: Player,
    action: PlayerAction,
}

impl Game {
    /// The entities and their records.
    pub closed spec fn world_spec(&self) -> Store {
        self.world
    }

    /// The dungeon.
    pub closed spec fn map_spec(&self) -> GameMap {
        self.map
    }

    /// Who is told of events.
    pub closed spec fn observers_spec(&self) -> Dispatcher {
        self.observers
    }

    /// The number of turns taken.
    pub closed spec fn turns_spec(&self) -> i64 {
        self.turns.0
    }

    /// The entity that the player controls.
    pub closed spec fn player_spec(&self) -> specs::Entity {
        self.player.0
    }

    /// Whether the last intent took a turn.
    pub closed spec fn action_spec(&self) -> PlayerAction {
        self.action
    }

    /// The randomness stream.
    pub closed spec fn rng_spec(&self) -> Rng {
        self.rng
    }

    /// The invariant of the game: its parts are well formed; the player is
    /// a living entity of the world, not marked for removal, with a
    /// position, a display, properties and fighting ratings; and the hit
    /// points of every entity are within `0..=max_hp`, with the entity
    /// alive exactly while they are above zero; and no entity holds a
    /// transient record, but for a requested move of the player.
    pub open spec fn wf(&self) -> bool {
        &&& self.world_spec().wf()
        &&& self.map_spec().wf()
        &&& self.observers_spec().wf()
        &&& self.world_spec().has(self.player_spec())
        &&& self.world_spec().of(self.player_spec()).position is Some
        &&& self.world_spec().of(self.player_spec()).displayable is Some
        &&& self.world_spec().of(self.player_spec()).properties is Some
        &&& self.world_spec().of(self.player_spec()).fighter is Some
        &&& !self.world_spec().of(self.player_spec()).doomed
        &&& all_vital(self.world_spec().entities())
        &&& between_turns(self.world_spec().entities(), entity_id(self.player_spec()))
    }

    /// Whether the two games differ at most in the world and in whether the
    /// last intent took a turn.
    pub open spec fn same_surroundings(&self, other: &Game) -> bool {
        &&& self.map_spec() == other.map_spec()
        &&& self.observers_spec() == other.observers_spec()
        &&& self.turns_spec() == other.turns_spec()
        &&& self.player_spec() == other.player_spec()
        &&& self.rng_spec() == other.rng_spec()
        &&& self.world_spec().order() == other.world_spec().order()
    }

    /// A new game on a screen `screen_width` by `screen_height`, of which
    /// the map takes all but the lowest `STATUS_ROWS` rows. The dungeon is
    /// generated from `seed`, then each room is populated with monsters in
    /// the order of placing, then the player is made at the start that
    /// generation gave. On a screen whose map holds any room of the sizes
    /// drawn, the start is floor.
    pub fn new(seed: u32, screen_width: i32, screen_height: i32) -> (g: Game)
        requires
            0 <= screen_width,
            STATUS_ROWS <= screen_height,
            screen_width * (screen_height - STATUS_ROWS) <= i32::MAX,
        ensures
            g.wf(),
            g.turns_spec() == 0,
            g.action_spec() == PlayerAction::DidntTakeTurn,
            g.map_spec().width_spec() == screen_width,
            g.map_spec().height_spec() == screen_height - STATUS_ROWS,
            g.map_spec().laid_out(),
            g.map_spec().fov_synced(),
            screen_width > ROOM_MAX_SIZE && screen_height - STATUS_ROWS > ROOM_MAX_SIZE ==> {
                &&& g.map_spec().rooms_spec().len() >= 1
                &&& g.map_spec().floor_at(g.map_spec().spawn_point().0, g.map_spec().spawn_point().1)
            },
            g.observers_spec().subscriptions().len() == 0,
            g.observers_spec().heard().len() == 0,
            g.observers_spec().history().len() == 0,
            g.observers_spec().issued() == 0,
            exists|x: i32, y: i32|
                (x as int, y as int) == g.map_spec().spawn_point() && #[trigger] Blueprint::player(
                    x,
                    y,
                ).made(g.world_spec().of(g.player_spec())),
            forall|id: EntityId|
                g.world_spec().entities().contains_key(id) && id != entity_id(g.player_spec())
                    ==> lair(g.map_spec().rooms_spec(), #[trigger] g.world_spec().entities()[id]),
    {
        let mut map = GameMap::new(screen_width, screen_height - STATUS_ROWS);
        let mut rng = Rng::new_with_seed(seed);
        let (mut world, dispatcher) = create_world();
        let start = map.generate_map(&mut rng);
        let mut i: usize = 0;
        while i < map.rooms().len()
            invariant
                world.wf(),
                map.wf(),
                map.laid_out(),
                i <= map.rooms_spec().len(),
                map.rooms_spec().len() <= MAX_ROOMS,
                MAX_ROOM_MONSTERS + 1 == 4,
                world.created() <= 4 * i,
                forall|id: EntityId|
                    world.entities().contains_key(id) ==> lair(
                        map.rooms_spec().subrange(0, i as int),
                        #[trigger] world.entities()[id],
                    ),
            decreases map.rooms_spec().len() - i,
        {
            let room = map.rooms()[i];
            let ghost before = world.entities();
            let ghost rooms = map.rooms_spec();
            proof {
                assert(map.fits(rooms[i as int]));
            }
            populate_room(&mut world, &room, &mut rng);
            proof {
                let sooner = rooms.subrange(0, i as int);
                let now = rooms.subrange(0, i as int + 1);
                assert forall|id: EntityId| world.entities().contains_key(id) implies lair(
                    now,
                    #[trigger] world.entities()[id],
                ) by {
                    if before.contains_key(id) {
                        assert(lair(sooner, before[id]));
                        let k = choose|k: int|
                            0 <= k < sooner.len() && monster_in(#[trigger] sooner[k], before[id]);
                        assert(now[k] == sooner[k]);
                    } else {
                        assert(now[i as int] == room);
                    }
                }
            }
            i = i + 1;
        }
        let ghost monsters = world.entities();
        let player = create_player(&mut world, start.0, start.1);
        let g = Game {
            world,
            dispatcher,
            map,
            observers: Dispatcher::new(),
            turns: Turns(0),
            rng,
            player: Player(player),
            action: PlayerAction::DidntTakeTurn,
        };
        proof {
            assert(g.map_spec().rooms_spec().subrange(0, i as int) == g.map_spec().rooms_spec());
            assert(Blueprint::player(start.0, start.1).made(g.world_spec().of(g.player_spec())));
            assert forall|id: EntityId|
                g.world_spec().entities().contains_key(id) && id != entity_id(
                    g.player_spec(),
                ) implies lair(
                g.map_spec().rooms_spec(),
                #[trigger] g.world_spec().entities()[id],
            ) by {
                assert(monsters.contains_key(id));
            }
            assert forall|id: EntityId| g.world_spec().entities().contains_key(id) implies vital(
                #[trigger] g.world_spec().entities()[id],
            ) by {
                let c = g.world_spec().entities()[id];
                if id != entity_id(g.player_spec()) {
                    let rooms = g.map_spec().rooms_spec();
                    assert(lair(rooms, c));
                    let k = choose|k: int| 0 <= k < rooms.len() && monster_in(#[trigger] rooms[k], c);
                    let (x, y) = choose|x: i32, y: i32|
                        rooms[k].holds(x as int, y as int) && #[trigger] monster_at(x, y, c);
                    assert(monster_at(x, y, c));
                }
            }
        }
        g
    }

    /// The entities and their records.
    pub fn world(&self) -> (w: &Store)
        ensures
            *w == self.world_spec(),
    {
        &self.world
    }

    /// The dungeon.
    pub fn map(&self) -> (m: &GameMap)
        ensures
            *m == self.map_spec(),
    {
        &self.map
    }

    /// The entity that the player controls.
    pub fn player(&self) -> (e: specs::Entity)
        ensures
            e == self.player_spec(),
    {
        self.player.0
    }

    /// The number of turns taken.
    pub fn turns(&self) -> (n: i64)
        ensures
            n == self.turns_spec(),
    {
        self.turns.0
    }

    /// Whether the last intent took a turn.
    pub fn action(&self) -> (a: PlayerAction)
        ensures
            a == self.action_spec(),
    {
        self.action
    }

    /// The number of listener handles given out so far.
    pub fn handles_issued(&self) -> (n: u64)
        ensures
            n == self.observers_spec().issued(),
    {
        self.observers.handles_issued()
    }

    /// Subscribes `listener` to the events of the game and returns the
    /// handle of the subscription.
    pub fn register_listener(&mut self, listener: Box<dyn Listener>) -> (handle: u64)
        requires
            old(self).wf(),
            old(self).observers_spec().issued() < u64::MAX,
        ensures
            final(self).wf(),
            final(self).world_spec() == old(self).world_spec(),
            final(self).map_spec() == old(self).map_spec(),
            final(self).turns_spec() == old(self).turns_spec(),
            final(self).player_spec() == old(self).player_spec(),
            final(self).action_spec() == old(self).action_spec(),
            handle == old(self).observers_spec().issued(),
            final(self).observers_spec().issued() == handle + 1,
            final(self).observers_spec().subscriptions() == old(
                self,
            ).observers_spec().subscriptions().push((Subscription { handle, live: true })),
            final(self).observers_spec().heard().len() == old(self).observers_spec().heard().len()
                + 1,
            final(self).observers_spec().heard().drop_last() == old(self).observers_spec().heard(),
            final(self).observers_spec().history() == old(self).observers_spec().history(),
    {
        self.observers.register_listener(listener)
    }

    /// Ends the subscription under `handle`.
    pub fn release_listener(&mut self, handle: u64)
        requires
            old(self).wf(),
        ensures
            final(self).wf(),
            final(self).world_spec() == old(self).world_spec(),
            final(self).map_spec() == old(self).map_spec(),
            final(self).turns_spec() == old(self).turns_spec(),
            final(self).player_spec() == old(self).player_spec(),
            final(self).action_spec() == old(self).action_spec(),
            final(self).observers_spec().issued() == old(self).observers_spec().issued(),
            final(self).observers_spec().subscriptions() == crate::observer::released(
                old(self).observers_spec().subscriptions(),
                handle,
            ),
            final(self).observers_spec().heard() == old(self).observers_spec().heard(),
            final(self).observers_spec().history() == old(self).observers_spec().history(),
    {
        self.observers.release(handle);
    }

    /// Takes the player's intent. `Quit` asks the state stack to leave the
    /// game and changes nothing. `Idle` takes no turn. A direction takes a
    /// turn and gives the player a requested move of one cell, in place of
    /// one it may still hold.
    pub fn handle_key(&mut self, key: Intent) -> (t: Transition)
        requires
            old(self).wf(),
        ensures
            final(self).wf(),
            final(self).same_surroundings(old(self)),
            t == if key == Intent::Quit {
                Transition::Pop
            } else {
                Transition::Continue
            },
            final(self).action_spec() == match key {
                Intent::Quit => old(self).action_spec(),
                Intent::Idle => PlayerAction::DidntTakeTurn,
                _ => PlayerAction::TookTurn,
            },
            final(self).world_spec().entities() == match key {
                Intent::Quit => old(self).world_spec().entities(),
                Intent::Idle => old(self).world_spec().entities(),
                _ => old(self).world_spec().entities().insert(
                    entity_id(old(self).player_spec()),
                    Components {
                        move_event: Some(MoveEvent(key.delta().0, key.delta().1)),
                        ..old(self).world_spec().of(old(self).player_spec())
                    },
                ),
            },
    {
        let (dx, dy): (i32, i32) = match key {
            Intent::Up => (0, -1),
            Intent::Down => (0, 1),
            Intent::Left => (-1, 0),
            Intent::Right => (1, 0),
            Intent::Quit => {
                return Transition::Pop;
            },
            Intent::Idle => (0, 0),
        };
        self.action = if dx == 0 && dy == 0 {
            PlayerAction::DidntTakeTurn
        } else {
            self.world.attach_move_event(self.player.0, MoveEvent(dx, dy));
            PlayerAction::TookTurn
        };
        Transition::Continue
    }

    /// Handles what comes in from outside.
    pub fn handle_event(&mut self, event: Input) -> (t: Transition)
        requires
            old(self).wf(),
        ensures
            final(self).wf(),
            final(self).same_surroundings(old(self)),
            event matches Input::Key(key) && t == if key == Intent::Quit {
                Transition::Pop
            } else {
                Transition::Continue
            },
            event matches Input::Key(key) && final(self).action_spec() == match key {
                Intent::Quit => old(self).action_spec(),
                Intent::Idle => PlayerAction::DidntTakeTurn,
                _ => PlayerAction::TookTurn,
            },
            event matches Input::Key(key) && final(self).world_spec().entities() == match key {
                Intent::Quit => old(self).world_spec().entities(),
                Intent::Idle => old(self).world_spec().entities(),
                _ => old(self).world_spec().entities().insert(
                    entity_id(old(self).player_spec()),
                    Components {
                        move_event: Some(MoveEvent(key.delta().0, key.delta().1)),
                        ..old(self).world_spec().of(old(self).player_spec())
                    },
                ),
            },
    {
        match event {
            Input::Key(key) => self.handle_key(key),
        }
    }

    /// Advances the game. Where no intent has taken a turn since the last
    /// update, nothing happens. Else the turn counter goes up by one, unless
    /// it stands at the largest `i64`, the pipeline runs one turn, the
    /// entities that are marked for removal are removed, and the turn counts
    /// as run: a second update without a new intent does nothing.
    pub fn update(&mut self) -> (t: Transition)
        requires
            old(self).wf(),
        ensures
            final(self).wf(),
            t == Transition::Continue,
            final(self).player_spec() == old(self).player_spec(),
            final(self).action_spec() == PlayerAction::DidntTakeTurn,
            old(self).action_spec() == PlayerAction::DidntTakeTurn ==> {
                &&& final(self).world_spec() == old(self).world_spec()
                &&& final(self).map_spec() == old(self).map_spec()
                &&& final(self).observers_spec() == old(self).observers_spec()
                &&& final(self).turns_spec() == old(self).turns_spec()
            },
            old(self).action_spec() == PlayerAction::TookTurn ==> forall|id: EntityId, kind: Transient|
                final(self).world_spec().entities().contains_key(id) ==> !#[trigger] kind.held_by(
                    final(self).world_spec().entities()[id],
                ),
            old(self).action_spec() == PlayerAction::TookTurn ==> {
                let m = old(self).world_spec().entities();
                let order = old(self).world_spec().order();
                let player = old(self).player_spec();
                let map = old(self).map_spec();
                &&& final(self).turns_spec() == if old(self).turns_spec() < i64::MAX {
                    old(self).turns_spec() + 1
                } else {
                    i64::MAX as int
                }
                &&& final(self).world_spec().entities() == survivors(turn(m, &map, order, player))
                &&& final(self).observers_spec().issued() == old(self).observers_spec().issued()
                &&& final(self).observers_spec().history() == old(self).observers_spec().history()
                    + turn_reports(m, &map, order, player)
                &&& final(self).observers_spec().subscriptions() == told(
                    old(self).observers_spec().subscriptions(),
                    turn_reports(m, &map, order, player).len(),
                )
                &&& final(self).observers_spec().heard() == told_heard(
                    old(self).observers_spec().subscriptions(),
                    old(self).observers_spec().heard(),
                    turn_reports(m, &map, order, player),
                )
                &&& final(self).map_spec().same_tiles(&map)
                &&& final(self).map_spec().rooms_spec() == map.rooms_spec()
                &&& match player_step(m, &map, blockers(m, order, player), order, player) {
                    Some(to) => {
                        &&& final(self).map_spec().fov_spec().same_terrain(&map.fov_spec())
                        &&& forall|a: int, b: int| #[trigger]
                            final(self).map_spec().fov_spec().visible_at(a, b)
                                == map.fov_spec().lit(
                                to.0 as int,
                                to.1 as int,
                                crate::map::TORCH_RADIUS as int,
                                a,
                                b,
                            )
                        &&& forall|a: int, b: int| #[trigger]
                            final(self).map_spec().fov_spec().seen_at(a, b) == (
                            map.fov_spec().seen_at(a, b) || final(self).map_spec().fov_spec().visible_at(a, b))
                    },
                    None => final(self).map_spec().fov_spec() == map.fov_spec(),
                }
            },
    {
        if self.action == PlayerAction::DidntTakeTurn {
            return Transition::Continue;
        }
        self.action = PlayerAction::DidntTakeTurn;
        if self.turns.0 < i64::MAX {
            self.turns.0 = self.turns.0 + 1;
        }
        proof {
            lemma_turn_frame(
                self.world.entities(),
                &self.map,
                self.world.order(),
                self.player.0,
            );
            law_turn_keeps_vital_signs(
                self.world.entities(),
                &self.map,
                self.world.order(),
                self.player.0,
            );
        }
        self.dispatcher.dispatch(&mut self.world, &mut self.map, &mut self.observers, self.player.0);
        self.world.maintain();
        proof {
            let m = old(self).world_spec().entities();
            let order = old(self).world_spec().order();
            let player = old(self).player_spec();
            let map = old(self).map_spec();
            assert forall|id: EntityId, kind: Transient|
                self.world.entities().contains_key(id) implies !#[trigger] kind.held_by(
                self.world.entities()[id],
            ) by {
                law_turn_consumes_transients(m, &map, order, player, id, kind);
            }
            assert forall|id: EntityId| self.world.entities().contains_key(id) implies {
                &&& (#[trigger] self.world.entities()[id]).melee_event is None
                &&& self.world.entities()[id].hp_change is None
                &&& self.world.entities()[id].move_event is None
            } by {
                let c = self.world.entities()[id];
                assert(!Transient::Move.held_by(c));
                assert(!Transient::Melee.held_by(c));
                assert(!Transient::Health.held_by(c));
            }
        }
        Transition::Continue
    }

    /// The frame to paint: the scene of the world as it stands, and the
    /// number of turns taken.
    pub fn render(&self) -> (frame: Frame)
        requires
            self.wf(),
        ensures
            frame.turns == self.turns_spec(),
            frame.scene.erase@ == erased(
                by_depth(sprites(self.world_spec().entities(), self.world_spec().order())),
            ),
            frame.scene.glyphs@ == drawn(
                by_depth(sprites(self.world_spec().entities(), self.world_spec().order())),
                &self.map_spec(),
            ),
            frame.scene.tiles@.len() == self.map_spec().width_spec() * self.map_spec().height_spec(),
            forall|x: int, y: int|
                self.map_spec().in_bounds(x, y) ==> frame.scene.tiles@[#[trigger] cell(
                    self.map_spec().width_spec(),
                    x,
                    y,
                )] == self.map_spec().shade_at(x, y).color_spec(),
    {
        let mut print = Print;
        Frame { scene: print.run(&self.world, &self.map), turns: self.turns.0 }
    }
}

} // verus!
