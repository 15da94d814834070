//! The systems of the turn pipeline: movement, melee and health resolution.
//! Each visits the entities by ascending slot and consumes one kind of
//! transient record.

use vstd::prelude::*;
use crate::components::HealthOutcome;
use crate::components::HpChange;
use crate::components::MeleeEvent;
use crate::components::MoveEvent;
use crate::components::Position;
use crate::map::GameMap;
use crate::observer::each_told;
use crate::observer::kept;
use crate::observer::lasting;
use crate::observer::Dispatcher;
use crate::observer::Event;
use crate::observer::Subscription;
use crate::store::entity_id;
use crate::store::lists;
use crate::store::records;
use crate::store::with_records;
use crate::store::Components;
use crate::store::EntityId;
use crate::store::Store;

verus! {

/// The kinds of transient record. Each is consumed by one system.
#[derive(Clone, Copy, Debug, PartialEq, Eq, Structural)]
pub enum Transient {
    Move,
    Melee,
    Health,
}

impl Transient {
    /// `c` without its record of this kind.
    pub open spec fn stripped(self, c: Components) -> Components {
        match self {
            Transient::Move => Components { move_event: None, ..c },
            Transient::Melee => Components { melee_event: None, ..c },
            Transient::Health => Components { hp_change: None, ..c },
        }
    }

    /// Whether `c` has a record of this kind.
    pub open spec fn held_by(self, c: Components) -> bool {
        match self {
            Transient::Move => c.move_event is Some,
            Transient::Melee => c.melee_event is Some,
            Transient::Health => c.hp_change is Some,
        }
    }

    /// `m` with the records of this kind taken from every entity.
    pub open spec fn cleared(self, m: Map<EntityId, Components>) -> Map<EntityId, Components> {
        Map::new(|id: EntityId| m.contains_key(id), |id: EntityId| self.stripped(m[id]))
    }
}

/// Takes the records of one transient kind from every entity of `order`.
pub fn clear_transients(store: &mut Store, order: &Vec<specs::Entity>, kind: Transient)
    requires
        old(store).wf(),
        lists(order@, old(store).entities()),
    ensures
        final(store).wf(),
        final(store).order() == old(store).order(),
        final(store).entities() == kind.cleared(old(store).entities()),
{
    let ghost m = store.entities();
    let mut i: usize = 0;
    while i < order.len()
        invariant
            store.wf(),
            store.order() == old(store).order(),
            lists(order@, m),
            i <= order@.len(),
            store.entities().dom() == m.dom(),
            forall|id: EntityId|
                m.contains_key(id) ==> #[trigger] store.entities()[id] == m[id]
                    || store.entities()[id] == kind.stripped(m[id]),
            forall|j: int|
                0 <= j < i ==> store.entities()[#[trigger] entity_id(order@[j])] == kind.stripped(
                    m[entity_id(order@[j])],
                ),
        decreases order@.len() - i,
    {
        let e = order[i];
        let ghost cur = store.entities();
        assert(m.contains_key(entity_id(order@[i as int])));
        match kind {
            Transient::Move => store.detach_move_event(e),
            Transient::Melee => store.detach_melee_event(e),
            Transient::Health => store.detach_hp_change(e),
        }
        proof {
            assert(store.entities() == cur.insert(entity_id(e), kind.stripped(cur[entity_id(e)])));
            assert(kind.stripped(kind.stripped(m[entity_id(e)])) == kind.stripped(
                m[entity_id(e)],
            ));
            assert(store.entities().dom() =~= m.dom());
        }
        i = i + 1;
    }
    proof {
        assert forall|id: EntityId| m.contains_key(id) implies #[trigger] store.entities()[id]
            == kind.stripped(m[id]) by {
            let j = choose|j: int| 0 <= j < order@.len() && #[trigger] entity_id(order@[j]) == id;
            assert(store.entities()[entity_id(order@[j])] == kind.stripped(
                m[entity_id(order@[j])],
            ));
        }
        assert(store.entities() =~= kind.cleared(m));
    }
}

/// An entity that stands in the way, and where.
#[derive(Clone, Copy, Debug)]
pub struct Blocker {
    pub entity: specs::Entity,
    pub x: i32,
    pub y: i32,
}

/// Whether an entity with the records `c` stands in the way of others: it
/// has a position and blocks movement, dead or alive.
pub open spec fn blocks(c: Components) -> bool {
    c.position is Some && c.properties is Some && c.properties.unwrap().blocks
}

/// The entities of `order` that stand in the way, the player left out, each
/// with its cell.
pub open spec fn blockers(
    m: Map<EntityId, Components>,
    order: Seq<specs::Entity>,
    player: specs::Entity,
) -> Seq<Blocker>
    decreases order.len(),
{
    if order.len() == 0 {
        Seq::empty()
    } else {
        let rest = blockers(m, order.drop_last(), player);
        let e = order.last();
        let c = records(m, entity_id(e));
        if blocks(c) && entity_id(e) != entity_id(player) {
            rest.push(Blocker { entity: e, x: c.position.unwrap().x, y: c.position.unwrap().y })
        } else {
            rest
        }
    }
}

/// The first of `bs` that stands on the cell `(x, y)`.
pub open spec fn occupant(bs: Seq<Blocker>, x: int, y: int) -> Option<specs::Entity>
    decreases bs.len(),
{
    if bs.len() == 0 {
        None
    } else {
        match occupant(bs.drop_last(), x, y) {
            Some(e) => Some(e),
            None => if bs.last().x == x && bs.last().y == y {
                Some(bs.last().entity)
            } else {
                None
            },
        }
    }
}

/// What becomes of a requested move.
pub enum MoveOutcome {
    /// The target is no floor: nothing happens.
    Stay,
    /// The target is free floor: the entity steps onto it.
    Step { x: i32, y: i32 },
    /// The target is taken: the entity strikes who stands there.
    Attack { target: specs::Entity },
}

/// What becomes of the move `ev` of an entity at `pos`, given the map and
/// the entities that stand in the way.
pub open spec fn move_outcome(map: &GameMap, bs: Seq<Blocker>, pos: Position, ev: MoveEvent)
    -> MoveOutcome {
    let t = pos.target(ev.0, ev.1);
    match occupant(bs, t.0, t.1) {
        Some(o) => MoveOutcome::Attack { target: o },
        None => if map.floor_at(t.0, t.1) {
            MoveOutcome::Step { x: t.0 as i32, y: t.1 as i32 }
        } else {
            MoveOutcome::Stay
        },
    }
}

/// Whether an entity with the records `c` moves this turn: it has a
/// position and a requested move, and is not dead.
pub open spec fn acts(c: Components) -> bool {
    c.position is Some && c.move_event is Some && (c.properties is None
        || c.properties.unwrap().alive)
}

/// The records after movement resolution of the entity `e`.
pub open spec fn move_step(
    m: Map<EntityId, Components>,
    map: &GameMap,
    bs: Seq<Blocker>,
    e: specs::Entity,
) -> Map<EntityId, Components> {
    let id = entity_id(e);
    let c = records(m, id);
    if !m.contains_key(id) || !acts(c) {
        m
    } else {
        match move_outcome(map, bs, c.position.unwrap(), c.move_event.unwrap()) {
            MoveOutcome::Stay => m,
            MoveOutcome::Step { x, y } => m.insert(
                id,
                Components { position: Some(c.position.unwrap().moved_to(x, y)), ..c },
            ),
            MoveOutcome::Attack { target } => with_records(
                m,
                entity_id(target),
                Components { melee_event: Some(MeleeEvent(e)), ..records(m, entity_id(target)) },
            ),
        }
    }
}

/// The records after movement resolution of the entities of `order`, one
/// after the other.
pub open spec fn move_all(
    m: Map<EntityId, Components>,
    map: &GameMap,
    bs: Seq<Blocker>,
    order: Seq<specs::Entity>,
) -> Map<EntityId, Components>
    decreases order.len(),
{
    if order.len() == 0 {
        m
    } else {
        move_step(move_all(m, map, bs, order.drop_last()), map, bs, order.last())
    }
}

/// Where the player stands after stepping, if movement resolution of the
/// entities of `order` made it step.
pub open spec fn player_step(
    m: Map<EntityId, Components>,
    map: &GameMap,
    bs: Seq<Blocker>,
    order: Seq<specs::Entity>,
    player: specs::Entity,
) -> Option<(i32, i32)>
    decreases order.len(),
{
    if order.len() == 0 {
        None
    } else {
        let before = move_all(m, map, bs, order.drop_last());
        let e = order.last();
        let c = records(before, entity_id(e));
        if entity_id(e) == entity_id(player) && before.contains_key(entity_id(e)) && acts(c) {
            match move_outcome(map, bs, c.position.unwrap(), c.move_event.unwrap()) {
                MoveOutcome::Step { x, y } => Some((x, y)),
                _ => player_step(m, map, bs, order.drop_last(), player),
            }
        } else {
            player_step(m, map, bs, order.drop_last(), player)
        }
    }
}

/// Collects the entities that stand in the way.
pub fn collect_blockers(store: &Store, order: &Vec<specs::Entity>, player: specs::Entity) -> (bs:
    Vec<Blocker>)
    requires
        store.wf(),
    ensures
        bs@ == blockers(store.entities(), order@, player),
{
    let player_id = Store::id(player);
    let mut bs: Vec<Blocker> = Vec::new();
    let mut i: usize = 0;
    while i < order.len()
        invariant
            store.wf(),
            i <= order@.len(),
            player_id == entity_id(player),
            bs@ == blockers(store.entities(), order@.subrange(0, i as int), player),
        decreases order@.len() - i,
    {
        let e = order[i];
        proof {
            assert(order@.subrange(0, i as int + 1).drop_last() == order@.subrange(0, i as int));
        }
        let id = Store::id(e);
        if !(id == player_id) {
            if let Some(pos) = store.position(e) {
                if let Some(props) = store.properties(e) {
                    if props.blocks {
                        bs.push(Blocker { entity: e, x: pos.x, y: pos.y });
                    }
                }
            }
        }
        i = i + 1;
    }
    proof {
        assert(order@.subrange(0, order@.len() as int) == order@);
    }
    bs
}

/// Finds the first blocker on the cell `(x, y)`.
pub fn find_occupant(bs: &Vec<Blocker>, x: i64, y: i64) -> (o: Option<specs::Entity>)
    ensures
        o == occupant(bs@, x as int, y as int),
{
    let mut i: usize = 0;
    while i < bs.len()
        invariant
            i <= bs@.len(),
            occupant(bs@.subrange(0, i as int), x as int, y as int) is None,
        decreases bs@.len() - i,
    {
        proof {
            assert(bs@.subrange(0, i as int + 1).drop_last() == bs@.subrange(0, i as int));
        }
        if bs[i].x as i64 == x && bs[i].y as i64 == y {
            proof {
                lemma_occupant_extends(bs@, i as int + 1, x as int, y as int);
            }
            return Some(bs[i].entity);
        }
        i = i + 1;
    }
    proof {
        assert(bs@.subrange(0, bs@.len() as int) == bs@);
    }
    None
}

/// An occupant found among the first `n` blockers is the occupant found
/// among all.
pub proof fn lemma_occupant_extends(bs: Seq<Blocker>, n: int, x: int, y: int)
    requires
        0 <= n <= bs.len(),
        occupant(bs.subrange(0, n), x, y) is Some,
    ensures
        occupant(bs, x, y) == occupant(bs.subrange(0, n), x, y),
    decreases bs.len() - n,
{
    if n < bs.len() {
        assert(bs.subrange(0, n + 1).drop_last() == bs.subrange(0, n));
        lemma_occupant_extends(bs, n + 1, x, y);
    } else {
        assert(bs.subrange(0, n) == bs);
    }
}

/// Decides what becomes of the move `ev` of an entity at `pos`.
pub fn decide_move(map: &GameMap, bs: &Vec<Blocker>, pos: Position, ev: MoveEvent) -> (out:
    MoveOutcome)
    requires
        map.wf(),
    ensures
        out == move_outcome(map, bs@, pos, ev),
{
    let tx: i64 = pos.x as i64 + ev.0 as i64;
    let ty: i64 = pos.y as i64 + ev.1 as i64;
    match find_occupant(bs, tx, ty) {
        Some(o) => MoveOutcome::Attack { target: o },
        None => {
            if tx < 0 || tx >= map.width() as i64 || ty < 0 || ty >= map.height() as i64 {
                MoveOutcome::Stay
            } else if map.can_walk(tx as i32, ty as i32) {
                MoveOutcome::Step { x: tx as i32, y: ty as i32 }
            } else {
                MoveOutcome::Stay
            }
        },
    }
}

/// Resolves the move of one entity, and tells where it stepped to if it is
/// the player and stepped.
fn move_entity(
    store: &mut Store,
    map: &GameMap,
    bs: &Vec<Blocker>,
    player_id: EntityId,
    e: specs::Entity,
) -> (stepped: Option<(i32, i32)>)
    requires
        old(store).wf(),
        map.wf(),
    ensures
        final(store).wf(),
        final(store).order() == old(store).order(),
        final(store).entities() == move_step(old(store).entities(), map, bs@, e),
        stepped == ({
            let m = old(store).entities();
            let c = records(m, entity_id(e));
            if entity_id(e) == player_id && m.contains_key(entity_id(e)) && acts(c) {
                match move_outcome(map, bs@, c.position.unwrap(), c.move_event.unwrap()) {
                    MoveOutcome::Step { x, y } => Some((x, y)),
                    _ => None,
                }
            } else {
                None
            }
        }),
{
    let ev = match store.move_event(e) {
        Some(ev) => ev,
        None => {
            return None;
        },
    };
    let pos = match store.position(e) {
        Some(pos) => pos,
        None => {
            return None;
        },
    };
    if let Some(props) = store.properties(e) {
        if !props.alive {
            return None;
        }
    }
    match decide_move(map, bs, pos, ev) {
        MoveOutcome::Stay => None,
        MoveOutcome::Step { x, y } => {
            let moved = Position { x, y, old_x: pos.x, old_y: pos.y, z: pos.z };
            store.attach_position(e, moved);
            if Store::id(e) == player_id {
                Some((x, y))
            } else {
                None
            }
        },
        MoveOutcome::Attack { target } => {
            store.attach_melee_event(target, MeleeEvent(e));
            None
        },
    }
}

/// Movement resolution.
pub struct HandleMoveEvents;

impl HandleMoveEvents {
    /// Resolves the requested moves. The entities that stand in the way are
    /// taken as they stand when the system starts. Then each entity that
    /// has a position and a requested move, and is not dead, is resolved in
    /// turn: onto a cell where another stands in the way it does not step
    /// but strikes, leaving a `MeleeEvent` that names it with the first who
    /// stands there; onto a free cell of floor it steps; else it stays. At
    /// the end no entity has a requested move, and if the player stepped,
    /// the field of view is computed anew from where it stands.
    pub fn run(&mut self, store: &mut Store, map: &mut GameMap, player: specs::Entity)
        requires
            old(store).wf(),
            old(map).wf(),
        ensures
            final(store).wf(),
            final(map).wf(),
            final(store).order() == old(store).order(),
            final(store).entities() == Transient::Move.cleared(
                move_all(
                    old(store).entities(),
                    old(map),
                    blockers(old(store).entities(), old(store).order(), player),
                    old(store).order(),
                ),
            ),
            final(map).same_tiles(old(map)),
            final(map).rooms_spec() == old(map).rooms_spec(),
            match player_step(
                old(store).entities(),
                old(map),
                blockers(old(store).entities(), old(store).order(), player),
                old(store).order(),
                player,
            ) {
                Some(to) => {
                    &&& final(map).fov_spec().same_terrain(&old(map).fov_spec())
                    &&& forall|a: int, b: int| #[trigger]
                        final(map).fov_spec().visible_at(a, b) == old(map).fov_spec().lit(
                            to.0 as int,
                            to.1 as int,
                            crate::map::TORCH_RADIUS as int,
                            a,
                            b,
                        )
                    &&& forall|a: int, b: int| #[trigger]
                        final(map).fov_spec().seen_at(a, b) == (old(map).fov_spec().seen_at(a, b)
                            || final(map).fov_spec().visible_at(a, b))
                },
                None => final(map).fov_spec() == old(map).fov_spec(),
            },
    {
        let order = store.entity_list();
        let bs = collect_blockers(store, &order, player);
        let player_id = Store::id(player);
        let ghost m0 = store.entities();
        let mut stepped: Option<(i32, i32)> = None;
        let mut i: usize = 0;
        while i < order.len()
            invariant
                store.wf(),
                map.wf(),
                i <= order@.len(),
                player_id == entity_id(player),
                store.order() == old(store).order(),
                store.entities().dom() == m0.dom(),
                store.entities() == move_all(m0, map, bs@, order@.subrange(0, i as int)),
                stepped == player_step(m0, map, bs@, order@.subrange(0, i as int), player),
            decreases order@.len() - i,
        {
            proof {
                assert(order@.subrange(0, i as int + 1).drop_last() == order@.subrange(0, i as int));
            }
            let ghost cur = store.entities();
            match move_entity(store, map, &bs, player_id, order[i]) {
                Some(to) => {
                    stepped = Some(to);
                },
                None => {},
            }
            proof {
                assert(store.entities().dom() =~= cur.dom());
            }
            i = i + 1;
        }
        proof {
            assert(order@.subrange(0, order@.len() as int) == order@);
        }
        clear_transients(store, &order, Transient::Move);
        match stepped {
            Some(to) => {
                map.recompute_fov(to.0, to.1);
            },
            None => {},
        }
    }
}

/// The records after melee resolution of the entity `e`: where it holds a
/// `MeleeEvent` and has properties, and the attacker is a fighter whose
/// blow does damage, the damage is taken from its pending health change.
pub open spec fn melee_step(m: Map<EntityId, Components>, e: specs::Entity) -> Map<
    EntityId,
    Components,
> {
    let id = entity_id(e);
    let c = records(m, id);
    if m.contains_key(id) && c.melee_event is Some && c.properties is Some {
        match records(m, entity_id(c.melee_event.unwrap().0)).fighter {
            Some(a) => if a.damage_to(c.fighter) > 0 {
                m.insert(
                    id,
                    Components {
                        hp_change: Some(HpChange::worsened(c.hp_change, a.damage_to(c.fighter))),
                        ..c
                    },
                )
            } else {
                m
            },
            None => m,
        }
    } else {
        m
    }
}

/// What melee resolution of the entity `e` reports, if anything.
pub open spec fn melee_report(m: Map<EntityId, Components>, e: specs::Entity) -> Option<Event> {
    let id = entity_id(e);
    let c = records(m, id);
    if m.contains_key(id) && c.melee_event is Some && c.properties is Some {
        let attacker = c.melee_event.unwrap().0;
        match records(m, entity_id(attacker)).fighter {
            Some(a) => if a.damage_to(c.fighter) > 0 {
                Some(
                    Event::AttackLanded {
                        attacker,
                        defender_name: c.properties.unwrap().name,
                        damage: a.damage_to(c.fighter) as i64,
                    },
                )
            } else {
                Some(Event::AttackNoEffect { attacker, defender_name: c.properties.unwrap().name })
            },
            None => None,
        }
    } else {
        None
    }
}

/// The records after melee resolution of the entities of `order`, one after
/// the other.
pub open spec fn melee_all(m: Map<EntityId, Components>, order: Seq<specs::Entity>) -> Map<
    EntityId,
    Components,
>
    decreases order.len(),
{
    if order.len() == 0 {
        m
    } else {
        melee_step(melee_all(m, order.drop_last()), order.last())
    }
}

/// What melee resolution of the entities of `order` reports, in order.
pub open spec fn melee_reports(m: Map<EntityId, Components>, order: Seq<specs::Entity>) -> Seq<
    Event,
>
    decreases order.len(),
{
    if order.len() == 0 {
        Seq::empty()
    } else {
        let before = melee_reports(m, order.drop_last());
        match melee_report(melee_all(m, order.drop_last()), order.last()) {
            Some(ev) => before.push(ev),
            None => before,
        }
    }
}

/// The subscriptions after `n` events were published: those that lasted,
/// if anything was published.
pub open spec fn told(subs: Seq<Subscription>, n: nat) -> Seq<Subscription> {
    if n > 0 {
        lasting(subs)
    } else {
        subs
    }
}

/// Forgetting ended subscriptions twice is forgetting them once.
pub proof fn lemma_lasting_twice(subs: Seq<Subscription>)
    ensures
        lasting(lasting(subs)) == lasting(subs),
{
    crate::observer::lemma_lasting_are_live(subs);
    crate::observer::lemma_lasting_all(lasting(subs));
}

/// What each listener has heard after `events` were published: where
/// anything was published, the listeners whose subscriptions lasted have
/// each heard all of it, in order, after what they had heard before.
pub open spec fn told_heard(subs: Seq<Subscription>, heard: Seq<Seq<Event>>, events: Seq<Event>)
    -> Seq<Seq<Event>> {
    if events.len() > 0 {
        each_told(kept(subs, heard), events)
    } else {
        heard
    }
}

/// Publishing one more event after `events` is publishing `events` with
/// that event at the end.
pub proof fn lemma_told_one_more(
    subs: Seq<Subscription>,
    heard: Seq<Seq<Event>>,
    events: Seq<Event>,
    ev: Event,
)
    requires
        subs.len() == heard.len(),
    ensures
        lasting(told(subs, events.len())) == told(subs, events.push(ev).len()),
        each_told(
            kept(told(subs, events.len()), told_heard(subs, heard, events)),
            seq![ev],
        ) == told_heard(subs, heard, events.push(ev)),
{
    let k = kept(subs, heard);
    crate::observer::lemma_kept_len(subs, heard);
    crate::observer::lemma_lasting_are_live(subs);
    lemma_lasting_twice(subs);
    if events.len() > 0 {
        crate::observer::lemma_kept_all(lasting(subs), each_told(k, events));
        assert(each_told(each_told(k, events), seq![ev]) =~= each_told(k, events.push(ev))) by {
            assert forall|i: int| 0 <= i < k.len() implies (k[i] + events) + seq![ev] == k[i]
                + events.push(ev) by {
                assert((k[i] + events) + seq![ev] =~= k[i] + events.push(ev));
            }
        }
    } else {
        assert(seq![ev] =~= events.push(ev));
    }
}

/// Publishing `first` and then `second` is publishing the two in a row.
pub proof fn lemma_told_in_a_row(
    subs: Seq<Subscription>,
    heard: Seq<Seq<Event>>,
    first: Seq<Event>,
    second: Seq<Event>,
)
    requires
        subs.len() == heard.len(),
    ensures
        told(told(subs, first.len()), second.len()) == told(subs, (first + second).len()),
        told_heard(told(subs, first.len()), told_heard(subs, heard, first), second) == told_heard(
            subs,
            heard,
            first + second,
        ),
{
    let k = kept(subs, heard);
    crate::observer::lemma_kept_len(subs, heard);
    crate::observer::lemma_lasting_are_live(subs);
    lemma_lasting_twice(subs);
    if first.len() == 0 {
        assert(first + second =~= second);
    } else if second.len() == 0 {
        assert(first + second =~= first);
    } else {
        crate::observer::lemma_kept_all(lasting(subs), each_told(k, first));
        assert(each_told(each_told(k, first), second) =~= each_told(k, first + second)) by {
            assert forall|i: int| 0 <= i < k.len() implies (k[i] + first) + second == k[i] + (first
                + second) by {
                assert((k[i] + first) + second =~= k[i] + (first + second));
            }
        }
    }
}

/// Publishes `report`, if there is one.
fn publish(
    dispatcher: &mut Dispatcher,
    report: Option<Event>,
    Ghost(subs): Ghost<Seq<Subscription>>,
    Ghost(heard): Ghost<Seq<Seq<Event>>>,
    Ghost(so_far): Ghost<Seq<Event>>,
)
    requires
        old(dispatcher).wf(),
        subs.len() == heard.len(),
        old(dispatcher).subscriptions() == told(subs, so_far.len()),
        old(dispatcher).heard() == told_heard(subs, heard, so_far),
    ensures
        final(dispatcher).wf(),
        final(dispatcher).issued() == old(dispatcher).issued(),
        final(dispatcher).history() == match report {
            Some(ev) => old(dispatcher).history().push(ev),
            None => old(dispatcher).history(),
        },
        final(dispatcher).subscriptions() == told(
            subs,
            match report {
                Some(ev) => so_far.len() + 1,
                None => so_far.len(),
            },
        ),
        final(dispatcher).heard() == told_heard(
            subs,
            heard,
            match report {
                Some(ev) => so_far.push(ev),
                None => so_far,
            },
        ),
{
    match report {
        Some(ev) => {
            proof {
                lemma_told_one_more(subs, heard, so_far, ev);
            }
            dispatcher.dispatch(ev);
        },
        None => {},
    }
}

/// Resolves the `MeleeEvent` of one entity and tells what is to be
/// reported.
fn melee_entity(store: &mut Store, e: specs::Entity) -> (report: Option<Event>)
    requires
        old(store).wf(),
    ensures
        final(store).wf(),
        final(store).order() == old(store).order(),
        final(store).entities() == melee_step(old(store).entities(), e),
        report == melee_report(old(store).entities(), e),
{
    let melee = match store.melee_event(e) {
        Some(melee) => melee,
        None => {
            return None;
        },
    };
    let props = match store.properties(e) {
        Some(props) => props,
        None => {
            return None;
        },
    };
    let attacker = match store.fighter(melee.0) {
        Some(f) => f,
        None => {
            return None;
        },
    };
    let damage = attacker.damage(store.fighter(e));
    if damage > 0 {
        let pending = store.hp_change(e);
        store.attach_hp_change(e, HpChange::worsen(pending, damage));
        Some(Event::AttackLanded { attacker: melee.0, defender_name: props.name, damage })
    } else {
        Some(Event::AttackNoEffect { attacker: melee.0, defender_name: props.name })
    }
}

/// Melee resolution.
pub struct HandleMelee;

impl HandleMelee {
    /// Resolves the pending blows. For each entity that holds a
    /// `MeleeEvent` and has properties: if the attacker is no fighter,
    /// nothing happens; else the damage is the attacker's attack less the
    /// defender's defense. Damage above zero is reported as
    /// `AttackLanded` and taken from the defender's pending health change;
    /// other damage is reported as `AttackNoEffect`. At the end no entity
    /// holds a `MeleeEvent`.
    pub fn run(&mut self, store: &mut Store, dispatcher: &mut Dispatcher)
        requires
            old(store).wf(),
            old(dispatcher).wf(),
        ensures
            final(store).wf(),
            final(dispatcher).wf(),
            final(store).order() == old(store).order(),
            final(store).entities() == Transient::Melee.cleared(
                melee_all(old(store).entities(), old(store).order()),
            ),
            final(dispatcher).issued() == old(dispatcher).issued(),
            final(dispatcher).history() == old(dispatcher).history() + melee_reports(
                old(store).entities(),
                old(store).order(),
            ),
            final(dispatcher).subscriptions() == told(
                old(dispatcher).subscriptions(),
                melee_reports(old(store).entities(), old(store).order()).len(),
            ),
            final(dispatcher).heard() == told_heard(
                old(dispatcher).subscriptions(),
                old(dispatcher).heard(),
                melee_reports(old(store).entities(), old(store).order()),
            ),
    {
        let order = store.entity_list();
        let ghost m0 = store.entities();
        proof {
            dispatcher.lemma_aligned();
        }
        let mut i: usize = 0;
        while i < order.len()
            invariant
                store.wf(),
                dispatcher.wf(),
                i <= order@.len(),
                store.order() == old(store).order(),
                store.entities().dom() == m0.dom(),
                store.entities() == melee_all(m0, order@.subrange(0, i as int)),
                dispatcher.issued() == old(dispatcher).issued(),
                dispatcher.history() == old(dispatcher).history() + melee_reports(
                    m0,
                    order@.subrange(0, i as int),
                ),
                dispatcher.subscriptions() == told(
                    old(dispatcher).subscriptions(),
                    melee_reports(m0, order@.subrange(0, i as int)).len(),
                ),
                dispatcher.heard() == told_heard(
                    old(dispatcher).subscriptions(),
                    old(dispatcher).heard(),
                    melee_reports(m0, order@.subrange(0, i as int)),
                ),
                old(dispatcher).subscriptions().len() == old(dispatcher).heard().len(),
            decreases order@.len() - i,
        {
            proof {
                assert(order@.subrange(0, i as int + 1).drop_last() == order@.subrange(0, i as int));
            }
            let ghost cur = store.entities();
            let ghost told_so_far = melee_reports(m0, order@.subrange(0, i as int));
            let report = melee_entity(store, order[i]);
            let ghost reported = report;
            publish(
                dispatcher,
                report,
                Ghost(old(dispatcher).subscriptions()),
                Ghost(old(dispatcher).heard()),
                Ghost(told_so_far),
            );
            proof {
                assert(store.entities().dom() =~= cur.dom());
                match reported {
                    Some(ev) => {
                        assert((old(dispatcher).history() + told_so_far).push(ev) == old(
                            dispatcher,
                        ).history() + told_so_far.push(ev));
                    },
                    None => {},
                }
            }
            i = i + 1;
        }
        proof {
            assert(order@.subrange(0, order@.len() as int) == order@);
        }
        clear_transients(store, &order, Transient::Melee);
    }
}

/// The records after health resolution of the entity `e`: where it holds a
/// pending health change and has properties, the change is applied to the
/// properties and, if the entity dies with its death effect armed, the
/// effect acts on its display.
pub open spec fn health_step(m: Map<EntityId, Components>, e: specs::Entity) -> Map<
    EntityId,
    Components,
> {
    let id = entity_id(e);
    let c = records(m, id);
    if m.contains_key(id) && c.hp_change is Some && c.properties is Some {
        let delta = c.hp_change.unwrap().0;
        let p = c.properties.unwrap();
        m.insert(
            id,
            Components {
                properties: Some(p.resolved(delta)),
                displayable: match c.displayable {
                    Some(d) => Some(p.resolved_display(delta, d)),
                    None => None,
                },
                ..c
            },
        )
    } else {
        m
    }
}

/// What health resolution of the entity `e` reports: its death, if it
/// dies.
pub open spec fn health_report(m: Map<EntityId, Components>, e: specs::Entity) -> Option<Event> {
    let id = entity_id(e);
    let c = records(m, id);
    if m.contains_key(id) && c.hp_change is Some && c.properties is Some
        && c.properties.unwrap().dies_of(c.hp_change.unwrap().0) {
        Some(Event::EntityDied { entity: e, name: c.properties.unwrap().name })
    } else {
        None
    }
}

/// The records after health resolution of the entities of `order`, one
/// after the other.
pub open spec fn health_all(m: Map<EntityId, Components>, order: Seq<specs::Entity>) -> Map<
    EntityId,
    Components,
>
    decreases order.len(),
{
    if order.len() == 0 {
        m
    } else {
        health_step(health_all(m, order.drop_last()), order.last())
    }
}

/// What health resolution of the entities of `order` reports, in order.
pub open spec fn health_reports(m: Map<EntityId, Components>, order: Seq<specs::Entity>) -> Seq<
    Event,
>
    decreases order.len(),
{
    if order.len() == 0 {
        Seq::empty()
    } else {
        let before = health_reports(m, order.drop_last());
        match health_report(health_all(m, order.drop_last()), order.last()) {
            Some(ev) => before.push(ev),
            None => before,
        }
    }
}

/// Resolves the pending health change of one entity and tells what is to be
/// reported.
fn health_entity(store: &mut Store, e: specs::Entity) -> (report: Option<Event>)
    requires
        old(store).wf(),
    ensures
        final(store).wf(),
        final(store).order() == old(store).order(),
        final(store).entities() == health_step(old(store).entities(), e),
        report == health_report(old(store).entities(), e),
{
    let change = match store.hp_change(e) {
        Some(change) => change,
        None => {
            return None;
        },
    };
    let mut props = match store.properties(e) {
        Some(props) => props,
        None => {
            return None;
        },
    };
    let ghost m = store.entities();
    let ghost c = store.of(e);
    let name = props.name.clone();
    let outcome = props.apply_health_delta(change.0);
    store.attach_properties(e, props);
    let ghost mid = store.entities();
    match outcome {
        HealthOutcome::Survived => {
            proof {
                assert(store.entities() =~= health_step(m, e));
            }
            None
        },
        HealthOutcome::Died(effect) => {
            match effect {
                Some(effect) => {
                    match store.displayable(e) {
                        Some(display) => {
                            let mut display = display;
                            effect.apply_to_display(&mut display);
                            store.attach_displayable(e, display);
                        },
                        None => {},
                    }
                },
                None => {},
            }
            proof {
                assert(store.entities() =~= health_step(m, e));
            }
            Some(Event::EntityDied { entity: e, name })
        },
    }
}

/// Health resolution.
pub struct HandleHpChange;

impl HandleHpChange {
    /// Applies the pending health changes. For each entity that holds one
    /// and has properties, the change is added to its hit points, with zero
    /// as the floor. An entity that was alive and reaches zero dies: this
    /// is reported as `EntityDied`, and its death effect, if still armed,
    /// acts once on its properties and display and is disarmed. At the end
    /// no entity holds a pending health change.
    pub fn run(&mut self, store: &mut Store, dispatcher: &mut Dispatcher)
        requires
            old(store).wf(),
            old(dispatcher).wf(),
        ensures
            final(store).wf(),
            final(dispatcher).wf(),
            final(store).order() == old(store).order(),
            final(store).entities() == Transient::Health.cleared(
                health_all(old(store).entities(), old(store).order()),
            ),
            final(dispatcher).issued() == old(dispatcher).issued(),
            final(dispatcher).history() == old(dispatcher).history() + health_reports(
                old(store).entities(),
                old(store).order(),
            ),
            final(dispatcher).subscriptions() == told(
                old(dispatcher).subscriptions(),
                health_reports(old(store).entities(), old(store).order()).len(),
            ),
            final(dispatcher).heard() == told_heard(
                old(dispatcher).subscriptions(),
                old(dispatcher).heard(),
                health_reports(old(store).entities(), old(store).order()),
            ),
    {
        let order = store.entity_list();
        let ghost m0 = store.entities();
        proof {
            dispatcher.lemma_aligned();
        }
        let mut i: usize = 0;
        while i < order.len()
            invariant
                store.wf(),
                dispatcher.wf(),
                i <= order@.len(),
                store.order() == old(store).order(),
                store.entities().dom() == m0.dom(),
                store.entities() == health_all(m0, order@.subrange(0, i as int)),
                dispatcher.issued() == old(dispatcher).issued(),
                dispatcher.history() == old(dispatcher).history() + health_reports(
                    m0,
                    order@.subrange(0, i as int),
                ),
                dispatcher.subscriptions() == told(
                    old(dispatcher).subscriptions(),
                    health_reports(m0, order@.subrange(0, i as int)).len(),
                ),
                dispatcher.heard() == told_heard(
                    old(dispatcher).subscriptions(),
                    old(dispatcher).heard(),
                    health_reports(m0, order@.subrange(0, i as int)),
                ),
                old(dispatcher).subscriptions().len() == old(dispatcher).heard().len(),
            decreases order@.len() - i,
        {
            proof {
                assert(order@.subrange(0, i as int + 1).drop_last() == order@.subrange(0, i as int));
            }
            let ghost cur = store.entities();
            let ghost told_so_far = health_reports(m0, order@.subrange(0, i as int));
            let report = health_entity(store, order[i]);
            let ghost reported = report;
            publish(
                dispatcher,
                report,
                Ghost(old(dispatcher).subscriptions()),
                Ghost(old(dispatcher).heard()),
                Ghost(told_so_far),
            );
            proof {
                assert(store.entities().dom() =~= cur.dom());
                match reported {
                    Some(ev) => {
                        assert((old(dispatcher).history() + told_so_far).push(ev) == old(
                            dispatcher,
                        ).history() + told_so_far.push(ev));
                    },
                    None => {},
                }
            }
            i = i + 1;
        }
        proof {
            assert(order@.subrange(0, order@.len() as int) == order@);
        }
        clear_transients(store, &order, Transient::Health);
    }
}

/// Where a blocker stands on a cell, the cell has an occupant.
pub proof fn lemma_occupied(bs: Seq<Blocker>, i: int, x: int, y: int)
    requires
        0 <= i < bs.len(),
        bs[i].x == x,
        bs[i].y == y,
    ensures
        occupant(bs, x, y) is Some,
    decreases bs.len(),
{
    if i < bs.len() - 1 {
        lemma_occupied(bs.drop_last(), i, x, y);
    }
}

/// A move onto a cell that is no floor, and on which nobody stands in the
/// way, changes nothing: not the position of the mover, nor any record of
/// any entity.
pub proof fn law_wall_stops_move(
    m: Map<EntityId, Components>,
    map: &GameMap,
    bs: Seq<Blocker>,
    e: specs::Entity,
)
    requires
        m.contains_key(entity_id(e)),
        acts(m[entity_id(e)]),
        ({
            let c = m[entity_id(e)];
            let t = c.position.unwrap().target(c.move_event.unwrap().0, c.move_event.unwrap().1);
            !map.floor_at(t.0, t.1) && occupant(bs, t.0, t.1) is None
        }),
    ensures
        move_step(m, map, bs, e) == m,
{
}

/// No move onto a cell that is no floor changes the position of the mover.
pub proof fn law_blocked_terrain_keeps_position(
    m: Map<EntityId, Components>,
    map: &GameMap,
    bs: Seq<Blocker>,
    e: specs::Entity,
)
    requires
        m.contains_key(entity_id(e)),
        acts(m[entity_id(e)]),
        ({
            let c = m[entity_id(e)];
            let t = c.position.unwrap().target(c.move_event.unwrap().0, c.move_event.unwrap().1);
            !map.floor_at(t.0, t.1)
        }),
    ensures
        records(move_step(m, map, bs, e), entity_id(e)).position == m[entity_id(e)].position,
{
}

/// Every entity that stands in the way is an entity of the store,
/// blocks, is not the player, and stands where it is listed.
pub proof fn lemma_blockers_sound(
    m: Map<EntityId, Components>,
    order: Seq<specs::Entity>,
    player: specs::Entity,
)
    ensures
        forall|k: int|
            0 <= k < blockers(m, order, player).len() ==> {
                let b = #[trigger] blockers(m, order, player)[k];
                &&& m.contains_key(entity_id(b.entity))
                &&& blocks(m[entity_id(b.entity)])
                &&& entity_id(b.entity) != entity_id(player)
                &&& m[entity_id(b.entity)].position.unwrap().x == b.x
                &&& m[entity_id(b.entity)].position.unwrap().y == b.y
            },
    decreases order.len(),
{
    if order.len() > 0 {
        lemma_blockers_sound(m, order.drop_last(), player);
    }
}

/// A move onto a cell on which an entity stands in the way changes no
/// position. It leaves a `MeleeEvent` that names the mover with the
/// first who stands there, and with nobody else: the records of every
/// other entity stay as they were.
pub proof fn law_bump_attaches_one_melee_event(
    m: Map<EntityId, Components>,
    map: &GameMap,
    order: Seq<specs::Entity>,
    player: specs::Entity,
    e: specs::Entity,
    i: int,
)
    requires
        m.contains_key(entity_id(e)),
        acts(m[entity_id(e)]),
        0 <= i < blockers(m, order, player).len(),
        ({
            let c = m[entity_id(e)];
            let t = c.position.unwrap().target(c.move_event.unwrap().0, c.move_event.unwrap().1);
            blockers(m, order, player)[i].x == t.0 && blockers(m, order, player)[i].y == t.1
        }),
    ensures
        ({
            let c = m[entity_id(e)];
            let t = c.position.unwrap().target(c.move_event.unwrap().0, c.move_event.unwrap().1);
            let bs = blockers(m, order, player);
            let after = move_step(m, map, bs, e);
            &&& occupant(bs, t.0, t.1) is Some
            &&& after.dom() == m.dom()
            &&& forall|id: EntityId|
                m.contains_key(id) ==> (#[trigger] after[id]).position == m[id].position
            &&& after[entity_id(occupant(bs, t.0, t.1).unwrap())].melee_event == Some(
                MeleeEvent(e),
            )
            &&& forall|id: EntityId|
                m.contains_key(id) && id != entity_id(occupant(bs, t.0, t.1).unwrap())
                    ==> #[trigger] after[id] == m[id]
        }),
{
    let c = m[entity_id(e)];
    let t = c.position.unwrap().target(c.move_event.unwrap().0, c.move_event.unwrap().1);
    let bs = blockers(m, order, player);
    lemma_occupied(bs, i, t.0, t.1);
    lemma_occupant_is_listed(bs, t.0, t.1);
    lemma_blockers_sound(m, order, player);
    let o = occupant(bs, t.0, t.1).unwrap();
    let k = choose|k: int|
        0 <= k < bs.len() && (#[trigger] bs[k]).entity == occupant(bs, t.0, t.1).unwrap() && bs[k].x
            == t.0 && bs[k].y == t.1;
    assert(m.contains_key(entity_id(bs[k].entity)));
    assert(move_step(m, map, bs, e).dom() =~= m.dom());
}

/// The occupant of a cell is one of the blockers, and stands on the cell.
pub proof fn lemma_occupant_is_listed(bs: Seq<Blocker>, x: int, y: int)
    requires
        occupant(bs, x, y) is Some,
    ensures
        exists|k: int|
            0 <= k < bs.len() && (#[trigger] bs[k]).entity == occupant(bs, x, y).unwrap() && bs[k].x
                == x && bs[k].y == y,
    decreases bs.len(),
{
    if occupant(bs.drop_last(), x, y) is Some {
        lemma_occupant_is_listed(bs.drop_last(), x, y);
        let k = choose|k: int|
            0 <= k < bs.drop_last().len() && (#[trigger] bs.drop_last()[k]).entity == occupant(
                bs.drop_last(),
                x,
                y,
            ).unwrap() && bs.drop_last()[k].x == x && bs.drop_last()[k].y == y;
        assert(bs[k] == bs.drop_last()[k]);
    } else {
        let k = bs.len() - 1;
        assert(bs[k] == bs.last());
    }
}

/// Melee resolution touches nothing but pending health changes.
pub proof fn lemma_melee_all_frame(m: Map<EntityId, Components>, order: Seq<specs::Entity>)
    ensures
        melee_all(m, order).dom() == m.dom(),
        forall|id: EntityId|
            m.contains_key(id) ==> (#[trigger] melee_all(m, order)[id]) == (Components {
                hp_change: melee_all(m, order)[id].hp_change,
                ..m[id]
            }),
    decreases order.len(),
{
    if order.len() > 0 {
        lemma_melee_all_frame(m, order.drop_last());
        let before = melee_all(m, order.drop_last());
        assert(melee_step(before, order.last()).dom() =~= before.dom());
    }
}

/// Health resolution touches nothing but properties and displays.
pub proof fn lemma_health_all_frame(m: Map<EntityId, Components>, order: Seq<specs::Entity>)
    ensures
        health_all(m, order).dom() == m.dom(),
        forall|id: EntityId|
            m.contains_key(id) ==> (#[trigger] health_all(m, order)[id]) == (Components {
                properties: health_all(m, order)[id].properties,
                displayable: health_all(m, order)[id].displayable,
                ..m[id]
            }),
    decreases order.len(),
{
    if order.len() > 0 {
        lemma_health_all_frame(m, order.drop_last());
        let before = health_all(m, order.drop_last());
        assert(health_step(before, order.last()).dom() =~= before.dom());
    }
}

/// The records after one turn of the pipeline: movement, then melee, then
/// health resolution, each followed by the removal of what it consumed.
pub open spec fn turn(
    m: Map<EntityId, Components>,
    map: &GameMap,
    order: Seq<specs::Entity>,
    player: specs::Entity,
) -> Map<EntityId, Components> {
    let moved = Transient::Move.cleared(move_all(m, map, blockers(m, order, player), order));
    let fought = Transient::Melee.cleared(melee_all(moved, order));
    Transient::Health.cleared(health_all(fought, order))
}

/// What one turn of the pipeline reports: the blows, then the deaths.
pub open spec fn turn_reports(
    m: Map<EntityId, Components>,
    map: &GameMap,
    order: Seq<specs::Entity>,
    player: specs::Entity,
) -> Seq<Event> {
    let moved = Transient::Move.cleared(move_all(m, map, blockers(m, order, player), order));
    let fought = Transient::Melee.cleared(melee_all(moved, order));
    melee_reports(moved, order) + health_reports(fought, order)
}

/// After a turn of the pipeline no entity holds a transient record of any
/// kind: no requested move, no pending blow, no pending health change.
pub proof fn law_turn_consumes_transients(
    m: Map<EntityId, Components>,
    map: &GameMap,
    order: Seq<specs::Entity>,
    player: specs::Entity,
    id: EntityId,
    kind: Transient,
)
    requires
        turn(m, map, order, player).contains_key(id),
    ensures
        !kind.held_by(turn(m, map, order, player)[id]),
{
    let moved = Transient::Move.cleared(move_all(m, map, blockers(m, order, player), order));
    let fought = Transient::Melee.cleared(melee_all(moved, order));
    lemma_melee_all_frame(moved, order);
    lemma_health_all_frame(fought, order);
    assert(fought.contains_key(id));
    assert(moved.contains_key(id));
    assert(melee_all(moved, order)[id].move_event == moved[id].move_event);
}

/// Whether the vital signs of `c` are sound: its hit points are within
/// `0..=max_hp`, it is alive exactly while they are above zero, and its
/// pending health change, if any, is damage.
pub open spec fn vital(c: Components) -> bool {
    &&& c.properties is Some ==> {
        &&& 0 <= c.properties.unwrap().hp <= c.properties.unwrap().max_hp
        &&& c.properties.unwrap().alive <==> c.properties.unwrap().hp > 0
    }
    &&& c.hp_change is Some ==> c.hp_change.unwrap().0 <= 0
}

/// Whether the vital signs of every entity of `m` are sound.
pub open spec fn all_vital(m: Map<EntityId, Components>) -> bool {
    forall|id: EntityId| m.contains_key(id) ==> vital(#[trigger] m[id])
}

/// Melee resolution leaves the vital signs sound: it deals damage only.
pub proof fn law_melee_keeps_vital_signs(m: Map<EntityId, Components>, order: Seq<specs::Entity>)
    requires
        all_vital(m),
    ensures
        all_vital(melee_all(m, order)),
    decreases order.len(),
{
    lemma_melee_all_frame(m, order);
    if order.len() > 0 {
        law_melee_keeps_vital_signs(m, order.drop_last());
        lemma_melee_all_frame(m, order.drop_last());
        let before = melee_all(m, order.drop_last());
        let after = melee_step(before, order.last());
        assert forall|id: EntityId| after.contains_key(id) implies vital(#[trigger] after[id]) by {
            assert(before.contains_key(id));
            assert(vital(before[id]));
        }
    }
}

/// Health resolution leaves the vital signs sound: hit points stay within
/// `0..=max_hp`, and an entity is dead exactly if its hit points are at
/// zero.
pub proof fn law_health_keeps_vital_signs(m: Map<EntityId, Components>, order: Seq<specs::Entity>)
    requires
        all_vital(m),
    ensures
        all_vital(health_all(m, order)),
    decreases order.len(),
{
    lemma_health_all_frame(m, order);
    if order.len() > 0 {
        law_health_keeps_vital_signs(m, order.drop_last());
        lemma_health_all_frame(m, order.drop_last());
        let before = health_all(m, order.drop_last());
        let after = health_step(before, order.last());
        assert forall|id: EntityId| after.contains_key(id) implies vital(#[trigger] after[id]) by {
            assert(before.contains_key(id));
            assert(vital(before[id]));
        }
    }
}

/// A turn of the pipeline leaves the vital signs of every entity sound.
pub proof fn law_turn_keeps_vital_signs(
    m: Map<EntityId, Components>,
    map: &GameMap,
    order: Seq<specs::Entity>,
    player: specs::Entity,
)
    requires
        all_vital(m),
    ensures
        all_vital(turn(m, map, order, player)),
{
    let moved_raw = move_all(m, map, blockers(m, order, player), order);
    let moved = Transient::Move.cleared(moved_raw);
    lemma_move_all_frame(m, map, blockers(m, order, player), order);
    assert(all_vital(moved)) by {
        assert forall|id: EntityId| moved.contains_key(id) implies vital(#[trigger] moved[id]) by {
            assert(m.contains_key(id));
            assert(vital(m[id]));
        }
    }
    law_melee_keeps_vital_signs(moved, order);
    let fought = Transient::Melee.cleared(melee_all(moved, order));
    assert(all_vital(fought)) by {
        assert forall|id: EntityId| fought.contains_key(id) implies vital(
            #[trigger] fought[id],
        ) by {
            assert(vital(melee_all(moved, order)[id]));
        }
    }
    law_health_keeps_vital_signs(fought, order);
    let healed = health_all(fought, order);
    assert forall|id: EntityId| turn(m, map, order, player).contains_key(id) implies vital(
        #[trigger] turn(m, map, order, player)[id],
    ) by {
        assert(vital(healed[id]));
    }
}

/// Movement resolution touches nothing but positions and pending blows,
/// and gives no entity a position that had none.
pub proof fn lemma_move_all_frame(
    m: Map<EntityId, Components>,
    map: &GameMap,
    bs: Seq<Blocker>,
    order: Seq<specs::Entity>,
)
    ensures
        move_all(m, map, bs, order).dom() == m.dom(),
        forall|id: EntityId|
            m.contains_key(id) ==> (#[trigger] move_all(m, map, bs, order)[id]) == (Components {
                position: move_all(m, map, bs, order)[id].position,
                melee_event: move_all(m, map, bs, order)[id].melee_event,
                ..m[id]
            }),
        forall|id: EntityId|
            m.contains_key(id) ==> ((#[trigger] move_all(m, map, bs, order)[id]).position is Some
                <==> m[id].position is Some),
    decreases order.len(),
{
    if order.len() > 0 {
        lemma_move_all_frame(m, map, bs, order.drop_last());
        let before = move_all(m, map, bs, order.drop_last());
        assert(move_step(before, map, bs, order.last()).dom() =~= before.dom());
    }
}

/// Whether `after` has a record of each lasting kind exactly where `before`
/// has one, and is marked for removal exactly if `before` is.
pub open spec fn same_kinds(before: Components, after: Components) -> bool {
    &&& after.position is Some <==> before.position is Some
    &&& after.properties is Some <==> before.properties is Some
    &&& after.displayable is Some <==> before.displayable is Some
    &&& after.fighter == before.fighter
    &&& after.doomed == before.doomed
}

/// A turn of the pipeline makes and removes no entity, marks none for
/// removal, and neither gives nor takes a position, properties, a display
/// or fighting ratings.
pub proof fn lemma_turn_frame(
    m: Map<EntityId, Components>,
    map: &GameMap,
    order: Seq<specs::Entity>,
    player: specs::Entity,
)
    ensures
        turn(m, map, order, player).dom() == m.dom(),
        forall|id: EntityId|
            m.contains_key(id) ==> same_kinds(m[id], #[trigger] turn(m, map, order, player)[id]),
{
    let moved_raw = move_all(m, map, blockers(m, order, player), order);
    let moved = Transient::Move.cleared(moved_raw);
    let fought_raw = melee_all(moved, order);
    let fought = Transient::Melee.cleared(fought_raw);
    let healed_raw = health_all(fought, order);
    lemma_move_all_frame(m, map, blockers(m, order, player), order);
    lemma_melee_all_frame(moved, order);
    lemma_health_all_frame(fought, order);
    lemma_health_all_kinds(fought, order);
    assert(moved.dom() =~= m.dom());
    assert(fought.dom() =~= m.dom());
    assert(turn(m, map, order, player).dom() =~= m.dom());
    assert forall|id: EntityId| m.contains_key(id) implies same_kinds(
        m[id],
        #[trigger] turn(m, map, order, player)[id],
    ) by {
        assert(moved.contains_key(id));
        assert(fought.contains_key(id));
        assert(same_kinds(m[id], moved[id]));
        assert(same_kinds(moved[id], fought[id]));
        assert(same_kinds(fought[id], healed_raw[id]));
    }
}

/// Health resolution neither gives nor takes properties or a display.
pub proof fn lemma_health_all_kinds(m: Map<EntityId, Components>, order: Seq<specs::Entity>)
    ensures
        forall|id: EntityId|
            m.contains_key(id) ==> same_kinds(m[id], #[trigger] health_all(m, order)[id]),
    decreases order.len(),
{
    lemma_health_all_frame(m, order);
    if order.len() > 0 {
        lemma_health_all_kinds(m, order.drop_last());
        lemma_health_all_frame(m, order.drop_last());
    }
}

/// Where one entity alone holds a requested move, movement resolution of
/// all entities is movement resolution of that entity, and it is the
/// player's step that the view follows.
pub proof fn law_single_mover(
    m: Map<EntityId, Components>,
    map: &GameMap,
    bs: Seq<Blocker>,
    order: Seq<specs::Entity>,
    player: specs::Entity,
    k: int,
)
    requires
        lists(order, m),
        0 <= k < order.len(),
        forall|j: int|
            0 <= j < order.len() && j != k ==> m[#[trigger] entity_id(order[j])].move_event is None,
    ensures
        move_all(m, map, bs, order) == move_step(m, map, bs, order[k]),
        player_step(m, map, bs, order, player) == player_step(m, map, bs, seq![order[k]], player),
{
    lemma_single_mover_upto(m, map, bs, order, player, k, order.len() as int);
    assert(order.subrange(0, order.len() as int) == order);
}

/// The same, for the entities before place `n`.
proof fn lemma_single_mover_upto(
    m: Map<EntityId, Components>,
    map: &GameMap,
    bs: Seq<Blocker>,
    order: Seq<specs::Entity>,
    player: specs::Entity,
    k: int,
    n: int,
)
    requires
        lists(order, m),
        0 <= k < order.len(),
        0 <= n <= order.len(),
        forall|j: int|
            0 <= j < order.len() && j != k ==> m[#[trigger] entity_id(order[j])].move_event is None,
    ensures
        move_all(m, map, bs, order.subrange(0, n)) == if n > k {
            move_step(m, map, bs, order[k])
        } else {
            m
        },
        player_step(m, map, bs, order.subrange(0, n), player) == if n > k {
            player_step(m, map, bs, seq![order[k]], player)
        } else {
            None
        },
    decreases n,
{
    let only = seq![order[k]];
    assert(only.drop_last() =~= Seq::<specs::Entity>::empty());
    assert(only.last() == order[k]);
    assert(move_all(m, map, bs, only.drop_last()) == m);
    assert(player_step(m, map, bs, only.drop_last(), player) is None);
    if n == 0 {
        assert(order.subrange(0, n) =~= Seq::<specs::Entity>::empty());
    }
    if n > 0 {
        let prefix = order.subrange(0, n);
        assert(prefix.drop_last() == order.subrange(0, n - 1));
        assert(prefix.last() == order[n - 1]);
        lemma_single_mover_upto(m, map, bs, order, player, k, n - 1);
        let before = move_all(m, map, bs, order.subrange(0, n - 1));
        if n - 1 != k {
            let e = order[n - 1];
            assert(m.contains_key(entity_id(e)));
            assert(m[entity_id(e)].move_event is None);
            if n - 1 > k {
                assert(entity_id(order[k]).index < entity_id(e).index);
                assert(records(before, entity_id(e)).move_event is None);
            }
        }
    }
}

/// Where one entity alone holds a pending blow, melee resolution of all
/// entities is melee resolution of that entity, and reports what that
/// reports.
pub proof fn law_single_struck(m: Map<EntityId, Components>, order: Seq<specs::Entity>, k: int)
    requires
        lists(order, m),
        0 <= k < order.len(),
        forall|j: int|
            0 <= j < order.len() && j != k ==> m[#[trigger] entity_id(order[j])].melee_event
                is None,
    ensures
        melee_all(m, order) == melee_step(m, order[k]),
        melee_reports(m, order) == match melee_report(m, order[k]) {
            Some(ev) => seq![ev],
            None => Seq::empty(),
        },
{
    lemma_single_struck_upto(m, order, k, order.len() as int);
    assert(order.subrange(0, order.len() as int) == order);
}

/// The same, for the entities before place `n`.
proof fn lemma_single_struck_upto(
    m: Map<EntityId, Components>,
    order: Seq<specs::Entity>,
    k: int,
    n: int,
)
    requires
        lists(order, m),
        0 <= k < order.len(),
        0 <= n <= order.len(),
        forall|j: int|
            0 <= j < order.len() && j != k ==> m[#[trigger] entity_id(order[j])].melee_event
                is None,
    ensures
        melee_all(m, order.subrange(0, n)) == if n > k {
            melee_step(m, order[k])
        } else {
            m
        },
        melee_reports(m, order.subrange(0, n)) == if n > k {
            match melee_report(m, order[k]) {
                Some(ev) => seq![ev],
                None => Seq::empty(),
            }
        } else {
            Seq::empty()
        },
    decreases n,
{
    if n > 0 {
        let prefix = order.subrange(0, n);
        assert(prefix.drop_last() == order.subrange(0, n - 1));
        assert(prefix.last() == order[n - 1]);
        lemma_single_struck_upto(m, order, k, n - 1);
        let before = melee_all(m, order.subrange(0, n - 1));
        if n - 1 != k {
            let e = order[n - 1];
            assert(m.contains_key(entity_id(e)));
            assert(m[entity_id(e)].melee_event is None);
            if n - 1 > k {
                assert(entity_id(order[k]).index < entity_id(e).index);
                assert(records(before, entity_id(e)).melee_event is None);
            }
        } else {
            match melee_report(m, order[k]) {
                Some(ev) => {
                    assert(Seq::<Event>::empty().push(ev) =~= seq![ev]);
                },
                None => {},
            }
        }
    }
}

/// Where one entity alone holds a pending health change, health resolution
/// of all entities is health resolution of that entity, and reports what
/// that reports.
pub proof fn law_single_hurt(m: Map<EntityId, Components>, order: Seq<specs::Entity>, k: int)
    requires
        lists(order, m),
        0 <= k < order.len(),
        forall|j: int|
            0 <= j < order.len() && j != k ==> m[#[trigger] entity_id(order[j])].hp_change is None,
    ensures
        health_all(m, order) == health_step(m, order[k]),
        health_reports(m, order) == match health_report(m, order[k]) {
            Some(ev) => seq![ev],
            None => Seq::empty(),
        },
{
    lemma_single_hurt_upto(m, order, k, order.len() as int);
    assert(order.subrange(0, order.len() as int) == order);
}

/// The same, for the entities before place `n`.
proof fn lemma_single_hurt_upto(
    m: Map<EntityId, Components>,
    order: Seq<specs::Entity>,
    k: int,
    n: int,
)
    requires
        lists(order, m),
        0 <= k < order.len(),
        0 <= n <= order.len(),
        forall|j: int|
            0 <= j < order.len() && j != k ==> m[#[trigger] entity_id(order[j])].hp_change is None,
    ensures
        health_all(m, order.subrange(0, n)) == if n > k {
            health_step(m, order[k])
        } else {
            m
        },
        health_reports(m, order.subrange(0, n)) == if n > k {
            match health_report(m, order[k]) {
                Some(ev) => seq![ev],
                None => Seq::empty(),
            }
        } else {
            Seq::empty()
        },
    decreases n,
{
    if n > 0 {
        let prefix = order.subrange(0, n);
        assert(prefix.drop_last() == order.subrange(0, n - 1));
        assert(prefix.last() == order[n - 1]);
        lemma_single_hurt_upto(m, order, k, n - 1);
        let before = health_all(m, order.subrange(0, n - 1));
        if n - 1 != k {
            let e = order[n - 1];
            assert(m.contains_key(entity_id(e)));
            assert(m[entity_id(e)].hp_change is None);
            if n - 1 > k {
                assert(entity_id(order[k]).index < entity_id(e).index);
                assert(records(before, entity_id(e)).hp_change is None);
            }
        } else {
            match health_report(m, order[k]) {
                Some(ev) => {
                    assert(Seq::<Event>::empty().push(ev) =~= seq![ev]);
                },
                None => {},
            }
        }
    }
}

/// Whether no entity of `m` holds a pending blow or a pending health
/// change.
pub open spec fn at_peace(m: Map<EntityId, Components>) -> bool {
    forall|id: EntityId|
        m.contains_key(id) ==> (#[trigger] m[id]).melee_event is None && m[id].hp_change is None
}

/// The one report in a sequence, or none.
pub open spec fn at_most_one(report: Option<Event>) -> Seq<Event> {
    match report {
        Some(ev) => seq![ev],
        None => Seq::empty(),
    }
}

/// A turn in which one entity alone holds a requested move, and nobody a
/// pending blow or health change, comes to this: the mover is resolved;
/// then the entity `order[j]`, which is whom the mover struck if it struck
/// anyone, is resolved in melee and then in health. What is reported is
/// what those two resolutions report.
pub proof fn law_turn_of_single_mover(
    m: Map<EntityId, Components>,
    map: &GameMap,
    order: Seq<specs::Entity>,
    player: specs::Entity,
    k: int,
    j: int,
)
    requires
        lists(order, m),
        at_peace(m),
        0 <= k < order.len(),
        0 <= j < order.len(),
        forall|i: int|
            0 <= i < order.len() && i != k ==> m[#[trigger] entity_id(order[i])].move_event is None,
        ({
            let c = m[entity_id(order[k])];
            acts(c) ==> (move_outcome(
                map,
                blockers(m, order, player),
                c.position.unwrap(),
                c.move_event.unwrap(),
            ) matches MoveOutcome::Attack { target } ==> entity_id(target) == entity_id(order[j]))
        }),
    ensures
        ({
            let bs = blockers(m, order, player);
            let moved = Transient::Move.cleared(move_step(m, map, bs, order[k]));
            let fought = Transient::Melee.cleared(melee_step(moved, order[j]));
            &&& turn(m, map, order, player) == Transient::Health.cleared(
                health_step(fought, order[j]),
            )
            &&& turn_reports(m, map, order, player) == at_most_one(melee_report(moved, order[j]))
                + at_most_one(health_report(fought, order[j]))
        }),
{
    let bs = blockers(m, order, player);
    law_single_mover(m, map, bs, order, player, k);
    let stepped = move_step(m, map, bs, order[k]);
    assert(stepped.dom() =~= m.dom());
    let moved = Transient::Move.cleared(stepped);
    assert(moved.dom() =~= m.dom());
    assert(lists(order, moved));
    assert forall|i: int| 0 <= i < order.len() && i != j implies moved[#[trigger] entity_id(
        order[i],
    )].melee_event is None by {
        assert(m.contains_key(entity_id(order[i])));
        assert(entity_id(order[i]) != entity_id(order[j])) by {
            if i < j {
                assert(entity_id(order[i]).index < entity_id(order[j]).index);
            } else {
                assert(entity_id(order[j]).index < entity_id(order[i]).index);
            }
        }
    }
    law_single_struck(moved, order, j);
    let struck = melee_step(moved, order[j]);
    assert(struck.dom() =~= m.dom());
    let fought = Transient::Melee.cleared(struck);
    assert(fought.dom() =~= m.dom());
    assert(lists(order, fought));
    assert forall|i: int| 0 <= i < order.len() && i != j implies fought[#[trigger] entity_id(
        order[i],
    )].hp_change is None by {
        assert(m.contains_key(entity_id(order[i])));
        assert(entity_id(order[i]) != entity_id(order[j])) by {
            if i < j {
                assert(entity_id(order[i]).index < entity_id(order[j]).index);
            } else {
                assert(entity_id(order[j]).index < entity_id(order[i]).index);
            }
        }
        assert(moved[entity_id(order[i])].hp_change is None);
    }
    law_single_hurt(fought, order, j);
}

} // verus!
