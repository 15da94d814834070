use dungeon_core::components::{
    Color, DeathEffect, Displayable, Fighter, HpChange, MeleeEvent, MoveEvent, Position,
    Properties,
};
use dungeon_core::store::{EntityId, Store, ENTITY_LIMIT};

#[test]
fn attach_then_get_returns_the_record() {
    let mut store = Store::new();
    let e = store.create_entity().unwrap();
    assert_eq!(store.position(e), None);
    assert!(store.attach_position(e, Position::new(3, 4, 1)));
    assert_eq!(store.position(e), Some(Position::new(3, 4, 1)));
    assert_eq!(store.fighter(e), None);
    assert!(store.attach_fighter(e, Fighter::new(5, 2)));
    assert_eq!(store.fighter(e), Some(Fighter::new(5, 2)));
}

#[test]
fn detach_removes_only_that_record() {
    let mut store = Store::new();
    let e = store.create_entity().unwrap();
    store.attach_position(e, Position::new(1, 1, 0));
    store.attach_move_event(e, MoveEvent(1, 0));
    store.detach_move_event(e);
    assert_eq!(store.move_event(e), None);
    assert_eq!(store.position(e), Some(Position::new(1, 1, 0)));
}

#[test]
fn a_new_store_has_no_entities() {
    let store = Store::new();
    assert!(store.entity_list().is_empty());
}

#[test]
fn new_entities_are_distinct_and_hold_nothing() {
    let mut store = Store::new();
    let a = store.create_entity().unwrap();
    let b = store.create_entity().unwrap();
    assert_ne!(Store::id(a), Store::id(b));
    assert_eq!(store.position(b), None);
    assert_eq!(store.properties(b).map(|p| p.hp), None);
    assert_eq!(store.displayable(b), None);
    assert_eq!(store.fighter(b), None);
    assert_eq!(store.move_event(b), None);
    assert!(store.melee_event(b).is_none());
    assert_eq!(store.hp_change(b), None);
}

#[test]
fn id_is_slot_and_generation() {
    let mut store = Store::new();
    let a = store.create_entity().unwrap();
    let b = store.create_entity().unwrap();
    assert_eq!(Store::id(a), EntityId { index: a.id(), generation: a.gen().id() });
    assert_eq!(Store::id(b).index, Store::id(a).index + 1);
}

#[test]
fn entities_are_listed_by_ascending_slot() {
    let mut store = Store::new();
    let made: Vec<_> = (0..5).map(|_| store.create_entity().unwrap()).collect();
    let listed = store.entity_list();
    assert_eq!(listed, made);
    for pair in listed.windows(2) {
        assert!(Store::id(pair[0]).index < Store::id(pair[1]).index);
    }
}

#[test]
fn attach_replaces_the_previous_record() {
    let mut store = Store::new();
    let e = store.create_entity().unwrap();
    store.attach_hp_change(e, HpChange(-1));
    store.attach_hp_change(e, HpChange(-4));
    assert_eq!(store.hp_change(e), Some(HpChange(-4)));
}

#[test]
fn an_entity_of_another_store_is_not_found() {
    let mut big = Store::new();
    big.create_entity().unwrap();
    let stranger = big.create_entity().unwrap();
    let mut small = Store::new();
    let own = small.create_entity().unwrap();
    small.attach_position(own, Position::new(1, 2, 0));
    assert!(!small.attach_position(stranger, Position::new(9, 9, 0)));
    assert!(!small.attach_move_event(stranger, MoveEvent(1, 0)));
    assert_eq!(small.position(stranger), None);
    small.detach_move_event(stranger);
    assert_eq!(small.position(own), Some(Position::new(1, 2, 0)));
    assert_eq!(small.entity_list(), vec![own]);
}

#[test]
fn records_of_one_entity_do_not_touch_another() {
    let mut store = Store::new();
    let a = store.create_entity().unwrap();
    let b = store.create_entity().unwrap();
    store.attach_position(a, Position::new(1, 1, 0));
    store.attach_position(b, Position::new(2, 2, 0));
    store.attach_displayable(a, Displayable::new('a', Color::white()));
    assert_eq!(store.position(a), Some(Position::new(1, 1, 0)));
    assert_eq!(store.position(b), Some(Position::new(2, 2, 0)));
    assert_eq!(store.displayable(b), None);
}

#[test]
fn properties_round_trip_through_the_store() {
    let mut store = Store::new();
    let e = store.create_entity().unwrap();
    assert!(store.attach_properties(
        e,
        Properties::new("Orc", true, true, 10, 9, DeathEffect::BecomeCorpse)
    ));
    let p = store.properties(e).unwrap();
    assert_eq!(p.name, "Orc");
    assert_eq!((p.blocks, p.alive, p.max_hp, p.hp), (true, true, 10, 9));
    assert_eq!(p.on_death, Some(DeathEffect::BecomeCorpse));
}

#[test]
fn display_round_trips_through_the_store() {
    let mut store = Store::new();
    let e = store.create_entity().unwrap();
    assert!(store.attach_displayable(e, Displayable::new('T', Color::darker_green())));
    assert_eq!(store.displayable(e), Some(Displayable::new('T', Color::darker_green())));
}

#[test]
fn melee_event_round_trips_and_detaches() {
    let mut store = Store::new();
    let attacker = store.create_entity().unwrap();
    let defender = store.create_entity().unwrap();
    assert!(store.attach_melee_event(defender, MeleeEvent(attacker)));
    assert_eq!(store.melee_event(defender).map(|m| m.0), Some(attacker));
    assert!(store.melee_event(attacker).is_none());
    store.detach_melee_event(defender);
    assert!(store.melee_event(defender).is_none());
}

#[test]
fn hp_change_detaches() {
    let mut store = Store::new();
    let e = store.create_entity().unwrap();
    store.attach_hp_change(e, HpChange(-2));
    store.attach_fighter(e, Fighter::new(1, 1));
    store.detach_hp_change(e);
    assert_eq!(store.hp_change(e), None);
    assert_eq!(store.fighter(e), Some(Fighter::new(1, 1)));
}

#[test]
fn move_event_round_trips() {
    let mut store = Store::new();
    let e = store.create_entity().unwrap();
    assert!(store.attach_move_event(e, MoveEvent(-1, 0)));
    assert_eq!(store.move_event(e), Some(MoveEvent(-1, 0)));
}

#[test]
fn a_destroyed_entity_lives_until_the_store_is_maintained() {
    let mut store = Store::new();
    let a = store.create_entity().unwrap();
    let b = store.create_entity().unwrap();
    store.attach_position(a, Position::new(1, 1, 0));
    store.attach_position(b, Position::new(2, 2, 0));
    assert!(store.destroy(a));
    assert!(store.contains(a));
    assert_eq!(store.position(a), Some(Position::new(1, 1, 0)));
    assert!(store.attach_fighter(a, Fighter::new(1, 1)));
    assert_eq!(store.entity_list(), vec![a, b]);
    store.maintain();
    assert!(!store.contains(a));
    assert!(store.contains(b));
    assert_eq!(store.entity_list(), vec![b]);
    assert_eq!(store.position(b), Some(Position::new(2, 2, 0)));
}

#[test]
fn operating_on_a_removed_entity_does_nothing() {
    let mut store = Store::new();
    let a = store.create_entity().unwrap();
    store.attach_position(a, Position::new(1, 1, 0));
    store.attach_move_event(a, MoveEvent(1, 0));
    store.destroy(a);
    store.maintain();
    assert_eq!(store.position(a), None);
    assert_eq!(store.move_event(a), None);
    assert!(!store.attach_position(a, Position::new(5, 5, 0)));
    assert!(!store.attach_hp_change(a, HpChange(-1)));
    assert!(!store.destroy(a));
    store.detach_move_event(a);
    store.detach_position(a);
    store.maintain();
    assert_eq!(store.position(a), None);
    assert!(store.entity_list().is_empty());
}

#[test]
fn a_slot_that_is_used_again_starts_without_records() {
    let mut store = Store::new();
    let a = store.create_entity().unwrap();
    store.attach_position(a, Position::new(1, 1, 0));
    store.attach_fighter(a, Fighter::new(9, 9));
    store.destroy(a);
    store.maintain();
    let b = store.create_entity().unwrap();
    assert_ne!(Store::id(a), Store::id(b));
    assert_eq!(store.position(b), None);
    assert_eq!(store.fighter(b), None);
    assert!(!store.contains(a));
    assert_eq!(store.position(a), None);
    assert_eq!(store.entity_list(), vec![b]);
}

#[test]
fn destroying_twice_is_destroying_once() {
    let mut store = Store::new();
    let a = store.create_entity().unwrap();
    assert!(store.destroy(a));
    assert!(store.destroy(a));
    store.maintain();
    assert!(!store.contains(a));
}

#[test]
fn maintain_without_marks_changes_nothing() {
    let mut store = Store::new();
    let a = store.create_entity().unwrap();
    store.attach_position(a, Position::new(1, 1, 0));
    store.maintain();
    assert!(store.contains(a));
    assert_eq!(store.position(a), Some(Position::new(1, 1, 0)));
}

#[test]
fn lasting_records_can_be_detached() {
    let mut store = Store::new();
    let e = store.create_entity().unwrap();
    store.attach_position(e, Position::new(1, 1, 0));
    store.attach_displayable(e, Displayable::new('x', Color::white()));
    store.attach_fighter(e, Fighter::new(1, 2));
    store.attach_properties(e, Properties::new("X", true, true, 1, 1, DeathEffect::Collapse));
    store.detach_position(e);
    assert_eq!(store.position(e), None);
    assert!(store.displayable(e).is_some());
    store.detach_displayable(e);
    assert_eq!(store.displayable(e), None);
    assert!(store.fighter(e).is_some());
    store.detach_fighter(e);
    assert_eq!(store.fighter(e), None);
    assert!(store.properties(e).is_some());
    store.detach_properties(e);
    assert!(store.properties(e).is_none());
    assert!(store.contains(e));
}

#[test]
fn contains_tells_living_entities_apart() {
    let mut big = Store::new();
    big.create_entity().unwrap();
    let stranger = big.create_entity().unwrap();
    let mut small = Store::new();
    let own = small.create_entity().unwrap();
    assert!(small.contains(own));
    assert!(!small.contains(stranger));
    assert!(big.contains(own));
}

#[test]
fn a_new_store_has_created_nothing() {
    let mut store = Store::new();
    assert_eq!(store.created_count(), 0);
    let e = store.create_entity().unwrap();
    store.attach_position(e, Position::new(1, 1, 0));
    store.destroy(e);
    store.maintain();
    assert_eq!(store.created_count(), 1);
    store.create_entity().unwrap();
    assert_eq!(store.created_count(), 2);
}

#[test]
fn a_store_refuses_to_create_beyond_the_limit() {
    assert_eq!(ENTITY_LIMIT, 1 << 20);
    let mut store = Store::new();
    let mut last = None;
    for _ in 0..ENTITY_LIMIT {
        last = store.create_entity();
        assert!(last.is_some());
    }
    assert_eq!(store.created_count(), ENTITY_LIMIT);
    assert_eq!(Store::id(last.unwrap()).index, ENTITY_LIMIT - 1);
    assert!(store.create_entity().is_none());
    assert!(store.create_entity().is_none());
    assert_eq!(store.created_count(), ENTITY_LIMIT);
    assert!(store.contains(last.unwrap()));
    assert!(store.attach_position(last.unwrap(), Position::new(1, 2, 0)));
    assert_eq!(store.position(last.unwrap()), Some(Position::new(1, 2, 0)));
}

#[test]
fn the_limit_counts_creations_not_living_entities() {
    let mut store = Store::new();
    for _ in 0..ENTITY_LIMIT / 1024 {
        let made: Vec<_> = (0..1024).map(|_| store.create_entity().unwrap()).collect();
        for e in made {
            store.destroy(e);
        }
        store.maintain();
    }
    assert!(store.entity_list().is_empty());
    assert_eq!(store.created_count(), ENTITY_LIMIT);
    assert!(store.create_entity().is_none());
}
