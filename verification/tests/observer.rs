use dungeon_core::observer::{Dispatcher, Event, Journal, Listener, Relay, Sink};
use dungeon_core::store::Store;
use std::cell::RefCell;
use std::rc::Rc;

struct Recorder {
    tag: &'static str,
    log: Rc<RefCell<Vec<String>>>,
}

impl Sink for Recorder {
    fn receive(&mut self, event: &Event) {
        let what = match event {
            Event::AttackLanded { defender_name, damage, .. } => {
                format!("{}: {} hit for {}", self.tag, defender_name, damage)
            }
            Event::AttackNoEffect { defender_name, .. } => {
                format!("{}: {} unharmed", self.tag, defender_name)
            }
            Event::EntityDied { name, .. } => format!("{}: {} died", self.tag, name),
        };
        self.log.borrow_mut().push(what);
    }
}

fn recorder(tag: &'static str, log: &Rc<RefCell<Vec<String>>>) -> Box<dyn Listener> {
    Box::new(Relay::new(Box::new(Recorder { tag, log: log.clone() })))
}

fn died(name: &str) -> Event {
    let mut store = Store::new();
    Event::EntityDied { entity: store.create_entity().unwrap(), name: name.to_string() }
}

#[test]
fn dispatch_without_listeners_is_harmless() {
    let mut d = Dispatcher::new();
    d.dispatch(died("Orc"));
}

#[test]
fn every_listener_is_told_in_the_order_of_subscribing() {
    let log = Rc::new(RefCell::new(Vec::new()));
    let mut d = Dispatcher::new();
    d.register_listener(recorder("a", &log));
    d.register_listener(recorder("b", &log));
    d.dispatch(died("Orc"));
    assert_eq!(*log.borrow(), vec!["a: Orc died", "b: Orc died"]);
}

#[test]
fn handles_count_up_from_zero() {
    let log = Rc::new(RefCell::new(Vec::new()));
    let mut d = Dispatcher::new();
    assert_eq!(d.register_listener(recorder("a", &log)), 0);
    assert_eq!(d.register_listener(recorder("b", &log)), 1);
    d.release(0);
    d.dispatch(died("Orc"));
    assert_eq!(d.register_listener(recorder("c", &log)), 2);
}

#[test]
fn a_released_listener_is_told_nothing_more() {
    let log = Rc::new(RefCell::new(Vec::new()));
    let mut d = Dispatcher::new();
    let a = d.register_listener(recorder("a", &log));
    d.register_listener(recorder("b", &log));
    d.dispatch(died("Orc"));
    d.release(a);
    d.dispatch(died("Troll"));
    d.dispatch(died("You"));
    assert_eq!(
        *log.borrow(),
        vec!["a: Orc died", "b: Orc died", "b: Troll died", "b: You died"]
    );
}

#[test]
fn a_released_listener_is_dropped_at_the_next_dispatch() {
    let log = Rc::new(RefCell::new(Vec::new()));
    let mut d = Dispatcher::new();
    let a = d.register_listener(recorder("a", &log));
    assert_eq!(Rc::strong_count(&log), 2);
    d.release(a);
    assert_eq!(Rc::strong_count(&log), 2);
    d.dispatch(died("Orc"));
    assert_eq!(Rc::strong_count(&log), 1);
    assert!(log.borrow().is_empty());
}

#[test]
fn releasing_an_unknown_handle_changes_nothing() {
    let log = Rc::new(RefCell::new(Vec::new()));
    let mut d = Dispatcher::new();
    d.register_listener(recorder("a", &log));
    d.release(17);
    d.dispatch(died("Orc"));
    assert_eq!(*log.borrow(), vec!["a: Orc died"]);
}

#[test]
fn each_kind_of_event_reaches_the_listener() {
    let log = Rc::new(RefCell::new(Vec::new()));
    let mut d = Dispatcher::new();
    d.register_listener(recorder("a", &log));
    let mut store = Store::new();
    let e = store.create_entity().unwrap();
    d.dispatch(Event::AttackLanded { attacker: e, defender_name: "Orc".to_string(), damage: 5 });
    d.dispatch(Event::AttackNoEffect { attacker: e, defender_name: "Troll".to_string() });
    d.dispatch(Event::EntityDied { entity: e, name: "Orc".to_string() });
    assert_eq!(*log.borrow(), vec!["a: Orc hit for 5", "a: Troll unharmed", "a: Orc died"]);
}

#[test]
fn the_listener_that_is_dropped_is_the_one_that_ended() {
    let logs: Vec<Rc<RefCell<Vec<String>>>> =
        (0..3).map(|_| Rc::new(RefCell::new(Vec::new()))).collect();
    let mut d = Dispatcher::new();
    d.register_listener(recorder("l1", &logs[0]));
    let second = d.register_listener(recorder("l2", &logs[1]));
    d.register_listener(recorder("l3", &logs[2]));
    d.release(second);
    d.dispatch(died("Orc"));
    assert_eq!(*logs[0].borrow(), vec!["l1: Orc died"]);
    assert!(logs[1].borrow().is_empty());
    assert_eq!(*logs[2].borrow(), vec!["l3: Orc died"]);
    assert_eq!(Rc::strong_count(&logs[0]), 2);
    assert_eq!(Rc::strong_count(&logs[1]), 1);
    assert_eq!(Rc::strong_count(&logs[2]), 2);
    d.dispatch(died("Troll"));
    assert_eq!(*logs[0].borrow(), vec!["l1: Orc died", "l1: Troll died"]);
    assert_eq!(*logs[2].borrow(), vec!["l3: Orc died", "l3: Troll died"]);
}

#[test]
fn a_journal_keeps_what_it_was_told() {
    let mut store = Store::new();
    let e = store.create_entity().unwrap();
    let mut journal = Journal { events: Vec::new() };
    journal.notify(&Event::AttackLanded {
        attacker: e,
        defender_name: "Orc".to_string(),
        damage: 5,
    });
    journal.notify(&Event::EntityDied { entity: e, name: "Orc".to_string() });
    assert_eq!(journal.events.len(), 2);
    assert!(matches!(
        &journal.events[0],
        Event::AttackLanded { attacker, defender_name, damage: 5 }
            if *attacker == e && defender_name == "Orc"
    ));
    assert!(matches!(
        &journal.events[1],
        Event::EntityDied { entity, name } if *entity == e && name == "Orc"
    ));
}

#[test]
fn duplicate_copies_each_kind_of_event() {
    let mut store = Store::new();
    let e = store.create_entity().unwrap();
    let no_effect = Event::AttackNoEffect { attacker: e, defender_name: "Troll".to_string() };
    assert!(matches!(
        no_effect.duplicate(),
        Event::AttackNoEffect { attacker, defender_name }
            if attacker == e && defender_name == "Troll"
    ));
    let landed = Event::AttackLanded { attacker: e, defender_name: "Orc".to_string(), damage: -7 };
    assert!(matches!(
        landed.duplicate(),
        Event::AttackLanded { attacker, defender_name, damage: -7 }
            if attacker == e && defender_name == "Orc"
    ));
    let died = Event::EntityDied { entity: e, name: "You".to_string() };
    assert!(matches!(
        died.duplicate(),
        Event::EntityDied { entity, name } if entity == e && name == "You"
    ));
}

#[test]
fn a_journal_can_subscribe() {
    let mut d = Dispatcher::new();
    assert_eq!(d.register_listener(Box::new(Journal { events: Vec::new() })), 0);
    d.dispatch(died("Orc"));
    d.release(0);
    d.dispatch(died("Troll"));
}

#[test]
fn a_relay_hands_each_event_to_its_sink() {
    let log = Rc::new(RefCell::new(Vec::new()));
    let mut relay = Relay::new(Box::new(Recorder { tag: "r", log: log.clone() }));
    relay.notify(&died("Orc"));
    relay.notify(&died("Troll"));
    assert_eq!(*log.borrow(), vec!["r: Orc died", "r: Troll died"]);
}
