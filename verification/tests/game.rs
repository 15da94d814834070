use dungeon_core::components::MoveEvent;
use dungeon_core::game::{Game, Input, Intent, PlayerAction, Transition};
use dungeon_core::observer::{Event, Relay, Sink};
use std::cell::RefCell;
use std::rc::Rc;

struct Recorder(Rc<RefCell<Vec<String>>>);

impl Sink for Recorder {
    fn receive(&mut self, event: &Event) {
        self.0.borrow_mut().push(match event {
            Event::AttackLanded { defender_name, damage, .. } => {
                format!("{} hit for {}", defender_name, damage)
            }
            Event::AttackNoEffect { defender_name, .. } => format!("{} unharmed", defender_name),
            Event::EntityDied { name, .. } => format!("{} died", name),
        });
    }
}

fn player_at(game: &Game) -> (i32, i32) {
    let p = game.world().position(game.player()).unwrap();
    (p.x, p.y)
}

fn monster_on(game: &Game, cell: (i32, i32)) -> Option<specs::Entity> {
    game.world().entity_list().into_iter().find(|&e| {
        e != game.player()
            && game.world().position(e).map(|p| (p.x, p.y)) == Some(cell)
            && game.world().properties(e).map_or(false, |p| p.blocks)
    })
}

fn game_where(right_of_start_is_taken: bool) -> Game {
    for seed in 0..5000 {
        let game = Game::new(seed, 80, 50);
        let (x, y) = player_at(&game);
        if monster_on(&game, (x + 1, y)).is_some() == right_of_start_is_taken
            && monster_on(&game, (x, y)).is_none()
        {
            return game;
        }
    }
    panic!("no seed gives the wanted start");
}

#[test]
fn a_new_game_starts_at_the_center_of_the_first_room() {
    let game = Game::new(42, 80, 50);
    assert_eq!(game.turns(), 0);
    assert_eq!(game.action(), PlayerAction::DidntTakeTurn);
    assert_eq!((game.map().width(), game.map().height()), (80, 35));
    assert_eq!(player_at(&game), game.map().rooms()[0].center());
    let p = game.world().properties(game.player()).unwrap();
    assert_eq!((p.name.as_str(), p.hp, p.max_hp), ("You", 30, 30));
    assert!(game.map().is_in_fov(player_at(&game).0, player_at(&game).1));
}

#[test]
fn monsters_stand_inside_rooms() {
    let game = Game::new(42, 80, 50);
    let rooms = game.map().rooms().clone();
    let mut monsters = 0;
    for e in game.world().entity_list() {
        assert_eq!(game.world().move_event(e), None);
        assert!(game.world().melee_event(e).is_none());
        assert_eq!(game.world().hp_change(e), None);
        if e == game.player() {
            continue;
        }
        monsters += 1;
        let pos = game.world().position(e).unwrap();
        assert!(rooms
            .iter()
            .any(|r| r.x1 < pos.x && pos.x < r.x2 && r.y1 < pos.y && pos.y < r.y2));
        let name = game.world().properties(e).unwrap().name;
        assert!(name == "Orc" || name == "Troll");
    }
    assert!(monsters <= 4 * rooms.len());
    assert!(monsters > 0);
}

#[test]
fn a_game_on_a_screen_without_room_for_rooms_starts_in_the_corner() {
    let game = Game::new(1, 4, 19);
    assert_eq!(player_at(&game), (0, 0));
    assert_eq!(game.world().entity_list(), vec![game.player()]);
}

#[test]
fn the_smallest_screen_is_accepted() {
    let mut game = Game::new(1, 0, 15);
    assert_eq!(game.handle_key(Intent::Right), Transition::Continue);
    game.update();
    assert_eq!(player_at(&game), (0, 0));
    assert_eq!(game.turns(), 1);
    assert!(game.render().scene.tiles.is_empty());
}

#[test]
fn a_direction_attaches_a_move_of_one_cell() {
    let mut game = Game::new(42, 80, 50);
    let cases = [
        (Intent::Up, MoveEvent(0, -1)),
        (Intent::Down, MoveEvent(0, 1)),
        (Intent::Left, MoveEvent(-1, 0)),
        (Intent::Right, MoveEvent(1, 0)),
    ];
    for (intent, expected) in cases {
        assert_eq!(game.handle_key(intent), Transition::Continue);
        assert_eq!(game.action(), PlayerAction::TookTurn);
        assert_eq!(game.world().move_event(game.player()), Some(expected));
    }
}

#[test]
fn quit_pops_the_state_and_changes_nothing() {
    let mut game = Game::new(42, 80, 50);
    game.handle_key(Intent::Idle);
    assert_eq!(game.handle_key(Intent::Quit), Transition::Pop);
    assert_eq!(game.action(), PlayerAction::DidntTakeTurn);
    assert_eq!(game.world().move_event(game.player()), None);
    assert_eq!(game.handle_event(Input::Key(Intent::Quit)), Transition::Pop);
}

#[test]
fn no_intent_takes_no_turn() {
    let mut game = Game::new(42, 80, 50);
    let before = player_at(&game);
    assert_eq!(game.handle_key(Intent::Idle), Transition::Continue);
    assert_eq!(game.action(), PlayerAction::DidntTakeTurn);
    assert_eq!(game.update(), Transition::Continue);
    assert_eq!(game.turns(), 0);
    assert_eq!(player_at(&game), before);
    assert_eq!(game.world().move_event(game.player()), None);
}

#[test]
fn stepping_right_onto_floor_moves_the_player_and_counts_a_turn() {
    let mut game = game_where(false);
    let (x, y) = player_at(&game);
    assert!(game.map().can_walk(x + 1, y));
    assert_eq!(game.handle_event(Input::Key(Intent::Right)), Transition::Continue);
    assert_eq!(game.update(), Transition::Continue);
    assert_eq!(game.turns(), 1);
    let p = game.world().position(game.player()).unwrap();
    assert_eq!((p.x, p.y, p.old_x, p.old_y), (x + 1, y, x, y));
    assert!(game.map().is_in_fov(x + 1, y));
    for e in game.world().entity_list() {
        assert_eq!(game.world().move_event(e), None);
        assert!(game.world().melee_event(e).is_none());
        assert_eq!(game.world().hp_change(e), None);
    }
}

#[test]
fn stepping_right_into_a_monster_strikes_it() {
    let mut game = game_where(true);
    let log = Rc::new(RefCell::new(Vec::new()));
    game.register_listener(Box::new(Relay::new(Box::new(Recorder(log.clone())))));
    let (x, y) = player_at(&game);
    let monster = monster_on(&game, (x + 1, y)).unwrap();
    let before = game.world().properties(monster).unwrap();
    let defense = game.world().fighter(monster).unwrap().defense;
    game.handle_key(Intent::Right);
    game.update();
    assert_eq!(game.turns(), 1);
    assert_eq!(player_at(&game), (x, y));
    let after = game.world().properties(monster).unwrap();
    assert_eq!(after.hp, before.hp - (5 - defense));
    assert_eq!(*log.borrow(), vec![format!("{} hit for {}", before.name, 5 - defense)]);
    assert_eq!(game.world().hp_change(monster), None);
    assert!(game.world().melee_event(monster).is_none());
}

#[test]
fn a_released_listener_hears_nothing() {
    let mut game = game_where(true);
    let log = Rc::new(RefCell::new(Vec::new()));
    let handle = game.register_listener(Box::new(Relay::new(Box::new(Recorder(log.clone())))));
    assert_eq!(handle, 0);
    game.release_listener(handle);
    game.handle_key(Intent::Right);
    game.update();
    assert!(log.borrow().is_empty());
}

#[test]
fn the_frame_shows_the_turn_counter_and_the_player() {
    let mut game = game_where(false);
    game.handle_key(Intent::Right);
    game.update();
    let frame = game.render();
    assert_eq!(frame.turns, 1);
    assert_eq!(frame.scene.tiles.len(), 80 * 35);
    let (x, y) = player_at(&game);
    let last = frame.scene.glyphs.last().unwrap();
    assert_eq!((last.x, last.y, last.glyph), (x, y, '@'));
    assert!(frame.scene.erase.contains(&(x - 1, y)));
    for g in &frame.scene.glyphs {
        assert!(game.map().is_in_fov(g.x, g.y));
    }
}

#[test]
fn the_same_seed_gives_the_same_game() {
    let a = Game::new(9, 80, 50);
    let b = Game::new(9, 80, 50);
    assert_eq!(a.map().rooms(), b.map().rooms());
    assert_eq!(player_at(&a), player_at(&b));
    assert_eq!(a.world().entity_list().len(), b.world().entity_list().len());
}

#[test]
fn an_update_before_any_key_counts_no_turn() {
    let mut game = Game::new(42, 80, 50);
    let before = player_at(&game);
    assert_eq!(game.update(), Transition::Continue);
    assert_eq!(game.update(), Transition::Continue);
    assert_eq!(game.turns(), 0);
    assert_eq!(player_at(&game), before);
}

#[test]
fn two_updates_after_one_key_count_one_turn() {
    let mut game = game_where(false);
    let (x, y) = player_at(&game);
    game.handle_key(Intent::Right);
    assert_eq!(game.action(), PlayerAction::TookTurn);
    game.update();
    assert_eq!(game.action(), PlayerAction::DidntTakeTurn);
    game.update();
    game.update();
    assert_eq!(game.turns(), 1);
    assert_eq!(player_at(&game), (x + 1, y));
    game.handle_key(Intent::Left);
    game.update();
    assert_eq!(game.turns(), 2);
    assert_eq!(player_at(&game), (x, y));
}
