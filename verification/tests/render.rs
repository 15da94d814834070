use dungeon_core::components::{Color, Displayable, Position};
use dungeon_core::map::{GameMap, Shade};
use dungeon_core::render::{collect_sprites, sort_by_depth, Glyph, Print, Sprite};
use dungeon_core::spawn::create_player;
use dungeon_core::store::Store;

fn sprite(x: i32, z: i8, glyph: char) -> Sprite {
    Sprite { position: Position::new(x, 0, z), display: Displayable::new(glyph, Color::white()) }
}

#[test]
fn sort_by_depth_is_ascending_and_stable() {
    let input = vec![
        sprite(0, 1, 'a'),
        sprite(1, 0, 'b'),
        sprite(2, 1, 'c'),
        sprite(3, -5, 'd'),
        sprite(4, 0, 'e'),
        sprite(5, 1, 'f'),
    ];
    let sorted = sort_by_depth(&input);
    let glyphs: String = sorted.iter().map(|s| s.display.glyph).collect();
    assert_eq!(glyphs, "dbeacf");
}

#[test]
fn sort_by_depth_of_nothing_is_nothing() {
    assert!(sort_by_depth(&Vec::new()).is_empty());
}

#[test]
fn sprites_are_entities_with_position_and_display() {
    let mut store = Store::new();
    let a = store.create_entity().unwrap();
    store.attach_position(a, Position::new(1, 1, 0));
    let b = store.create_entity().unwrap();
    store.attach_displayable(b, Displayable::new('b', Color::white()));
    let c = create_player(&mut store, 2, 3);
    let order = store.entity_list();
    let got = collect_sprites(&store, &order);
    assert_eq!(
        got,
        vec![Sprite {
            position: store.position(c).unwrap(),
            display: Displayable::new('@', Color::white())
        }]
    );
}

#[test]
fn the_scene_draws_what_is_in_view_in_draw_order() {
    let mut map = GameMap::new(40, 3);
    map.create_h_tunnel(1, 38, 1);
    map.sync_fov();
    map.recompute_fov(2, 1);
    let mut store = Store::new();
    let player = create_player(&mut store, 2, 1);
    let near = store.create_entity().unwrap();
    store.attach_position(near, Position { x: 4, y: 1, old_x: 5, old_y: 1, z: 0 });
    store.attach_displayable(near, Displayable::new('o', Color::desaturated_green()));
    let far = store.create_entity().unwrap();
    store.attach_position(far, Position::new(30, 1, 0));
    store.attach_displayable(far, Displayable::new('T', Color::darker_green()));
    let scene = Print.run(&store, &map);
    assert_eq!(scene.erase, vec![(5, 1), (30, 1), (2, 1)]);
    assert_eq!(
        scene.glyphs,
        vec![
            Glyph { x: 4, y: 1, glyph: 'o', color: Color::desaturated_green() },
            Glyph { x: 2, y: 1, glyph: '@', color: Color::white() },
        ]
    );
    assert_eq!(scene.tiles.len(), 120);
    assert_eq!(scene.tiles[(2 + 40) as usize], Shade::LitGround.color());
    assert_eq!(scene.tiles[(30 + 40) as usize], Shade::Unseen.color());
    assert_eq!(store.position(player), Some(Position::new(2, 1, 1)));
}

#[test]
fn the_scene_of_an_empty_world_has_tiles_only() {
    let map = GameMap::new(3, 2);
    let scene = Print.run(&Store::new(), &map);
    assert!(scene.erase.is_empty());
    assert!(scene.glyphs.is_empty());
    assert_eq!(scene.tiles, vec![Shade::Unseen.color(); 6]);
}
