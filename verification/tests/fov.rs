use dungeon_core::fov::FovMap;

fn open_map(width: i32, height: i32) -> FovMap {
    let mut m = FovMap::new(width, height);
    for y in 0..height {
        for x in 0..width {
            m.set(x, y, true, true);
        }
    }
    m
}

#[test]
fn a_new_map_is_opaque_and_unseen() {
    let m = FovMap::new(4, 3);
    assert_eq!((m.width(), m.height()), (4, 3));
    for y in 0..3 {
        for x in 0..4 {
            assert!(!m.is_transparent(x, y));
            assert!(!m.is_walkable(x, y));
            assert!(!m.is_in_fov(x, y));
            assert!(!m.is_explored(x, y));
        }
    }
}

#[test]
fn set_changes_one_cell() {
    let mut m = FovMap::new(4, 3);
    m.set(2, 1, true, false);
    assert!(m.is_transparent(2, 1));
    assert!(!m.is_walkable(2, 1));
    assert!(!m.is_transparent(1, 1));
    assert!(!m.is_transparent(2, 2));
    m.set(2, 1, false, true);
    assert!(!m.is_transparent(2, 1));
    assert!(m.is_walkable(2, 1));
}

#[test]
fn set_outside_the_map_does_nothing() {
    let mut m = FovMap::new(2, 2);
    m.set(-1, 0, true, true);
    m.set(2, 0, true, true);
    m.set(0, 2, true, true);
    m.set(0, -1, true, true);
    for y in 0..2 {
        for x in 0..2 {
            assert!(!m.is_transparent(x, y));
        }
    }
}

#[test]
fn queries_outside_the_map_are_false() {
    let mut m = open_map(3, 3);
    m.compute_fov(1, 1, 5);
    assert!(!m.is_in_fov(-1, 1));
    assert!(!m.is_in_fov(3, 1));
    assert!(!m.is_in_fov(1, 3));
    assert!(!m.is_explored(1, -1));
    assert!(!m.is_transparent(i32::MAX, i32::MIN));
}

#[test]
fn open_ground_is_lit_within_the_radius_only() {
    let mut m = open_map(21, 21);
    m.compute_fov(10, 10, 4);
    for y in 0..21 {
        for x in 0..21 {
            let (dx, dy) = (x - 10, y - 10);
            assert_eq!(m.is_in_fov(x, y), dx * dx + dy * dy <= 16, "cell ({x}, {y})");
        }
    }
}

#[test]
fn the_origin_is_always_lit() {
    let mut m = FovMap::new(3, 3);
    m.compute_fov(1, 1, 0);
    assert!(m.is_in_fov(1, 1));
    assert!(!m.is_in_fov(0, 1));
}

#[test]
fn walls_are_lit_but_hide_what_is_behind() {
    let mut m = open_map(9, 3);
    m.set(4, 1, false, false);
    m.compute_fov(1, 1, 10);
    assert!(m.is_in_fov(2, 1));
    assert!(m.is_in_fov(3, 1));
    assert!(m.is_in_fov(4, 1));
    assert!(!m.is_in_fov(5, 1));
    assert!(!m.is_in_fov(6, 1));
    assert!(!m.is_in_fov(8, 1));
}

#[test]
fn a_wall_on_the_diagonal_hides_the_diagonal() {
    let mut m = open_map(7, 7);
    m.set(2, 2, false, false);
    m.compute_fov(0, 0, 20);
    assert!(m.is_in_fov(1, 1));
    assert!(m.is_in_fov(2, 2));
    assert!(!m.is_in_fov(3, 3));
    assert!(!m.is_in_fov(6, 6));
    assert!(m.is_in_fov(6, 0));
    assert!(m.is_in_fov(0, 6));
}

#[test]
fn everything_in_a_closed_cell_is_dark_but_the_walls_around() {
    let mut m = FovMap::new(5, 5);
    m.set(2, 2, true, true);
    m.compute_fov(2, 2, 10);
    for y in 0..5i32 {
        for x in 0..5i32 {
            let near = (x - 2).abs() <= 1 && (y - 2).abs() <= 1;
            assert_eq!(m.is_in_fov(x, y), near, "cell ({x}, {y})");
        }
    }
}

#[test]
fn seen_cells_stay_seen_after_moving_away() {
    let mut m = open_map(30, 3);
    m.compute_fov(2, 1, 3);
    assert!(m.is_in_fov(4, 1));
    assert!(m.is_explored(4, 1));
    assert!(!m.is_explored(20, 1));
    m.compute_fov(25, 1, 3);
    assert!(!m.is_in_fov(4, 1));
    assert!(m.is_explored(4, 1));
    assert!(m.is_in_fov(24, 1));
    assert!(m.is_explored(24, 1));
}

#[test]
fn an_origin_outside_the_map_lights_nothing() {
    let mut m = open_map(5, 5);
    m.compute_fov(2, 2, 3);
    m.compute_fov(-1, 2, 3);
    for y in 0..5 {
        for x in 0..5 {
            assert!(!m.is_in_fov(x, y));
        }
    }
    assert!(m.is_explored(2, 2));
}

#[test]
fn a_negative_radius_lights_nothing() {
    let mut m = open_map(5, 5);
    m.compute_fov(2, 2, -1);
    assert!(!m.is_in_fov(2, 2));
}

#[test]
fn sees_agrees_with_compute_fov() {
    let mut m = open_map(12, 9);
    m.set(5, 4, false, false);
    m.set(6, 2, false, false);
    m.set(3, 6, false, false);
    let expected: Vec<bool> =
        (0..9).flat_map(|y| (0..12).map(move |x| (x, y))).map(|(x, y)| m.sees(2, 4, 6, x, y)).collect();
    m.compute_fov(2, 4, 6);
    let got: Vec<bool> =
        (0..9).flat_map(|y| (0..12).map(move |x| (x, y))).map(|(x, y)| m.is_in_fov(x, y)).collect();
    assert_eq!(got, expected);
}

#[test]
fn compute_fov_keeps_the_terrain() {
    let mut m = open_map(6, 6);
    m.set(3, 3, false, false);
    m.compute_fov(1, 1, 4);
    assert!(!m.is_transparent(3, 3));
    assert!(m.is_transparent(2, 2));
    assert!(m.is_walkable(5, 5));
}

#[test]
fn an_empty_map_can_be_made_and_computed() {
    let mut m = FovMap::new(0, 0);
    m.compute_fov(0, 0, 3);
    assert!(!m.is_in_fov(0, 0));
}
