use dungeon_core::random::Rng;

#[test]
fn get_int_stays_in_the_range() {
    let mut rng = Rng::new_with_seed(42);
    for _ in 0..1000 {
        let n = rng.get_int(6, 11);
        assert!((6..=11).contains(&n));
    }
}

#[test]
fn get_int_reaches_both_ends() {
    let mut rng = Rng::new_with_seed(7);
    let mut seen = [false; 3];
    for _ in 0..200 {
        seen[rng.get_int(0, 2) as usize] = true;
    }
    assert_eq!(seen, [true, true, true]);
}

#[test]
fn get_int_of_a_single_value_returns_it() {
    let mut rng = Rng::new_with_seed(1);
    assert_eq!(rng.get_int(5, 5), 5);
    assert_eq!(rng.get_int(i32::MIN, i32::MIN), i32::MIN);
}

#[test]
fn get_int_takes_the_bounds_in_either_order() {
    let mut rng = Rng::new_with_seed(3);
    for _ in 0..200 {
        let n = rng.get_int(4, -4);
        assert!((-4..=4).contains(&n));
    }
}

#[test]
fn get_int_spans_the_whole_i32_range() {
    let mut rng = Rng::new_with_seed(9);
    for _ in 0..50 {
        let _ = rng.get_int(i32::MIN, i32::MAX);
    }
}

#[test]
fn the_same_seed_gives_the_same_stream() {
    let mut a = Rng::new_with_seed(42);
    let mut b = Rng::new_with_seed(42);
    for _ in 0..100 {
        assert_eq!(a.get_int(0, 1000), b.get_int(0, 1000));
    }
}

#[test]
fn different_seeds_give_different_streams() {
    let mut a = Rng::new_with_seed(1);
    let mut b = Rng::new_with_seed(2);
    let xs: Vec<i32> = (0..32).map(|_| a.get_int(0, 1_000_000)).collect();
    let ys: Vec<i32> = (0..32).map(|_| b.get_int(0, 1_000_000)).collect();
    assert_ne!(xs, ys);
}
