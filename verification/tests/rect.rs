use dungeon_core::rect::Rect;

#[test]
fn new_sets_both_corners() {
    let r = Rect::new(2, 3, 6, 7);
    assert_eq!((r.x1, r.y1, r.x2, r.y2), (2, 3, 8, 10));
}

#[test]
fn center_is_the_mean_of_the_corners() {
    assert_eq!(Rect::new(2, 3, 6, 7).center(), (5, 6));
    assert_eq!(Rect::new(0, 0, 10, 10).center(), (5, 5));
    assert_eq!(Rect::new(0, 0, 7, 9).center(), (3, 4));
}

#[test]
fn center_rounds_toward_zero_for_negative_sums() {
    let r = Rect { x1: -4, y1: -7, x2: -1, y2: 2 };
    assert_eq!(r.center(), (-2, -2));
}

#[test]
fn center_does_not_overflow() {
    let r = Rect { x1: i32::MAX, y1: i32::MIN, x2: i32::MAX, y2: i32::MIN };
    assert_eq!(r.center(), (i32::MAX, i32::MIN));
}

#[test]
fn overlapping_rooms_intersect() {
    let a = Rect::new(0, 0, 6, 6);
    assert!(a.intersects_with(&Rect::new(3, 3, 6, 6)));
    assert!(a.intersects_with(&a));
}

#[test]
fn rooms_that_share_a_wall_intersect() {
    let a = Rect::new(0, 0, 6, 6);
    assert!(a.intersects_with(&Rect::new(6, 0, 6, 6)));
    assert!(Rect::new(6, 0, 6, 6).intersects_with(&a));
    assert!(a.intersects_with(&Rect::new(6, 6, 6, 6)));
}

#[test]
fn rooms_apart_do_not_intersect() {
    let a = Rect::new(0, 0, 6, 6);
    assert!(!a.intersects_with(&Rect::new(7, 0, 6, 6)));
    assert!(!a.intersects_with(&Rect::new(0, 7, 6, 6)));
    assert!(!Rect::new(7, 7, 6, 6).intersects_with(&a));
}
