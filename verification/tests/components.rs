use dungeon_core::components::{
    Color, DeathEffect, Displayable, Fighter, HealthOutcome, HpChange, Position, Properties,
};

#[test]
fn fighter_new_keeps_attack_and_defense() {
    let f = Fighter::new(5, 2);
    assert_eq!(f.attack, 5);
    assert_eq!(f.defense, 2);
}

#[test]
fn position_new_has_not_moved() {
    let p = Position::new(3, -4, 1);
    assert_eq!((p.x, p.y, p.old_x, p.old_y, p.z), (3, -4, 3, -4, 1));
}

#[test]
fn displayable_new_keeps_glyph_and_color() {
    let d = Displayable::new('@', Color::white());
    assert_eq!(d.glyph, '@');
    assert_eq!(d.color, Color { r: 255, g: 255, b: 255 });
}

#[test]
fn palette_matches_known_values() {
    assert_eq!(Color::dark_red(), Color { r: 191, g: 0, b: 0 });
    assert_eq!(Color::desaturated_green(), Color { r: 63, g: 127, b: 63 });
    assert_eq!(Color::darker_green(), Color { r: 0, g: 127, b: 0 });
}

#[test]
fn properties_new_arms_the_death_effect() {
    let p = Properties::new("Orc", true, true, 10, 7, DeathEffect::BecomeCorpse);
    assert_eq!(p.name, "Orc");
    assert!(p.blocks);
    assert!(p.alive);
    assert_eq!(p.max_hp, 10);
    assert_eq!(p.hp, 7);
    assert_eq!(p.on_death, Some(DeathEffect::BecomeCorpse));
}

#[test]
fn duplicate_copies_every_field() {
    let p = Properties::new("Troll", true, true, 16, 16, DeathEffect::Collapse);
    let q = p.duplicate();
    assert_eq!(q.name, "Troll");
    assert_eq!((q.blocks, q.alive, q.max_hp, q.hp), (true, true, 16, 16));
    assert_eq!(q.on_death, Some(DeathEffect::Collapse));
}

#[test]
fn damage_is_attack_less_defense() {
    let attacker = Fighter::new(5, 0);
    assert_eq!(attacker.damage(Some(Fighter::new(0, 2))), 3);
    let weak = Fighter::new(2, 0);
    assert_eq!(weak.damage(Some(Fighter::new(0, 5))), -3);
}

#[test]
fn damage_against_a_non_fighter_is_the_attack() {
    assert_eq!(Fighter::new(4, 1).damage(None), 4);
}

#[test]
fn damage_does_not_overflow_at_the_extremes() {
    let d = Fighter::new(i32::MAX, 0).damage(Some(Fighter::new(0, i32::MIN)));
    assert_eq!(d, i32::MAX as i64 - i32::MIN as i64);
}

#[test]
fn worsen_without_pending_change_is_minus_damage() {
    assert_eq!(HpChange::worsen(None, 3), HpChange(-3));
}

#[test]
fn worsen_accumulates_with_pending_change() {
    assert_eq!(HpChange::worsen(Some(HpChange(-3)), 4), HpChange(-7));
    assert_eq!(HpChange::worsen(Some(HpChange(2)), 5), HpChange(-3));
}

#[test]
fn worsen_saturates_at_both_ends() {
    assert_eq!(HpChange::worsen(Some(HpChange(i32::MIN + 1)), 10), HpChange(i32::MIN));
    assert_eq!(HpChange::worsen(None, i64::MAX), HpChange(i32::MIN));
    assert_eq!(HpChange::worsen(Some(HpChange(i32::MAX)), -1), HpChange(i32::MAX));
    assert_eq!(HpChange::worsen(Some(HpChange(-1)), i64::MIN), HpChange(i32::MAX));
}

#[test]
fn health_delta_is_added_to_hit_points() {
    let mut p = Properties::new("Orc", true, true, 10, 10, DeathEffect::BecomeCorpse);
    let out = p.apply_health_delta(-3);
    assert_eq!(out, HealthOutcome::Survived);
    assert_eq!(p.hp, 7);
    assert!(p.alive);
    assert_eq!(p.on_death, Some(DeathEffect::BecomeCorpse));
}

#[test]
fn hit_points_stop_at_zero_and_the_entity_dies() {
    let mut p = Properties::new("Orc", true, true, 10, 4, DeathEffect::BecomeCorpse);
    let out = p.apply_health_delta(-9);
    assert_eq!(out, HealthOutcome::Died(Some(DeathEffect::BecomeCorpse)));
    assert_eq!(p.hp, 0);
    assert!(!p.alive);
    assert!(!p.blocks);
    assert_eq!(p.on_death, None);
}

#[test]
fn exact_lethal_damage_kills() {
    let mut p = Properties::new("You", true, true, 30, 5, DeathEffect::Collapse);
    let out = p.apply_health_delta(-5);
    assert_eq!(out, HealthOutcome::Died(Some(DeathEffect::Collapse)));
    assert_eq!(p.hp, 0);
    assert!(!p.alive);
    assert!(p.blocks);
}

#[test]
fn death_effect_fires_once_over_many_deltas() {
    let mut p = Properties::new("Orc", true, true, 10, 3, DeathEffect::BecomeCorpse);
    let mut fired = 0;
    for delta in [-1, -5, -2, 4, -10, -1] {
        if let HealthOutcome::Died(Some(_)) = p.apply_health_delta(delta) {
            fired += 1;
        }
        assert!(p.hp >= 0);
    }
    assert_eq!(fired, 1);
    assert!(!p.alive);
    assert_eq!(p.on_death, None);
}

#[test]
fn a_dead_entity_does_not_die_again() {
    let mut p = Properties::new("Orc", true, true, 10, 1, DeathEffect::BecomeCorpse);
    assert_eq!(p.apply_health_delta(-1), HealthOutcome::Died(Some(DeathEffect::BecomeCorpse)));
    assert_eq!(p.apply_health_delta(-1), HealthOutcome::Survived);
    assert_eq!(p.hp, 0);
    assert_eq!(p.apply_health_delta(5), HealthOutcome::Survived);
    assert_eq!(p.hp, 5);
    assert!(!p.alive);
}

#[test]
fn hit_points_stay_within_bounds_under_damage() {
    let mut p = Properties::new("Orc", true, true, 10, 10, DeathEffect::BecomeCorpse);
    for delta in [-1, -2, -3, -4, -5] {
        p.apply_health_delta(delta);
        assert!(0 <= p.hp && p.hp <= p.max_hp);
    }
}

#[test]
fn hit_points_saturate_instead_of_overflowing() {
    let mut p = Properties::new("Giant", true, true, i32::MAX, i32::MAX, DeathEffect::Collapse);
    assert_eq!(p.apply_health_delta(10), HealthOutcome::Survived);
    assert_eq!(p.hp, i32::MAX);
    let mut q = Properties::new("Ghost", true, true, 10, i32::MIN, DeathEffect::Collapse);
    q.apply_health_delta(i32::MIN);
    assert_eq!(q.hp, 0);
}

#[test]
fn death_effects_mark_the_corpse() {
    let mut d = Displayable::new('o', Color::desaturated_green());
    DeathEffect::BecomeCorpse.apply_to_display(&mut d);
    assert_eq!(d, Displayable { glyph: '%', color: Color::dark_red() });
    let mut p = Properties::new("Orc", true, true, 10, 0, DeathEffect::BecomeCorpse);
    DeathEffect::Collapse.apply_to_properties(&mut p);
    assert!(!p.alive);
    assert!(p.blocks);
    DeathEffect::BecomeCorpse.apply_to_properties(&mut p);
    assert!(!p.blocks);
}
