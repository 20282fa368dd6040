use canum::entity::Entity;
use canum::health::{
    deal_contact_damage, filter_pairs, saturating_sub, sensor_propagate_damage, ContactDamage, Damage,
    EnemyHealth, Friendly, IntegerHealth, IntegerHit, InvincibilityTimer, Shields,
};
use std::collections::BTreeSet;

fn shields(pairs: &[(u8, i32)]) -> Shields {
    let mut s = Shields::new();
    for (k, v) in pairs {
        s.0.insert(*k, *v);
    }
    s
}

#[test]
fn strongest_shield_absorbs_first() {
    let mut s = shields(&[(3, 5), (7, 4)]);
    let rest = s.take_damage(6, 1);
    assert_eq!(rest, 0);
    assert_eq!(s.0.get(&7), None);
    assert_eq!(s.0.get(&3), Some(&3));
}

#[test]
fn weaker_shields_let_damage_through() {
    let mut s = shields(&[(2, 100), (5, 3)]);
    let rest = s.take_damage(10, 4);
    assert_eq!(rest, 7);
    assert_eq!(s.0.get(&2), Some(&100));
    assert!(s.0.get(&5).is_none());
}

#[test]
fn shield_larger_than_damage_keeps_the_rest() {
    let mut s = shields(&[(9, 50)]);
    assert_eq!(s.take_damage(20, 0), 0);
    assert_eq!(s.0.get(&9), Some(&30));
}

#[test]
fn shield_equal_to_damage_is_used_up() {
    let mut s = shields(&[(9, 20)]);
    assert_eq!(s.take_damage(20, 0), 0);
    assert!(s.0.is_empty());
}

#[test]
fn nonpositive_damage_passes_untouched() {
    let mut s = shields(&[(9, 20)]);
    assert_eq!(s.take_damage(-4, 0), -4);
    assert_eq!(s.take_damage(0, 0), 0);
    assert_eq!(s.0.get(&9), Some(&20));
}

#[test]
fn saturating_subtraction() {
    assert_eq!(saturating_sub(5, 7), -2);
    assert_eq!(saturating_sub(i32::MIN, 1), i32::MIN);
    assert_eq!(saturating_sub(i32::MAX, -1), i32::MAX);
}

#[test]
fn enemy_defeated_only_once() {
    let mut h = EnemyHealth::new(10);
    let mut s = Shields::new();
    let hit = Damage { entity: Entity(1), value: 12, order: 0 };
    let first = h.take_damage(&mut s, &hit);
    assert!(first.is_some());
    assert_eq!(h.value, i32::MIN);
    let second = h.take_damage(&mut s, &hit);
    assert!(second.is_none());
    assert_eq!(h.value, i32::MIN);
}

#[test]
fn enemy_damage_absorbed_by_shield() {
    let mut h = EnemyHealth::new(10);
    let mut s = shields(&[(5, 100)]);
    let hit = Damage { entity: Entity(1), value: 30, order: 1 };
    assert!(h.take_damage(&mut s, &hit).is_none());
    assert_eq!(h.value, 10);
    assert_eq!(s.0.get(&5), Some(&70));
}

#[test]
fn sensor_forwards_damage_to_parent() {
    let d = Damage { entity: Entity(4), value: 3, order: 2 };
    let p = sensor_propagate_damage(&d, Entity(9));
    assert_eq!(p, Damage { entity: Entity(9), value: 3, order: 2 });
}

#[test]
fn player_loses_one_point_per_frame() {
    let mut h = IntegerHealth { count: 3, invinc_order: 10, frame_taken_damage: false };
    let mut shielded = shields(&[(4, 100)]);
    assert_eq!(h.take_damage(&mut shielded, 10, 1), IntegerHit::Absorbed);
    let mut s = Shields::new();
    let first = h.take_damage(&mut s, 100, 1);
    assert_eq!(first, IntegerHit::Survived { invinc_order: 10 });
    assert_eq!(h.count, 2);
    let second = h.take_damage(&mut s, 100, 1);
    assert_eq!(second, IntegerHit::AlreadyHit);
    assert_eq!(h.count, 2);
    h.refresh();
    assert!(!h.frame_taken_damage);
    assert_eq!(h.take_damage(&mut s, 1, 1), IntegerHit::Survived { invinc_order: 10 });
    h.refresh();
    assert_eq!(h.take_damage(&mut s, 1, 1), IntegerHit::Failed);
    assert_eq!(h.count, 0);
}

#[test]
fn invincibility_timer_raises_then_drops_shield() {
    let mut t = InvincibilityTimer::new(100, 7);
    let mut s = Shields::new();
    assert!(!t.work(&mut s, true, 40));
    assert_eq!(s.0.get(&7), Some(&i32::MAX));
    assert!(t.work(&mut s, false, 60));
    assert!(s.0.get(&7).is_none());
}

#[test]
fn friendly_objects_do_not_collide() {
    assert!(!filter_pairs(Some(Friendly(true)), Some(Friendly(true)), false, false, false, false));
    assert!(filter_pairs(Some(Friendly(true)), Some(Friendly(false)), false, false, false, false));
    assert!(!filter_pairs(None, None, true, false, false, true));
    assert!(!filter_pairs(None, None, false, true, true, false));
    assert!(filter_pairs(None, None, true, true, false, false));
}

#[test]
fn projectile_hits_each_target_once() {
    let contact = ContactDamage { value: 5, projectile: true, order: 3 };
    let mut contacted = Some(BTreeSet::new());
    let colliding = vec![(Entity(1), Some(false)), (Entity(2), Some(true)), (Entity(3), None)];
    let hits = deal_contact_damage(&contact, true, &colliding, &mut contacted);
    assert_eq!(hits, vec![Damage { entity: Entity(1), value: 5, order: 3 }]);
    assert_eq!(contacted.as_ref().unwrap().len(), 3);
    let again = deal_contact_damage(&contact, true, &colliding, &mut contacted);
    assert!(again.is_empty());
}

#[test]
fn enemy_contact_hits_every_frame() {
    let contact = ContactDamage { value: 5, projectile: false, order: 3 };
    let mut contacted = None;
    let colliding = vec![(Entity(1), Some(true))];
    assert_eq!(deal_contact_damage(&contact, false, &colliding, &mut contacted).len(), 1);
    assert_eq!(deal_contact_damage(&contact, false, &colliding, &mut contacted).len(), 1);
}

#[test]
fn absorb_range_check() {
    let s = shields(&[(9, -2147483000)]);
    assert!(!s.absorb_stays_in_range(1000, 0));
    assert!(s.absorb_stays_in_range(1000, 9));
    assert!(shields(&[(9, 5)]).absorb_stays_in_range(i32::MAX, 0));
    assert!(Shields::new().absorb_stays_in_range(-5, 0));
}

#[test]
fn projectile_hits_new_targets_once_across_frames() {
    let contact = ContactDamage { value: 4, projectile: true, order: 2 };
    let mut contacted = Some(BTreeSet::new());
    let frames = vec![
        vec![(Entity(1), Some(false))],
        vec![(Entity(1), Some(false)), (Entity(2), Some(false))],
        vec![(Entity(2), Some(false)), (Entity(1), Some(false)), (Entity(3), Some(false))],
    ];
    let mut all = Vec::new();
    for frame in &frames {
        all.extend(deal_contact_damage(&contact, true, frame, &mut contacted));
    }
    let targets: Vec<Entity> = all.iter().map(|d| d.entity).collect();
    assert_eq!(targets, vec![Entity(1), Entity(2), Entity(3)]);
    assert!(all.iter().all(|d| d.value == 4 && d.order == 2));
}

#[test]
fn stronger_shields_are_used_first() {
    let mut s = shields(&[(5, 3), (9, 2)]);
    assert_eq!(s.take_damage(4, 0), 0);
    assert_eq!(s.0.get(&9), None);
    assert_eq!(s.0.get(&5), Some(&1));
    let mut t = shields(&[(5, 3), (9, 2)]);
    assert_eq!(t.take_damage(1, 0), 0);
    assert_eq!(t.0.get(&9), Some(&1));
    assert_eq!(t.0.get(&5), Some(&3));
}
