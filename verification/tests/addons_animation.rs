use canum::addons::{
    apply_health_effects, damage_percents, exoskeleton_charging_contacts, exoskeleton_count, exoskeleton_protect,
    fail3, get_achievement, health_count, nearest_hostile, retarget, stage_complete, weapon_kinds, BasicHp,
    ExoskeletonStep, GetAchievement, TrackingBullet, TrackingCandidate, WeaponKind,
};
use canum::animation::{
    shown_visibility, AnimationVisibility,
    recent_handles, setup_animation, tick_animation, Animation, AnimationClock, AnimationInform, HandleTimes,
};
use canum::config::SpriteAtlas;
use canum::entity::Entity;
use canum::health::Shields;
use canum::names::{NameMap, NameSet};
use canum::progress::Achievements;
use canum::timer::RepeatingTimer;

fn effects(names: &[&str]) -> NameSet {
    let mut s = NameSet::new();
    for n in names {
        s.insert(n.to_string());
    }
    s
}

fn achievements() -> Achievements {
    Achievements { unlocked: NameSet::new(), counters: NameMap::new() }
}

#[test]
fn achievement_shown_once() {
    let mut a = achievements();
    let show = get_achievement(&mut a, "Fail3").unwrap();
    assert_eq!(show.picture, "Achievement_Fail3");
    assert_eq!(show.title_key, "Achievement_Fail3_Title");
    assert!(a.unlocked.contains("Fail3"));
    assert!(get_achievement(&mut a, "Fail3").is_none());
}

#[test]
fn third_failure_earns_fail3() {
    let mut a = achievements();
    assert!(fail3(&mut a).is_none());
    assert!(fail3(&mut a).is_none());
    let earned = fail3(&mut a).unwrap();
    assert_eq!(earned, GetAchievement::new("Fail3".to_owned()));
    assert_eq!(a.counters.get("FailCount"), Some(&3));
    assert!(fail3(&mut a).is_none());
}

#[test]
fn wcat_completes_stage_one() {
    assert_eq!(stage_complete("Wcat").unwrap().name, "Stage1Complete");
    assert!(stage_complete("Gate").is_none());
}

#[test]
fn health_effects_add_points() {
    let mut hp = BasicHp { array: vec!["Hp_BasicHp".to_owned()] };
    let e = effects(&["Health+2", "Health+1:Hp_Gold", "Health+x", "Damage+%5", "Health+-3"]);
    let errors = apply_health_effects(&mut hp, &e);
    assert_eq!(errors, vec!["x".to_owned()]);
    assert_eq!(
        hp.array,
        vec!["Hp_BasicHp".to_owned(), "Hp_Gold".to_owned(), "Hp_BasicHp".to_owned(), "Hp_BasicHp".to_owned()]
    );
    assert_eq!(hp.count(), 4);
    assert_eq!(health_count(&hp), 4);
}

#[test]
fn damage_effects_are_read_in_order() {
    let e = effects(&["Damage+%10", "Damage+%-5", "Damage+%9999999999", "Health+1"]);
    let r = damage_percents(&e);
    assert_eq!(r, vec![Ok(-5), Ok(10), Err("9999999999".to_owned())]);
}

#[test]
fn weapons_by_name() {
    let names = vec!["A_Filed".to_owned(), "Z".to_owned(), "B_Spread".to_owned()];
    assert_eq!(weapon_kinds(&names), vec![Some(WeaponKind::Filed), None, Some(WeaponKind::Spread)]);
}

#[test]
fn one_exoskeleton_per_effect() {
    assert_eq!(exoskeleton_count(&effects(&["Exoskeleton", "Exoskeleton2", "Health+1"])), 2);
    assert_eq!(exoskeleton_count(&effects(&[])), 0);
}

#[test]
fn exoskeleton_charges_and_breaks() {
    let mut s = Shields::new();
    assert_eq!(exoskeleton_protect(&mut s, 6), ExoskeletonStep::Charged);
    assert_eq!(s.0.get(&6), Some(&i32::MAX));
    assert_eq!(exoskeleton_protect(&mut s, 6), ExoskeletonStep::Holding);
    s.0.insert(6, 100);
    assert_eq!(exoskeleton_protect(&mut s, 6), ExoskeletonStep::Consumed);
    assert!(s.0.get(&6).is_none());
}

#[test]
fn animation_builders() {
    let a = Animation::new("Walk".to_owned());
    assert_eq!(a.pause, usize::MAX);
    let once = a.clone().once();
    assert_eq!(once.pause, 0);
    let gone = a.clone().once_then_despawn();
    assert!(gone.self_despawn);
    assert_eq!(gone.pause, 0);
    let mut r = a.with_inform(AnimationInform { entity: Entity(1), index: vec![2] });
    assert!(r.inform.is_some());
    r.replace("Run".to_owned(), true, None);
    assert_eq!(r.name, "Run");
    assert_eq!(r.pause, 0);
    assert!(r.inform.is_none());
    assert_eq!(Animation::default().name, "Empty");
}

fn clock(total: usize) -> AnimationClock {
    AnimationClock { timer: RepeatingTimer::new(100), total, paused: false }
}

#[test]
fn frames_advance_and_wrap() {
    let mut c = clock(3);
    let mut index = 0usize;
    let a = Animation::new("A".to_owned());
    let t = tick_animation(&mut c, &mut index, &a, 50);
    assert_eq!(index, 0);
    assert!(t.informed.is_empty());
    tick_animation(&mut c, &mut index, &a, 50);
    assert_eq!(index, 1);
    tick_animation(&mut c, &mut index, &a, 100);
    assert_eq!(index, 2);
    tick_animation(&mut c, &mut index, &a, 100);
    assert_eq!(index, 0);
}

#[test]
fn once_animation_pauses_informs_and_despawns() {
    let mut c = clock(2);
    let mut index = 0usize;
    let a = Animation::new("A".to_owned())
        .once_then_despawn()
        .with_inform(AnimationInform { entity: Entity(7), index: vec![0, 1, 5] });
    let t = tick_animation(&mut c, &mut index, &a, 100);
    assert_eq!(index, 1);
    assert_eq!(t.informed, vec![1]);
    assert!(!t.despawn);
    let t = tick_animation(&mut c, &mut index, &a, 100);
    assert_eq!(index, 1);
    assert!(c.paused);
    assert_eq!(t.informed, vec![0, 5]);
    assert!(t.despawn);
    let t = tick_animation(&mut c, &mut index, &a, 100);
    assert!(t.informed.is_empty());
    assert!(!t.despawn);
}

#[test]
fn unpaused_animation_moves_at_once() {
    let mut c = AnimationClock { timer: RepeatingTimer::new(100), total: 4, paused: true };
    let mut index = 1usize;
    let a = Animation::new("A".to_owned());
    tick_animation(&mut c, &mut index, &a, 0);
    assert!(!c.paused);
    assert_eq!(index, 2);
}

#[test]
fn atlas_choice() {
    let mut sprites: NameMap<Vec<SpriteAtlas>> = NameMap::new();
    sprites.insert("Walk".to_owned(), vec![SpriteAtlas::with_defaults("a.png".to_owned())]);
    sprites.insert("None".to_owned(), vec![]);
    let s = setup_animation("Walk", &sprites);
    assert!(!s.hidden);
    let a = s.atlas.unwrap();
    assert_eq!(a.index, 0);
    assert_eq!(a.atlas_name, "Walk0");
    assert_eq!(a.timer, RepeatingTimer::new(750_000_000));
    assert_eq!(a.total, 1);
    assert!(setup_animation("None", &sprites).atlas.is_none());
    assert!(setup_animation("Missing", &sprites).atlas.is_none());
    assert!(setup_animation("", &sprites).hidden);
}

#[test]
fn random_atlas_is_in_range() {
    let mut sprites: NameMap<Vec<SpriteAtlas>> = NameMap::new();
    let list: Vec<SpriteAtlas> = (0..3).map(|i| SpriteAtlas::with_defaults(format!("{i}.png"))).collect();
    sprites.insert("Many".to_owned(), list);
    for _ in 0..50 {
        let a = setup_animation("Many", &sprites).atlas.unwrap();
        assert!(a.index < 3);
        assert_eq!(a.atlas_name, format!("Many{}", a.index));
    }
}

#[test]
fn handle_times_queue_and_age() {
    let mut h = HandleTimes { times: NameMap::new(), queue: vec![] };
    h.update_handle("a".to_owned(), 5);
    assert_eq!(h.queue, vec!["a".to_owned()]);
    h.update_handle_strong(6);
    assert!(h.queue.is_empty());
    assert_eq!(h.times.get("a"), Some(&6));
    h.update_handle("a".to_owned(), 9);
    assert_eq!(h.times.get("a"), Some(&9));
    let keep = recent_handles(&vec!["a".to_owned(), "b".to_owned()], &h.times, 30, 15);
    assert_eq!(keep, vec![false, true]);
    let keep = recent_handles(&vec!["a".to_owned()], &h.times, 24, 15);
    assert_eq!(keep, vec![true]);
}

fn candidate(entity: u64, friendly: bool, distance_key: u32) -> TrackingCandidate {
    TrackingCandidate { entity: Entity(entity), friendly, distance_key }
}

#[test]
fn nearest_hostile_takes_first_of_nearest_on_other_side() {
    let cands = vec![
        candidate(1, true, 1),
        candidate(2, false, 9),
        candidate(3, false, 4),
        candidate(4, false, 4),
        candidate(5, true, 0),
    ];
    assert_eq!(nearest_hostile(&cands, true), Some(Entity(3)));
    assert_eq!(nearest_hostile(&cands, false), Some(Entity(5)));
    assert_eq!(nearest_hostile(&vec![candidate(1, true, 3)], true), None);
    assert_eq!(nearest_hostile(&Vec::new(), false), None);
}

#[test]
fn homing_bullet_keeps_living_target() {
    let cands = vec![candidate(7, false, 2), candidate(8, false, 1)];
    let mut bullet = TrackingBullet { target: Some(Entity(7)) };
    retarget(&mut bullet, true, true, &cands);
    assert_eq!(bullet.target, Some(Entity(7)));
    retarget(&mut bullet, false, true, &cands);
    assert_eq!(bullet.target, Some(Entity(8)));
    let mut idle = TrackingBullet { target: None };
    retarget(&mut idle, false, false, &cands);
    assert_eq!(idle.target, None);
}

#[test]
fn exoskeleton_charged_by_enemy_projectiles_only() {
    let contacts = vec![(true, Some(false)), (true, Some(true)), (false, Some(false)), (true, None), (true, Some(false))];
    assert_eq!(exoskeleton_charging_contacts(&contacts), 2);
    assert_eq!(exoskeleton_charging_contacts(&Vec::new()), 0);
}

#[test]
fn cloned_animation_starts_from_first_frame() {
    let mut a = Animation::new("Boss".to_owned());
    a.starting_index = 3;
    a.self_despawn = true;
    a.pause = 2;
    let c = a.clone();
    assert_eq!(c.starting_index, 0);
    assert_eq!(c.name, "Boss");
    assert_eq!(c.pause, 2);
    assert!(c.self_despawn);
}

#[test]
fn animation_shown_as_its_visibility_unless_nameless() {
    let a = Animation::new("Boss".to_owned());
    assert_eq!(shown_visibility(&a), AnimationVisibility::Inherited);
    let hidden = Animation::new("Boss".to_owned()).with_visibility(AnimationVisibility::Hidden);
    assert_eq!(shown_visibility(&hidden), AnimationVisibility::Hidden);
    let nameless = Animation::new(String::new()).with_visibility(AnimationVisibility::Visible);
    assert_eq!(shown_visibility(&nameless), AnimationVisibility::Hidden);
    assert_eq!(hidden.clone().visibility, AnimationVisibility::Hidden);
}
