use canum::behavior::{
    intervene_behavior, BehaveIntervene, BehaveEnd, BehaveQueue, BehaviorEntry, BehaviorManager,
    BehaviorManagerInfo, Selection,
};
use canum::entity::Entity;
use canum::fx::{
    drop_fading_level,
    spawn_parent, Follow, FollowAction,
    laser_step, LaserLook, LaserNode, LaserStep, LaserTouch,
    despawn_completed_splash, update_disabling_children, update_wait, DespawnBehavior, DespawnCheck,
    DespawnObserved, DisablingUpdate, MultilineText, PureColor, PureColorClock, WaitAction, WaitInterval,
};
use canum::names::NameSet;
use canum::timer::{RepeatingTimer, Timer};
use std::collections::BTreeSet;

#[test]
fn timer_finishes_once() {
    let mut t = Timer::new(100);
    t.tick(60);
    assert!(!t.is_finished() && !t.just_finished());
    t.tick(60);
    assert!(t.is_finished() && t.just_finished());
    assert_eq!(t.elapsed, 100);
    t.tick(60);
    assert!(t.is_finished() && !t.just_finished());
    t.reset();
    assert!(!t.is_finished());
    let mut z = Timer::zero();
    z.tick(0);
    assert!(z.just_finished());
    let mut f = Timer::new(50);
    f.finish();
    assert!(f.finished && f.just_finished);
    f.set_duration(70);
    assert_eq!(f.duration, 70);
}

#[test]
fn repeating_timer_keeps_the_rest() {
    let mut t = RepeatingTimer::new(100);
    t.tick(250);
    assert!(t.just_finished);
    assert_eq!(t.elapsed, 50);
    t.tick(10);
    assert!(!t.just_finished);
    assert_eq!(t.elapsed, 60);
    t.reset();
    assert_eq!(t.elapsed, 0);
}

#[test]
fn waiting_notifies_then_despawns() {
    let mut w = WaitInterval::new(100);
    assert_eq!(update_wait(&mut w, Entity(1), 50), WaitAction::Wait);
    assert_eq!(update_wait(&mut w, Entity(1), 50), WaitAction::Notify(Entity(1)));
    assert_eq!(update_wait(&mut w, Entity(1), 50), WaitAction::Despawn);
    let mut other = WaitInterval::notify(10, Entity(9));
    assert_eq!(update_wait(&mut other, Entity(1), 10), WaitAction::Notify(Entity(9)));
}

#[test]
fn despawn_check_notifies() {
    let c = DespawnCheck::new(Entity(3));
    assert!(c.check(Entity(1), true).is_none());
    assert_eq!(c.check(Entity(1), false), Some((DespawnObserved { entity: Entity(1) }, DespawnBehavior::Despawn)));
    let c2 = c.with_notify(Entity(7)).with_despawn_behavior(DespawnBehavior::Remove);
    assert_eq!(c2.check(Entity(1), false), Some((DespawnObserved { entity: Entity(7) }, DespawnBehavior::Remove)));
}

#[test]
fn multiline_text_appends() {
    let mut t = MultilineText::new();
    assert!(t.is_empty());
    assert_eq!(t.append("ab\ncd"), 2);
    assert_eq!(t.lines(), &vec!["ab".to_owned(), "cd".to_owned()]);
    assert_eq!(t.append("e\n\nf"), 2);
    assert_eq!(t.lines(), &vec!["ab".to_owned(), "cde".to_owned(), "".to_owned(), "f".to_owned()]);
    assert_eq!(t.len(), 9);
    assert_eq!(t.append(""), 0);
    assert_eq!(t.lines().len(), 4);
    t.clear();
    assert!(t.is_empty());
    assert!(t.lines().is_empty());
    assert_eq!(t.append(""), 1);
    assert_eq!(t.lines(), &vec!["".to_owned()]);
}

#[test]
fn multiline_length_counts_bytes() {
    let mut t = MultilineText::new();
    t.append("é");
    assert_eq!(t.len(), 2);
}

#[test]
fn colour_transition_half_and_end() {
    let pc = PureColor { destroy: Some(Entity(2)), duration: 100, remove_self: true };
    let mut c = PureColorClock::start(&pc);
    let e = c.step(40);
    assert!(!e.half_point && !e.end);
    let e = c.step(20);
    assert!(e.half_point && !e.end);
    let e = c.step(40);
    assert!(!e.half_point && e.end);
}

#[test]
fn disabling_children() {
    match update_disabling_children(&vec![(Entity(1), false), (Entity(2), true)], false) {
        DisablingUpdate::Keep(v, disable) => {
            assert_eq!(v, vec![Entity(2)]);
            assert!(disable);
        }
        DisablingUpdate::Release => panic!("expected keep"),
    }
    match update_disabling_children(&vec![(Entity(2), true)], true) {
        DisablingUpdate::Keep(_, disable) => assert!(!disable),
        DisablingUpdate::Release => panic!("expected keep"),
    }
    assert!(matches!(update_disabling_children(&vec![(Entity(1), false)], true), DisablingUpdate::Release));
}

#[test]
fn splash_over_when_drops_gone() {
    let mut drops: BTreeSet<u64> = [1, 2].into_iter().collect();
    assert!(!despawn_completed_splash(0, &mut drops, &vec![1]));
    assert!(!despawn_completed_splash(3, &mut drops, &vec![2]));
    assert!(despawn_completed_splash(0, &mut drops, &vec![]));
}

fn occupies(names: &[&str]) -> NameSet {
    let mut s = NameSet::new();
    for n in names {
        s.insert(n.to_string());
    }
    s
}

#[test]
fn manager_queue_and_candidates() {
    let mut info = BehaviorManagerInfo::new();
    assert_eq!(info.cooldown(), Timer::new(1_000_000_000));
    info.register("Jump".to_owned(), Entity(10));
    assert!(info.request("Dash".to_owned(), "Jump"));
    assert!(!info.request("Dash".to_owned(), "Fly"));
    let behaviors = vec![
        BehaviorEntry { entity: Entity(10), occupies: occupies(&["Legs"]) },
        BehaviorEntry { entity: Entity(11), occupies: occupies(&["Arms"]) },
    ];
    assert!(matches!(info.select(false, 500_000_000, &behaviors), Selection::Idle));
    assert!(matches!(info.select(true, 900_000_000, &behaviors), Selection::Idle));
    match info.select(false, 600_000_000, &behaviors) {
        Selection::Queued { entity, caller } => {
            assert_eq!(entity, Entity(10));
            assert_eq!(caller, "Dash");
        }
        _ => panic!("expected the queued behavior"),
    }
    match info.select(false, 1, &behaviors) {
        Selection::Candidates(c) => assert_eq!(c, vec![Entity(10), Entity(11)]),
        _ => panic!("expected candidates"),
    }
    info.start(Entity(10), &occupies(&["Legs"]), Some(50));
    assert!(info.is_running(Entity(10)));
    assert!(info.is_occupied("Legs"));
    assert!(matches!(info.select(false, 10, &behaviors), Selection::Idle));
    match info.select(false, 40, &behaviors) {
        Selection::Candidates(c) => assert_eq!(c, vec![Entity(11)]),
        _ => panic!("expected candidates"),
    }
    let end = BehaveEnd { entity: Entity(10), cooldown: 0, occupies: vec![("Legs".to_owned(), 30)] };
    info.end(Entity(10), &occupies(&["Legs"]), &end);
    assert!(!info.is_running(Entity(10)));
    assert!(info.is_occupied("Legs"));
    match info.select(false, 30, &behaviors) {
        Selection::Candidates(c) => assert_eq!(c, vec![Entity(10), Entity(11)]),
        _ => panic!("expected candidates"),
    }
}

#[test]
fn intervention_ends_everything() {
    let mut info = BehaviorManagerInfo::new();
    let mut manager = BehaviorManager::new();
    info.start(Entity(3), &occupies(&[]), None);
    info.start(Entity(4), &occupies(&[]), None);
    let running = info.intervene(&mut manager);
    assert_eq!(running.len(), 2);
    assert!(running.contains(&3) && running.contains(&4));
    let end = intervene_behavior(Entity(3));
    assert_eq!(end.entity, Entity(3));
    assert_eq!(end.cooldown, 0);
    let e = BehaveIntervene::new_for_manager(Entity(5));
    assert_eq!((e.entity, e.target), (Entity(5), Entity(5)));
    let q = BehaveQueue::new(Entity(1), "X".to_owned());
    assert_eq!(q.name, "X");
    assert_eq!(manager.behavior_target(Some(Entity(8)), Entity(9)), Entity(8));
    assert_eq!(manager.behavior_target(None, Entity(9)), Entity(9));
}

#[test]
fn laser_grows_until_it_touches() {
    let laser = Entity(100);
    let mut node = LaserNode { prev: laser, next: None };
    match laser_step(&mut node, laser, true, &vec![(Entity(5), true)]) {
        LaserStep::Work { touches, destroy, look, grow } => {
            assert!(touches.is_empty());
            assert_eq!(destroy, None);
            assert_eq!(look, Some(LaserLook::Middle));
            assert!(grow);
        }
        LaserStep::Despawn => panic!("expected work"),
    }
    node.attach_next(Entity(101));
    assert_eq!(node.next, Some(Entity(101)));
    match laser_step(&mut node, laser, true, &vec![]) {
        LaserStep::Work { touches, destroy, look, grow } => {
            assert!(touches.is_empty() && destroy.is_none() && look.is_none() && !grow);
        }
        LaserStep::Despawn => panic!("expected work"),
    }
    match laser_step(&mut node, laser, true, &vec![(Entity(7), false), (Entity(8), true), (Entity(9), false)]) {
        LaserStep::Work { touches, destroy, look, grow } => {
            assert_eq!(
                touches,
                vec![LaserTouch { entity: laser, target: Entity(7) }, LaserTouch { entity: laser, target: Entity(9) }]
            );
            assert_eq!(destroy, Some(Entity(101)));
            assert_eq!(look, Some(LaserLook::Terminal));
            assert!(!grow);
        }
        LaserStep::Despawn => panic!("expected work"),
    }
    assert_eq!(node.next, None);
    assert!(matches!(laser_step(&mut node, laser, false, &vec![]), LaserStep::Despawn));
}

#[test]
fn multiline_lines_are_exact() {
    let mut t = MultilineText::new();
    t.append("a");
    t.append("b\nc");
    t.append("\n");
    assert_eq!(t.lines(), &vec!["ab".to_owned(), "c".to_owned(), "".to_owned()]);
    assert_eq!(t.len(), 5);
}

#[test]
fn following_entities() {
    let f = Follow::new(Entity(3));
    assert_eq!(f.despawn_behavior, DespawnBehavior::Despawn);
    assert_eq!(spawn_parent(&f, Entity(1), None, true), FollowAction::SpawnParent);
    assert_eq!(spawn_parent(&f, Entity(1), Some(Entity(2)), true), FollowAction::Keep);
    assert_eq!(spawn_parent(&f, Entity(1), Some(Entity(2)), false), FollowAction::Despawn(Entity(2)));
    assert_eq!(spawn_parent(&f, Entity(1), None, false), FollowAction::Despawn(Entity(1)));
    let r = f.with_despawn_behavior(DespawnBehavior::Remove);
    assert_eq!(spawn_parent(&r, Entity(1), Some(Entity(2)), false), FollowAction::StopFollowing(Some(Entity(2))));
    assert_eq!(spawn_parent(&r, Entity(1), None, false), FollowAction::StopFollowing(None));
}

#[test]
fn repeating_timer_without_duration_fires_every_tick() {
    let mut t = RepeatingTimer::new(0);
    t.tick(5);
    assert!(t.just_finished);
    assert_eq!(t.elapsed, 0);
}

#[test]
fn drop_fades_by_tenths_of_its_life() {
    assert_eq!(drop_fading_level(0, 500), Some(0));
    assert_eq!(drop_fading_level(49, 500), Some(0));
    assert_eq!(drop_fading_level(50, 500), Some(1));
    assert_eq!(drop_fading_level(499, 500), Some(9));
    assert_eq!(drop_fading_level(500, 500), None);
    assert_eq!(drop_fading_level(0, 0), None);
    assert_eq!(drop_fading_level(u64::MAX - 1, u64::MAX), Some(9));
}

#[test]
fn drop_fading_never_reverses() {
    let mut last = 0;
    for e in 0..500u64 {
        let level = drop_fading_level(e, 500).unwrap();
        assert!(level >= last);
        last = level;
    }
    assert_eq!(last, 9);
}

#[test]
fn background_grid_is_odd_around_its_middle() {
    let g = canum::fx::background_grid(2, 1);
    assert_eq!((g.cols, g.rows), (3, 1));
    assert_eq!(g.tiles, vec![(0, 0), (2, 0)]);
    let g = canum::fx::background_grid(3, 3);
    assert_eq!((g.cols, g.rows), (3, 3));
    assert_eq!(g.tiles.len(), 8);
    assert!(!g.tiles.contains(&(1, 1)));
    assert_eq!(g.tiles[0], (0, 0));
    assert_eq!(g.tiles[4], (1, 2));
    let g = canum::fx::background_grid(0, 0);
    assert_eq!((g.cols, g.rows), (1, 1));
    assert!(g.tiles.is_empty());
}

#[test]
fn wait_notifies_once_over_many_frames() {
    let mut w = WaitInterval::notify(100, Entity(7));
    let mut actions = Vec::new();
    for _ in 0..6 {
        actions.push(update_wait(&mut w, Entity(1), 30));
    }
    assert_eq!(
        actions,
        vec![
            WaitAction::Wait,
            WaitAction::Wait,
            WaitAction::Wait,
            WaitAction::Notify(Entity(7)),
            WaitAction::Despawn,
            WaitAction::Despawn,
        ]
    );
}

#[test]
fn text_empty_exactly_when_appends_empty() {
    let mut t = MultilineText::new();
    t.append("");
    t.append("");
    assert!(t.is_empty());
    t.append("a\nb");
    assert!(!t.is_empty());
    assert_eq!(t.len(), 3);
    t.clear();
    assert!(t.is_empty());
    t.append("");
    assert!(t.is_empty());
}
