use canum::combat::{
    disposes_after_collision, forced_velocity_parts, init_weapons, propagate_attack_down,
    propagate_attack_release_down, sound_weapon_cue_end, sound_weapon_cue_start, Attack, AttackRelease, AutoFlip,
    AxisMotion, DamageSound, DamageSoundContinuous, DashDurations, DashTimers, FlipState, PartState, Projectile,
    Weapons, auto_flip, DAMAGE_SOUND_FRAMES,
};
use canum::controls::{
    arrow_can_trigger, arrow_interval, connect_gamepad, control_actions_of, keyboard_direction, ButtonState,
    ControlAction, ControlInput, ControllerKind, ControllerSuffix, GamepadArrowEmulate,
};
use canum::entity::Entity;
use canum::health::Shields;
use canum::timer::Timer;

fn held() -> ButtonState {
    ButtonState { pressed: true, just_pressed: false, just_released: false }
}
fn released() -> ButtonState {
    ButtonState { pressed: false, just_pressed: false, just_released: true }
}
fn tapped() -> ButtonState {
    ButtonState { pressed: true, just_pressed: true, just_released: false }
}

#[test]
fn suffix_defaults_to_keyboard() {
    let s = ControllerSuffix::default();
    assert_eq!(s.0, ControllerKind::Keyboard);
    assert_eq!(s.text(), "Keyboard");
    assert_eq!(ControllerSuffix(ControllerKind::Gamepad).text(), "Gamepad");
}

#[test]
fn first_gamepad_becomes_main() {
    let mut s = ControllerSuffix::default();
    assert_eq!(connect_gamepad(false, Some(Entity(5)), &mut s), Some(Entity(5)));
    assert_eq!(s.0, ControllerKind::Gamepad);
    assert_eq!(connect_gamepad(true, Some(Entity(6)), &mut s), None);
    assert_eq!(s.0, ControllerKind::Gamepad);
    assert_eq!(connect_gamepad(false, None, &mut s), None);
    assert_eq!(s.0, ControllerKind::Keyboard);
}

#[test]
fn movement_dash_and_both_weapons() {
    let input = ControlInput {
        moving: true,
        unlocked_dash: true,
        dash: held(),
        primary_attack: held(),
        secondary_attack: released(),
        confirm: tapped(),
        ..ControlInput::default()
    };
    let weapons = Weapons(vec![Some(Entity(1)), None, Some(Entity(3))]);
    let actions = control_actions_of(&input, &weapons);
    assert_eq!(
        actions,
        vec![
            ControlAction::Move,
            ControlAction::Dash,
            ControlAction::Attack(Entity(1)),
            ControlAction::AttackRelease(Entity(3)),
            ControlAction::Select,
        ]
    );
}

#[test]
fn dash_needs_unlock() {
    let input = ControlInput { moving: true, dash: held(), ..ControlInput::default() };
    let actions = control_actions_of(&input, &Weapons(vec![]));
    assert_eq!(actions, vec![ControlAction::Move]);
}

#[test]
fn single_slot_is_not_secondary() {
    let input = ControlInput { secondary_attack: held(), ..ControlInput::default() };
    let actions = control_actions_of(&input, &Weapons(vec![Some(Entity(1))]));
    assert!(actions.is_empty());
}

#[test]
fn override_disables_all_controls() {
    let input = ControlInput {
        override_main: true,
        moving: true,
        primary_attack: held(),
        confirm: tapped(),
        shop: tapped(),
        quit: tapped(),
        ..ControlInput::default()
    };
    let actions = control_actions_of(&input, &Weapons(vec![Some(Entity(1))]));
    assert!(actions.is_empty());
}

#[test]
fn opposite_keys_cancel() {
    assert_eq!(keyboard_direction(true, true, false, false), (1, 1));
    assert_eq!(keyboard_direction(true, false, true, false), (0, 0));
    assert_eq!(keyboard_direction(false, false, true, true), (-1, -1));
}

#[test]
fn stick_presses_at_once_then_after_hold() {
    let mut arrow = GamepadArrowEmulate::default();
    let mut interval = arrow_interval();
    assert_eq!(interval, Timer::new(100_000_000));
    assert!(arrow_can_trigger(&mut arrow, &mut interval, 5, 16));
    assert_eq!(arrow.trigger_time, Some(5));
    assert!(!arrow_can_trigger(&mut arrow, &mut interval, 500_000_000, 16));
    assert!(!arrow_can_trigger(&mut arrow, &mut interval, 1_000_000_005, 16));
    assert!(!arrow_can_trigger(&mut arrow, &mut interval, 1_000_000_006, 60_000_000));
    assert!(arrow_can_trigger(&mut arrow, &mut interval, 1_000_000_007, 50_000_000));
}

#[test]
fn attacks_reach_all_children() {
    let children = vec![Entity(2), Entity(3)];
    assert_eq!(
        propagate_attack_down(&children),
        vec![Attack { entity: Entity(2) }, Attack { entity: Entity(3) }]
    );
    assert_eq!(
        propagate_attack_release_down(&children),
        vec![AttackRelease { entity: Entity(2) }, AttackRelease { entity: Entity(3) }]
    );
}

#[test]
fn weapon_slots_resized() {
    let mut w = Weapons(vec![Some(Entity(1)), Some(Entity(2)), None]);
    init_weapons(&mut w, 2);
    assert_eq!(w.0, vec![Some(Entity(1)), Some(Entity(2))]);
    init_weapons(&mut w, 4);
    assert_eq!(w.0, vec![Some(Entity(1)), Some(Entity(2)), None, None]);
}

#[test]
fn weapon_cue_follows_attack() {
    let mut paused = true;
    assert!(sound_weapon_cue_start(&mut paused));
    assert!(!paused);
    assert!(!sound_weapon_cue_start(&mut paused));
    assert!(sound_weapon_cue_end(&mut paused));
    assert!(paused);
    assert!(!sound_weapon_cue_end(&mut paused));
}

#[test]
fn projectile_disposal() {
    let p = Projectile::default();
    assert!(!p.no_dispose);
    assert!(disposes_after_collision(&p, &vec![true, false]));
    assert!(!disposes_after_collision(&p, &vec![true, true]));
    assert!(!disposes_after_collision(&p, &vec![]));
    let kept = p.no_dispose();
    assert!(kept.no_dispose);
    assert!(!disposes_after_collision(&kept, &vec![false]));
}

#[test]
fn damage_sound_lasts_fifteen_frames() {
    let name = DamageSound::new("Hit".to_owned());
    assert_eq!(name.0, "Hit");
    let mut s = DamageSoundContinuous::default();
    assert!(s.on_damage());
    s.attach(Entity(8));
    assert!(!s.on_damage());
    assert_eq!(s.flag, DAMAGE_SOUND_FRAMES);
    for _ in 0..15 {
        assert_eq!(s.reset(), None);
    }
    assert_eq!(s.child, Some(Entity(8)));
    assert_eq!(s.reset(), Some(Entity(8)));
    assert_eq!(s.child, None);
    assert_eq!(s.flag, 0);
}

#[test]
fn flipping_follows_velocity() {
    let mut state = FlipState::default();
    let right = AutoFlip::flip_x(1);
    assert_eq!(right, AutoFlip { x: 1, y: 0 });
    auto_flip(&right, AxisMotion { fast: true, positive: false }, AxisMotion::default(), &mut state);
    assert!(state.flip_x);
    assert_eq!(state.status_x, -1);
    auto_flip(&right, AxisMotion { fast: false, positive: true }, AxisMotion::default(), &mut state);
    assert!(state.flip_x);
    auto_flip(&right, AxisMotion { fast: true, positive: true }, AxisMotion::default(), &mut state);
    assert!(!state.flip_x);
    assert_eq!(state.status_x, 1);
}

#[test]
fn vertical_flip_records_in_vertical_status() {
    let mut state = FlipState::default();
    let up = AutoFlip::flip_y(1);
    assert_eq!(up, AutoFlip { x: 0, y: 1 });
    auto_flip(&up, AxisMotion::default(), AxisMotion { fast: true, positive: false }, &mut state);
    assert!(state.flip_y);
    assert_eq!(state.status_y, -1);
    assert_eq!(state.status_x, 0);
}

#[test]
fn dash_with_cooldown_and_invincibility() {
    let d = DashDurations { total: 200, invincible: 20, cooldown: 600 };
    let mut t = DashTimers::refreshed(d);
    assert!(t.total.finished && t.cooldown.finished && t.invincible.finished);
    let mut s = Shields::new();
    assert!(t.start(&mut s, d, 9));
    assert_eq!(s.0.get(&9), Some(&i32::MAX));
    assert!(!t.start(&mut s, d, 9));
    t.perform(&mut s, 10, 9);
    assert_eq!(s.0.get(&9), Some(&i32::MAX));
    t.perform(&mut s, 10, 9);
    assert!(s.0.get(&9).is_none());
    t.perform(&mut s, 200, 9);
    assert!(t.total.finished);
    assert!(!t.cooldown.finished);
    t.perform(&mut s, 600, 9);
    assert!(t.cooldown.finished);
    assert!(t.start(&mut s, DashDurations { total: 200, invincible: 0, cooldown: 600 }, 9));
    assert!(s.0.get(&9).is_none());
}

#[test]
fn gone_links_drop_their_parts() {
    let parts = vec![
        PartState { linked_alive: None, changed: false },
        PartState { linked_alive: Some(true), changed: false },
        PartState { linked_alive: Some(false), changed: false },
    ];
    assert_eq!(forced_velocity_parts(&parts), (vec![true, true, false], true));
    let still = vec![PartState { linked_alive: Some(true), changed: false }];
    assert_eq!(forced_velocity_parts(&still), (vec![true], false));
    let changed = vec![PartState { linked_alive: None, changed: true }];
    assert_eq!(forced_velocity_parts(&changed), (vec![true], true));
}

#[test]
fn shop_and_quit_without_override() {
    let input = ControlInput { shop: tapped(), quit: tapped(), ..ControlInput::default() };
    let actions = control_actions_of(&input, &Weapons(vec![]));
    assert_eq!(actions, vec![ControlAction::Shop, ControlAction::Quit]);
}
