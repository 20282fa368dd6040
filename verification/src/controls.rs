//! Player controls: which game actions a frame of keyboard or gamepad input
//! asks for, which controller the interface talks about, and when a held
//! stick emulates a direction-pad press.

use vstd::prelude::*;

use crate::combat::Weapons;
use crate::entity::Entity;
use crate::timer::{tick_spec, Timer};

verus! {

/// The kind of controller the interface texts are chosen for.
#[derive(Clone, Copy, Debug, PartialEq, Eq, Structural)]
pub enum ControllerKind {
    Keyboard,
    Gamepad,
}

/// For some interface texts related to controllers, this suffix is added to
/// display different content accordingly.
#[derive(Clone, Copy, Debug, PartialEq, Eq, Structural)]
pub struct ControllerSuffix(pub ControllerKind);

impl Default for ControllerSuffix {
    fn default() -> (s: ControllerSuffix)
        ensures
            s.0 == ControllerKind::Keyboard,
    {
        ControllerSuffix(ControllerKind::Keyboard)
    }
}

impl ControllerSuffix {
    /// The suffix as it is written in text keys.
    pub fn text(&self) -> (s: &'static str)
        ensures
            self.0 == ControllerKind::Keyboard ==> s@ == "Keyboard"@,
            self.0 == ControllerKind::Gamepad ==> s@ == "Gamepad"@,
    {
        match self.0 {
            ControllerKind::Keyboard => "Keyboard",
            ControllerKind::Gamepad => "Gamepad",
        }
    }
}

/// Added to interface panels to disable all main controls (player, lobby, shop).
#[derive(Clone, Copy, Debug, PartialEq, Eq, Structural, Default)]
pub struct OverrideMainControls;

/// Marks the gamepad that controls the game.
#[derive(Clone, Copy, Debug, PartialEq, Eq, Structural, Default)]
pub struct MainGamepad;

/// Picks the main gamepad. While none is marked, the first connected one is
/// marked and the interface talks about gamepads; with none connected it
/// talks about the keyboard. Returns the gamepad to mark, if any.
pub fn connect_gamepad(has_main: bool, first_connected: Option<Entity>, suffix: &mut ControllerSuffix) -> (mark:
    Option<Entity>)
    ensures
        has_main ==> mark.is_none() && *final(suffix) == *old(suffix),
        !has_main ==> mark == first_connected && final(suffix).0 == (if first_connected.is_some() {
            ControllerKind::Gamepad
        } else {
            ControllerKind::Keyboard
        }),
{
    if has_main {
        return None;
    }
    match first_connected {
        Some(gamepad) => {
            suffix.0 = ControllerKind::Gamepad;
            Some(gamepad)
        },
        None => {
            if suffix.0 == ControllerKind::Gamepad {
                suffix.0 = ControllerKind::Keyboard;
            }
            None
        },
    }
}

/// The state of one button in this frame.
#[derive(Clone, Copy, Debug, PartialEq, Eq, Structural, Default)]
pub struct ButtonState {
    pub pressed: bool,
    pub just_pressed: bool,
    pub just_released: bool,
}

/// One frame of controller input, as the control rules read it. Moving is
/// decided by the caller from the stick or the arrow keys.
#[derive(Clone, Copy, Debug, PartialEq, Eq, Structural, Default)]
pub struct ControlInput {
    /// Some panel overrides the main controls.
    pub override_main: bool,
    /// The direction is far enough from zero to move.
    pub moving: bool,
    pub unlocked_dash: bool,
    pub dash: ButtonState,
    pub primary_attack: ButtonState,
    pub secondary_attack: ButtonState,
    pub confirm: ButtonState,
    pub shop: ButtonState,
    pub quit: ButtonState,
}

/// What a frame of input asks the game to do.
#[derive(Clone, Copy, Debug, PartialEq, Eq, Structural)]
pub enum ControlAction {
    /// Move the primary player in the input direction.
    Move,
    /// Start a dash in the input direction.
    Dash,
    /// Use the weapon.
    Attack(Entity),
    /// Tell the weapon that its key was released.
    AttackRelease(Entity),
    /// Select whatever is at the player's position in the lobby.
    Select,
    /// Open the shop at the player's position.
    Shop,
    /// Leave the lobby.
    Quit,
}

/// The action one attack button asks of a weapon slot: attack while the
/// button is held, release once when it is let go.
pub open spec fn attack_actions(button: ButtonState, weapon: Option<Entity>) -> Seq<ControlAction> {
    match weapon {
        Some(w) => if button.pressed {
            seq![ControlAction::Attack(w)]
        } else if button.just_released {
            seq![ControlAction::AttackRelease(w)]
        } else {
            Seq::empty()
        },
        None => Seq::empty(),
    }
}

/// Movement, with a dash when it is unlocked and held.
pub open spec fn movement_actions(input: ControlInput) -> Seq<ControlAction> {
    if input.moving {
        if input.unlocked_dash && input.dash.pressed {
            seq![ControlAction::Move, ControlAction::Dash]
        } else {
            seq![ControlAction::Move]
        }
    } else {
        Seq::empty()
    }
}

/// The first weapon slot answers the primary button.
pub open spec fn primary_actions(input: ControlInput, weapons: Seq<Option<Entity>>) -> Seq<ControlAction> {
    if weapons.len() > 0 {
        attack_actions(input.primary_attack, weapons[0])
    } else {
        Seq::empty()
    }
}

/// The last weapon slot answers the secondary button, when there are two or more.
pub open spec fn secondary_actions(input: ControlInput, weapons: Seq<Option<Entity>>) -> Seq<ControlAction> {
    if weapons.len() >= 2 {
        attack_actions(input.secondary_attack, weapons.last())
    } else {
        Seq::empty()
    }
}

/// Confirm selects.
pub open spec fn select_actions(input: ControlInput) -> Seq<ControlAction> {
    if input.confirm.just_pressed {
        seq![ControlAction::Select]
    } else {
        Seq::empty()
    }
}

/// The actions of the main controls: movement, the two attack buttons and selection.
pub open spec fn main_actions(input: ControlInput, weapons: Seq<Option<Entity>>) -> Seq<ControlAction> {
    movement_actions(input) + primary_actions(input, weapons) + secondary_actions(input, weapons)
        + select_actions(input)
}

/// The shop button.
pub open spec fn shop_actions(input: ControlInput) -> Seq<ControlAction> {
    if input.shop.just_pressed {
        seq![ControlAction::Shop]
    } else {
        Seq::empty()
    }
}

/// The quit button.
pub open spec fn quit_actions(input: ControlInput) -> Seq<ControlAction> {
    if input.quit.just_pressed {
        seq![ControlAction::Quit]
    } else {
        Seq::empty()
    }
}

/// All actions of a frame: none while a panel overrides the main controls
/// (player, lobby and shop alike); otherwise the main controls, then the
/// shop and quit buttons.
pub open spec fn control_actions(input: ControlInput, weapons: Seq<Option<Entity>>) -> Seq<ControlAction> {
    if input.override_main {
        Seq::empty()
    } else {
        main_actions(input, weapons) + shop_actions(input) + quit_actions(input)
    }
}

fn push_attack_actions(actions: &mut Vec<ControlAction>, button: ButtonState, weapon: Option<Entity>)
    ensures
        final(actions)@ == old(actions)@ + attack_actions(button, weapon),
{
    if let Some(w) = weapon {
        if button.pressed {
            actions.push(ControlAction::Attack(w));
        } else if button.just_released {
            actions.push(ControlAction::AttackRelease(w));
        }
    }
    assert(actions@ =~= old(actions)@ + attack_actions(button, weapon));
}

fn push_movement_actions(actions: &mut Vec<ControlAction>, input: &ControlInput)
    ensures
        final(actions)@ == old(actions)@ + movement_actions(*input),
{
    if input.moving {
        actions.push(ControlAction::Move);
        if input.unlocked_dash && input.dash.pressed {
            actions.push(ControlAction::Dash);
        }
    }
    assert(actions@ =~= old(actions)@ + movement_actions(*input));
}

fn push_select_actions(actions: &mut Vec<ControlAction>, input: &ControlInput)
    ensures
        final(actions)@ == old(actions)@ + select_actions(*input),
{
    if input.confirm.just_pressed {
        actions.push(ControlAction::Select);
    }
    assert(actions@ =~= old(actions)@ + select_actions(*input));
}

fn push_weapon_actions(actions: &mut Vec<ControlAction>, input: &ControlInput, weapons: &Weapons)
    ensures
        final(actions)@ == old(actions)@ + primary_actions(*input, weapons.0@) + secondary_actions(
            *input,
            weapons.0@,
        ),
{
    let n = weapons.0.len();
    if n > 0 {
        push_attack_actions(actions, input.primary_attack, weapons.0[0]);
    }
    let ghost a1 = actions@;
    assert(a1 =~= old(actions)@ + primary_actions(*input, weapons.0@));
    if n >= 2 {
        push_attack_actions(actions, input.secondary_attack, weapons.0[n - 1]);
    }
    assert(actions@ =~= a1 + secondary_actions(*input, weapons.0@));
}

fn push_main_actions(actions: &mut Vec<ControlAction>, input: &ControlInput, weapons: &Weapons)
    ensures
        final(actions)@ == old(actions)@ + main_actions(*input, weapons.0@),
{
    push_movement_actions(actions, input);
    let ghost a1 = actions@;
    push_weapon_actions(actions, input, weapons);
    let ghost a2 = actions@;
    push_select_actions(actions, input);
    assert(actions@ =~= old(actions)@ + main_actions(*input, weapons.0@));
}

/// The actions a frame of input asks for, in the order the game performs them.
pub fn control_actions_of(input: &ControlInput, weapons: &Weapons) -> (actions: Vec<ControlAction>)
    ensures
        actions@ == control_actions(*input, weapons.0@),
{
    let mut actions: Vec<ControlAction> = Vec::new();
    if input.override_main {
        assert(actions@ =~= control_actions(*input, weapons.0@));
        return actions;
    }
    push_main_actions(&mut actions, input, weapons);
    let ghost main = actions@;
    if input.shop.just_pressed {
        actions.push(ControlAction::Shop);
    }
    assert(actions@ =~= main + shop_actions(*input));
    let ghost a1 = actions@;
    if input.quit.just_pressed {
        actions.push(ControlAction::Quit);
    }
    assert(actions@ =~= a1 + quit_actions(*input));
    assert(actions@ =~= control_actions(*input, weapons.0@));
    actions
}

/// The keyboard direction from the four arrow keys: right and up count one
/// way, left and down the other, so opposite keys cancel.
pub fn keyboard_direction(right: bool, up: bool, left: bool, down: bool) -> (d: (i8, i8))
    ensures
        d.0 == (if right { 1int } else { 0 }) - (if left { 1int } else { 0 }),
        d.1 == (if up { 1int } else { 0 }) - (if down { 1int } else { 0 }),
{
    let mut x: i8 = 0;
    let mut y: i8 = 0;
    if right {
        x = x + 1;
    }
    if up {
        y = y + 1;
    }
    if left {
        x = x - 1;
    }
    if down {
        y = y - 1;
    }
    (x, y)
}

/// Remembers when the stick started emulating direction-pad presses.
#[derive(Clone, Copy, Debug, PartialEq, Eq, Structural, Default)]
pub struct GamepadArrowEmulate {
    /// Nanoseconds since start-up at the first emulated press.
    pub trigger_time: Option<u64>,
}

/// How long the stick must be held before presses repeat: one second.
pub const ARROW_HOLD: u64 = 1_000_000_000;

/// The pause between repeated presses: a tenth of a second.
pub fn arrow_interval() -> (t: Timer)
    ensures
        t == Timer::new(100_000_000),
{
    Timer::new(100_000_000)
}

/// Whether a held stick presses a direction-pad button this frame. The first
/// time it presses at once and remembers the time; later it waits until the
/// hold time has passed (restarting the interval meanwhile), then presses
/// whenever the interval finishes.
pub fn arrow_can_trigger(arrow: &mut GamepadArrowEmulate, interval: &mut Timer, elapsed: u64, delta: u64) -> (press:
    bool)
    requires
        old(arrow).trigger_time matches Some(t) && elapsed > t + ARROW_HOLD ==> old(interval).finished
            || old(interval).elapsed + delta <= u64::MAX,
    ensures
        match old(arrow).trigger_time {
            None => {
                &&& press
                &&& final(arrow).trigger_time == Some(elapsed)
                &&& *final(interval) == *old(interval)
            },
            Some(t) => {
                &&& *final(arrow) == *old(arrow)
                &&& if elapsed > t + ARROW_HOLD {
                    &&& *final(interval) == tick_spec(*old(interval), delta)
                    &&& press == final(interval).just_finished
                } else {
                    &&& *final(interval) == (Timer {
                        elapsed: 0,
                        finished: false,
                        just_finished: false,
                        ..*old(interval)
                    })
                    &&& !press
                }
            },
        },
{
    match arrow.trigger_time {
        Some(t) => {
            if elapsed > t && elapsed - t > ARROW_HOLD {
                interval.tick(delta);
                interval.just_finished()
            } else {
                interval.reset();
                false
            }
        },
        None => {
            arrow.trigger_time = Some(elapsed);
            true
        },
    }
}

/// While a panel overrides the main controls, a frame does nothing: no
/// movement, attack, selection, shop or quit.
pub proof fn law_override_disables_all_controls(input: ControlInput, weapons: Seq<Option<Entity>>)
    requires
        input.override_main,
    ensures
        control_actions(input, weapons) == Seq::<ControlAction>::empty(),
{
}

/// A weapon slot never receives an attack and a release in the same frame.
pub proof fn law_attack_or_release(button: ButtonState, weapon: Option<Entity>)
    ensures
        attack_actions(button, weapon).len() <= 1,
        button.pressed && weapon is Some ==> attack_actions(button, weapon) == seq![
            ControlAction::Attack(weapon.unwrap()),
        ],
{
}

proof fn lemma_concat_contains(
    a: Seq<ControlAction>,
    b: Seq<ControlAction>,
    c: Seq<ControlAction>,
    d: Seq<ControlAction>,
    e: Seq<ControlAction>,
    f: Seq<ControlAction>,
    x: ControlAction,
)
    ensures
        (a + b + c + d + e + f).contains(x) <==> (a.contains(x) || b.contains(x) || c.contains(x) || d.contains(x)
            || e.contains(x) || f.contains(x)),
{
    vstd::seq_lib::lemma_seq_concat_contains_all_elements(a, b, x);
    vstd::seq_lib::lemma_seq_concat_contains_all_elements(a + b, c, x);
    vstd::seq_lib::lemma_seq_concat_contains_all_elements(a + b + c, d, x);
    vstd::seq_lib::lemma_seq_concat_contains_all_elements(a + b + c + d, e, x);
    vstd::seq_lib::lemma_seq_concat_contains_all_elements(a + b + c + d + e, f, x);
}

proof fn lemma_attack_actions_only_attack(button: ButtonState, weapon: Option<Entity>, x: ControlAction)
    requires
        !(x is Attack),
        !(x is AttackRelease),
    ensures
        !attack_actions(button, weapon).contains(x),
{
    let s = attack_actions(button, weapon);
    if s.contains(x) {
        let i = choose|i: int| 0 <= i < s.len() && s[i] == x;
        assert(s[i] is Attack || s[i] is AttackRelease);
    }
}

proof fn lemma_one_action(a: ControlAction, x: ControlAction)
    ensures
        seq![a].contains(x) <==> a == x,
{
    if a == x {
        assert(seq![a][0] == x);
    }
}

/// The one-shot buttons act only on the frame they go down: the shop opens,
/// the lobby is left and a selection is made exactly when the shop, quit or
/// confirm button was just pressed and no panel overrides the main controls;
/// holding a button does nothing more. The player moves exactly when the
/// input is moving, and dashes exactly when it also has the dash unlocked and
/// held.
pub proof fn law_buttons_act_when_pressed(input: ControlInput, weapons: Seq<Option<Entity>>)
    ensures
        control_actions(input, weapons).contains(ControlAction::Shop) <==> (!input.override_main
            && input.shop.just_pressed),
        control_actions(input, weapons).contains(ControlAction::Quit) <==> (!input.override_main
            && input.quit.just_pressed),
        control_actions(input, weapons).contains(ControlAction::Select) <==> (!input.override_main
            && input.confirm.just_pressed),
        control_actions(input, weapons).contains(ControlAction::Move) <==> (!input.override_main && input.moving),
        control_actions(input, weapons).contains(ControlAction::Dash) <==> (!input.override_main && input.moving
            && input.unlocked_dash && input.dash.pressed),
{
    let m = movement_actions(input);
    let p = primary_actions(input, weapons);
    let q = secondary_actions(input, weapons);
    let sel = select_actions(input);
    let sh = shop_actions(input);
    let qu = quit_actions(input);
    let all = control_actions(input, weapons);
    assert(!input.override_main ==> all == m + p + q + sel + sh + qu);
    assert forall|x: ControlAction| #![trigger all.contains(x)]
        !(x is Attack) && !(x is AttackRelease) implies (all.contains(x) <==> (!input.override_main && (
        m.contains(x) || sel.contains(x) || sh.contains(x) || qu.contains(x)))) by {
        lemma_concat_contains(m, p, q, sel, sh, qu, x);
        if weapons.len() > 0 {
            lemma_attack_actions_only_attack(input.primary_attack, weapons[0], x);
        }
        if weapons.len() >= 2 {
            lemma_attack_actions_only_attack(input.secondary_attack, weapons.last(), x);
        }
    }
    assert forall|x: ControlAction| #![trigger m.contains(x)]
        m.contains(x) <==> (input.moving && (x == ControlAction::Move || (x == ControlAction::Dash
            && input.unlocked_dash && input.dash.pressed))) by {
        if input.moving {
            if input.unlocked_dash && input.dash.pressed {
                assert(m == seq![ControlAction::Move].push(ControlAction::Dash));
                vstd::seq_lib::lemma_seq_contains_after_push(seq![ControlAction::Move], ControlAction::Dash, x);
            }
            lemma_one_action(ControlAction::Move, x);
        }
    }
    lemma_one_action(ControlAction::Select, ControlAction::Select);
    lemma_one_action(ControlAction::Shop, ControlAction::Shop);
    lemma_one_action(ControlAction::Quit, ControlAction::Quit);
    assert(!sel.contains(ControlAction::Shop) && !qu.contains(ControlAction::Shop));
    assert(!sh.contains(ControlAction::Quit) && !sel.contains(ControlAction::Quit));
    assert(!sh.contains(ControlAction::Select) && !qu.contains(ControlAction::Select));
    assert(!sel.contains(ControlAction::Move) && !sh.contains(ControlAction::Move) && !qu.contains(ControlAction::Move));
    assert(!sel.contains(ControlAction::Dash) && !sh.contains(ControlAction::Dash) && !qu.contains(ControlAction::Dash));
    assert(all.contains(ControlAction::Shop) <==> (!input.override_main && sh.contains(ControlAction::Shop)));
    assert(all.contains(ControlAction::Quit) <==> (!input.override_main && qu.contains(ControlAction::Quit)));
    assert(all.contains(ControlAction::Select) <==> (!input.override_main && sel.contains(ControlAction::Select)));
    assert(all.contains(ControlAction::Move) <==> (!input.override_main && m.contains(ControlAction::Move)));
    assert(all.contains(ControlAction::Dash) <==> (!input.override_main && m.contains(ControlAction::Dash)));
}

} // verus!
