//! Sessions (one fight, lobby or shop at a time), game states, cutscenes and
//! the order in which a new session is set up.

use vstd::prelude::*;

use crate::entity::Entity;
use crate::config::{ShopItem, StageDetails};
use crate::fx::PureColor;
use crate::progress::{all_defeated, defeated_in, Progress};
use crate::text::concat;
use vstd::std_specs::cmp::PartialEqSpec;
use vstd::std_specs::cmp::PartialEqSpecImpl;

verus! {

/// Whether the player plays or watches a cutscene.
#[derive(Clone, Copy, Debug, Eq, Default)]
pub enum GameState {
    #[default]
    Play,
    Cutscene,
}

impl PartialEq for GameState {
    fn eq(&self, other: &Self) -> (r: bool) {
        match (self, other) {
            (GameState::Play, GameState::Play) => true,
            (GameState::Cutscene, GameState::Cutscene) => true,
            _ => false,
        }
    }
}

impl PartialEqSpecImpl for GameState {
    open spec fn obeys_eq_spec() -> bool {
        true
    }

    open spec fn eq_spec(&self, other: &Self) -> bool {
        match (*self, *other) {
            (GameState::Play, GameState::Play) => true,
            (GameState::Cutscene, GameState::Cutscene) => true,
            _ => false,
        }
    }
}

/// Sub-states of `GameState::Play`.
#[derive(Clone, Copy, Debug, Eq, Default)]
pub enum PlayState {
    #[default]
    Fighting,
    Lobby,
    Shop,
}

impl PartialEq for PlayState {
    fn eq(&self, other: &Self) -> (r: bool) {
        match (self, other) {
            (PlayState::Fighting, PlayState::Fighting) => true,
            (PlayState::Lobby, PlayState::Lobby) => true,
            (PlayState::Shop, PlayState::Shop) => true,
            _ => false,
        }
    }
}

impl PartialEqSpecImpl for PlayState {
    open spec fn obeys_eq_spec() -> bool {
        true
    }

    open spec fn eq_spec(&self, other: &Self) -> bool {
        match (*self, *other) {
            (PlayState::Fighting, PlayState::Fighting) => true,
            (PlayState::Lobby, PlayState::Lobby) => true,
            (PlayState::Shop, PlayState::Shop) => true,
            _ => false,
        }
    }
}


/// The name of the current fight (or lobby, or shop).
#[derive(Debug)]
pub struct Fight(pub String);

/// Asks for a new session with the given fight.
#[derive(Debug)]
pub struct StartSession {
    pub fight: String,
}

/// Sent after `StartSession`, used for initializing values and adding counters.
#[derive(Debug)]
pub struct StartSessionFirst {
    pub fight: String,
    pub player_entity: Entity,
}

/// Sent after responding to `StartSessionFirst`, used for making modifications.
#[derive(Debug)]
pub struct StartSessionMiddle {
    pub fight: String,
    pub player_entity: Entity,
}

/// Sent after `StartSessionMiddle`, used for spawning addons.
#[derive(Debug)]
pub struct StartSessionAction {
    pub fight: String,
    pub player_entity: Entity,
}

/// Sent after `StartSessionAction`, used for spawning user interfaces.
#[derive(Debug)]
pub struct StartSessionLast {
    pub fight: String,
    pub player_entity: Entity,
}

/// Information about the current session.
#[derive(Clone, Copy, Debug, PartialEq, Eq, Structural, Default)]
pub struct CurrentSession {}

/// When the session changes, all entities marked with this are deleted.
#[derive(Clone, Copy, Debug, PartialEq, Eq, Structural, Default)]
pub struct SessionOnly;

/// When the session changes, all children of entities marked with this are deleted.
#[derive(Clone, Copy, Debug, PartialEq, Eq, Structural, Default)]
pub struct ChildSessionOnly;

/// Limits the moving range of entities: an invisible box.
#[derive(Clone, Copy, Debug, PartialEq, Eq, Structural, Default)]
pub struct Boundaries;

/// Whether every setup step of the current session is done.
#[derive(Clone, Copy, Debug, PartialEq, Eq, Structural, Default)]
pub struct InitializationComplete(pub bool);

/// Whether a system that should only run in `target` may run: setup is done
/// and the state is `target`. The game's state types (`GameState`,
/// `PlayState`) obey their equality, which is sameness of variant.
pub fn in_stable_state<S: PartialEq>(init_complete: &InitializationComplete, state: &S, target: &S) -> (r: bool)
    ensures
        S::obeys_eq_spec() ==> r == (init_complete.0 && state.eq_spec(target)),
{
    init_complete.0 && *state == *target
}

/// The setup steps that follow `StartSessionFirst`, one per frame.
#[derive(Clone, Copy, Debug, PartialEq, Eq, Structural)]
pub enum SetupStep {
    Middle,
    Action,
    Last,
}

/// Tracks which of the delayed setup events have been sent.
#[derive(Clone, Copy, Debug, PartialEq, Eq, Structural, Default)]
pub struct PostStartSessionSynchronizer {
    pub first_tick: bool,
    pub middle_sent: bool,
    pub action_sent: bool,
    pub last_sent: bool,
}

/// One frame of the delayed setup, on the synchronizer and the "setup is
/// complete" flag: the next setup event is sent (the first frame only waits),
/// and once the last one is sent the setup is complete. Nothing happens
/// without a primary player or once the setup is complete.
pub open spec fn setup_step(s: PostStartSessionSynchronizer, done: bool, has_player: bool) -> (
    PostStartSessionSynchronizer,
    bool,
    Option<SetupStep>,
) {
    if done || !has_player {
        (s, done, None)
    } else if !s.last_sent {
        if !s.action_sent {
            if !s.middle_sent {
                if s.first_tick {
                    (PostStartSessionSynchronizer { middle_sent: true, ..s }, done, Some(SetupStep::Middle))
                } else {
                    (PostStartSessionSynchronizer { first_tick: true, ..s }, done, None)
                }
            } else {
                (PostStartSessionSynchronizer { action_sent: true, ..s }, done, Some(SetupStep::Action))
            }
        } else {
            (PostStartSessionSynchronizer { last_sent: true, ..s }, done, Some(SetupStep::Last))
        }
    } else {
        (s, true, None)
    }
}

impl PostStartSessionSynchronizer {
    /// The state right after a session starts: nothing sent yet.
    pub open spec fn fresh() -> PostStartSessionSynchronizer {
        PostStartSessionSynchronizer {
            first_tick: false,
            middle_sent: false,
            action_sent: false,
            last_sent: false,
        }
    }

    /// One frame of the delayed setup (see `setup_step`).
    pub fn step(&mut self, init_complete: &mut InitializationComplete, has_primary_player: bool) -> (sent: Option<SetupStep>)
        ensures
            (*final(self), final(init_complete).0, sent) == setup_step(*old(self), old(init_complete).0, has_primary_player),
    {
        if init_complete.0 {
            return None;
        }
        if !has_primary_player {
            return None;
        }
        if !self.last_sent {
            if !self.action_sent {
                if !self.middle_sent {
                    if self.first_tick {
                        self.middle_sent = true;
                        Some(SetupStep::Middle)
                    } else {
                        self.first_tick = true;
                        None
                    }
                } else {
                    self.action_sent = true;
                    Some(SetupStep::Action)
                }
            } else {
                self.last_sent = true;
                Some(SetupStep::Last)
            }
        } else {
            init_complete.0 = true;
            None
        }
    }
}

/// The setup events come in order, each exactly once: with a primary player,
/// the five frames after a session starts send nothing, `Middle`, `Action`,
/// `Last`, nothing, and the setup is then complete and stays so.
pub proof fn law_setup_in_order()
    ensures
        ({
            let s0 = PostStartSessionSynchronizer::fresh();
            let r1 = setup_step(s0, false, true);
            let r2 = setup_step(r1.0, r1.1, true);
            let r3 = setup_step(r2.0, r2.1, true);
            let r4 = setup_step(r3.0, r3.1, true);
            let r5 = setup_step(r4.0, r4.1, true);
            &&& r1.2 is None && !r1.1
            &&& r2.2 == Some(SetupStep::Middle) && !r2.1
            &&& r3.2 == Some(SetupStep::Action) && !r3.1
            &&& r4.2 == Some(SetupStep::Last) && !r4.1
            &&& r5.2 is None && r5.1
            &&& forall|p: bool| #[trigger] setup_step(r5.0, r5.1, p) == (r5.0, true, None::<SetupStep>)
        }),
{
}

/// The message that sets up a session: when several arrive in one frame, the
/// last one counts.
pub fn session_to_set_up(messages: Vec<StartSession>) -> (r: Option<StartSession>)
    ensures
        messages@.len() == 0 ==> r is None,
        messages@.len() > 0 ==> (r matches Some(m) && m.fight == messages@.last().fight),
{
    let mut messages = messages;
    messages.pop()
}

/// The weapon slots of a new player: one empty slot per selected weapon, but
/// no more than the player has slots.
pub fn initial_weapons(progress: &Progress) -> (w: Vec<Option<Entity>>)
    ensures
        w@.len() == if progress.selected_weapons@.len() < progress.weapon_slots {
            progress.selected_weapons@.len()
        } else {
            progress.weapon_slots as nat
        },
        forall|i: int| 0 <= i < w@.len() ==> w@[i] is None,
{
    let n = if progress.selected_weapons.len() < progress.weapon_slots {
        progress.selected_weapons.len()
    } else {
        progress.weapon_slots
    };
    let mut w: Vec<Option<Entity>> = Vec::new();
    let mut i: usize = 0;
    while i < n
        invariant
            i <= n,
            w@.len() == i,
            forall|j: int| 0 <= j < w@.len() ==> w@[j] is None,
        decreases n - i,
    {
        w.push(None);
        i = i + 1;
    }
    w
}

/// The kinds of player health.
#[derive(Clone, Copy, Debug, PartialEq, Eq, Structural)]
pub enum HealthKind {
    BasicHp,
}

/// The health the player starts a session with, and whether the selection was
/// known: unknown selections fall back to `BasicHp` (with a warning).
pub fn selected_health(progress: &Progress) -> (r: (HealthKind, bool))
    ensures
        r.0 == HealthKind::BasicHp,
        r.1 == (progress.selected_health@ == "BasicHp"@),
{
    let known = progress.selected_health == "BasicHp".to_owned();
    (HealthKind::BasicHp, known)
}

/// The session that the pseudo-fight `LobbySelect` leads to: the lobby the
/// player was in last.
pub fn select_lobby(fight: &str, progress: &Progress) -> (r: Option<StartSession>)
    ensures
        r is Some == (fight@ == "LobbySelect"@),
        r matches Some(s) ==> s.fight@ == progress.current_lobby@,
{
    if fight.to_owned() == "LobbySelect".to_owned() {
        Some(StartSession { fight: progress.current_lobby.clone() })
    } else {
        None
    }
}

/// Whether a new session resets the hit tracking: fights whose names start
/// with `_` are in-between states and keep it.
pub fn resets_hit_tracking(fight: &str) -> (r: bool)
    ensures
        r == !(fight@.len() > 0 && fight@[0] == '_'),
{
    let r = crate::text::starts_with(fight, "_");
    proof {
        reveal_strlit("_");
        if fight@.len() > 0 && fight@[0] == '_' {
            assert(fight@.take(1) =~= "_"@);
        }
        if r {
            assert(fight@.take(1)[0] == "_"@[0]);
        }
    }
    !r
}

/// The resource that records whether the player was hit in this fight.
#[derive(Clone, Copy, Debug, PartialEq, Eq, Structural, Default)]
pub struct AnyHits(pub bool);

impl AnyHits {
    /// The player was actually hit.
    pub fn record_hit(&mut self)
        ensures
            final(self).0,
    {
        self.0 = true;
    }
}

/// The session that comes after a cutscene.
#[derive(Debug)]
pub struct CutsceneNext {
    pub event: StartSession,
}

impl CutsceneNext {
    pub fn new(event: StartSession) -> (c: CutsceneNext)
        ensures
            c.event == event,
    {
        CutsceneNext { event }
    }
}

/// Marks an entity the cutscene waits for: the next session loads once all are gone.
#[derive(Clone, Copy, Debug, PartialEq, Eq, Structural, Default)]
pub struct CutsceneWait;

/// Marks an entity deleted when a cutscene starts.
#[derive(Clone, Copy, Debug, PartialEq, Eq, Structural, Default)]
pub struct CutsceneDelete;

/// The fight the next session loads once no entity is waited for any more.
pub fn cutscene_ready(next: Option<&CutsceneNext>, waiting: usize) -> (r: Option<String>)
    ensures
        r is Some == (next is Some && waiting == 0),
        r matches Some(f) ==> f@ == next.unwrap().event.fight@,
{
    match next {
        Some(n) => {
            if waiting == 0 {
                Some(n.event.fight.clone())
            } else {
                None
            }
        },
        None => None,
    }
}

/// What the engine does when the player fails: nothing during a cutscene;
/// otherwise the player loses control, a cutscene starts and leads back to
/// the lobby.
pub fn on_player_fail(state: GameState) -> (next: Option<CutsceneNext>)
    ensures
        state == GameState::Cutscene ==> next is None,
        state == GameState::Play ==> (next matches Some(n) && n.event.fight@ == "LobbySelect"@),
{
    match state {
        GameState::Cutscene => None,
        GameState::Play => Some(CutsceneNext::new(StartSession { fight: "LobbySelect".to_owned() })),
    }
}

/// What the engine does when the player wins: nothing during a cutscene;
/// otherwise the tasks of the current fight are updated and a cutscene leads
/// to the victory session.
pub fn on_player_win(state: GameState, fight: &Fight) -> (r: Option<(String, CutsceneNext)>)
    ensures
        state == GameState::Cutscene ==> r is None,
        state == GameState::Play ==> (r matches Some(p) && p.0@ == fight.0@ && p.1.event.fight@
            == "Victory"@),
{
    match state {
        GameState::Cutscene => None,
        GameState::Play => Some(
            (fight.0.clone(), CutsceneNext::new(StartSession { fight: "Victory".to_owned() })),
        ),
    }
}

/// Marks a boss: once it is defeated and removed, the player wins.
#[derive(Clone, Copy, Debug, PartialEq, Eq, Structural, Default)]
pub struct DefeatToWin {
    pub defeated: bool,
}

impl DefeatToWin {
    /// The boss was defeated.
    pub fn set_defeated(&mut self)
        ensures
            final(self).defeated,
    {
        self.defeated = true;
    }

    /// Whether removing the boss makes the player win: it must have been
    /// defeated, and the game must be in play.
    pub fn wins_on_removal(&self, state: GameState) -> (r: bool)
        ensures
            r == (self.defeated && state == GameState::Play),
    {
        self.defeated && state == GameState::Play
    }
}

/// Global event that the player defeated the boss.
#[derive(Clone, Copy, Debug, PartialEq, Eq, Structural, Default)]
pub struct PlayerWin {
    /// For manual cutscenes instead of the default one.
    pub skip_cutscene: bool,
}

/// Global event that the player died.
#[derive(Clone, Copy, Debug, PartialEq, Eq, Structural, Default)]
pub struct PlayerFail;

/// Asks to update the tasks of this fight.
#[derive(Debug)]
pub struct UpdateTasks {
    pub fight: String,
}

/// The session the victory pseudo-fight leaves to.
pub fn leave_victory() -> (s: StartSession)
    ensures
        s.fight@ == "LobbySelect"@,
{
    StartSession { fight: "LobbySelect".to_owned() }
}

/// What happens to each pending pure-colour cutscene this frame: the first
/// one starts when no cutscene runs, all others are dropped. Returns, for
/// each, whether it starts, and the game state after.
pub fn schedule_pure_color_cutscenes(state: GameState, count: usize) -> (r: (Vec<bool>, GameState))
    ensures
        r.0@.len() == count,
        forall|i: int| 0 <= i < count ==> r.0@[i] == (i == 0 && state == GameState::Play),
        r.1 == (if count > 0 { GameState::Cutscene } else { state }),
{
    let mut has_cutscene = state == GameState::Cutscene;
    let mut starts: Vec<bool> = Vec::new();
    let mut i: usize = 0;
    while i < count
        invariant
            i <= count,
            starts@.len() == i,
            has_cutscene == (state == GameState::Cutscene || i > 0),
            forall|j: int| 0 <= j < i ==> starts@[j] == (j == 0 && state == GameState::Play),
        decreases count - i,
    {
        if has_cutscene {
            starts.push(false);
        } else {
            starts.push(true);
            has_cutscene = true;
        }
        i = i + 1;
    }
    (starts, if count > 0 { GameState::Cutscene } else { state })
}

/// When new background music starts, every other music fades out: returns,
/// for each music, whether it fades out.
pub fn music_to_fade(added: &Vec<bool>) -> (fade: Vec<bool>)
    ensures
        fade@.len() == added@.len(),
        forall|i: int|
            0 <= i < added@.len() ==> fade@[i] == (!added@[i] && exists|j: int|
                0 <= j < added@.len() && added@[j]),
{
    let mut any_added = false;
    let mut i: usize = 0;
    while i < added.len()
        invariant
            i <= added@.len(),
            any_added == exists|j: int| 0 <= j < i && added@[j],
        decreases added@.len() - i,
    {
        if added[i] {
            any_added = true;
        }
        i = i + 1;
    }
    let mut fade: Vec<bool> = Vec::new();
    let mut k: usize = 0;
    while k < added.len()
        invariant
            k <= added@.len(),
            fade@.len() == k,
            any_added == exists|j: int| 0 <= j < added@.len() && added@[j],
            forall|j: int| 0 <= j < k ==> fade@[j] == (!added@[j] && any_added),
        decreases added@.len() - k,
    {
        fade.push(any_added && !added[k]);
        k = k + 1;
    }
    fade
}

/// The name of the lobby the player is in.
#[derive(Clone, Debug, PartialEq, Eq, Default)]
pub struct LobbyName(pub String);

/// Sent by lobby controls to leave the lobby.
#[derive(Clone, Copy, Debug, PartialEq, Eq, Structural, Default)]
pub struct LobbyQuit;

/// Only the `Gate` lobby is laid out by the lobby rules; other fights are not lobbies.
pub fn is_lobby(fight: &str) -> (r: bool)
    ensures
        r == (fight@ == "Gate"@),
{
    fight.to_owned() == "Gate".to_owned()
}

/// Which locks of the lobby stay closed: a lock opens once every boss that
/// opens it is defeated.
pub fn closed_locks(progress: &Progress, stage: &StageDetails) -> (closed: Vec<bool>)
    ensures
        closed@.len() == stage.lock_prereqs@.len(),
        forall|i: int|
            0 <= i < closed@.len() ==> #[trigger] closed@[i] == !(forall|b: Seq<char>|
                stage.lock_prereqs@[i]@.contains(b) ==> defeated_in(progress.boss_progress@, b)),
{
    let mut closed: Vec<bool> = Vec::new();
    let mut i: usize = 0;
    while i < stage.lock_prereqs.len()
        invariant
            i <= stage.lock_prereqs@.len(),
            closed@.len() == i,
            forall|j: int|
                0 <= j < i ==> #[trigger] closed@[j] == !(forall|b: Seq<char>|
                    stage.lock_prereqs@[j]@.contains(b) ==> defeated_in(progress.boss_progress@, b)),
        decreases stage.lock_prereqs@.len() - i,
    {
        let open = all_defeated(&progress.boss_progress, &stage.lock_prereqs[i]);
        closed.push(!open);
        i = i + 1;
    }
    closed
}

/// The text key of the window title in a lobby: `<lobby>_WindowTitle`.
pub fn window_title_key(lobby: &LobbyName) -> (key: String)
    ensures
        key@ == lobby.0@ + "_WindowTitle"@,
{
    concat(lobby.0.as_str(), "_WindowTitle")
}

/// The save is written while the player is in a lobby, when the lobby
/// changes or a cutscene starts (the player leaves it).
pub fn should_write_save(
    in_lobby: bool,
    has_primary_player: bool,
    game_state_changed: bool,
    game_state: GameState,
    lobby_changed: bool,
) -> (write: bool)
    ensures
        write == (in_lobby && has_primary_player && (lobby_changed || (game_state_changed && game_state
            == GameState::Cutscene))),
{
    if !in_lobby || !has_primary_player {
        return false;
    }
    let exit_lobby = game_state_changed && game_state == GameState::Cutscene;
    lobby_changed || exit_lobby
}

/// Remembers the lobby the player leaves.
pub fn record_lobby(progress: &mut Progress, lobby: &LobbyName)
    ensures
        *final(progress) == (Progress { current_lobby: lobby.0, ..*old(progress) }),
{
    progress.current_lobby = lobby.0.clone();
}

/// Sent to start the transition into the shop of a fight.
#[derive(Clone, Debug, PartialEq, Eq)]
pub struct EnterShop {
    pub fight: String,
}

/// The transition into the shop of `fight`: a colour transition of 0.8
/// seconds that removes itself, then the shop's session.
pub fn enter_shop_cutscene(event: &EnterShop) -> (c: PureColorCutscene)
    ensures
        c.fight@ == event.fight@,
        c.transition == (PureColor { destroy: None, duration: 800_000_000, remove_self: true }),
{
    PureColorCutscene {
        transition: PureColor { destroy: None, duration: 800_000_000, remove_self: true },
        fight: event.fight.clone(),
    }
}

/// Tells other systems that an item was bought.
#[derive(Clone, Debug, PartialEq, Eq)]
pub struct PurchaseItemSuccess {
    pub item: ShopItem,
}

/// Marks the text that tells how to open the shop.
#[derive(Clone, Copy, Debug, PartialEq, Eq, Structural, Default)]
pub struct ShopIndicator;

/// The shop closes on its key, on Escape or on Backspace: a transition back
/// to the lobby selection.
pub fn quit_shop(pressed_shop: bool, pressed_escape: bool, pressed_backspace: bool) -> (next: Option<
    PureColorCutscene,
>)
    ensures
        next is Some == (pressed_shop || pressed_escape || pressed_backspace),
        next matches Some(c) ==> c.fight@ == "LobbySelect"@ && c.transition.destroy.is_none()
            && c.transition.remove_self && c.transition.duration == 800_000_000,
{
    if pressed_shop || pressed_escape || pressed_backspace {
        Some(
            PureColorCutscene {
                transition: PureColor { destroy: None, duration: 800_000_000, remove_self: true },
                fight: "LobbySelect".to_owned(),
            },
        )
    } else {
        None
    }
}

/// Spawn this to enter a cutscene with a colour transition, then another session.
#[derive(Clone, Debug, PartialEq, Eq)]
pub struct PureColorCutscene {
    pub transition: PureColor,
    pub fight: String,
}

} // verus!
