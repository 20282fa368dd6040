//! Players, weapons, projectiles and movement rules: attack events,
//! weapon slots, when projectiles are disposed, damage sounds, sprite
//! flipping, dashes and the parts of forced velocity.

use vstd::prelude::*;

use crate::entity::Entity;
use crate::health::Shields;
use crate::timer::{remaining_spec, tick_spec, Timer};

verus! {

/// Calls the player to use an attack. How to respond depends on the weapon.
#[derive(Clone, Copy, Debug, PartialEq, Eq, Structural)]
pub struct Attack {
    pub entity: Entity,
}

/// Informs the player weapon that the player released the attack key.
#[derive(Clone, Copy, Debug, PartialEq, Eq, Structural)]
pub struct AttackRelease {
    pub entity: Entity,
}

/// An attack reaches every child of the entity it is sent to, in order.
pub fn propagate_attack_down(children: &Vec<Entity>) -> (events: Vec<Attack>)
    ensures
        events@.len() == children@.len(),
        forall|i: int| 0 <= i < children@.len() ==> #[trigger] events@[i] == (Attack { entity: children@[i] }),
{
    let mut events: Vec<Attack> = Vec::new();
    let mut i: usize = 0;
    while i < children.len()
        invariant
            i <= children@.len(),
            events@.len() == i,
            forall|j: int| 0 <= j < i ==> #[trigger] events@[j] == (Attack { entity: children@[j] }),
        decreases children@.len() - i,
    {
        events.push(Attack { entity: children[i] });
        i = i + 1;
    }
    events
}

/// A released attack reaches every child of the entity it is sent to, in order.
pub fn propagate_attack_release_down(children: &Vec<Entity>) -> (events: Vec<AttackRelease>)
    ensures
        events@.len() == children@.len(),
        forall|i: int|
            0 <= i < children@.len() ==> #[trigger] events@[i] == (AttackRelease { entity: children@[i] }),
{
    let mut events: Vec<AttackRelease> = Vec::new();
    let mut i: usize = 0;
    while i < children.len()
        invariant
            i <= children@.len(),
            events@.len() == i,
            forall|j: int| 0 <= j < i ==> #[trigger] events@[j] == (AttackRelease { entity: children@[j] }),
        decreases children@.len() - i,
    {
        events.push(AttackRelease { entity: children[i] });
        i = i + 1;
    }
    events
}

/// The weapons that the player chooses, one slot each; an empty slot holds none.
#[derive(Clone, Debug, PartialEq, Eq, Default)]
pub struct Weapons(pub Vec<Option<Entity>>);

/// A new set of weapon slots gets exactly as many slots as the player owns:
/// extra slots are cut off, missing ones are added empty.
pub fn init_weapons(weapons: &mut Weapons, weapon_slots: usize)
    ensures
        final(weapons).0@.len() == weapon_slots,
        forall|i: int|
            0 <= i < weapon_slots ==> #[trigger] final(weapons).0@[i] == if i < old(weapons).0@.len() {
                old(weapons).0@[i]
            } else {
                None
            },
{
    if weapon_slots <= weapons.0.len() {
        weapons.0.truncate(weapon_slots);
    } else {
        while weapons.0.len() < weapon_slots
            invariant
                old(weapons).0@.len() <= weapons.0@.len() <= weapon_slots,
                forall|i: int|
                    0 <= i < weapons.0@.len() ==> #[trigger] weapons.0@[i] == if i < old(weapons).0@.len() {
                        old(weapons).0@[i]
                    } else {
                        None
                    },
            decreases weapon_slots - weapons.0@.len(),
        {
            weapons.0.push(None);
        }
    }
}

/// Marks a projectile spawned by the player.
#[derive(Clone, Copy, Debug, PartialEq, Eq, Structural, Default)]
pub struct PlayerProjectile;

/// Marks a sound to be played only while the player holds the weapon key.
#[derive(Clone, Copy, Debug, PartialEq, Eq, Structural, Default)]
pub struct WeaponSoundCue;

/// A weapon cue plays while its attack is held: an attack unpauses it.
/// Returns whether the sound had to change.
pub fn sound_weapon_cue_start(paused: &mut bool) -> (changed: bool)
    ensures
        !*final(paused),
        changed == *old(paused),
{
    let changed = *paused;
    if changed {
        *paused = false;
    }
    changed
}

/// Releasing the attack pauses the cue. Returns whether the sound had to change.
pub fn sound_weapon_cue_end(paused: &mut bool) -> (changed: bool)
    ensures
        *final(paused),
        changed == !*old(paused),
{
    let changed = !*paused;
    if changed {
        *paused = true;
    }
    changed
}

/// Marks a projectile of either the player or an enemy.
#[derive(Clone, Copy, Debug, PartialEq, Eq, Structural, Default)]
pub struct Projectile {
    /// Keeps the projectile when it collides.
    pub no_dispose: bool,
}

impl Projectile {
    /// The same projectile, kept when it collides.
    pub fn no_dispose(self) -> (p: Projectile)
        ensures
            p.no_dispose,
    {
        let mut p = self;
        p.no_dispose = true;
        p
    }
}

/// Disables collision with boundaries for certain objects.
#[derive(Clone, Copy, Debug, PartialEq, Eq, Structural, Default)]
pub struct NoCollideBoundary;

/// Disables the ability to dispose projectiles and weapon ranges for some sensors.
#[derive(Clone, Copy, Debug, PartialEq, Eq, Structural, Default)]
pub struct NoDisposeProjectile;

/// A projectile is disposed one frame after it collides with something that
/// is not marked `NoDisposeProjectile`, unless it is kept on collision.
/// `others_keep` lists, for each current contact, whether the other side
/// carries that marker.
pub fn disposes_after_collision(projectile: &Projectile, others_keep: &Vec<bool>) -> (dispose: bool)
    ensures
        dispose == (!projectile.no_dispose && exists|i: int| 0 <= i < others_keep@.len() && !others_keep@[i]),
{
    if projectile.no_dispose {
        return false;
    }
    let mut i: usize = 0;
    while i < others_keep.len()
        invariant
            !projectile.no_dispose,
            i <= others_keep@.len(),
            forall|j: int| 0 <= j < i ==> others_keep@[j],
        decreases others_keep@.len() - i,
    {
        if !others_keep[i] {
            assert(!others_keep@[i as int]);
            return true;
        }
        i = i + 1;
    }
    false
}

/// Marks a projectile of an enemy.
#[derive(Clone, Copy, Debug, PartialEq, Eq, Structural, Default)]
pub struct EnemyProjectile;

/// Marks an enemy minion. It does not behave like a projectile, which is
/// disposed when out of bounds or after contact.
#[derive(Clone, Copy, Debug, PartialEq, Eq, Structural, Default)]
pub struct Minion;

/// The sound an enemy plays while it takes damage.
#[derive(Clone, Debug, PartialEq, Eq, Default)]
pub struct DamageSound(pub String);

impl DamageSound {
    pub fn new(name: String) -> (s: DamageSound)
        ensures
            s.0 == name,
    {
        DamageSound(name)
    }
}

/// How many frames a damage sound keeps playing after the last hit.
pub const DAMAGE_SOUND_FRAMES: u8 = 15;

/// Keeps one damage sound playing while hits keep coming.
#[derive(Clone, Copy, Debug, PartialEq, Eq, Structural, Default)]
pub struct DamageSoundContinuous {
    /// Frames left before the sound stops.
    pub flag: u8,
    /// The playing sound, if any.
    pub child: Option<Entity>,
}

impl DamageSoundContinuous {
    /// A hit keeps the sound going for a while; returns whether a sound must
    /// be started (none is playing).
    pub fn on_damage(&mut self) -> (start: bool)
        ensures
            final(self).flag == DAMAGE_SOUND_FRAMES,
            final(self).child == old(self).child,
            start == old(self).child.is_none(),
    {
        self.flag = DAMAGE_SOUND_FRAMES;
        self.child.is_none()
    }

    /// Records the sound that was started.
    pub fn attach(&mut self, child: Entity)
        ensures
            final(self).child == Some(child),
            final(self).flag == old(self).flag,
    {
        self.child = Some(child);
    }

    /// Runs once a frame: when the time is up, the playing sound is returned
    /// to be despawned and forgotten; the counter goes down, stopping at zero.
    pub fn reset(&mut self) -> (stop: Option<Entity>)
        ensures
            *final(self) == reset_spec(*old(self)),
            stop == if old(self).flag == 0 {
                old(self).child
            } else {
                None
            },
            final(self).child == if old(self).flag == 0 {
                None
            } else {
                old(self).child
            },
            final(self).flag == if old(self).flag == 0 {
                0
            } else {
                (old(self).flag - 1) as u8
            },
    {
        let mut stop = None;
        if self.flag == 0 {
            if let Some(child) = self.child {
                stop = Some(child);
                self.child = None;
            }
        }
        self.flag = self.flag.saturating_sub(1);
        stop
    }
}

/// Sent to the entity to notify when a displacement is over.
#[derive(Clone, Copy, Debug, PartialEq, Eq, Structural)]
pub struct DisplacementComplete {
    pub entity: Entity,
}

/// Marks the player.
#[derive(Clone, Copy, Debug, PartialEq, Eq, Structural, Default)]
pub struct Player;

/// Stores which player can be directly controlled.
#[derive(Clone, Copy, Debug, PartialEq, Eq, Structural)]
pub struct PrimaryPlayer(pub Entity);

/// Added to a part of velocity so that speed shrinking leaves it out.
#[derive(Clone, Copy, Debug, PartialEq, Eq, Structural, Default)]
pub struct SpeedShrinkExclude;

/// An entity without a rigid body moves directly by its velocity.
#[derive(Clone, Copy, Debug, PartialEq, Eq, Structural, Default)]
pub struct DirectVelocity;

/// Automatically flips the sprite's selected axis based on velocity. The
/// sprite's default direction is given by sign (1 or -1); 0 leaves the axis alone.
#[derive(Clone, Copy, Debug, PartialEq, Eq, Structural, Default)]
pub struct AutoFlip {
    pub x: i8,
    pub y: i8,
}

impl AutoFlip {
    /// Flips horizontally; `x` is the default direction.
    pub fn flip_x(x: i8) -> (f: AutoFlip)
        ensures
            f == (AutoFlip { x, y: 0 }),
    {
        AutoFlip { x, y: 0 }
    }

    /// Flips vertically; `y` is the default direction.
    pub fn flip_y(y: i8) -> (f: AutoFlip)
        ensures
            f == (AutoFlip { x: 0, y }),
    {
        AutoFlip { x: 0, y }
    }
}

/// How the velocity reads along one axis.
#[derive(Clone, Copy, Debug, PartialEq, Eq, Structural, Default)]
pub struct AxisMotion {
    /// The speed along the axis is at least the flipping threshold.
    pub fast: bool,
    /// The velocity along the axis is positive.
    pub positive: bool,
}

/// The sprite flips and the recorded directions (1, -1, or 0 before any flip).
#[derive(Clone, Copy, Debug, PartialEq, Eq, Structural, Default)]
pub struct FlipState {
    pub flip_x: bool,
    pub flip_y: bool,
    pub status_x: i8,
    pub status_y: i8,
}

/// The sprite flips when the velocity points against its default direction.
pub open spec fn should_flip(default_dir: i8, positive: bool) -> bool {
    positive != (default_dir > 0)
}

/// One frame of automatic flipping. For each selected axis that moves fast
/// enough, an unset status becomes 1; when the sprite's flip must change it
/// changes and the direction of the motion along that axis is recorded in
/// the axis's own status entry.
pub open spec fn auto_flip_spec(flip: AutoFlip, vx: AxisMotion, vy: AxisMotion, s: FlipState) -> FlipState {
    let s1 = if flip.x != 0 && vx.fast {
        let sx = if s.status_x == 0 { 1i8 } else { s.status_x };
        let want = should_flip(flip.x, vx.positive);
        if s.flip_x != want {
            FlipState { flip_x: want, status_x: if vx.positive { 1i8 } else { -1i8 }, ..s }
        } else {
            FlipState { status_x: sx, ..s }
        }
    } else {
        s
    };
    if flip.y != 0 && vy.fast {
        let sy = if s1.status_y == 0 { 1i8 } else { s1.status_y };
        let want = should_flip(flip.y, vy.positive);
        if s1.flip_y != want {
            FlipState { flip_y: want, status_y: if vy.positive { 1i8 } else { -1i8 }, ..s1 }
        } else {
            FlipState { status_y: sy, ..s1 }
        }
    } else {
        s1
    }
}

/// Flips the sprite by the velocity for one frame.
pub fn auto_flip(flip: &AutoFlip, vx: AxisMotion, vy: AxisMotion, state: &mut FlipState)
    ensures
        *final(state) == auto_flip_spec(*flip, vx, vy, *old(state)),
{
    if flip.x != 0 && vx.fast {
        if state.status_x == 0 {
            state.status_x = 1;
        }
        let want = vx.positive != (flip.x > 0);
        if state.flip_x != want {
            state.flip_x = want;
            state.status_x = if vx.positive { 1 } else { -1 };
        }
    }
    if flip.y != 0 && vy.fast {
        if state.status_y == 0 {
            state.status_y = 1;
        }
        let want = vy.positive != (flip.y > 0);
        if state.flip_y != want {
            state.flip_y = want;
            state.status_y = if vy.positive { 1 } else { -1 };
        }
    }
}

/// The durations of a dash, in nanoseconds.
#[derive(Clone, Copy, Debug, PartialEq, Eq, Structural, Default)]
pub struct DashDurations {
    pub total: u64,
    pub invincible: u64,
    pub cooldown: u64,
}

/// The clocks of a dash.
#[derive(Clone, Copy, Debug, PartialEq, Eq, Structural)]
pub struct DashTimers {
    pub total: Timer,
    pub cooldown: Timer,
    pub invincible: Timer,
}

/// Fresh clocks for a dash of the given durations.
pub open spec fn fresh_dash(d: DashDurations) -> DashTimers {
    DashTimers { total: Timer::new(d.total), cooldown: Timer::new(d.cooldown), invincible: Timer::new(d.invincible) }
}

/// A timer run to its end.
pub open spec fn finished_timer(t: Timer) -> Timer {
    tick_spec(t, remaining_spec(t))
}

impl DashTimers {
    /// Clocks that allow a dash right away: everything is finished.
    pub fn refreshed(d: DashDurations) -> (t: DashTimers)
        ensures
            t == (DashTimers {
                total: finished_timer(Timer::new(d.total)),
                cooldown: finished_timer(Timer::new(d.cooldown)),
                invincible: finished_timer(Timer::new(d.invincible)),
            }),
    {
        let mut total = Timer::new(d.total);
        let mut cooldown = Timer::new(d.cooldown);
        let mut invincible = Timer::new(d.invincible);
        total.finish();
        invincible.finish();
        cooldown.finish();
        DashTimers { total, cooldown, invincible }
    }

    /// Starts a dash when the cooldown is over: the clocks start afresh and,
    /// for a dash with invincibility, a full shield of order `invinc_order`
    /// goes up. Returns whether the dash started.
    pub fn start(&mut self, shields: &mut Shields, d: DashDurations, invinc_order: u8) -> (started: bool)
        ensures
            started == old(self).cooldown.finished,
            started ==> *final(self) == fresh_dash(d),
            !started ==> *final(self) == *old(self),
            final(shields).0@ == if started && d.invincible > 0 {
                old(shields).0@.insert(invinc_order, i32::MAX)
            } else {
                old(shields).0@
            },
    {
        if !self.cooldown.is_finished() {
            return false;
        }
        self.total = Timer::new(d.total);
        self.invincible = Timer::new(d.invincible);
        self.cooldown = Timer::new(d.cooldown);
        if d.invincible > 0 {
            shields.0.insert(invinc_order, i32::MAX);
        }
        true
    }

    /// One frame of a dash: while it lasts its total and invincibility clocks
    /// run, afterwards the cooldown runs. The invincibility shield goes once
    /// the invincibility is over, or once the dash is over.
    pub fn perform(&mut self, shields: &mut Shields, delta: u64, invinc_order: u8)
        requires
            !old(self).total.finished ==> old(self).total.elapsed + delta <= u64::MAX && (
            old(self).invincible.finished || old(self).invincible.elapsed + delta <= u64::MAX),
            old(self).total.finished && !old(self).cooldown.finished ==> old(self).cooldown.elapsed + delta
                <= u64::MAX,
        ensures
            *final(self) == if !old(self).total.finished {
                DashTimers {
                    total: tick_spec(old(self).total, delta),
                    invincible: tick_spec(old(self).invincible, delta),
                    ..*old(self)
                }
            } else if !old(self).cooldown.finished {
                DashTimers { cooldown: tick_spec(old(self).cooldown, delta), ..*old(self) }
            } else {
                *old(self)
            },
            final(shields).0@ == if final(self).invincible.finished || (final(self).total.finished
                && old(shields).0@.contains_key(invinc_order)) {
                old(shields).0@.remove(invinc_order)
            } else {
                old(shields).0@
            },
    {
        if !self.total.is_finished() {
            self.total.tick(delta);
            self.invincible.tick(delta);
        } else if !self.cooldown.is_finished() {
            self.cooldown.tick(delta);
        }
        if self.invincible.is_finished() || self.total.is_finished() && shields.0.contains_key(&invinc_order) {
            shields.0.remove(&invinc_order);
        }
    }
}

/// What the forced velocity reads of one of its parts.
#[derive(Clone, Copy, Debug, PartialEq, Eq, Structural, Default)]
pub struct PartState {
    /// For a part linked to another entity: whether that entity still exists.
    pub linked_alive: Option<bool>,
    /// The part changed since the last frame.
    pub changed: bool,
}

/// A part linked to an entity that is gone is despawned.
pub open spec fn part_kept(p: PartState) -> bool {
    p.linked_alive != Some(false)
}

/// Which parts of a forced velocity stay, and whether the total must be
/// recomputed (some part went away or changed). The total is the sum of the
/// parts that stay.
pub fn forced_velocity_parts(parts: &Vec<PartState>) -> (r: (Vec<bool>, bool))
    ensures
        r.0@.len() == parts@.len(),
        forall|i: int| 0 <= i < parts@.len() ==> #[trigger] r.0@[i] == part_kept(parts@[i]),
        r.1 == exists|i: int| 0 <= i < parts@.len() && (!part_kept(parts@[i]) || parts@[i].changed),
{
    let mut keep: Vec<bool> = Vec::new();
    let mut any_changed = false;
    let mut i: usize = 0;
    while i < parts.len()
        invariant
            i <= parts@.len(),
            keep@.len() == i,
            forall|j: int| 0 <= j < i ==> #[trigger] keep@[j] == part_kept(parts@[j]),
            any_changed == exists|j: int| 0 <= j < i && (!part_kept(parts@[j]) || parts@[j].changed),
        decreases parts@.len() - i,
    {
        let p = parts[i];
        let kept = match p.linked_alive {
            Some(alive) => alive,
            None => true,
        };
        keep.push(kept);
        if !kept || p.changed {
            any_changed = true;
        }
        proof {
            if any_changed && !(!kept || p.changed) {
                let j = choose|j: int| 0 <= j < i && (!part_kept(parts@[j]) || parts@[j].changed);
                assert(0 <= j < i + 1);
            }
        }
        i = i + 1;
    }
    (keep, any_changed)
}

/// After a frame of flipping, a selected axis that moved fast shows the
/// sprite flipped exactly when the motion points against its default direction;
/// each axis records its own direction, and an axis that did not move fast
/// keeps its flip and its status.
pub proof fn law_flip_follows_motion(flip: AutoFlip, vx: AxisMotion, vy: AxisMotion, s: FlipState)
    ensures
        s.flip_y != should_flip(flip.y, vy.positive) && flip.y != 0 && vy.fast ==> auto_flip_spec(flip, vx, vy, s).status_y == (if vy.positive { 1i8 } else { -1i8 }),
        !(flip.x != 0 && vx.fast) ==> auto_flip_spec(flip, vx, vy, s).status_x == s.status_x,
        !(flip.y != 0 && vy.fast) ==> auto_flip_spec(flip, vx, vy, s).status_y == s.status_y,
        flip.x != 0 && vx.fast ==> auto_flip_spec(flip, vx, vy, s).flip_x == should_flip(flip.x, vx.positive),
        flip.y != 0 && vy.fast ==> auto_flip_spec(flip, vx, vy, s).flip_y == should_flip(flip.y, vy.positive),
        !(flip.x != 0 && vx.fast) ==> auto_flip_spec(flip, vx, vy, s).flip_x == s.flip_x,
        !(flip.y != 0 && vy.fast) ==> auto_flip_spec(flip, vx, vy, s).flip_y == s.flip_y,
{
}

/// A dash that just started cannot start again before its cooldown has run:
/// the fresh cooldown is not finished.
pub proof fn law_no_dash_during_cooldown(d: DashDurations)
    ensures
        !fresh_dash(d).cooldown.finished,
        !fresh_dash(d).total.finished,
{
}

/// The damage sound plays for as long as hits come at least every
/// `DAMAGE_SOUND_FRAMES` frames: after a hit, that many frames pass before
/// the sound is stopped.
pub proof fn law_damage_sound_lasts(s: DamageSoundContinuous, frames: nat)
    requires
        s.flag == DAMAGE_SOUND_FRAMES,
        frames <= DAMAGE_SOUND_FRAMES,
    ensures
        after_resets(s, frames).child == s.child,
        after_resets(s, frames).flag == DAMAGE_SOUND_FRAMES - frames,
        after_resets(s, DAMAGE_SOUND_FRAMES as nat + 1).child.is_none(),
    decreases frames,
{
    if frames > 0 {
        law_damage_sound_lasts(s, (frames - 1) as nat);
    }
    lemma_resets_to_zero(s);
}

/// The state after a number of frames without hits.
pub open spec fn after_resets(s: DamageSoundContinuous, frames: nat) -> DamageSoundContinuous
    decreases frames,
{
    if frames == 0 {
        s
    } else {
        reset_spec(after_resets(s, (frames - 1) as nat))
    }
}

/// One frame without hits.
pub open spec fn reset_spec(s: DamageSoundContinuous) -> DamageSoundContinuous {
    DamageSoundContinuous {
        flag: if s.flag == 0 {
            0
        } else {
            (s.flag - 1) as u8
        },
        child: if s.flag == 0 {
            None
        } else {
            s.child
        },
    }
}

proof fn lemma_resets_to_zero(s: DamageSoundContinuous)
    requires
        s.flag == DAMAGE_SOUND_FRAMES,
    ensures
        after_resets(s, DAMAGE_SOUND_FRAMES as nat).flag == 0,
        after_resets(s, DAMAGE_SOUND_FRAMES as nat + 1).child.is_none(),
{
    lemma_resets_count(s, DAMAGE_SOUND_FRAMES as nat);
}

proof fn lemma_resets_count(s: DamageSoundContinuous, frames: nat)
    requires
        s.flag == DAMAGE_SOUND_FRAMES,
        frames <= DAMAGE_SOUND_FRAMES,
    ensures
        after_resets(s, frames).flag == DAMAGE_SOUND_FRAMES - frames,
    decreases frames,
{
    if frames > 0 {
        lemma_resets_count(s, (frames - 1) as nat);
    }
}

} // verus!
