//! Damage, layered shields and the health pools of enemies and players.

use std::collections::BTreeMap;
use vstd::prelude::*;

use crate::entity::Entity;
use crate::timer::{tick_spec, Timer};

verus! {

/// Sends an event to damage the entity; what happens depends on its health
/// implementation.
#[derive(Clone, Copy, Debug, PartialEq, Eq, Structural)]
pub struct Damage {
    pub entity: Entity,
    /// The amount of damage.
    pub value: i32,
    /// The strength of this damage: shields of a higher order absorb it,
    /// shields of this order or lower let it through.
    pub order: u8,
}

/// What `absorb_from` gives back: the damage left over and the shields that remain.
pub open spec fn absorb_from(damage: int, m: Map<u8, i32>, order: u8, k: int) -> (int, Map<u8, i32>)
    decreases k,
{
    if damage <= 0 || k <= order as int {
        (damage, m)
    } else if !m.contains_key(k as u8) {
        absorb_from(damage, m, order, k - 1)
    } else {
        let v = m[k as u8] as int;
        if v > damage {
            (0, m.insert(k as u8, (v - damage) as i32))
        } else {
            absorb_from(damage - v, m.remove(k as u8), order, k - 1)
        }
    }
}

/// Shields are used from the highest key down; each key above `order` absorbs
/// as much as it holds. Returns the remaining damage and the remaining shields.
pub open spec fn absorb(damage: int, m: Map<u8, i32>, order: u8) -> (int, Map<u8, i32>) {
    absorb_from(damage, m, order, 255)
}

/// Absorbing from key `k` down never needs a value outside `i32`.
pub open spec fn absorb_fits_from(damage: int, m: Map<u8, i32>, order: u8, k: int) -> bool
    decreases k,
{
    if damage <= 0 || k <= order as int {
        true
    } else if !m.contains_key(k as u8) {
        absorb_fits_from(damage, m, order, k - 1)
    } else {
        let v = m[k as u8] as int;
        if v > damage {
            true
        } else {
            damage - v <= i32::MAX && absorb_fits_from(damage - v, m.remove(k as u8), order, k - 1)
        }
    }
}

/// The damage that remains after each used shield still fits in an `i32`.
pub open spec fn absorb_fits(damage: int, m: Map<u8, i32>, order: u8) -> bool {
    absorb_fits_from(damage, m, order, 255)
}

/// Every shield holds a non-negative amount.
pub open spec fn shields_nonneg(m: Map<u8, i32>) -> bool {
    forall|k: u8| m.contains_key(k) ==> m[k] >= 0
}

/// The total amount held by shields with keys in `(order, k]`.
pub open spec fn total_above_from(m: Map<u8, i32>, order: u8, k: int) -> int
    decreases k,
{
    if k <= order as int {
        0
    } else if m.contains_key(k as u8) {
        m[k as u8] as int + total_above_from(m, order, k - 1)
    } else {
        total_above_from(m, order, k - 1)
    }
}

/// The total amount held by shields stronger than `order`.
pub open spec fn total_above(m: Map<u8, i32>, order: u8) -> int {
    total_above_from(m, order, 255)
}

/// Returns the entry with the largest key, by `BTreeMap::last_key_value`.
/// The standard library documents that it returns the last (maximum-key)
/// entry, and `None` for an empty map.
#[verifier::external_body]
fn last_shield(m: &BTreeMap<u8, i32>) -> (r: Option<(u8, i32)>)
    ensures
        r.is_none() == (m@ == Map::<u8, i32>::empty()),
        r matches Some(e) ==> m@.contains_key(e.0) && m@[e.0] == e.1 && forall|j: u8|
            m@.contains_key(j) ==> j <= e.0,
{
    match m.last_key_value() {
        Some((k, v)) => Some((*k, *v)),
        None => None,
    }
}

/// Keys in `(lo, hi]` are absent, so absorbing from `hi` is absorbing from `lo`.
proof fn lemma_absorb_skip(damage: int, m: Map<u8, i32>, order: u8, lo: int, hi: int)
    requires
        lo <= hi,
        forall|j: u8| lo < j <= hi ==> !m.contains_key(j),
        hi <= 255,
    ensures
        absorb_from(damage, m, order, hi) == absorb_from(damage, m, order, lo),
        absorb_fits_from(damage, m, order, hi) == absorb_fits_from(damage, m, order, lo),
    decreases hi - lo,
{
    if hi > lo {
        if hi >= 0 {
            assert(!m.contains_key(hi as u8));
        }
        lemma_absorb_skip(damage, m, order, lo, hi - 1);
    }
}

/// `m1` and `m2` hold the same shields at every key in `(order, k]`.
pub open spec fn agree_above(m1: Map<u8, i32>, m2: Map<u8, i32>, order: u8, k: int) -> bool {
    forall|j: u8|
        #![trigger m1.contains_key(j)]
        #![trigger m2.contains_key(j)]
        order < j <= k ==> (m1.contains_key(j) == m2.contains_key(j) && (m1.contains_key(j)
            ==> m1[j] == m2[j]))
}

proof fn lemma_total_agree(m1: Map<u8, i32>, m2: Map<u8, i32>, order: u8, k: int)
    requires
        agree_above(m1, m2, order, k),
        k <= 255,
    ensures
        total_above_from(m1, order, k) == total_above_from(m2, order, k),
    decreases k,
{
    if k > order as int {
        assert(order < k as u8 <= k);
        assert forall|j: u8| #![trigger m1.contains_key(j)] order < j <= k - 1 implies (m1.contains_key(j) == m2.contains_key(j) && (m1.contains_key(j) ==> m1[j] == m2[j])) by {
            assert(m1.contains_key(j) == m2.contains_key(j));
        }
        lemma_total_agree(m1, m2, order, k - 1);
    }
}

/// Absorbing from key `k` down leaves every key above `k`, and every key at or
/// below `order`, exactly as it was.
proof fn lemma_absorb_frame(damage: int, m: Map<u8, i32>, order: u8, k: int, j: u8)
    requires
        k <= 255,
        j > k || j <= order,
    ensures
        absorb_from(damage, m, order, k).1.contains_key(j) == m.contains_key(j),
        m.contains_key(j) ==> absorb_from(damage, m, order, k).1[j] == m[j],
    decreases k,
{
    if damage <= 0 || k <= order as int {
    } else if !m.contains_key(k as u8) {
        lemma_absorb_frame(damage, m, order, k - 1, j);
    } else {
        let v = m[k as u8] as int;
        if v > damage {
        } else {
            lemma_absorb_frame(damage - v, m.remove(k as u8), order, k - 1, j);
        }
    }
}

proof fn lemma_absorb_conserves(damage: int, m: Map<u8, i32>, order: u8, k: int)
    requires
        k <= 255,
    ensures
        total_above_from(m, order, k) - total_above_from(absorb_from(damage, m, order, k).1, order, k)
            == damage - absorb_from(damage, m, order, k).0,
    decreases k,
{
    let r = absorb_from(damage, m, order, k);
    if damage <= 0 || k <= order as int {
    } else if !m.contains_key(k as u8) {
        lemma_absorb_conserves(damage, m, order, k - 1);
        lemma_absorb_frame(damage, m, order, k - 1, k as u8);
        assert(!r.1.contains_key(k as u8));
    } else {
        let v = m[k as u8] as int;
        if v > damage {
            lemma_total_agree(r.1, m, order, k - 1);
        } else {
            let m2 = m.remove(k as u8);
            lemma_absorb_conserves(damage - v, m2, order, k - 1);
            lemma_absorb_frame(damage - v, m2, order, k - 1, k as u8);
            assert(!r.1.contains_key(k as u8));
            lemma_total_agree(m2, m, order, k - 1);
        }
    }
}

proof fn lemma_absorb_exhausts(damage: int, m: Map<u8, i32>, order: u8, k: int)
    requires
        k <= 255,
    ensures
        absorb_from(damage, m, order, k).0 > 0 ==> forall|j: u8|
            order < j <= k ==> !#[trigger] absorb_from(damage, m, order, k).1.contains_key(j),
    decreases k,
{
    if damage <= 0 || k <= order as int {
    } else if !m.contains_key(k as u8) {
        lemma_absorb_exhausts(damage, m, order, k - 1);
        lemma_absorb_frame(damage, m, order, k - 1, k as u8);
    } else {
        let v = m[k as u8] as int;
        if v > damage {
        } else {
            lemma_absorb_exhausts(damage - v, m.remove(k as u8), order, k - 1);
            lemma_absorb_frame(damage - v, m.remove(k as u8), order, k - 1, k as u8);
        }
    }
}

proof fn lemma_absorb_nonneg(damage: int, m: Map<u8, i32>, order: u8, k: int)
    requires
        k <= 255,
        0 <= damage <= i32::MAX,
        shields_nonneg(m),
    ensures
        absorb_fits_from(damage, m, order, k),
        0 <= absorb_from(damage, m, order, k).0 <= damage,
        shields_nonneg(absorb_from(damage, m, order, k).1),
    decreases k,
{
    if damage <= 0 || k <= order as int {
    } else if !m.contains_key(k as u8) {
        lemma_absorb_nonneg(damage, m, order, k - 1);
    } else {
        let v = m[k as u8] as int;
        if v > damage {
            let r = m.insert(k as u8, (v - damage) as i32);
            assert forall|j: u8| r.contains_key(j) implies r[j] >= 0 by {
                if j != k as u8 {
                    assert(m.contains_key(j));
                }
            }
        } else {
            lemma_absorb_nonneg(damage - v, m.remove(k as u8), order, k - 1);
        }
    }
}

/// Shields at or below the damage's order are never touched: they neither
/// absorb anything nor change.
pub proof fn law_weaker_shields_untouched(damage: int, m: Map<u8, i32>, order: u8, key: u8)
    requires
        key <= order,
    ensures
        absorb(damage, m, order).1.contains_key(key) == m.contains_key(key),
        m.contains_key(key) ==> absorb(damage, m, order).1[key] == m[key],
{
    lemma_absorb_frame(damage, m, order, 255, key);
}

/// Whatever the shields absorb is taken off their total: the total held by the
/// shields above the damage's order drops by exactly the absorbed amount.
pub proof fn law_absorption_conserves(damage: int, m: Map<u8, i32>, order: u8)
    ensures
        total_above(m, order) - total_above(absorb(damage, m, order).1, order) == damage - absorb(
            damage,
            m,
            order,
        ).0,
{
    lemma_absorb_conserves(damage, m, order, 255);
}

/// Damage only gets through once every shield above its order is used up.
pub proof fn law_leftover_only_when_exhausted(damage: int, m: Map<u8, i32>, order: u8, key: u8)
    requires
        key > order,
        absorb(damage, m, order).0 > 0,
    ensures
        !absorb(damage, m, order).1.contains_key(key),
{
    lemma_absorb_exhausts(damage, m, order, 255);
}

/// With non-negative shields, absorbing never overflows, never amplifies the
/// damage, and leaves non-negative shields.
pub proof fn law_nonneg_shields_only_reduce(damage: int, m: Map<u8, i32>, order: u8)
    requires
        0 <= damage <= i32::MAX,
        shields_nonneg(m),
    ensures
        absorb_fits(damage, m, order),
        0 <= absorb(damage, m, order).0 <= damage,
        shields_nonneg(absorb(damage, m, order).1),
{
    lemma_absorb_nonneg(damage, m, order, 255);
}

/// Whether the shield at `j` is not the same in `r` as in `m`.
pub open spec fn shield_changed(m: Map<u8, i32>, r: Map<u8, i32>, j: u8) -> bool {
    !(r.contains_key(j) == m.contains_key(j) && (m.contains_key(j) ==> r[j] == m[j]))
}

proof fn lemma_absorb_order(damage: int, m: Map<u8, i32>, order: u8, k: int, low: u8, high: u8)
    requires
        k <= 255,
        order < low < high <= k,
        shield_changed(m, absorb_from(damage, m, order, k).1, low),
    ensures
        !absorb_from(damage, m, order, k).1.contains_key(high),
    decreases k,
{
    if damage <= 0 || k <= order as int {
    } else if !m.contains_key(k as u8) {
        lemma_absorb_frame(damage, m, order, k - 1, k as u8);
        if (high as int) < k {
            lemma_absorb_order(damage, m, order, k - 1, low, high);
        }
    } else {
        let v = m[k as u8] as int;
        if v > damage {
        } else {
            let m2 = m.remove(k as u8);
            lemma_absorb_frame(damage - v, m2, order, k - 1, k as u8);
            if (high as int) < k {
                let r = absorb_from(damage - v, m2, order, k - 1).1;
                assert(shield_changed(m2, r, low));
                lemma_absorb_order(damage - v, m2, order, k - 1, low, high);
            }
        }
    }
}

/// Shields are used from the strongest down: a shield above the damage's
/// order is only touched once every stronger shield is used up.
pub proof fn law_stronger_shields_first(damage: int, m: Map<u8, i32>, order: u8, low: u8, high: u8)
    requires
        order < low < high,
        shield_changed(m, absorb(damage, m, order).1, low),
    ensures
        !absorb(damage, m, order).1.contains_key(high),
{
    lemma_absorb_order(damage, m, order, 255, low, high);
}

/// Damage of zero or less passes through unchanged and leaves the shields as they are.
pub proof fn law_nonpositive_damage_passes(damage: int, m: Map<u8, i32>, order: u8)
    requires
        damage <= 0,
    ensures
        absorb(damage, m, order) == (damage, m),
{
}

/// Stores the layers of shields added to the entity.
/// Shields with a larger key are used first.
#[derive(Debug)]
pub struct Shields(pub BTreeMap<u8, i32>);

impl Shields {
    /// No shields at all.
    pub fn new() -> (s: Shields)
        ensures
            s.0@ == Map::<u8, i32>::empty(),
    {
        Shields(BTreeMap::new())
    }

    /// Tries to absorb as much damage as possible with the shields stronger
    /// than `order`, and returns the remaining amount.
    pub fn take_damage(&mut self, damage: i32, order: u8) -> (remaining: i32)
        requires
            absorb_fits(damage as int, old(self).0@, order),
        ensures
            (remaining as int, final(self).0@) == absorb(damage as int, old(self).0@, order),
    {
        let mut rest = damage;
        let ghost goal = absorb(damage as int, self.0@, order);
        proof {
            lemma_absorb_skip(rest as int, self.0@, order, 255, 255);
        }
        while rest > 0
            invariant
                goal == absorb(damage as int, old(self).0@, order),
                goal == absorb(rest as int, self.0@, order),
                absorb_fits(rest as int, self.0@, order),
            decreases self.0@.dom().len(),
        {
            let top = last_shield(&self.0);
            match top {
                None => {
                    proof {
                        lemma_absorb_skip(rest as int, self.0@, order, order as int, 255);
                    }
                    return rest;
                },
                Some((key, value)) => {
                    proof {
                        lemma_absorb_skip(rest as int, self.0@, order, key as int, 255);
                    }
                    if key <= order {
                        return rest;
                    }
                    if value > rest {
                        self.0.insert(key, value - rest);
                        return 0;
                    } else {
                        let ghost before = self.0@;
                        rest = rest - value;
                        self.0.remove(&key);
                        proof {
                            lemma_absorb_skip(rest as int, self.0@, order, key - 1, 255);
                            assert(self.0@.dom() =~= before.dom().remove(key));
                        }
                    }
                },
            }
        }
        proof {
            assert(absorb_from(rest as int, self.0@, order, 255) == (rest as int, self.0@));
        }
        rest
    }
}

/// Removing a key above the keys still to visit changes nothing below it.
proof fn lemma_fits_remove_above(damage: int, m: Map<u8, i32>, order: u8, j: int, key: u8)
    requires
        key as int > j,
    ensures
        absorb_fits_from(damage, m.remove(key), order, j) == absorb_fits_from(damage, m, order, j),
    decreases j,
{
    if damage <= 0 || j <= order as int {
    } else if !m.contains_key(j as u8) {
        lemma_fits_remove_above(damage, m, order, j - 1, key);
    } else {
        let v = m[j as u8] as int;
        if v <= damage {
            assert(m.remove(key).remove(j as u8) =~= m.remove(j as u8).remove(key));
            lemma_fits_remove_above(damage - v, m.remove(j as u8), order, j - 1, key);
        }
    }
}

impl Shields {
    /// Whether absorbing `damage` against shields stronger than `order`
    /// keeps every intermediate remainder within `i32`.
    pub fn absorb_stays_in_range(&self, damage: i32, order: u8) -> (r: bool)
        ensures
            r == absorb_fits(damage as int, self.0@, order),
    {
        let mut rest: i64 = damage as i64;
        let mut k: u16 = 255;
        while k > order as u16 && rest > 0
            invariant
                absorb_fits(damage as int, self.0@, order) == absorb_fits_from(rest as int, self.0@, order, k as int),
                k <= 255,
                i32::MIN <= rest <= i32::MAX,
            decreases k,
        {
            let key = k as u8;
            match self.0.get(&key) {
                None => {
                    k = k - 1;
                },
                Some(v) => {
                    let value = *v as i64;
                    if value > rest {
                        return true;
                    }
                    let next = rest - value;
                    if next > i32::MAX as i64 {
                        return false;
                    }
                    proof {
                        lemma_fits_remove_above(next as int, self.0@, order, k - 1, key);
                    }
                    rest = next;
                    k = k - 1;
                },
            }
        }
        true
    }
}

/// `x - y` clamped to the range of `i32`, as `i32::saturating_sub` computes it.
pub open spec fn saturating_sub_spec(x: i32, y: i32) -> i32 {
    if x - y > i32::MAX {
        i32::MAX
    } else if x - y < i32::MIN {
        i32::MIN
    } else {
        (x - y) as i32
    }
}

/// `x - y`, saturated at the bounds of `i32`.
pub fn saturating_sub(x: i32, y: i32) -> (r: i32)
    ensures
        r == saturating_sub_spec(x, y),
{
    match x.checked_sub(y) {
        Some(v) => v,
        None => {
            if y > 0 {
                i32::MIN
            } else {
                i32::MAX
            }
        },
    }
}

/// Informs itself that it has been defeated, and effects may play.
#[derive(Clone, Copy, Debug, PartialEq, Eq, Structural)]
pub struct EnemyDefeated {
    pub entity: Entity,
}

/// Basic enemy's health, takes damages unmodified from player projectiles.
/// The value `i32::MIN` marks an enemy that has already been defeated.
#[derive(Clone, Copy, Debug, PartialEq, Eq, Structural, Default)]
pub struct EnemyHealth {
    pub value: i32,
}

/// What a hit does to an enemy's health value, given the damage left over by
/// its shields; the flag says whether this hit defeats it.
pub open spec fn enemy_hit(value: i32, remaining: i32) -> (i32, bool) {
    if remaining <= 0 {
        (value, false)
    } else {
        let v = saturating_sub_spec(value, remaining);
        if v <= 0 && v != i32::MIN {
            (i32::MIN, true)
        } else {
            (v, false)
        }
    }
}

impl EnemyHealth {
    pub fn new(value: i32) -> (h: EnemyHealth)
        ensures
            h.value == value,
    {
        EnemyHealth { value }
    }

    /// Lets the shields absorb the damage first, then takes the rest from the
    /// health value. Returns the `EnemyDefeated` event when this hit defeats
    /// the enemy; a defeated enemy stays at `i32::MIN` and is never defeated again.
    pub fn take_damage(&mut self, shields: &mut Shields, damage: &Damage) -> (defeated: Option<
        EnemyDefeated,
    >)
        requires
            absorb_fits(damage.value as int, old(shields).0@, damage.order),
        ensures
            ({
                let (rem, m) = absorb(damage.value as int, old(shields).0@, damage.order);
                &&& final(shields).0@ == m
                &&& (final(self).value, defeated is Some) == enemy_hit(old(self).value, rem as i32)
            }),
            defeated matches Some(e) ==> e.entity == damage.entity,
    {
        let rest = shields.take_damage(damage.value, damage.order);
        if rest <= 0 {
            return None;
        }
        self.value = saturating_sub(self.value, rest);
        if self.value <= 0 && self.value != i32::MIN {
            self.value = i32::MIN;
            Some(EnemyDefeated { entity: damage.entity })
        } else {
            None
        }
    }
}

/// An enemy is defeated at most once: after a hit that defeats it, no later
/// hit defeats it again, and its health value stays at `i32::MIN`.
pub proof fn law_enemy_defeated_once(value: i32, first: i32, second: i32)
    requires
        enemy_hit(value, first).1,
    ensures
        enemy_hit(value, first).0 == i32::MIN,
        !enemy_hit(enemy_hit(value, first).0, second).1,
        enemy_hit(enemy_hit(value, first).0, second).0 == i32::MIN,
{
}

/// What a hit does to an enemy that is not yet defeated: no damage left
/// over by the shields changes nothing; damage that leaves it above zero
/// takes that much off; damage that brings it to zero or below (and not
/// past the bottom of `i32`) defeats it, once, marking it with `i32::MIN`.
pub proof fn law_enemy_hit_outcome(value: i32, remaining: i32)
    requires
        value != i32::MIN,
    ensures
        remaining <= 0 ==> enemy_hit(value, remaining) == (value, false),
        remaining > 0 && value - remaining > 0 ==> enemy_hit(value, remaining) == ((value - remaining) as i32, false),
        remaining > 0 && i32::MIN < value - remaining <= 0 ==> enemy_hit(value, remaining) == (i32::MIN, true),
{
}

/// A hit never raises an enemy's health value.
pub proof fn law_enemy_health_never_rises(value: i32, remaining: i32)
    ensures
        enemy_hit(value, remaining).0 <= value,
{
}

/// Marks a collider to pass the damage it takes on to its parent enemy.
#[derive(Clone, Copy, Debug, PartialEq, Eq, Structural, Default)]
pub struct EnemySensor;

/// The damage a sensor passes on to its parent: the same amount and order,
/// aimed at the parent.
pub fn sensor_propagate_damage(damage: &Damage, parent: Entity) -> (d: Damage)
    ensures
        d == (Damage { entity: parent, ..*damage }),
{
    Damage { entity: parent, value: damage.value, order: damage.order }
}

/// Sent to the player itself when it is actually hit without shield protection.
#[derive(Clone, Copy, Debug, PartialEq, Eq, Structural)]
pub struct ActuallyHit {
    pub entity: Entity,
}

/// Basic player health bar, taking only a whole number of hits.
/// (The invincibility time after a hit is kept by the engine side.)
#[derive(Clone, Copy, Debug, PartialEq, Eq, Structural)]
pub struct IntegerHealth {
    pub count: i32,
    /// The shield order granted for the invincibility after a hit.
    pub invinc_order: u8,
    /// Prevents multiple hits in one frame.
    pub frame_taken_damage: bool,
}

/// What one damage event does to an integer health bar.
#[derive(Clone, Copy, Debug, PartialEq, Eq, Structural)]
pub enum IntegerHit {
    /// The shields took all of it.
    Absorbed,
    /// The player was already hit in this frame.
    AlreadyHit,
    /// One point was lost; the player survives and becomes invincible for a
    /// while under a shield of the given order.
    Survived { invinc_order: u8 },
    /// One point was lost and none are left.
    Failed,
}

/// The health bar after a damage event whose shields left `remaining` over.
pub open spec fn integer_after(h: IntegerHealth, remaining: int) -> IntegerHealth {
    if remaining <= 0 || h.frame_taken_damage {
        h
    } else {
        IntegerHealth { count: saturating_sub_spec(h.count, 1), frame_taken_damage: true, ..h }
    }
}

/// What a damage event whose shields left `remaining` over does to the bar.
pub open spec fn integer_hit(h: IntegerHealth, remaining: int) -> IntegerHit {
    if remaining <= 0 {
        IntegerHit::Absorbed
    } else if h.frame_taken_damage {
        IntegerHit::AlreadyHit
    } else if saturating_sub_spec(h.count, 1) > 0 {
        IntegerHit::Survived { invinc_order: h.invinc_order }
    } else {
        IntegerHit::Failed
    }
}

impl IntegerHealth {
    /// Applies a damage event: shields first, then at most one point per frame.
    pub fn take_damage(&mut self, shields: &mut Shields, value: i32, order: u8) -> (hit: IntegerHit)
        requires
            absorb_fits(value as int, old(shields).0@, order),
        ensures
            ({
                let (rem, m) = absorb(value as int, old(shields).0@, order);
                &&& final(shields).0@ == m
                &&& *final(self) == integer_after(*old(self), rem)
                &&& hit == integer_hit(*old(self), rem)
            }),
    {
        let rest = shields.take_damage(value, order);
        if rest <= 0 {
            return IntegerHit::Absorbed;
        }
        if self.frame_taken_damage {
            return IntegerHit::AlreadyHit;
        }
        self.frame_taken_damage = true;
        self.count = saturating_sub(self.count, 1);
        if self.count > 0 {
            IntegerHit::Survived { invinc_order: self.invinc_order }
        } else {
            IntegerHit::Failed
        }
    }

    /// A new frame starts: the bar may be hit again.
    pub fn refresh(&mut self)
        ensures
            *final(self) == (IntegerHealth { frame_taken_damage: false, ..*old(self) }),
    {
        self.frame_taken_damage = false;
    }
}

/// Within one frame the player loses at most one point, however many damage
/// events arrive, and only the first one that gets through reports a hit.
pub proof fn law_one_point_per_frame(h: IntegerHealth, rem1: int, rem2: int)
    requires
        !h.frame_taken_damage,
        h.count > i32::MIN,
    ensures
        integer_after(integer_after(h, rem1), rem2).count >= h.count - 1,
        rem1 > 0 ==> integer_hit(integer_after(h, rem1), rem2) != IntegerHit::Failed
            && !(integer_hit(integer_after(h, rem1), rem2) is Survived),
{
}

/// As a child, times the invincibility effect: when it starts it puts a full
/// shield of its order on the parent, when it ends it takes that shield away.
pub fn invincibility_start(shields: &mut Shields, linked_shield: u8)
    ensures
        final(shields).0@ == old(shields).0@.insert(linked_shield, i32::MAX),
{
    shields.0.insert(linked_shield, i32::MAX);
}

/// The invincibility is over: its shield is removed.
pub fn invincibility_end(shields: &mut Shields, linked_shield: u8)
    ensures
        final(shields).0@ == old(shields).0@.remove(linked_shield),
{
    shields.0.remove(&linked_shield);
}

/// As a child, times an invincibility: while it runs, a full shield of
/// `linked_shield` stands on the parent.
#[derive(Clone, Copy, Debug, PartialEq, Eq, Structural)]
pub struct InvincibilityTimer {
    pub timer: Timer,
    pub linked_shield: u8,
}

impl InvincibilityTimer {
    /// An invincibility of `duration` nanoseconds behind the shield `linked_shield`.
    pub fn new(duration: u64, linked_shield: u8) -> (t: InvincibilityTimer)
        ensures
            t.timer == Timer::new(duration),
            t.linked_shield == linked_shield,
    {
        InvincibilityTimer { timer: Timer::new(duration), linked_shield }
    }

    /// One frame of the invincibility. When it was just added its shield goes
    /// up; then the clock runs, and when it finishes the shield goes and the
    /// timer asks to be despawned.
    pub fn work(&mut self, shields: &mut Shields, added: bool, delta: u64) -> (despawn: bool)
        requires
            old(self).timer.finished || old(self).timer.elapsed + delta <= u64::MAX,
        ensures
            final(self).timer == tick_spec(old(self).timer, delta),
            final(self).linked_shield == old(self).linked_shield,
            despawn == final(self).timer.just_finished,
            final(shields).0@ == {
                let up = if added {
                    old(shields).0@.insert(old(self).linked_shield, i32::MAX)
                } else {
                    old(shields).0@
                };
                if despawn {
                    up.remove(old(self).linked_shield)
                } else {
                    up
                }
            },
    {
        if added {
            invincibility_start(shields, self.linked_shield);
        }
        self.timer.tick(delta);
        if self.timer.just_finished() {
            invincibility_end(shields, self.linked_shield);
            true
        } else {
            false
        }
    }
}

/// Marks whether an entity is friendly to the player.
#[derive(Clone, Copy, Debug, PartialEq, Eq, Structural, Default)]
pub struct Friendly(pub bool);

/// Decides whether the physics engine lets two colliders interact.
/// Each side is described by its friendliness (if it has one), whether it
/// ignores boundaries, and whether it is a boundary.
/// Friendly objects never interact with each other, and objects that ignore
/// boundaries pass through them.
pub fn filter_pairs(
    friendly1: Option<Friendly>,
    friendly2: Option<Friendly>,
    no_boundary1: bool,
    no_boundary2: bool,
    boundary1: bool,
    boundary2: bool,
) -> (interact: bool)
    ensures
        interact == !((friendly1 matches Some(f1) && friendly2 matches Some(f2) && f1.0 == f2.0)
            || (no_boundary1 && boundary2) || (boundary1 && no_boundary2)),
{
    if let (Some(f1), Some(f2)) = (friendly1, friendly2) {
        if f1.0 == f2.0 {
            return false;
        }
    }
    if no_boundary1 && boundary2 {
        return false;
    }
    if boundary1 && no_boundary2 {
        return false;
    }
    true
}

/// Marks an entity to deal contact damage, either an enemy or a projectile.
#[derive(Clone, Copy, Debug, PartialEq, Eq, Structural, Default)]
pub struct ContactDamage {
    pub value: i32,
    /// Prevents multiple hits on the same target.
    pub projectile: bool,
    pub order: u8,
}

/// The damage events one contact-damage dealer sends this frame.
/// `colliding` lists the touched entities with their friendliness, if any;
/// `contacted` holds the bits of the entities a projectile already hit.
/// A touched entity is damaged when it was not hit before and is on the other side.
pub open spec fn contact_hits(
    contact: ContactDamage,
    friendly: bool,
    colliding: Seq<(Entity, Option<bool>)>,
    contacted: Option<Set<u64>>,
) -> Seq<Damage>
    decreases colliding.len(),
{
    if colliding.len() == 0 {
        Seq::empty()
    } else {
        let (e, f) = colliding[0];
        let fresh = match contacted {
            Some(c) => !c.contains(e.0),
            None => true,
        };
        let next = match contacted {
            Some(c) => Some(c.insert(e.0)),
            None => None,
        };
        let rest = contact_hits(contact, friendly, colliding.drop_first(), next);
        if fresh && (f matches Some(tf) && tf != friendly) {
            seq![Damage { entity: e, order: contact.order, value: contact.value }] + rest
        } else {
            rest
        }
    }
}

/// The set of contacted entities after this frame: every touched entity joins it.
pub open spec fn contacted_after(colliding: Seq<(Entity, Option<bool>)>, contacted: Set<u64>) -> Set<u64>
    decreases colliding.len(),
{
    if colliding.len() == 0 {
        contacted
    } else {
        contacted_after(colliding.drop_first(), contacted.insert(colliding[0].0.0))
    }
}

/// The damage a projectile deals over several frames, each frame listing
/// the entities it touches; `contacted` holds those it hit before.
pub open spec fn projectile_hits(
    contact: ContactDamage,
    friendly: bool,
    frames: Seq<Seq<(Entity, Option<bool>)>>,
    contacted: Set<u64>,
) -> Seq<Damage>
    decreases frames.len(),
{
    if frames.len() == 0 {
        Seq::empty()
    } else {
        contact_hits(contact, friendly, frames[0], Some(contacted)) + projectile_hits(
            contact,
            friendly,
            frames.drop_first(),
            contacted_after(frames[0], contacted),
        )
    }
}

proof fn lemma_contacted_grows(colliding: Seq<(Entity, Option<bool>)>, contacted: Set<u64>)
    ensures
        contacted.subset_of(contacted_after(colliding, contacted)),
    decreases colliding.len(),
{
    if colliding.len() > 0 {
        lemma_contacted_grows(colliding.drop_first(), contacted.insert(colliding[0].0.0));
    }
}

/// Within one frame, a projectile hits distinct entities it had not hit
/// before, each on the other side, and records each of them.
proof fn lemma_frame_hits(
    contact: ContactDamage,
    friendly: bool,
    colliding: Seq<(Entity, Option<bool>)>,
    contacted: Set<u64>,
)
    ensures
        ({
            let hits = contact_hits(contact, friendly, colliding, Some(contacted));
            &&& forall|i: int| 0 <= i < hits.len() ==> !contacted.contains(#[trigger] hits[i].entity.0)
            &&& forall|i: int| 0 <= i < hits.len() ==> contacted_after(colliding, contacted).contains(#[trigger] hits[i].entity.0)
            &&& forall|i: int, j: int| 0 <= i < j < hits.len() ==> #[trigger] hits[i].entity.0 != #[trigger] hits[j].entity.0
            &&& forall|i: int| 0 <= i < hits.len() ==> #[trigger] hits[i].value == contact.value && hits[i].order == contact.order
        }),
    decreases colliding.len(),
{
    if colliding.len() > 0 {
        let (e, f) = colliding[0];
        let c2 = contacted.insert(e.0);
        let rest = colliding.drop_first();
        lemma_frame_hits(contact, friendly, rest, c2);
        lemma_contacted_grows(rest, c2);
        let hits = contact_hits(contact, friendly, colliding, Some(contacted));
        let rh = contact_hits(contact, friendly, rest, Some(c2));
        if !contacted.contains(e.0) && (f matches Some(tf) && tf != friendly) {
            assert(hits =~= seq![Damage { entity: e, order: contact.order, value: contact.value }] + rh);
            assert forall|i: int, j: int| 0 <= i < j < hits.len() implies #[trigger] hits[i].entity.0 != #[trigger] hits[j].entity.0 by {
                if i == 0 {
                    assert(hits[j] == rh[j - 1]);
                    assert(!c2.contains(rh[j - 1].entity.0));
                } else {
                    assert(hits[i] == rh[i - 1]);
                    assert(hits[j] == rh[j - 1]);
                }
            }
            assert forall|i: int| 0 <= i < hits.len() implies !contacted.contains(#[trigger] hits[i].entity.0) by {
                if i > 0 {
                    assert(hits[i] == rh[i - 1]);
                }
            }
            assert forall|i: int| 0 <= i < hits.len() implies contacted_after(colliding, contacted).contains(#[trigger] hits[i].entity.0) by {
                if i > 0 {
                    assert(hits[i] == rh[i - 1]);
                } else {
                    assert(c2.contains(e.0));
                }
            }
            assert forall|i: int| 0 <= i < hits.len() implies #[trigger] hits[i].value == contact.value && hits[i].order == contact.order by {
                if i > 0 {
                    assert(hits[i] == rh[i - 1]);
                }
            }
        } else {
            assert(hits == rh);
        }
    }
}

/// Every damage event of a frame goes to a touched entity of the other side.
proof fn lemma_hits_touched_opposite(
    contact: ContactDamage,
    friendly: bool,
    colliding: Seq<(Entity, Option<bool>)>,
    contacted: Option<Set<u64>>,
)
    ensures
        ({
            let hits = contact_hits(contact, friendly, colliding, contacted);
            forall|i: int|
                0 <= i < hits.len() ==> exists|k: int|
                    0 <= k < colliding.len() && #[trigger] colliding[k].0 == #[trigger] hits[i].entity
                        && colliding[k].1 == Some(!friendly)
        }),
    decreases colliding.len(),
{
    if colliding.len() > 0 {
        let (e, f) = colliding[0];
        let next = match contacted {
            Some(c) => Some(c.insert(e.0)),
            None => None,
        };
        let rest = colliding.drop_first();
        lemma_hits_touched_opposite(contact, friendly, rest, next);
        let hits = contact_hits(contact, friendly, colliding, contacted);
        let rh = contact_hits(contact, friendly, rest, next);
        assert forall|i: int| 0 <= i < hits.len() implies exists|k: int|
            0 <= k < colliding.len() && #[trigger] colliding[k].0 == #[trigger] hits[i].entity
                && colliding[k].1 == Some(!friendly) by {
            let fresh = match contacted {
                Some(c) => !c.contains(e.0),
                None => true,
            };
            if fresh && (f matches Some(tf) && tf != friendly) {
                if i == 0 {
                    assert(colliding[0].0 == hits[0].entity);
                } else {
                    assert(hits[i] == rh[i - 1]);
                    let k = choose|k: int|
                        0 <= k < rest.len() && #[trigger] rest[k].0 == #[trigger] rh[i - 1].entity
                            && rest[k].1 == Some(!friendly);
                    assert(colliding[k + 1] == rest[k]);
                }
            } else {
                assert(hits == rh);
                let k = choose|k: int|
                    0 <= k < rest.len() && #[trigger] rest[k].0 == #[trigger] rh[i].entity && rest[k].1 == Some(!friendly);
                assert(colliding[k + 1] == rest[k]);
            }
        }
    }
}

/// After a frame, every touched entity is among the contacted ones, as well
/// as those contacted before.
proof fn lemma_contacted_after_has_touched(colliding: Seq<(Entity, Option<bool>)>, contacted: Set<u64>)
    ensures
        contacted.subset_of(contacted_after(colliding, contacted)),
        forall|k: int| 0 <= k < colliding.len() ==> contacted_after(colliding, contacted).contains(#[trigger] colliding[k].0.0),
    decreases colliding.len(),
{
    if colliding.len() > 0 {
        let c2 = contacted.insert(colliding[0].0.0);
        lemma_contacted_after_has_touched(colliding.drop_first(), c2);
        assert forall|k: int| 0 <= k < colliding.len() implies contacted_after(colliding, contacted).contains(#[trigger] colliding[k].0.0) by {
            if k > 0 {
                assert(colliding[k] == colliding.drop_first()[k - 1]);
            }
        }
    }
}

/// One frame of contact damage: each damage event goes to a touched entity
/// of the other side, with the dealer's value and order; an entity is
/// damaged at most once in the frame; a projectile never damages an entity
/// it hit before, and afterwards counts every entity it touched, and those
/// from before, as hit.
pub proof fn law_contact_damage_frame(
    contact: ContactDamage,
    friendly: bool,
    colliding: Seq<(Entity, Option<bool>)>,
    contacted: Option<Set<u64>>,
)
    ensures
        ({
            let hits = contact_hits(contact, friendly, colliding, contacted);
            &&& forall|i: int|
                0 <= i < hits.len() ==> exists|k: int|
                    0 <= k < colliding.len() && #[trigger] colliding[k].0 == #[trigger] hits[i].entity
                        && colliding[k].1 == Some(!friendly)
            &&& forall|i: int| 0 <= i < hits.len() ==> #[trigger] hits[i].value == contact.value && hits[i].order == contact.order
            &&& contacted matches Some(c) ==> {
                &&& forall|i: int, j: int| 0 <= i < j < hits.len() ==> #[trigger] hits[i].entity.0 != #[trigger] hits[j].entity.0
                &&& forall|i: int| 0 <= i < hits.len() ==> !c.contains(#[trigger] hits[i].entity.0)
                &&& c.subset_of(contacted_after(colliding, c))
                &&& forall|k: int| 0 <= k < colliding.len() ==> contacted_after(colliding, c).contains(#[trigger] colliding[k].0.0)
            }
        }),
{
    lemma_hits_touched_opposite(contact, friendly, colliding, contacted);
    lemma_hits_values(contact, friendly, colliding, contacted);
    match contacted {
        Some(c) => {
            lemma_frame_hits(contact, friendly, colliding, c);
            lemma_contacted_after_has_touched(colliding, c);
        },
        None => {},
    }
}

/// Every damage event carries the dealer's value and order.
proof fn lemma_hits_values(
    contact: ContactDamage,
    friendly: bool,
    colliding: Seq<(Entity, Option<bool>)>,
    contacted: Option<Set<u64>>,
)
    ensures
        ({
            let hits = contact_hits(contact, friendly, colliding, contacted);
            forall|i: int| 0 <= i < hits.len() ==> #[trigger] hits[i].value == contact.value && hits[i].order == contact.order
        }),
    decreases colliding.len(),
{
    if colliding.len() > 0 {
        let (e, f) = colliding[0];
        let next = match contacted {
            Some(c) => Some(c.insert(e.0)),
            None => None,
        };
        lemma_hits_values(contact, friendly, colliding.drop_first(), next);
        let hits = contact_hits(contact, friendly, colliding, contacted);
        let rh = contact_hits(contact, friendly, colliding.drop_first(), next);
        assert forall|i: int| 0 <= i < hits.len() implies #[trigger] hits[i].value == contact.value && hits[i].order == contact.order by {
            let fresh = match contacted {
                Some(c) => !c.contains(e.0),
                None => true,
            };
            if fresh && (f matches Some(tf) && tf != friendly) {
                assert(hits =~= seq![Damage { entity: e, order: contact.order, value: contact.value }] + rh);
                if i > 0 {
                    assert(hits[i] == rh[i - 1]);
                    assert(0 <= i - 1 < rh.len());
                    assert(rh[i - 1].value == contact.value);
                }
            } else {
                assert(hits == rh);
                assert(rh[i].value == contact.value && rh[i].order == contact.order);
            }
        }
    }
}

/// A projectile hits each entity at most once, however many frames it keeps
/// touching it, and never one it hit before; every hit carries its damage
/// and order.
pub proof fn law_projectile_hits_once(
    contact: ContactDamage,
    friendly: bool,
    frames: Seq<Seq<(Entity, Option<bool>)>>,
    contacted: Set<u64>,
)
    ensures
        ({
            let hits = projectile_hits(contact, friendly, frames, contacted);
            &&& forall|i: int, j: int| 0 <= i < j < hits.len() ==> #[trigger] hits[i].entity.0 != #[trigger] hits[j].entity.0
            &&& forall|i: int| 0 <= i < hits.len() ==> !contacted.contains(#[trigger] hits[i].entity.0)
            &&& forall|i: int| 0 <= i < hits.len() ==> #[trigger] hits[i].value == contact.value && hits[i].order == contact.order
        }),
    decreases frames.len(),
{
    if frames.len() > 0 {
        let c1 = contacted_after(frames[0], contacted);
        lemma_frame_hits(contact, friendly, frames[0], contacted);
        lemma_contacted_grows(frames[0], contacted);
        law_projectile_hits_once(contact, friendly, frames.drop_first(), c1);
        let first = contact_hits(contact, friendly, frames[0], Some(contacted));
        let rest = projectile_hits(contact, friendly, frames.drop_first(), c1);
        let hits = projectile_hits(contact, friendly, frames, contacted);
        assert(hits == first + rest);
        let n = first.len() as int;
        assert forall|i: int, j: int| 0 <= i < j < hits.len() implies #[trigger] hits[i].entity.0 != #[trigger] hits[j].entity.0 by {
            if j < n {
                assert(hits[i] == first[i] && hits[j] == first[j]);
            } else if i < n {
                assert(hits[i] == first[i] && hits[j] == rest[j - n]);
                assert(c1.contains(first[i].entity.0));
                assert(!c1.contains(rest[j - n].entity.0));
            } else {
                assert(hits[i] == rest[i - n] && hits[j] == rest[j - n]);
            }
        }
        assert forall|i: int| 0 <= i < hits.len() implies !contacted.contains(#[trigger] hits[i].entity.0) by {
            if i < n {
                assert(hits[i] == first[i]);
            } else {
                assert(hits[i] == rest[i - n]);
                assert(!c1.contains(rest[i - n].entity.0));
            }
        }
        assert forall|i: int| 0 <= i < hits.len() implies #[trigger] hits[i].value == contact.value && hits[i].order == contact.order by {
            if i < n {
                assert(hits[i] == first[i]);
            } else {
                assert(hits[i] == rest[i - n]);
            }
        }
    }
}

/// The contents of an optional set of entity bits.
pub open spec fn opt_set_view(o: Option<std::collections::BTreeSet<u64>>) -> Option<Set<u64>> {
    match o {
        Some(c) => Some(c@),
        None => None,
    }
}

/// Computes the damage events of one contact-damage dealer, recording every
/// touched entity in `contacted` when the dealer is a projectile.
pub fn deal_contact_damage(
    contact: &ContactDamage,
    friendly: bool,
    colliding: &Vec<(Entity, Option<bool>)>,
    contacted: &mut Option<std::collections::BTreeSet<u64>>,
) -> (hits: Vec<Damage>)
    ensures
        hits@ == contact_hits(
            *contact,
            friendly,
            colliding@,
            opt_set_view(*old(contacted)),
        ),
        old(contacted).is_some() == final(contacted).is_some(),
        *old(contacted) matches Some(c) ==> final(contacted).unwrap()@ == contacted_after(colliding@, c@),
{
    let mut hits: Vec<Damage> = Vec::new();
    let mut i: usize = 0;
    let ghost start = opt_set_view(*contacted);
    assert(colliding@.skip(0) =~= colliding@);
    while i < colliding.len()
        invariant
            i <= colliding.len(),
            old(contacted).is_some() == contacted.is_some(),
            contact_hits(*contact, friendly, colliding@, start) == hits@ + contact_hits(
                *contact,
                friendly,
                colliding@.skip(i as int),
                opt_set_view(*contacted),
            ),
            *old(contacted) matches Some(c) ==> contacted_after(colliding@, c@) == contacted_after(
                colliding@.skip(i as int),
                contacted.unwrap()@,
            ),
            start == opt_set_view(*old(contacted)),
        decreases colliding.len() - i,
    {
        let (e, f) = colliding[i];
        let ghost tail = colliding@.skip(i as int);
        assert(tail.drop_first() =~= colliding@.skip(i + 1));
        let fresh = match contacted {
            Some(c) => c.insert(e.0),
            None => true,
        };
        let opposite = match f {
            Some(tf) => tf != friendly,
            None => false,
        };
        if fresh && opposite {
            hits.push(Damage { entity: e, order: contact.order, value: contact.value });
        }
        i = i + 1;
    }
    assert(colliding@.skip(i as int) =~= Seq::<(Entity, Option<bool>)>::empty());
    hits
}

} // verus!
