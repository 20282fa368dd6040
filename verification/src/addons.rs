//! Add-ons chosen in the save: achievements, extra health points, weapon
//! damage effects, the weapons to spawn and the exoskeleton charm.

use vstd::prelude::*;

use crate::health::Shields;
use crate::names::{has_prefix, name_seqs, NameSet};
use crate::progress::Achievements;
use crate::text::{concat, first_index_of, integer_value, parse_integer, split_once, strip_prefix};

verus! {

/// Unlocks the named achievement.
#[derive(Clone, Debug, PartialEq, Eq)]
pub struct GetAchievement {
    pub name: String,
}

impl GetAchievement {
    pub fn new(name: String) -> (g: GetAchievement)
        ensures
            g.name == name,
    {
        GetAchievement { name }
    }
}

/// What a newly unlocked achievement shows: its picture and the text key of its title.
pub struct AchievementShow {
    pub picture: String,
    pub title_key: String,
}

/// Whether unlocking `name` shows it: only when it was not unlocked yet.
pub open spec fn shows_achievement(unlocked: Set<Seq<char>>, name: Seq<char>) -> bool {
    !unlocked.contains(name)
}

/// Unlocks an achievement. Only the first time it is shown: the picture is
/// `Achievement_<name>`, the title is under `Achievement_<name>_Title`.
pub fn get_achievement(achievements: &mut Achievements, name: &str) -> (show: Option<AchievementShow>)
    ensures
        final(achievements).unlocked@ == old(achievements).unlocked@.insert(name@),
        final(achievements).counters@ == old(achievements).counters@,
        show is Some == shows_achievement(old(achievements).unlocked@, name@),
        show matches Some(s) ==> s.picture@ == "Achievement_"@ + name@ && s.title_key@ == "Achievement_"@
            + name@ + "_Title"@,
{
    if achievements.unlocked.insert(name.to_owned()) {
        let picture = concat("Achievement_", name);
        let title_key = concat(picture.as_str(), "_Title");
        Some(AchievementShow { picture, title_key })
    } else {
        None
    }
}

/// The counter of failed fights.
pub open spec fn fail_count(achievements: Achievements) -> int {
    if achievements.counters@.contains_key("FailCount"@) {
        achievements.counters@["FailCount"@] as int
    } else {
        0
    }
}

/// A failed fight counts one more failure; the third one earns `Fail3`.
pub fn fail3(achievements: &mut Achievements) -> (earned: Option<GetAchievement>)
    requires
        fail_count(*old(achievements)) < i32::MAX,
    ensures
        final(achievements).counters@ == old(achievements).counters@.insert(
            "FailCount"@,
            (fail_count(*old(achievements)) + 1) as i32,
        ),
        final(achievements).unlocked@ == old(achievements).unlocked@,
        earned is Some == (fail_count(*old(achievements)) + 1 == 3),
        earned matches Some(g) ==> g.name@ == "Fail3"@,
{
    let current = match achievements.counters.get("FailCount") {
        Some(v) => *v,
        None => 0,
    };
    let value = current + 1;
    achievements.counters.insert("FailCount".to_owned(), value);
    if value == 3 {
        Some(GetAchievement::new("Fail3".to_owned()))
    } else {
        None
    }
}

/// Completing a stage's last fight earns that stage's achievement.
pub fn stage_complete(fight: &str) -> (earned: Option<GetAchievement>)
    ensures
        earned is Some == (fight@ == "Wcat"@),
        earned matches Some(g) ==> g.name@ == "Stage1Complete"@,
{
    if fight.to_owned() == "Wcat".to_owned() {
        Some(GetAchievement::new("Stage1Complete".to_owned()))
    } else {
        None
    }
}

/// The basic health bar: one picture per health point.
pub struct BasicHp {
    pub array: Vec<String>,
}

impl BasicHp {
    /// The number of health points.
    pub fn count(&self) -> (n: usize)
        ensures
            n == self.array@.len(),
    {
        self.array.len()
    }
}

/// The player's health is set from the health bar: as many points as it
/// has pictures (wrapped into `i32`).
pub fn health_count(hp: &BasicHp) -> (count: i32)
    ensures
        count == hp.array@.len() as i32,
{
    hp.count() as i32
}

/// The text after the first `:` in `v`, or all of `v` when it has none, and
/// the text before it.
pub open spec fn split_value_image(v: Seq<char>, default_image: Seq<char>) -> (Seq<char>, Seq<char>) {
    match first_index_of(v, ':') {
        Some(i) => (v.take(i), v.skip(i + 1)),
        None => (v, default_image),
    }
}

/// An effect `Health+<n>` or `Health+<n>:<picture>` adds `n` health points
/// with that picture (`Hp_BasicHp` when none is given). `Err` holds a count
/// that is not an `isize`.
pub open spec fn health_effect(e: Seq<char>) -> Result<(int, Seq<char>), Seq<char>> {
    let (value, image) = split_value_image(e.skip("Health+"@.len() as int), "Hp_BasicHp"@);
    match integer_value(value) {
        Some(n) => if isize::MIN <= n <= isize::MAX {
            Ok((n, image))
        } else {
            Err(value)
        },
        None => Err(value),
    }
}

/// The pictures that a list of health effects adds, in order; a count
/// below one adds none.
pub open spec fn health_images(effects: Seq<Seq<char>>) -> Seq<Seq<char>>
    decreases effects.len(),
{
    if effects.len() == 0 {
        Seq::empty()
    } else {
        let added = match health_effect(effects.last()) {
            Ok((n, image)) => Seq::new(if n > 0 { n as nat } else { 0 }, |k: int| image),
            Err(_) => Seq::empty(),
        };
        health_images(effects.drop_last()) + added
    }
}

/// The values of the health effects that could not be read, in order.
pub open spec fn health_errors(effects: Seq<Seq<char>>) -> Seq<Seq<char>>
    decreases effects.len(),
{
    if effects.len() == 0 {
        Seq::empty()
    } else {
        let bad = match health_effect(effects.last()) {
            Ok(_) => Seq::empty(),
            Err(v) => seq![v],
        };
        health_errors(effects.drop_last()) + bad
    }
}

/// `split_once` on `:` agrees with `split_value_image`.
proof fn lemma_split_value(v: Seq<char>, r: Option<(String, String)>, default_image: Seq<char>)
    requires
        r is None == forall|i: int| 0 <= i < v.len() ==> v[i] != ':',
        r matches Some(p) ==> exists|i: int|
            0 <= i < v.len() && v[i] == ':' && (forall|j: int| 0 <= j < i ==> v[j] != ':') && p.0@
                == v.take(i) && p.1@ == v.skip(i + 1),
    ensures
        match r {
            Some(p) => split_value_image(v, default_image) == (p.0@, p.1@),
            None => split_value_image(v, default_image) == (v, default_image),
        },
{
    match r {
        Some(p) => {
            let i0 = choose|i: int|
                0 <= i < v.len() && v[i] == ':' && (forall|j: int| 0 <= j < i ==> v[j] != ':') && p.0@
                    == v.take(i) && p.1@ == v.skip(i + 1);
            assert(exists|i: int| 0 <= i < v.len() && v[i] == ':');
            let i1 = choose|i: int| 0 <= i < v.len() && v[i] == ':' && forall|j: int| 0 <= j < i ==> v[j] != ':';
            assert(first_index_of(v, ':') == Some(i1));
            if i1 < i0 {
                assert(v[i1] != ':');
            }
            if i0 < i1 {
                assert(v[i0] != ':');
            }
        },
        None => {},
    }
}

/// Reads one health effect.
fn read_health_effect(effect: &str) -> (r: Result<(i64, String), String>)
    requires
        has_prefix("Health+"@)(effect@),
    ensures
        match health_effect(effect@) {
            Ok((n, image)) => r matches Ok((m, s)) && m == n && s@ == image,
            Err(v) => r matches Err(s) && s@ == v,
        },
{
    let v = match strip_prefix(effect, "Health+") {
        Some(v) => v,
        None => {
            assert(false);
            String::new()
        },
    };
    let parts = split_once(v.as_str(), ':');
    proof {
        lemma_split_value(v@, parts, "Hp_BasicHp"@);
    }
    let (value, image) = match parts {
        Some(p) => p,
        None => (v, "Hp_BasicHp".to_owned()),
    };
    let lo = isize::MIN as i64;
    let hi = isize::MAX as i64;
    match parse_integer(value.as_str(), lo, hi) {
        Some(n) => Ok((n, image)),
        None => Err(value),
    }
}

/// The effects selected in the save whose names start with `prefix`, in increasing order.
pub open spec fn effects_with(effects: NameSet, prefix: Seq<char>) -> Seq<Seq<char>> {
    effects.ordered().filter(has_prefix(prefix))
}

/// Adds the health points of every `Health+` effect selected in the save to
/// the health bar. Returns the values that could not be read.
pub fn apply_health_effects(hp: &mut BasicHp, effects: &NameSet) -> (errors: Vec<String>)
    ensures
        name_seqs(final(hp).array@) == name_seqs(old(hp).array@) + health_images(
            effects_with(*effects, "Health+"@),
        ),
        name_seqs(errors@) == health_errors(effects_with(*effects, "Health+"@)),
{
    let list = effects.starting_with("Health+");
    let ghost es = name_seqs(list@);
    let mut errors: Vec<String> = Vec::new();
    let mut i: usize = 0;
    assert(es.take(0) =~= Seq::<Seq<char>>::empty());
    while i < list.len()
        invariant
            i <= list@.len(),
            es == name_seqs(list@),
            forall|k: int| 0 <= k < es.len() ==> has_prefix("Health+"@)(#[trigger] es[k]),
            name_seqs(hp.array@) == name_seqs(old(hp).array@) + health_images(es.take(i as int)),
            name_seqs(errors@) == health_errors(es.take(i as int)),
        decreases list@.len() - i,
    {
        assert(es[i as int] == list@[i as int]@);
        let effect = read_health_effect(list[i].as_str());
        let ghost before = name_seqs(hp.array@);
        assert(es.take(i + 1).drop_last() =~= es.take(i as int));
        assert(es.take(i + 1).last() == es[i as int]);
        match effect {
            Ok((n, image)) => {
                let ghost count: nat = if n > 0 { n as nat } else { 0 };
                let mut k: i64 = 0;
                while k < n
                    invariant
                        0 <= k,
                        n > 0 ==> k <= n,
                        n <= 0 ==> k == 0,
                        name_seqs(hp.array@) == before + Seq::new(k as nat, |j: int| image@),
                    decreases n - k,
                {
                    let ghost prev = hp.array@;
                    hp.array.push(image.clone());
                    assert(name_seqs(hp.array@) =~= name_seqs(prev).push(image@));
                    assert(Seq::new((k + 1) as nat, |j: int| image@) =~= Seq::new(k as nat, |j: int| image@).push(
                        image@,
                    ));
                    assert(name_seqs(hp.array@) =~= before + Seq::new((k + 1) as nat, |j: int| image@));
                    k = k + 1;
                }
                assert(Seq::new(k as nat, |j: int| image@) =~= Seq::new(count, |j: int| image@));
            },
            Err(value) => {
                let ghost before_errors = name_seqs(errors@);
                errors.push(value);
                assert(name_seqs(errors@) =~= before_errors + seq![value@]);
            },
        }
        i = i + 1;
    }
    assert(es.take(list@.len() as int) =~= es);
    errors
}

/// A weapon damage effect `Damage+%<p>` adds `p` percent of damage. `Err`
/// holds a percentage that is not an `i32`.
pub open spec fn damage_effect(e: Seq<char>) -> Result<i32, Seq<char>> {
    let value = e.skip("Damage+%"@.len() as int);
    match integer_value(value) {
        Some(n) => if i32::MIN <= n <= i32::MAX {
            Ok(n as i32)
        } else {
            Err(value)
        },
        None => Err(value),
    }
}

/// The percentages of every `Damage+%` effect selected in the save, in order.
pub fn damage_percents(effects: &NameSet) -> (r: Vec<Result<i32, String>>)
    ensures
        r@.len() == effects_with(*effects, "Damage+%"@).len(),
        forall|k: int|
            0 <= k < r@.len() ==> match damage_effect(effects_with(*effects, "Damage+%"@)[k]) {
                Ok(p) => #[trigger] r@[k] matches Ok(q) && q == p,
                Err(v) => r@[k] matches Err(s) && s@ == v,
            },
{
    let list = effects.starting_with("Damage+%");
    let ghost es = name_seqs(list@);
    let mut r: Vec<Result<i32, String>> = Vec::new();
    let mut i: usize = 0;
    while i < list.len()
        invariant
            i <= list@.len(),
            es == name_seqs(list@),
            es == effects_with(*effects, "Damage+%"@),
            forall|k: int| 0 <= k < es.len() ==> has_prefix("Damage+%"@)(#[trigger] es[k]),
            r@.len() == i,
            forall|k: int|
                0 <= k < i ==> match damage_effect(es[k]) {
                    Ok(p) => #[trigger] r@[k] matches Ok(q) && q == p,
                    Err(v) => r@[k] matches Err(s) && s@ == v,
                },
        decreases list@.len() - i,
    {
        assert(es[i as int] == list@[i as int]@);
        let value = match strip_prefix(list[i].as_str(), "Damage+%") {
            Some(v) => v,
            None => {
                assert(false);
                String::new()
            },
        };
        match parse_integer(value.as_str(), -2147483648, 2147483647) {
            Some(p) => r.push(Ok(p as i32)),
            None => r.push(Err(value)),
        }
        i = i + 1;
    }
    r
}

/// The weapons a player can carry.
#[derive(Clone, Copy, Debug, PartialEq, Eq, Structural)]
pub enum WeaponKind {
    Filed,
    Spread,
}

/// The weapon of each selected name, `A_Filed` or `B_Spread`; other names
/// give an empty slot.
pub fn weapon_kinds(selected: &Vec<String>) -> (r: Vec<Option<WeaponKind>>)
    ensures
        r@.len() == selected@.len(),
        forall|k: int|
            0 <= k < r@.len() ==> #[trigger] r@[k] == if selected@[k]@ == "A_Filed"@ {
                Some(WeaponKind::Filed)
            } else if selected@[k]@ == "B_Spread"@ {
                Some(WeaponKind::Spread)
            } else {
                None
            },
{
    let mut r: Vec<Option<WeaponKind>> = Vec::new();
    let mut i: usize = 0;
    while i < selected.len()
        invariant
            i <= selected@.len(),
            r@.len() == i,
            forall|k: int|
                0 <= k < i ==> #[trigger] r@[k] == if selected@[k]@ == "A_Filed"@ {
                    Some(WeaponKind::Filed)
                } else if selected@[k]@ == "B_Spread"@ {
                    Some(WeaponKind::Spread)
                } else {
                    None
                },
        decreases selected@.len() - i,
    {
        let name = selected[i].clone();
        let kind = if name == "A_Filed".to_owned() {
            Some(WeaponKind::Filed)
        } else if name == "B_Spread".to_owned() {
            Some(WeaponKind::Spread)
        } else {
            None
        };
        r.push(kind);
        i = i + 1;
    }
    r
}

/// Marks a bullet of the filed weapon, which splashes where it hits.
#[derive(Clone, Copy, Debug, PartialEq, Eq, Structural, Default)]
pub struct FiledBullet;

/// Marks a bullet of the spread weapon.
#[derive(Clone, Copy, Debug, PartialEq, Eq, Structural, Default)]
pub struct SpreadBullet;

/// A homing bullet and the entity it follows, if any.
#[derive(Clone, Copy, Debug, PartialEq, Eq, Structural, Default)]
pub struct TrackingBullet {
    pub target: Option<crate::entity::Entity>,
}

/// Something a homing bullet may aim at: the entity, its side, and a key
/// that orders the candidates as their distance to the bullet does.
#[derive(Clone, Copy, Debug, PartialEq, Eq, Structural)]
pub struct TrackingCandidate {
    pub entity: crate::entity::Entity,
    pub friendly: bool,
    pub distance_key: u32,
}

/// Among the first `n` candidates, `i` is the first of the nearest ones on
/// the side other than `friendly`.
pub open spec fn nearest_among(cands: Seq<TrackingCandidate>, friendly: bool, n: int, i: int) -> bool {
    &&& 0 <= i < n
    &&& cands[i].friendly != friendly
    &&& forall|j: int|
        0 <= j < n && cands[j].friendly != friendly ==> cands[i].distance_key <= #[trigger] cands[j].distance_key
    &&& forall|j: int|
        0 <= j < i && cands[j].friendly != friendly ==> cands[i].distance_key < #[trigger] cands[j].distance_key
}

/// `r` is the target chosen among `cands` by a bullet on side `friendly`:
/// none when no candidate is on the other side, else the first of the
/// nearest ones there.
pub open spec fn picks_nearest(cands: Seq<TrackingCandidate>, friendly: bool, r: Option<crate::entity::Entity>) -> bool {
    &&& (r is None <==> forall|j: int| 0 <= j < cands.len() ==> #[trigger] cands[j].friendly == friendly)
    &&& (r matches Some(e) ==> exists|i: int|
        nearest_among(cands, friendly, cands.len() as int, i) && #[trigger] cands[i].entity == e)
}

/// The first of the nearest candidates on the side other than `friendly`.
pub fn nearest_hostile(candidates: &Vec<TrackingCandidate>, friendly: bool) -> (r: Option<crate::entity::Entity>)
    ensures
        picks_nearest(candidates@, friendly, r),
{
    let mut best: Option<usize> = None;
    let mut i: usize = 0;
    while i < candidates.len()
        invariant
            i <= candidates@.len(),
            best is None <==> forall|j: int| 0 <= j < i ==> #[trigger] candidates@[j].friendly == friendly,
            best matches Some(b) ==> nearest_among(candidates@, friendly, i as int, b as int),
        decreases candidates@.len() - i,
    {
        let c = candidates[i];
        if c.friendly != friendly {
            match best {
                None => {
                    best = Some(i);
                },
                Some(b) => {
                    if c.distance_key < candidates[b].distance_key {
                        best = Some(i);
                    }
                },
            }
        }
        i = i + 1;
    }
    match best {
        Some(b) => {
            assert(nearest_among(candidates@, friendly, candidates@.len() as int, b as int));
            Some(candidates[b].entity)
        },
        None => None,
    }
}

/// A homing bullet keeps following its target while that still exists;
/// otherwise it turns to the nearest candidate on the other side, or to none.
pub fn retarget(bullet: &mut TrackingBullet, target_exists: bool, friendly: bool, candidates: &Vec<TrackingCandidate>)
    ensures
        old(bullet).target is Some && target_exists ==> final(bullet).target == old(bullet).target,
        !(old(bullet).target is Some && target_exists) ==> picks_nearest(candidates@, friendly, final(bullet).target),
{
    if bullet.target.is_some() && !target_exists {
        bullet.target = None;
    }
    if bullet.target.is_none() {
        bullet.target = nearest_hostile(candidates, friendly);
    }
}

/// Marks an exoskeleton around the player.
#[derive(Clone, Copy, Debug, PartialEq, Eq, Structural, Default)]
pub struct Exoskeleton;

/// A contact charges an exoskeleton when it is a projectile of the enemy's
/// side: `c.0` says whether it is a projectile, `c.1` its side, if it has one.
pub open spec fn charges_exoskeleton(c: (bool, Option<bool>)) -> bool {
    c.0 && c.1 == Some(false)
}

/// How many of the contacts with the exoskeletons charge them.
pub fn exoskeleton_charging_contacts(contacts: &Vec<(bool, Option<bool>)>) -> (n: usize)
    ensures
        n == contacts@.filter(|c: (bool, Option<bool>)| charges_exoskeleton(c)).len(),
{
    let ghost pred = |c: (bool, Option<bool>)| charges_exoskeleton(c);
    let mut n: usize = 0;
    let mut i: usize = 0;
    while i < contacts.len()
        invariant
            i <= contacts@.len(),
            pred == (|c: (bool, Option<bool>)| charges_exoskeleton(c)),
            n == contacts@.take(i as int).filter(pred).len(),
            n <= i,
        decreases contacts@.len() - i,
    {
        let c = contacts[i];
        proof {
            let t = contacts@.take(i + 1);
            assert(t.drop_last() =~= contacts@.take(i as int));
            assert(t.last() == c);
            reveal_with_fuel(Seq::filter, 1);
            assert(t.filter(pred) == if pred(c) {
                contacts@.take(i as int).filter(pred).push(c)
            } else {
                contacts@.take(i as int).filter(pred)
            });
        }
        let hit = match c.1 {
            Some(f) => c.0 && !f,
            None => false,
        };
        assert(hit == pred(c));
        if hit {
            n = n + 1;
        }
        i = i + 1;
    }
    assert(contacts@.take(contacts@.len() as int) =~= contacts@);
    n
}

/// One exoskeleton is spawned per selected effect whose name starts with `Exoskeleton`.
pub fn exoskeleton_count(effects: &NameSet) -> (n: usize)
    ensures
        n == effects_with(*effects, "Exoskeleton"@).len(),
{
    effects.starting_with("Exoskeleton").len()
}

/// What a charged exoskeleton does to the player's shields.
#[derive(Clone, Copy, Debug, PartialEq, Eq, Structural)]
pub enum ExoskeletonStep {
    /// The shield went up.
    Charged,
    /// The shield was hit: it is gone, the charge is spent and the player
    /// becomes invincible for a while.
    Consumed,
    /// The shield stands untouched.
    Holding,
}

/// With enough charge, the exoskeleton keeps a full shield of `order` up;
/// once that shield has absorbed anything it is removed and the charge is spent.
pub fn exoskeleton_protect(shields: &mut Shields, order: u8) -> (step: ExoskeletonStep)
    ensures
        !old(shields).0@.contains_key(order) ==> step == ExoskeletonStep::Charged && final(shields).0@
            == old(shields).0@.insert(order, i32::MAX),
        old(shields).0@.contains_key(order) && old(shields).0@[order] != i32::MAX ==> step
            == ExoskeletonStep::Consumed && final(shields).0@ == old(shields).0@.remove(order),
        old(shields).0@.contains_key(order) && old(shields).0@[order] == i32::MAX ==> step
            == ExoskeletonStep::Holding && final(shields).0@ == old(shields).0@,
{
    match shields.0.get(&order) {
        None => {
            shields.0.insert(order, i32::MAX);
            ExoskeletonStep::Charged
        },
        Some(v) => {
            if *v != i32::MAX {
                shields.0.remove(&order);
                ExoskeletonStep::Consumed
            } else {
                ExoskeletonStep::Holding
            }
        },
    }
}

/// An achievement is shown once: the first unlock of a name shows it, and
/// once unlocked, unlocking it again, after any other unlocks, shows nothing.
pub proof fn law_achievement_shown_once(unlocked: Set<Seq<char>>, name: Seq<char>, others: Seq<Seq<char>>)
    ensures
        !unlocked.contains(name) ==> shows_achievement(unlocked, name),
        !shows_achievement(unlocked.insert(name), name),
        !shows_achievement(unlocked.insert(name) + others.to_set(), name),
{
}

} // verus!
