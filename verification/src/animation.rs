//! Sprite animations: how an animation plays its frames, pauses and tells
//! others when frames are reached, which atlas a new animation picks, and
//! how long loaded sprite handles are kept.

use vstd::prelude::*;

use crate::config::SpriteAtlas;
use crate::entity::Entity;
use crate::names::NameMap;
use crate::text::{concat, decimal, decimal_string};
use crate::timer::{repeat_tick_spec, RepeatingTimer};

verus! {

/// Whom to tell when frames are reached.
#[derive(Clone, Debug, PartialEq, Eq)]
pub struct AnimationInform {
    /// The entity to send `AnimationComplete` to.
    pub entity: Entity,
    /// The frame indices to send the event at. An index of 0 or past the
    /// last frame means: after the last frame.
    pub index: Vec<usize>,
}

/// Whether an animation is shown: as its parent is, always hidden, or always shown.
#[derive(Clone, Copy, Debug, PartialEq, Eq, Structural, Default)]
pub enum AnimationVisibility {
    #[default]
    Inherited,
    Hidden,
    Visible,
}

/// How an animation plays and whether it is shown. (Its size, scale and
/// colour are kept by the engine side.)
#[derive(Debug, PartialEq, Eq)]
pub struct Animation {
    pub name: String,
    /// The animation pauses before this frame index; 0 plays it once.
    pub pause: usize,
    pub inform: Option<AnimationInform>,
    pub starting_index: usize,
    pub self_despawn: bool,
    pub visibility: AnimationVisibility,
}

impl Clone for Animation {
    /// A copy of the animation that starts again from the first frame.
    fn clone(&self) -> (c: Self)
        ensures
            c.name@ == self.name@,
            c.pause == self.pause,
            c.inform is Some == self.inform is Some,
            c.inform matches Some(i) ==> i.entity == self.inform->0.entity && i.index@ == self.inform->0.index@,
            c.starting_index == 0,
            c.self_despawn == self.self_despawn,
            c.visibility == self.visibility,
    {
        let inform = match &self.inform {
            Some(i) => Some(AnimationInform { entity: i.entity, index: i.index.clone() }),
            None => None,
        };
        Animation {
            name: self.name.clone(),
            pause: self.pause,
            inform,
            starting_index: 0,
            self_despawn: self.self_despawn,
            visibility: self.visibility,
        }
    }
}

impl Animation {
    /// An animation that loops forever.
    pub fn new(name: String) -> (a: Animation)
        ensures
            a == (Animation {
                name,
                pause: usize::MAX,
                inform: None,
                starting_index: 0,
                self_despawn: false,
                visibility: AnimationVisibility::Inherited,
            }),
    {
        Animation {
            name,
            pause: usize::MAX,
            inform: None,
            starting_index: 0,
            self_despawn: false,
            visibility: AnimationVisibility::Inherited,
        }
    }

    /// Shown as `visibility` says (unless it has no name).
    pub fn with_visibility(self, visibility: AnimationVisibility) -> (a: Animation)
        ensures
            a == (Animation { visibility, ..self }),
    {
        let mut a = self;
        a.visibility = visibility;
        a
    }

    /// Plays once, then stays on its last frame.
    pub fn once(self) -> (a: Animation)
        ensures
            a == (Animation { pause: 0, ..self }),
    {
        let mut a = self;
        a.pause = 0;
        a
    }

    /// Plays once, then despawns itself.
    pub fn once_then_despawn(self) -> (a: Animation)
        ensures
            a == (Animation { pause: 0, self_despawn: true, ..self }),
    {
        let mut a = self;
        a.self_despawn = true;
        a.once()
    }

    /// Tells `inform` when its frames are reached.
    pub fn with_inform(self, inform: AnimationInform) -> (a: Animation)
        ensures
            a == (Animation { inform: Some(inform), ..self }),
    {
        let mut a = self;
        a.inform = Some(inform);
        a
    }

    pub fn set_pause(&mut self, position: usize)
        ensures
            *final(self) == (Animation { pause: position, ..*old(self) }),
    {
        self.pause = position;
    }

    pub fn set_inform(&mut self, inform: AnimationInform)
        ensures
            *final(self) == (Animation { inform: Some(inform), ..*old(self) }),
    {
        self.inform = Some(inform);
    }

    /// Replaces the animation by another one, keeping what is not named here.
    pub fn replace(&mut self, name: String, once: bool, inform: Option<AnimationInform>)
        ensures
            *final(self) == (Animation {
                name,
                pause: if once {
                    0
                } else {
                    usize::MAX
                },
                inform,
                ..*old(self)
            }),
    {
        self.name = name;
        self.set_pause(
            if once {
                0
            } else {
                usize::MAX
            },
        );
        self.inform = inform;
    }
}

impl Default for Animation {
    fn default() -> (a: Animation)
        ensures
            a.name@ == "Empty"@,
            a.pause == usize::MAX,
            a.inform.is_none(),
            a.starting_index == 0,
            !a.self_despawn,
            a.visibility == AnimationVisibility::Inherited,
    {
        Animation::new("Empty".to_owned())
    }
}

/// The frame clock of a playing animation.
#[derive(Clone, Copy, Debug, PartialEq, Eq, Structural)]
pub struct AnimationClock {
    pub timer: RepeatingTimer,
    /// The number of frames.
    pub total: usize,
    pub paused: bool,
}

/// Sent when a frame that someone asked about is reached.
#[derive(Clone, Copy, Debug, PartialEq, Eq, Structural)]
pub struct AnimationComplete {
    /// The entity told.
    pub entity: Entity,
    /// The animated entity.
    pub source: Entity,
    /// The index asked about.
    pub index: usize,
}

/// The indices asked about that the frame `next` answers: those equal to
/// it, and, when the animation wraps to frame 0, those meaning "after the
/// last frame".
pub open spec fn informed_indices(indices: Seq<usize>, next: int, total: int) -> Seq<usize> {
    indices.filter(answers(next, total))
}

/// Whether the frame `next` answers an asked index.
pub open spec fn answers(next: int, total: int) -> spec_fn(usize) -> bool {
    |i: usize| ((i == 0 || i >= total) && next == 0) || i == next
}

/// What a frame of an animation does.
pub struct AnimationTick {
    /// The indices to report with `AnimationComplete`, in order.
    pub informed: Vec<usize>,
    /// The animation reached its pause and despawns itself.
    pub despawn: bool,
}

/// The clock and frame index after one frame, whether the frame advanced,
/// and the next index it computed.
pub open spec fn animation_step(c: AnimationClock, index: usize, pause: usize, delta: u64) -> (
    AnimationClock,
    usize,
    bool,
    int,
) {
    let next = (index + 1) % (c.total as int);
    if c.paused && next == pause {
        (c, index, false, next)
    } else {
        let unpaused = c.paused;
        let c1 = if unpaused {
            AnimationClock { paused: false, timer: RepeatingTimer { elapsed: 0, just_finished: false, ..c.timer }, ..c }
        } else {
            c
        };
        if c1.timer.duration == 0 {
            (c1, index, false, next)
        } else {
            let c2 = if unpaused {
                c1
            } else {
                AnimationClock { timer: repeat_tick_spec(c1.timer, delta), ..c1 }
            };
            if unpaused || c2.timer.just_finished {
                if next == pause {
                    (AnimationClock { paused: true, ..c2 }, index, true, next)
                } else {
                    (c2, next as usize, true, next)
                }
            } else {
                (c2, index, false, next)
            }
        }
    }
}

/// Plays one frame of an animation. A paused animation stays paused while
/// its pause is still ahead; otherwise it starts again at once. A running
/// one advances when its clock fires: it moves to the next frame (wrapping
/// after the last), or pauses when the next frame is its pause. On every
/// advance the asked indices that the next frame answers are reported, and
/// a paused animation that despawns itself asks to be despawned.
pub fn tick_animation(
    clock: &mut AnimationClock,
    index: &mut usize,
    animation: &Animation,
    delta: u64,
) -> (t: AnimationTick)
    requires
        old(clock).paused ==> old(clock).total > 0 && *old(index) < usize::MAX,
        !old(clock).paused && old(clock).timer.duration != 0 ==> old(clock).timer.elapsed + delta <= u64::MAX,
        !old(clock).paused && old(clock).timer.duration != 0 && repeat_tick_spec(old(clock).timer, delta).just_finished
            ==> old(clock).total > 0 && *old(index) < usize::MAX,
    ensures
        ({
            let (c, i, advanced, next) = animation_step(*old(clock), *old(index), animation.pause, delta);
            &&& *final(clock) == c
            &&& *final(index) == i
            &&& t.informed@ == if advanced && animation.inform is Some {
                informed_indices(animation.inform.unwrap().index@, next, old(clock).total as int)
            } else {
                Seq::empty()
            }
            &&& t.despawn == (advanced && c.paused && animation.self_despawn)
        }),
{
    let none = AnimationTick { informed: Vec::new(), despawn: false };
    let mut just_unpaused = false;
    if clock.paused {
        let ahead = (*index + 1) % clock.total;
        if ahead == animation.pause {
            return none;
        }
        clock.paused = false;
        clock.timer.reset();
        just_unpaused = true;
    }
    if clock.timer.duration == 0 {
        return none;
    }
    let fired = if just_unpaused {
        true
    } else {
        clock.timer.tick(delta);
        clock.timer.just_finished
    };
    if !fired {
        return none;
    }
    let next = (*index + 1) % clock.total;
    if next == animation.pause {
        clock.paused = true;
    } else {
        *index = next;
    }
    let mut informed: Vec<usize> = Vec::new();
    match &animation.inform {
        Some(inform) => {
            let ghost f = answers(next as int, clock.total as int);
            let mut k: usize = 0;
            while k < inform.index.len()
                invariant
                    k <= inform.index@.len(),
                    f == answers(next as int, clock.total as int),
                    informed@ == inform.index@.take(k as int).filter(f),
                decreases inform.index@.len() - k,
            {
                let i = inform.index[k];
                let after_last = i == 0 || i >= clock.total;
                proof {
                    let s = inform.index@.take(k + 1);
                    assert(s.drop_last() =~= inform.index@.take(k as int));
                    assert(s.last() == i);
                    reveal_with_fuel(Seq::filter, 1);
                    assert(s.filter(f) == (if f(i) {
                        inform.index@.take(k as int).filter(f).push(i)
                    } else {
                        inform.index@.take(k as int).filter(f)
                    }));
                }
                if (after_last && next == 0) || i == next {
                    informed.push(i);
                }
                k = k + 1;
            }
            assert(inform.index@.take(inform.index@.len() as int) =~= inform.index@);
        },
        None => {},
    }
    AnimationTick { informed, despawn: clock.paused && animation.self_despawn }
}

/// Picks a number below `n` at random, by `rand::random_range`.
#[verifier::external_body]
fn random_below(n: usize) -> (r: usize)
    requires
        n > 0,
    ensures
        r < n,
{
    rand::random_range(0..n)
}

/// How a changed animation is shown.
pub struct AnimationSetup {
    /// An animation without a name is hidden.
    pub hidden: bool,
    /// The atlas chosen, or none when the name has no atlas configured (the
    /// default sprite is shown then).
    pub atlas: Option<AtlasChoice>,
}

/// The atlas an animation plays.
pub struct AtlasChoice {
    /// Which of the configured atlases.
    pub index: usize,
    /// The name its layout is kept under: the animation name followed by the index.
    pub atlas_name: String,
    /// A frame clock of the atlas's interval.
    pub timer: RepeatingTimer,
    /// The atlas's frame count.
    pub total: usize,
}

/// How a changed animation is shown: hidden when it has no name, otherwise
/// as its own visibility says.
pub fn shown_visibility(animation: &Animation) -> (v: AnimationVisibility)
    ensures
        v == (if animation.name@.len() == 0 {
            AnimationVisibility::Hidden
        } else {
            animation.visibility
        }),
{
    if animation.name.unicode_len() == 0 {
        AnimationVisibility::Hidden
    } else {
        animation.visibility
    }
}

/// Sets up a changed animation: hides it when it has no name; when its
/// name has atlases configured, one of them is picked at random and its
/// interval (milliseconds) and frame count set the clock.
pub fn setup_animation(name: &str, sprites: &NameMap<Vec<SpriteAtlas>>) -> (s: AnimationSetup)
    ensures
        s.hidden == (name@.len() == 0),
        s.atlas is Some == (sprites@.contains_key(name@) && sprites@[name@]@.len() > 0),
        s.atlas matches Some(a) ==> {
            let atlases = sprites@[name@]@;
            &&& a.index < atlases.len()
            &&& a.atlas_name@ == name@ + decimal(a.index as nat)
            &&& a.timer == RepeatingTimer::new(
                (atlases[a.index as int].interval as u64 * 1_000_000) as u64,
            )
            &&& a.total == atlases[a.index as int].count as usize
        },
{
    let hidden = name.unicode_len() == 0;
    let atlas = match sprites.get(name) {
        None => None,
        Some(atlases) => {
            if atlases.len() == 0 {
                None
            } else {
                let index = random_below(atlases.len());
                let atlas = &atlases[index];
                let number = decimal_string(index);
                let atlas_name = concat(name, number.as_str());
                let interval = atlas.interval as u64 * 1_000_000;
                Some(
                    AtlasChoice {
                        index,
                        atlas_name,
                        timer: RepeatingTimer::new(interval),
                        total: atlas.count as usize,
                    },
                )
            }
        },
    };
    AnimationSetup { hidden, atlas }
}

/// When each named sprite handle was last used (whole seconds since
/// start-up), and the names used for the first time, to be recorded later.
pub struct HandleTimes {
    pub times: NameMap<u64>,
    pub queue: Vec<String>,
}

impl HandleTimes {
    /// Records a use of the handle `name`: a known handle gets the time now,
    /// a new one waits in the queue.
    pub fn update_handle(&mut self, name: String, now: u64)
        ensures
            old(self).times@.contains_key(name@) ==> final(self).times@ == old(self).times@.insert(name@, now)
                && final(self).queue@ == old(self).queue@,
            !old(self).times@.contains_key(name@) ==> final(self).times@ == old(self).times@
                && final(self).queue@ == old(self).queue@.push(name),
    {
        if self.times.contains_key(name.as_str()) {
            self.times.insert(name, now);
        } else {
            self.queue.push(name);
        }
    }

    /// Records the queued names with the time now.
    pub fn update_handle_strong(&mut self, now: u64)
        ensures
            final(self).queue@.len() == 0,
            final(self).times@.dom() == old(self).times@.dom().union(
                old(self).queue@.map_values(|s: String| s@).to_set(),
            ),
            forall|k: Seq<char>|
                #[trigger] final(self).times@.contains_key(k) ==> final(self).times@[k] == if old(
                    self,
                ).queue@.map_values(|s: String| s@).contains(k) {
                    now
                } else {
                    old(self).times@[k]
                },
    {
        let ghost q = self.queue@.map_values(|s: String| s@);
        let ghost t0 = self.times@;
        while self.queue.len() > 0
            invariant
                self.queue@.map_values(|s: String| s@) == q.take(self.queue@.len() as int),
                self.queue@.len() <= q.len(),
                self.times@.dom() == t0.dom().union(q.skip(self.queue@.len() as int).to_set()),
                forall|k: Seq<char>|
                    #[trigger] self.times@.contains_key(k) ==> self.times@[k] == if q.skip(
                        self.queue@.len() as int,
                    ).contains(k) {
                        now
                    } else {
                        t0[k]
                    },
            decreases self.queue@.len(),
        {
            let ghost n = self.queue@.len();
            let name = self.queue.pop().unwrap();
            assert(q[n - 1] == name@) by {
                assert(q.take(n as int)[n - 1] == name@);
            }
            assert(q.skip(n - 1) =~= seq![name@] + q.skip(n as int));
            assert(self.queue@.map_values(|s: String| s@) =~= q.take(n - 1));
            let ghost before = self.times@;
            self.times.insert(name, now);
            proof {
                let tail = q.skip(n - 1);
                let rest = q.skip(n as int);
                assert(tail =~= seq![name@] + rest);
                assert forall|k: Seq<char>| tail.contains(k) == (k == name@ || rest.contains(k)) by {
                    if rest.contains(k) {
                        let j = choose|j: int| 0 <= j < rest.len() && rest[j] == k;
                        assert(tail[j + 1] == k);
                    }
                    if k == name@ {
                        assert(tail[0] == k);
                    }
                    if tail.contains(k) {
                        let j = choose|j: int| 0 <= j < tail.len() && tail[j] == k;
                        if j > 0 {
                            assert(rest[j - 1] == k);
                        }
                    }
                }
                assert(self.times@.dom() =~= t0.dom().union(q.skip(n - 1).to_set()));
            }
        }
        assert(q.skip(0) =~= q);
    }
}

/// Whether a handle stays when the caches are cleared: a handle never
/// recorded stays, a recorded one stays while it was used at most
/// `max_age` seconds ago.
pub open spec fn keeps_handle(times: Map<Seq<char>, u64>, name: Seq<char>, now: u64, max_age: u64) -> bool {
    !times.contains_key(name) || now - times[name] <= max_age
}

/// Which of the named handles stay when the caches are cleared.
pub fn recent_handles(names: &Vec<String>, times: &NameMap<u64>, now: u64, max_age: u64) -> (keep: Vec<bool>)
    requires
        forall|i: int|
            0 <= i < names@.len() && times@.contains_key(#[trigger] names@[i]@) ==> times@[names@[i]@] <= now,
    ensures
        keep@.len() == names@.len(),
        forall|i: int| 0 <= i < names@.len() ==> #[trigger] keep@[i] == keeps_handle(times@, names@[i]@, now, max_age),
{
    let mut keep: Vec<bool> = Vec::new();
    let mut i: usize = 0;
    while i < names.len()
        invariant
            i <= names@.len(),
            keep@.len() == i,
            forall|j: int|
                0 <= j < names@.len() && times@.contains_key(#[trigger] names@[j]@) ==> times@[names@[j]@]
                    <= now,
            forall|j: int| 0 <= j < i ==> #[trigger] keep@[j] == keeps_handle(times@, names@[j]@, now, max_age),
        decreases names@.len() - i,
    {
        let k = match times.get(names[i].as_str()) {
            None => true,
            Some(t) => {
                assert(names@[i as int]@ == names[i as int]@);
                now - *t <= max_age
            },
        };
        keep.push(k);
        i = i + 1;
    }
    keep
}

} // verus!
