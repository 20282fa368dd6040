//! Boss behaviors: a manager picks which behavior runs next, keeping track of
//! running behaviors, the resources they occupy, cooldowns and queued requests.

use std::collections::{BTreeSet, VecDeque};
use vstd::prelude::*;

use crate::entity::Entity;
use crate::names::{NameMap, NameSet};
use crate::timer::{tick_spec, Timer};
use vstd::std_specs::iter::IteratorSpec;

verus! {

/// The phases in which behavior weights are worked out each frame.
#[derive(Clone, Copy, Debug, PartialEq, Eq, Structural)]
pub enum BehaviorProcess {
    Init,
    Calc,
    Trigger,
}

/// Event to call a behavior to do its part.
#[derive(Debug)]
pub struct BehaveStart {
    pub entity: Entity,
    /// The target entity (the boss) that this behavior acts for.
    pub target: Entity,
    /// Set when the behavior was queued by another behavior of this name.
    pub caller: Option<String>,
}

/// A behavior sends this back to end itself.
#[derive(Debug)]
pub struct BehaveEnd {
    pub entity: Entity,
    /// Locks all behaviors for this long (nanoseconds).
    pub cooldown: u64,
    /// Resources the boss keeps from using for a while (nanoseconds).
    pub occupies: Vec<(String, u64)>,
}

/// Event to force a behavior to end before the next frame.
#[derive(Clone, Copy, Debug, PartialEq, Eq, Structural)]
pub struct BehaveIntervene {
    pub entity: Entity,
    /// The target entity (the boss) of the behavior.
    pub target: Entity,
}

impl BehaveIntervene {
    /// Intervention sent to a manager, which ends all its running behaviors;
    /// the target does not matter there.
    pub fn new_for_manager(entity: Entity) -> (e: BehaveIntervene)
        ensures
            e.entity == entity,
            e.target == entity,
    {
        BehaveIntervene { entity, target: entity }
    }
}

/// The parent entity of all behaviors.
#[derive(Clone, Copy, Debug, PartialEq, Eq, Structural)]
pub struct BehaviorManager {
    /// The target that all behaviors affect. Defaults to the parent of the
    /// manager, or to the manager itself when it has no parent.
    pub target: Option<Entity>,
    /// Temporarily disables the behavior manager for a manual behavior.
    pub disabled: bool,
}

impl BehaviorManager {
    /// An enabled manager acting for its parent.
    pub fn new() -> (m: BehaviorManager)
        ensures
            m.target is None,
            !m.disabled,
    {
        BehaviorManager { target: None, disabled: false }
    }

    /// The entity the behaviors act on.
    pub fn behavior_target(&self, parent: Option<Entity>, manager_entity: Entity) -> (t: Entity)
        ensures
            t == match self.target {
                Some(t) => t,
                None => match parent {
                    Some(p) => p,
                    None => manager_entity,
                },
            },
    {
        match self.target {
            Some(t) => t,
            None => match parent {
                Some(p) => p,
                None => manager_entity,
            },
        }
    }
}

/// Asks the manager to queue another behavior, by name.
#[derive(Debug)]
pub struct BehaveQueue {
    /// The calling behavior.
    pub entity: Entity,
    /// The name of the behavior to queue.
    pub name: String,
}

impl BehaveQueue {
    pub fn new(entity: Entity, name: String) -> (q: BehaveQueue)
        ensures
            q.entity == entity,
            q.name == name,
    {
        BehaveQueue { entity, name }
    }
}

/// A behavior as the manager sees it: its entity and the resources it occupies.
pub struct BehaviorEntry {
    pub entity: Entity,
    pub occupies: NameSet,
}

/// What the manager does this frame.
#[derive(Debug)]
pub enum Selection {
    /// Nothing starts.
    Idle,
    /// A queued behavior starts, on behalf of the named caller.
    Queued { entity: Entity, caller: String },
    /// One of these behaviors starts, chosen at random by weight.
    Candidates(Vec<Entity>),
}

/// How long a running behavior holds its resources at most (nanoseconds).
pub open spec fn hold_forever() -> u64 {
    99_999_000_000_000
}

/// The occupied resources after time passes: every cooldown advances and
/// those that end are freed.
pub open spec fn occupied_after(m: Map<Seq<char>, Timer>, delta: u64) -> Map<Seq<char>, Timer> {
    Map::new(
        |k: Seq<char>| m.contains_key(k) && !tick_spec(m[k], delta).finished,
        |k: Seq<char>| tick_spec(m[k], delta),
    )
}

/// Whether a behavior may start: it is not running and none of its resources is occupied.
pub open spec fn available(e: BehaviorEntry, running: Set<u64>, occupied: Map<Seq<char>, Timer>) -> bool {
    !running.contains(e.entity.0) && forall|r: Seq<char>| e.occupies@.contains(r) ==> !occupied.contains_key(r)
}

/// The entities of the available behaviors, in order.
pub open spec fn candidates(entries: Seq<BehaviorEntry>, running: Set<u64>, occupied: Map<Seq<char>, Timer>) -> Seq<Entity>
    decreases entries.len(),
{
    if entries.len() == 0 {
        Seq::empty()
    } else {
        let rest = candidates(entries.drop_last(), running, occupied);
        if available(entries.last(), running, occupied) {
            rest.push(entries.last().entity)
        } else {
            rest
        }
    }
}

/// Every timer can advance by `delta` without overflow.
pub open spec fn timers_fit(m: Map<Seq<char>, Timer>, delta: u64) -> bool {
    forall|k: Seq<char>| m.contains_key(k) ==> (m[k].finished || m[k].elapsed + delta <= u64::MAX)
}

/// Runtime information of a manager.
pub struct BehaviorManagerInfo {
    /// Maps from behavior name to entity.
    name_map: NameMap<Entity>,
    occupied: NameMap<Timer>,
    /// All running behaviors, by entity bits.
    running: BTreeSet<u64>,
    cooldown: Timer,
    /// Behaviors that other behaviors asked to run, with the caller's name.
    queued: VecDeque<(Entity, String)>,
}

impl BehaviorManagerInfo {
    /// The behaviors known by name.
    pub closed spec fn names(&self) -> Map<Seq<char>, Entity> {
        self.name_map@
    }

    /// The occupied resources and their cooldowns.
    pub closed spec fn occupied_view(&self) -> Map<Seq<char>, Timer> {
        self.occupied@
    }

    /// The running behaviors, by entity bits.
    pub closed spec fn running_view(&self) -> Set<u64> {
        self.running@
    }

    /// The global cooldown.
    pub closed spec fn cooldown_view(&self) -> Timer {
        self.cooldown
    }

    /// The queued behaviors with their callers' names, first one first.
    pub closed spec fn queue_view(&self) -> Seq<(Entity, Seq<char>)> {
        self.queued@.map_values(|q: (Entity, String)| (q.0, q.1@))
    }

    /// Nothing known, nothing running; the first behavior may start after one second.
    pub fn new() -> (info: BehaviorManagerInfo)
        ensures
            info.names() == Map::<Seq<char>, Entity>::empty(),
            info.occupied_view() == Map::<Seq<char>, Timer>::empty(),
            info.running_view() == Set::<u64>::empty(),
            info.cooldown_view() == Timer::new(1_000_000_000),
            info.queue_view() == Seq::<(Entity, Seq<char>)>::empty(),
    {
        let info = BehaviorManagerInfo {
            name_map: NameMap::new(),
            occupied: NameMap::new(),
            running: BTreeSet::new(),
            cooldown: Timer::new(1_000_000_000),
            queued: VecDeque::new(),
        };
        assert(info.queue_view() =~= Seq::<(Entity, Seq<char>)>::empty());
        info
    }

    /// All occupied resources and their cooldowns.
    pub fn occupied(&self) -> (m: &NameMap<Timer>)
        ensures
            m@ == self.occupied_view(),
    {
        &self.occupied
    }

    /// The global cooldown.
    pub fn cooldown(&self) -> (t: Timer)
        ensures
            t == self.cooldown_view(),
    {
        self.cooldown
    }

    /// The number of queued behaviors.
    pub fn queue_len(&self) -> (n: usize)
        ensures
            n == self.queue_view().len(),
    {
        self.queued.len()
    }

    /// Whether the behavior (by entity bits) is running.
    pub fn is_running(&self, entity: Entity) -> (r: bool)
        ensures
            r == self.running_view().contains(entity.0),
    {
        self.running.contains(&entity.0)
    }

    /// Whether the resource is occupied.
    pub fn is_occupied(&self, resource: &str) -> (r: bool)
        ensures
            r == self.occupied_view().contains_key(resource@),
    {
        self.occupied.contains_key(resource)
    }

    /// Clears all running information about the manager.
    pub fn clear(&mut self)
        ensures
            final(self).occupied_view() == Map::<Seq<char>, Timer>::empty(),
            final(self).running_view() == Set::<u64>::empty(),
            final(self).cooldown_view() == Timer::zero(),
            final(self).names() == old(self).names(),
            final(self).queue_view() == old(self).queue_view(),
    {
        self.occupied = NameMap::new();
        self.running = BTreeSet::new();
        self.cooldown = Timer::zero();
    }

    /// Applies a global cooldown so that the behavior manager does not react too fast.
    pub fn set_global_cooldown(&mut self, cooldown: u64)
        ensures
            final(self).cooldown_view() == Timer::new(cooldown),
            final(self).occupied_view() == old(self).occupied_view(),
            final(self).running_view() == old(self).running_view(),
            final(self).names() == old(self).names(),
            final(self).queue_view() == old(self).queue_view(),
    {
        self.cooldown = Timer::new(cooldown);
    }

    /// Queues a behavior to run without checking its resources (the global
    /// cooldown still applies); automatic selection waits until the queue is empty.
    pub fn push_queue(&mut self, entity: Entity, caller: String)
        ensures
            final(self).queue_view() == old(self).queue_view().push((entity, caller@)),
            final(self).occupied_view() == old(self).occupied_view(),
            final(self).running_view() == old(self).running_view(),
            final(self).cooldown_view() == old(self).cooldown_view(),
            final(self).names() == old(self).names(),
    {
        let ghost c = caller@;
        self.queued.push_back((entity, caller));
        assert(self.queue_view() =~= old(self).queue_view().push((entity, c)));
    }

    /// Remembers the manager's behaviors by name; a later behavior of the
    /// same name replaces an earlier one.
    pub fn register(&mut self, name: String, entity: Entity)
        ensures
            final(self).names() == old(self).names().insert(name@, entity),
            final(self).occupied_view() == old(self).occupied_view(),
            final(self).running_view() == old(self).running_view(),
            final(self).cooldown_view() == old(self).cooldown_view(),
            final(self).queue_view() == old(self).queue_view(),
    {
        self.name_map.insert(name, entity);
    }

    /// A behavior asks for a sibling to run next: the sibling is queued on
    /// behalf of the caller, if a behavior of that name is known.
    pub fn request(&mut self, caller_name: String, name: &str) -> (queued: bool)
        ensures
            queued == old(self).names().contains_key(name@),
            queued ==> final(self).queue_view() == old(self).queue_view().push(
                (old(self).names()[name@], caller_name@),
            ),
            !queued ==> final(self).queue_view() == old(self).queue_view(),
            final(self).occupied_view() == old(self).occupied_view(),
            final(self).running_view() == old(self).running_view(),
            final(self).cooldown_view() == old(self).cooldown_view(),
            final(self).names() == old(self).names(),
    {
        match self.name_map.get(name) {
            Some(target) => {
                let t = *target;
                self.push_queue(t, caller_name);
                true
            },
            None => false,
        }
    }

    /// Advances every resource cooldown and frees the resources whose cooldown ended.
    fn tick_occupied(&mut self, delta: u64)
        requires
            timers_fit(old(self).occupied_view(), delta),
        ensures
            final(self).occupied_view() == occupied_after(old(self).occupied_view(), delta),
            final(self).running_view() == old(self).running_view(),
            final(self).cooldown_view() == old(self).cooldown_view(),
            final(self).queue_view() == old(self).queue_view(),
            final(self).names() == old(self).names(),
    {
        let mut rest = NameMap::new();
        std::mem::swap(&mut rest, &mut self.occupied);
        let ghost all = rest@;
        let ghost mut done: Set<Seq<char>> = Set::empty();
        proof {
            assert(rest@ =~= all.remove_keys(done));
            assert(self.occupied@ =~= occupied_after(all, delta).restrict(done));
        }
        while rest.len() > 0
            invariant
                rest@ == all.remove_keys(done),
                done.subset_of(all.dom()),
                timers_fit(all, delta),
                self.occupied@ == occupied_after(all, delta).restrict(done),
                self.running@ == old(self).running_view(),
                self.cooldown == old(self).cooldown_view(),
                self.queued@ == old(self).queued@,
                self.name_map@ == old(self).names(),
            decreases rest@.dom().len(),
        {
            match rest.pop() {
                None => {},
                Some((name, timer)) => {
                    let ghost k = name@;
                    let mut t = timer;
                    t.tick(delta);
                    if !t.is_finished() {
                        self.occupied.insert(name, t);
                    }
                    proof {
                        let nd = done.insert(k);
                        assert(rest@ =~= all.remove_keys(nd));
                        assert(self.occupied@ =~= occupied_after(all, delta).restrict(nd));
                        done = nd;
                    }
                },
            }
        }
        proof {
            assert(all.dom() =~= done) by {
                assert forall|x: Seq<char>| all.dom().contains(x) implies done.contains(x) by {
                    if !done.contains(x) {
                        assert(rest@.contains_key(x));
                    }
                }
            }
            assert(occupied_after(all, delta).restrict(done) =~= occupied_after(all, delta));
        }
    }

    /// One frame of automatic selection. A disabled manager does nothing.
    /// Otherwise the global cooldown advances; while it runs nothing starts.
    /// When it is over it is replaced by a zero cooldown, and a queued
    /// behavior starts if there is one; if not, resource cooldowns advance
    /// and the behaviors that are not running and whose resources are all
    /// free are the candidates.
    pub fn select(&mut self, disabled: bool, delta: u64, behaviors: &Vec<BehaviorEntry>) -> (s: Selection)
        requires
            !disabled ==> old(self).cooldown_view().finished || old(self).cooldown_view().elapsed + delta
                <= u64::MAX,
            !disabled && tick_spec(old(self).cooldown_view(), delta).finished && old(self).queue_view().len() == 0
                ==> timers_fit(old(self).occupied_view(), delta),
        ensures
            disabled ==> s is Idle && final(self).cooldown_view() == old(self).cooldown_view()
                && final(self).occupied_view() == old(self).occupied_view()
                && final(self).queue_view() == old(self).queue_view(),
            !disabled && !tick_spec(old(self).cooldown_view(), delta).finished ==> s is Idle
                && final(self).cooldown_view() == tick_spec(old(self).cooldown_view(), delta)
                && final(self).occupied_view() == old(self).occupied_view()
                && final(self).queue_view() == old(self).queue_view(),
            !disabled && tick_spec(old(self).cooldown_view(), delta).finished ==> {
                &&& final(self).cooldown_view() == Timer::zero()
                &&& if old(self).queue_view().len() > 0 {
                    &&& s matches Selection::Queued { entity, caller } && entity == old(self).queue_view()[0].0
                        && caller@ == old(self).queue_view()[0].1
                    &&& final(self).queue_view() == old(self).queue_view().drop_first()
                    &&& final(self).occupied_view() == old(self).occupied_view()
                } else {
                    &&& final(self).queue_view() == old(self).queue_view()
                    &&& final(self).occupied_view() == occupied_after(old(self).occupied_view(), delta)
                    &&& s matches Selection::Candidates(c) && c@ == candidates(
                        behaviors@,
                        old(self).running_view(),
                        final(self).occupied_view(),
                    )
                }
            },
            final(self).running_view() == old(self).running_view(),
            final(self).names() == old(self).names(),
    {
        if disabled {
            return Selection::Idle;
        }
        self.cooldown.tick(delta);
        if !self.cooldown.is_finished() {
            return Selection::Idle;
        }
        self.cooldown = Timer::zero();
        let ghost q = self.queued@;
        match self.queued.pop_front() {
            Some((entity, caller)) => {
                assert(self.queue_view() =~= old(self).queue_view().drop_first());
                return Selection::Queued { entity, caller };
            },
            None => {},
        }
        self.tick_occupied(delta);
        let mut found: Vec<Entity> = Vec::new();
        let mut i: usize = 0;
        assert(behaviors@.take(0) =~= Seq::<BehaviorEntry>::empty());
        while i < behaviors.len()
            invariant
                i <= behaviors@.len(),
                found@ == candidates(behaviors@.take(i as int), self.running@, self.occupied@),
            decreases behaviors@.len() - i,
        {
            let b = &behaviors[i];
            let mut ok = !self.running.contains(&b.entity.0);
            let mut j: usize = 0;
            proof {
                b.occupies.lemma_view();
            }
            while ok && j < b.occupies.len()
                invariant
                    j <= b.occupies.ordered().len(),
                    b.occupies@ == b.occupies.ordered().to_set(),
                    ok == (!self.running@.contains(b.entity.0) && forall|k: int|
                        0 <= k < j ==> !self.occupied@.contains_key(#[trigger] b.occupies.ordered()[k])),
                decreases b.occupies.ordered().len() - j,
            {
                if self.occupied.contains_key(b.occupies.at(j).as_str()) {
                    ok = false;
                }
                j = j + 1;
            }
            proof {
                assert(ok == available(*b, self.running@, self.occupied@)) by {
                    if !ok && !self.running@.contains(b.entity.0) {
                        let k = choose|k: int| 0 <= k < j && self.occupied@.contains_key(#[trigger] b.occupies.ordered()[k]);
                        assert(b.occupies.ordered().contains(b.occupies.ordered()[k]));
                    }
                    if ok {
                        assert forall|r: Seq<char>| b.occupies@.contains(r) implies !self.occupied@.contains_key(r) by {
                            let k = choose|k: int| 0 <= k < b.occupies.ordered().len() && b.occupies.ordered()[k] == r;
                        }
                    }
                }
                assert(behaviors@.take(i + 1).drop_last() =~= behaviors@.take(i as int));
            }
            if ok {
                found.push(b.entity);
            }
            i = i + 1;
        }
        assert(behaviors@.take(i as int) =~= behaviors@);
        Selection::Candidates(found)
    }

    /// A behavior starts: its resources are held (for as good as ever) and it
    /// counts as running; its own cooldown, if any, becomes the global one.
    pub fn start(&mut self, entity: Entity, occupies: &NameSet, cooldown: Option<u64>)
        ensures
            final(self).running_view() == old(self).running_view().insert(entity.0),
            final(self).occupied_view() == started_occupation(old(self).occupied_view(), occupies@),
            final(self).cooldown_view() == (match cooldown {
                Some(c) => Timer::new(c),
                None => old(self).cooldown_view(),
            }),
            final(self).queue_view() == old(self).queue_view(),
            final(self).names() == old(self).names(),
    {
        let ghost held = Map::new(|r: Seq<char>| occupies@.contains(r), |r: Seq<char>| Timer::new(hold_forever()));
        proof {
            occupies.lemma_view();
        }
        let mut i: usize = 0;
        let ghost start = self.occupied@;
        assert(start =~= start.union_prefer_right(held.restrict(occupies.ordered().take(0).to_set())));
        while i < occupies.len()
            invariant
                i <= occupies.ordered().len(),
                occupies@ == occupies.ordered().to_set(),
                held == Map::new(|r: Seq<char>| occupies@.contains(r), |r: Seq<char>| Timer::new(hold_forever())),
                self.occupied@ == start.union_prefer_right(held.restrict(occupies.ordered().take(i as int).to_set())),
                self.running@ == old(self).running_view(),
                self.cooldown == old(self).cooldown_view(),
                self.queued@ == old(self).queued@,
                self.name_map@ == old(self).names(),
            decreases occupies.ordered().len() - i,
        {
            let r = occupies.at(i);
            self.occupied.insert(r.clone(), Timer::new(99_999_000_000_000));
            proof {
                let o = occupies.ordered();
                assert(o.take(i + 1) =~= o.take(i as int).push(r@));
                o.take(i as int).lemma_push_to_set_commute(r@);
                assert(o[i as int] == r@);
                assert(o.contains(r@));
                assert(self.occupied@ =~= start.union_prefer_right(held.restrict(o.take(i + 1).to_set())));
            }
            i = i + 1;
        }
        assert(occupies.ordered().take(i as int) =~= occupies.ordered());
        assert(held.restrict(occupies.ordered().to_set()) =~= held);
        self.running.insert(entity.0);
        match cooldown {
            Some(c) => {
                self.cooldown = Timer::new(c);
            },
            None => {},
        }
    }

    /// A behavior ends: it frees its resources, the resources named by the
    /// event stay occupied for their given time, it no longer runs, and the
    /// global cooldown is extended by the event's cooldown.
    pub fn end(&mut self, entity: Entity, occupies: &NameSet, event: &BehaveEnd)
        requires
            old(self).cooldown_view().duration + event.cooldown <= u64::MAX,
        ensures
            final(self).running_view() == old(self).running_view().remove(entity.0),
            final(self).occupied_view() == ended_occupation(old(self).occupied_view(), occupies@, event.occupies@),
            final(self).cooldown_view() == (Timer {
                duration: (old(self).cooldown_view().duration + event.cooldown) as u64,
                ..old(self).cooldown_view()
            }),
            final(self).queue_view() == old(self).queue_view(),
            final(self).names() == old(self).names(),
    {
        proof {
            occupies.lemma_view();
        }
        let ghost start = self.occupied@;
        let mut i: usize = 0;
        assert(start =~= start.remove_keys(occupies.ordered().take(0).to_set()));
        while i < occupies.len()
            invariant
                i <= occupies.ordered().len(),
                occupies@ == occupies.ordered().to_set(),
                self.occupied@ == start.remove_keys(occupies.ordered().take(i as int).to_set()),
                self.running@ == old(self).running_view(),
                self.cooldown == old(self).cooldown_view(),
                self.queued@ == old(self).queued@,
                self.name_map@ == old(self).names(),
            decreases occupies.ordered().len() - i,
        {
            let r = occupies.at(i);
            self.occupied.remove(r.as_str());
            proof {
                let o = occupies.ordered();
                assert(o.take(i + 1) =~= o.take(i as int).push(r@));
                o.take(i as int).lemma_push_to_set_commute(r@);
                assert(self.occupied@ =~= start.remove_keys(o.take(i + 1).to_set()));
            }
            i = i + 1;
        }
        assert(occupies.ordered().take(i as int) =~= occupies.ordered());
        let ghost freed = self.occupied@;
        let mut k: usize = 0;
        while k < event.occupies.len()
            invariant
                k <= event.occupies@.len(),
                freed == start.remove_keys(occupies@),
                self.occupied@ == occupy_for(freed, event.occupies@.take(k as int)),
                self.running@ == old(self).running_view(),
                self.cooldown == old(self).cooldown_view(),
                self.queued@ == old(self).queued@,
                self.name_map@ == old(self).names(),
            decreases event.occupies@.len() - k,
        {
            let (name, d) = &event.occupies[k];
            self.occupied.insert(name.clone(), Timer::new(*d));
            assert(event.occupies@.take(k + 1).drop_last() =~= event.occupies@.take(k as int));
            k = k + 1;
        }
        assert(event.occupies@.take(k as int) =~= event.occupies@);
        self.running.remove(&entity.0);
        let d = self.cooldown.duration + event.cooldown;
        self.cooldown.set_duration(d);
    }

    /// An intervention on the manager: every running behavior is asked to end
    /// (the returned entities), resources are freed and the cooldown is reset.
    /// The caller also disables the manager.
    pub fn intervene(&mut self, manager: &mut BehaviorManager) -> (running: Vec<u64>)
        ensures
            running@.to_set() == old(self).running_view(),
            final(manager).disabled,
            final(manager).target == old(manager).target,
            final(self).occupied_view() == Map::<Seq<char>, Timer>::empty(),
            final(self).cooldown_view() == Timer::zero(),
            final(self).running_view() == old(self).running_view(),
            final(self).queue_view() == old(self).queue_view(),
            final(self).names() == old(self).names(),
    {
        let mut running: Vec<u64> = Vec::new();
        let ghost all = self.running.iter().remaining().unref();
        for x in it: self.running.iter()
            invariant
                it.seq().unref() == all,
                running@ == all.take(it.index() as int),
        {
            running.push(*x);
            assert(all.take(it.index() + 1) =~= all.take(it.index() as int).push(*x));
        }
        assert(running@ =~= all);
        manager.disabled = true;
        self.occupied = NameMap::new();
        self.cooldown = Timer::zero();
        running
    }
}

/// The occupied resources after a behavior starts: its own are held for as
/// good as ever.
pub open spec fn started_occupation(m: Map<Seq<char>, Timer>, own: Set<Seq<char>>) -> Map<Seq<char>, Timer> {
    m.union_prefer_right(Map::new(|r: Seq<char>| own.contains(r), |r: Seq<char>| Timer::new(hold_forever())))
}

/// The occupied resources after some are taken for the given times, in order.
pub open spec fn occupy_for(m: Map<Seq<char>, Timer>, taken: Seq<(String, u64)>) -> Map<Seq<char>, Timer>
    decreases taken.len(),
{
    if taken.len() == 0 {
        m
    } else {
        occupy_for(m, taken.drop_last()).insert(taken.last().0@, Timer::new(taken.last().1))
    }
}

/// The occupied resources after a behavior ends: its own resources are freed,
/// then those named by its end event are taken for their times.
pub open spec fn ended_occupation(
    m: Map<Seq<char>, Timer>,
    own: Set<Seq<char>>,
    taken: Seq<(String, u64)>,
) -> Map<Seq<char>, Timer> {
    occupy_for(m.remove_keys(own), taken)
}

proof fn lemma_occupy_for_keys(m: Map<Seq<char>, Timer>, taken: Seq<(String, u64)>, r: Seq<char>)
    ensures
        occupy_for(m, taken).contains_key(r) == (m.contains_key(r) || exists|k: int|
            0 <= k < taken.len() && #[trigger] taken[k].0@ == r),
    decreases taken.len(),
{
    if taken.len() > 0 {
        lemma_occupy_for_keys(m, taken.drop_last(), r);
        if exists|k: int| 0 <= k < taken.len() && #[trigger] taken[k].0@ == r {
            let k = choose|k: int| 0 <= k < taken.len() && #[trigger] taken[k].0@ == r;
            if k < taken.len() - 1 {
                assert(taken.drop_last()[k].0@ == r);
            }
        }
        if exists|k: int| 0 <= k < taken.len() - 1 && #[trigger] taken.drop_last()[k].0@ == r {
            let k = choose|k: int| 0 <= k < taken.len() - 1 && #[trigger] taken.drop_last()[k].0@ == r;
            assert(taken[k].0@ == r);
        }
    }
}

/// A behavior that starts runs until it ends: after `start` it runs and
/// holds all its resources, so it is no candidate; after `end` it no longer
/// runs, and each of its resources that the end event does not take again
/// is free.
pub proof fn law_start_then_end(
    running: Set<u64>,
    entry: BehaviorEntry,
    occupied: Map<Seq<char>, Timer>,
    taken: Seq<(String, u64)>,
)
    ensures
        running.insert(entry.entity.0).contains(entry.entity.0),
        forall|r: Seq<char>| #[trigger] entry.occupies@.contains(r) ==> started_occupation(occupied, entry.occupies@).contains_key(r),
        !available(entry, running.insert(entry.entity.0), started_occupation(occupied, entry.occupies@)),
        !running.insert(entry.entity.0).remove(entry.entity.0).contains(entry.entity.0),
        forall|r: Seq<char>|
            #[trigger] entry.occupies@.contains(r) && (forall|k: int| 0 <= k < taken.len() ==> taken[k].0@ != r)
                ==> !ended_occupation(started_occupation(occupied, entry.occupies@), entry.occupies@, taken).contains_key(r),
{
    assert forall|r: Seq<char>|
        #[trigger] entry.occupies@.contains(r) && (forall|k: int| 0 <= k < taken.len() ==> taken[k].0@ != r)
            implies !ended_occupation(started_occupation(occupied, entry.occupies@), entry.occupies@, taken).contains_key(r) by {
        lemma_occupy_for_keys(started_occupation(occupied, entry.occupies@).remove_keys(entry.occupies@), taken, r);
    }
}

/// No candidate is running or needs an occupied resource: each candidate is
/// the entity of an available behavior.
pub proof fn law_candidates_available(
    entries: Seq<BehaviorEntry>,
    running: Set<u64>,
    occupied: Map<Seq<char>, Timer>,
    k: int,
)
    requires
        0 <= k < candidates(entries, running, occupied).len(),
    ensures
        exists|j: int|
            0 <= j < entries.len() && entries[j].entity == candidates(entries, running, occupied)[k]
                && available(entries[j], running, occupied),
    decreases entries.len(),
{
    let rest = candidates(entries.drop_last(), running, occupied);
    if k < rest.len() {
        assert(candidates(entries, running, occupied)[k] == rest[k]);
        law_candidates_available(entries.drop_last(), running, occupied, k);
        let j = choose|j: int|
            0 <= j < entries.drop_last().len() && entries.drop_last()[j].entity == rest[k]
                && available(entries.drop_last()[j], running, occupied);
        assert(entries[j] == entries.drop_last()[j]);
    } else {
        let j = entries.len() - 1;
        assert(entries[j] == entries.last());
    }
}

/// Every candidate is a behavior that may start: some entry with that entity
/// is not running and none of its resources is a key of the occupied map.
pub proof fn law_candidates_free(
    entries: Seq<BehaviorEntry>,
    running: Set<u64>,
    occupied: Map<Seq<char>, Timer>,
    k: int,
)
    requires
        0 <= k < candidates(entries, running, occupied).len(),
    ensures
        exists|j: int|
            #![trigger entries[j]]
            0 <= j < entries.len() && entries[j].entity == candidates(entries, running, occupied)[k]
                && !running.contains(entries[j].entity.0)
                && forall|r: Seq<char>| entries[j].occupies@.contains(r) ==> !occupied.contains_key(r),
{
    law_candidates_available(entries, running, occupied, k);
    let j = choose|j: int|
        0 <= j < entries.len() && entries[j].entity == candidates(entries, running, occupied)[k]
            && available(entries[j], running, occupied);
    assert(available(entries[j], running, occupied));
}

/// A behavior whose resource is held elsewhere is never offered: when every
/// entry of an entity needs a resource that is a key of the occupied map, the
/// entity is not among the candidates.
pub proof fn law_held_resource_blocks(
    entries: Seq<BehaviorEntry>,
    running: Set<u64>,
    occupied: Map<Seq<char>, Timer>,
    entity: Entity,
    resource: Seq<char>,
)
    requires
        occupied.contains_key(resource),
        forall|j: int| 0 <= j < entries.len() && #[trigger] entries[j].entity == entity ==> entries[j].occupies@.contains(resource),
    ensures
        !candidates(entries, running, occupied).contains(entity),
{
    if candidates(entries, running, occupied).contains(entity) {
        let k = choose|k: int|
            0 <= k < candidates(entries, running, occupied).len() && candidates(entries, running, occupied)[k] == entity;
        law_candidates_free(entries, running, occupied, k);
        let j = choose|j: int|
            #![trigger entries[j]]
            0 <= j < entries.len() && entries[j].entity == candidates(entries, running, occupied)[k]
                && !running.contains(entries[j].entity.0)
                && forall|r: Seq<char>| entries[j].occupies@.contains(r) ==> !occupied.contains_key(r);
        assert(entries[j].occupies@.contains(resource));
    }
}

/// The end event that an intervention sends to a behavior: no cooldown and no resources kept.
pub fn intervene_behavior(entity: Entity) -> (e: BehaveEnd)
    ensures
        e.entity == entity,
        e.cooldown == 0,
        e.occupies@.len() == 0,
{
    BehaveEnd { entity, cooldown: 0, occupies: Vec::new() }
}

} // verus!
