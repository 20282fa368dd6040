//! Effect helpers: waiting, watching for despawns, multi-line text, colour
//! transitions, splashes, lasers and colliders disabled by children.

use std::collections::BTreeSet;
use vstd::prelude::*;
use vstd::string::StringSliceAdditionalSpecFns;

use crate::entity::Entity;
use crate::text::{split, split_spec};
use crate::timer::{tick_spec, Timer};

verus! {

/// Waits for an interval, then notifies the given entity (by default itself),
/// and in the next frame despawns itself.
#[derive(Clone, Copy, Debug, PartialEq, Eq, Structural)]
pub struct WaitInterval {
    pub timer: Timer,
    pub notify: Option<Entity>,
}

impl WaitInterval {
    /// Waits `duration` nanoseconds and notifies itself.
    pub fn new(duration: u64) -> (w: WaitInterval)
        ensures
            w.timer == Timer::new(duration),
            w.notify is None,
    {
        WaitInterval { timer: Timer::new(duration), notify: None }
    }

    /// Waits `duration` nanoseconds and notifies `entity`.
    pub fn notify(duration: u64, entity: Entity) -> (w: WaitInterval)
        ensures
            w.timer == Timer::new(duration),
            w.notify == Some(entity),
    {
        WaitInterval { timer: Timer::new(duration), notify: Some(entity) }
    }
}

/// Sent to the waiting entity's target when the interval is over.
#[derive(Clone, Copy, Debug, PartialEq, Eq, Structural)]
pub struct WaitComplete {
    pub entity: Entity,
}

/// What a waiting entity does this frame.
#[derive(Clone, Copy, Debug, PartialEq, Eq, Structural)]
pub enum WaitAction {
    /// Keep waiting.
    Wait,
    /// The interval just ended: send `WaitComplete` to this entity.
    Notify(Entity),
    /// The interval ended in an earlier frame: despawn.
    Despawn,
}

/// One frame of waiting: the waiting entity after it, and what it does.
pub open spec fn wait_step(w: WaitInterval, this: Entity, delta: u64) -> (WaitInterval, WaitAction) {
    if w.timer.finished {
        (w, WaitAction::Despawn)
    } else {
        let t = tick_spec(w.timer, delta);
        (
            WaitInterval { timer: t, ..w },
            if t.just_finished {
                WaitAction::Notify(
                    match w.notify {
                        Some(e) => e,
                        None => this,
                    },
                )
            } else {
                WaitAction::Wait
            },
        )
    }
}

/// What a waiting entity does over frames of `deltas` nanoseconds each.
pub open spec fn wait_actions(w: WaitInterval, this: Entity, deltas: Seq<u64>) -> Seq<WaitAction>
    decreases deltas.len(),
{
    if deltas.len() == 0 {
        Seq::empty()
    } else {
        let (w2, a) = wait_step(w, this, deltas[0]);
        seq![a] + wait_actions(w2, this, deltas.drop_first())
    }
}

/// The total of some frame times.
pub open spec fn delta_sum(deltas: Seq<u64>) -> int
    decreases deltas.len(),
{
    if deltas.len() == 0 {
        0
    } else {
        deltas[0] + delta_sum(deltas.drop_first())
    }
}

/// Whether the interval is over after the first `k` frames.
pub open spec fn wait_over(w: WaitInterval, deltas: Seq<u64>, k: int) -> bool {
    k > 0 && w.timer.elapsed + delta_sum(deltas.take(k)) >= w.timer.duration
}

proof fn lemma_delta_sum_take(deltas: Seq<u64>, k: int)
    requires
        0 <= k < deltas.len(),
    ensures
        delta_sum(deltas.take(k + 1)) == deltas[0] + delta_sum(deltas.drop_first().take(k)),
        delta_sum(deltas.take(k + 1)) >= deltas[0],
{
    assert(deltas.take(k + 1).drop_first() =~= deltas.drop_first().take(k));
    lemma_delta_sum_nonneg(deltas.drop_first().take(k));
}

proof fn lemma_delta_sum_nonneg(deltas: Seq<u64>)
    ensures
        delta_sum(deltas) >= 0,
    decreases deltas.len(),
{
    if deltas.len() > 0 {
        lemma_delta_sum_nonneg(deltas.drop_first());
    }
}

proof fn lemma_delta_sum_monotone(deltas: Seq<u64>, i: int, j: int)
    requires
        0 <= i <= j <= deltas.len(),
    ensures
        delta_sum(deltas.take(i)) <= delta_sum(deltas.take(j)),
    decreases j,
{
    if i > 0 {
        lemma_delta_sum_take(deltas, i - 1);
        lemma_delta_sum_take(deltas, j - 1);
        lemma_delta_sum_monotone(deltas.drop_first(), i - 1, j - 1);
    } else {
        assert(deltas.take(0) =~= Seq::<u64>::empty());
        lemma_delta_sum_nonneg(deltas.take(j));
    }
}

proof fn lemma_finished_waits_despawn(w: WaitInterval, this: Entity, deltas: Seq<u64>)
    requires
        w.timer.finished,
    ensures
        wait_actions(w, this, deltas).len() == deltas.len(),
        forall|i: int| 0 <= i < deltas.len() ==> #[trigger] wait_actions(w, this, deltas)[i] == WaitAction::Despawn,
    decreases deltas.len(),
{
    if deltas.len() > 0 {
        lemma_finished_waits_despawn(w, this, deltas.drop_first());
    }
}

proof fn lemma_wait_actions(w: WaitInterval, this: Entity, deltas: Seq<u64>)
    requires
        !w.timer.finished,
    ensures
        wait_actions(w, this, deltas).len() == deltas.len(),
        forall|i: int|
            0 <= i < deltas.len() ==> #[trigger] wait_actions(w, this, deltas)[i] == if !wait_over(w, deltas, i + 1) {
                WaitAction::Wait
            } else if !wait_over(w, deltas, i) {
                WaitAction::Notify(
                    match w.notify {
                        Some(e) => e,
                        None => this,
                    },
                )
            } else {
                WaitAction::Despawn
            },
    decreases deltas.len(),
{
    if deltas.len() > 0 {
        let (w2, a) = wait_step(w, this, deltas[0]);
        let rest = deltas.drop_first();
        let acts = wait_actions(w, this, deltas);
        lemma_delta_sum_take(deltas, 0);
        assert(deltas.drop_first().take(0) =~= Seq::<u64>::empty());
        assert(delta_sum(deltas.take(1)) == deltas[0]);
        if w2.timer.finished {
            lemma_finished_waits_despawn(w2, this, rest);
            assert forall|i: int| 0 <= i < deltas.len() implies #[trigger] acts[i] == if !wait_over(w, deltas, i + 1) {
                WaitAction::Wait
            } else if !wait_over(w, deltas, i) {
                WaitAction::Notify(
                    match w.notify {
                        Some(e) => e,
                        None => this,
                    },
                )
            } else {
                WaitAction::Despawn
            } by {
                lemma_delta_sum_monotone(deltas, 1, i + 1);
                if i > 0 {
                    lemma_delta_sum_monotone(deltas, 1, i);
                    assert(acts[i] == wait_actions(w2, this, rest)[i - 1]);
                }
            }
        } else {
            lemma_wait_actions(w2, this, rest);
            assert forall|i: int| 0 <= i < deltas.len() implies #[trigger] acts[i] == if !wait_over(w, deltas, i + 1) {
                WaitAction::Wait
            } else if !wait_over(w, deltas, i) {
                WaitAction::Notify(
                    match w.notify {
                        Some(e) => e,
                        None => this,
                    },
                )
            } else {
                WaitAction::Despawn
            } by {
                if i > 0 {
                    lemma_delta_sum_take(deltas, i);
                    lemma_delta_sum_take(deltas, i - 1);
                    assert(acts[i] == wait_actions(w2, this, rest)[i - 1]);
                    assert(wait_over(w, deltas, i + 1) == wait_over(w2, rest, i));
                    if i > 1 {
                        assert(wait_over(w, deltas, i) == wait_over(w2, rest, i - 1));
                    }
                }
            }
        }
    }
}

/// A waiting entity notifies exactly once, on the frame where its interval
/// is over, and despawns on every frame after that, never on the frame that
/// notifies: frame `i` waits while the interval is not over after it,
/// notifies when the interval ends with it, and despawns once it ended before.
pub proof fn law_wait_notifies_once(w: WaitInterval, this: Entity, deltas: Seq<u64>)
    requires
        !w.timer.finished,
    ensures
        wait_actions(w, this, deltas).len() == deltas.len(),
        forall|i: int|
            0 <= i < deltas.len() ==> #[trigger] wait_actions(w, this, deltas)[i] == if !wait_over(w, deltas, i + 1) {
                WaitAction::Wait
            } else if !wait_over(w, deltas, i) {
                WaitAction::Notify(
                    match w.notify {
                        Some(e) => e,
                        None => this,
                    },
                )
            } else {
                WaitAction::Despawn
            },
        forall|i: int, j: int|
            #![trigger wait_actions(w, this, deltas)[i], wait_actions(w, this, deltas)[j]]
            0 <= i < j < deltas.len() && wait_actions(w, this, deltas)[i] is Notify ==> wait_actions(
                w,
                this,
                deltas,
            )[j] == WaitAction::Despawn,
        w.timer.elapsed + delta_sum(deltas) >= w.timer.duration && deltas.len() > 0 ==> exists|i: int|
            0 <= i < deltas.len() && #[trigger] wait_actions(w, this, deltas)[i] is Notify,
{
    lemma_wait_actions(w, this, deltas);
    assert forall|i: int, j: int|
        #![trigger wait_actions(w, this, deltas)[i], wait_actions(w, this, deltas)[j]]
        0 <= i < j < deltas.len() && wait_actions(w, this, deltas)[i] is Notify implies wait_actions(
            w,
            this,
            deltas,
        )[j] == WaitAction::Despawn by {
        lemma_delta_sum_monotone(deltas, i + 1, j);
        lemma_delta_sum_monotone(deltas, j, j + 1);
        assert(wait_over(w, deltas, i + 1));
        assert(wait_over(w, deltas, j));
        assert(wait_over(w, deltas, j + 1));
    }
    if w.timer.elapsed + delta_sum(deltas) >= w.timer.duration && deltas.len() > 0 {
        assert(deltas.take(deltas.len() as int) =~= deltas);
        let n = deltas.len() as int;
        assert(wait_over(w, deltas, n));
        let i = lemma_interval_ends(w, deltas, n);
        assert(wait_actions(w, this, deltas)[i] is Notify);
    }
}

/// If the interval is over after `n` frames, some frame before it ends it.
proof fn lemma_interval_ends(w: WaitInterval, deltas: Seq<u64>, n: int) -> (i: int)
    requires
        1 <= n <= deltas.len(),
        wait_over(w, deltas, n),
    ensures
        0 <= i < n,
        wait_over(w, deltas, i + 1),
        !wait_over(w, deltas, i),
    decreases n,
{
    if wait_over(w, deltas, n - 1) {
        lemma_interval_ends(w, deltas, n - 1)
    } else {
        n - 1
    }
}

/// One frame of waiting by the entity `this`, after `delta` nanoseconds.
pub fn update_wait(wait: &mut WaitInterval, this: Entity, delta: u64) -> (a: WaitAction)
    requires
        old(wait).timer.finished || old(wait).timer.elapsed + delta <= u64::MAX,
    ensures
        old(wait).timer.finished ==> a == WaitAction::Despawn && *final(wait) == *old(wait),
        !old(wait).timer.finished ==> final(wait).timer == tick_spec(old(wait).timer, delta)
            && final(wait).notify == old(wait).notify && a == (if final(wait).timer.just_finished {
            WaitAction::Notify(
                match old(wait).notify {
                    Some(e) => e,
                    None => this,
                },
            )
        } else {
            WaitAction::Wait
        }),
        (*final(wait), a) == wait_step(*old(wait), this, delta),
{
    if wait.timer.is_finished() {
        return WaitAction::Despawn;
    }
    wait.timer.tick(delta);
    if wait.timer.just_finished() {
        let target = match wait.notify {
            Some(e) => e,
            None => this,
        };
        WaitAction::Notify(target)
    } else {
        WaitAction::Wait
    }
}

/// What a utility does with itself when the entity it watches is gone.
#[derive(Clone, Copy, Debug, PartialEq, Eq, Structural, Default)]
pub enum DespawnBehavior {
    #[default]
    Despawn,
    Remove,
}

/// Notifies an entity (by default itself) when the target entity is despawned.
#[derive(Clone, Copy, Debug, PartialEq, Eq, Structural)]
pub struct DespawnCheck {
    pub target: Entity,
    pub notify: Option<Entity>,
    pub despawn_behavior: DespawnBehavior,
}

impl DespawnCheck {
    pub fn new(target: Entity) -> (c: DespawnCheck)
        ensures
            c == (DespawnCheck { target, notify: None, despawn_behavior: DespawnBehavior::Despawn }),
    {
        DespawnCheck { target, notify: None, despawn_behavior: DespawnBehavior::Despawn }
    }

    pub fn with_notify(self, notify: Entity) -> (c: DespawnCheck)
        ensures
            c == (DespawnCheck { notify: Some(notify), ..self }),
    {
        DespawnCheck { notify: Some(notify), ..self }
    }

    pub fn with_despawn_behavior(self, despawn_behavior: DespawnBehavior) -> (c: DespawnCheck)
        ensures
            c == (DespawnCheck { despawn_behavior, ..self }),
    {
        DespawnCheck { despawn_behavior, ..self }
    }

    /// When the target is gone: the entity to send `DespawnObserved` to, and
    /// whether the watcher despawns itself or only removes this component.
    pub fn check(&self, watcher: Entity, target_exists: bool) -> (r: Option<(DespawnObserved, DespawnBehavior)>)
        ensures
            target_exists ==> r is None,
            !target_exists ==> r == Some(
                (
                    DespawnObserved {
                        entity: match self.notify {
                            Some(n) => n,
                            None => watcher,
                        },
                    },
                    self.despawn_behavior,
                ),
            ),
    {
        if target_exists {
            return None;
        }
        let entity = match self.notify {
            Some(n) => n,
            None => watcher,
        };
        Some((DespawnObserved { entity }, self.despawn_behavior))
    }
}

/// Notify event of `DespawnCheck`.
#[derive(Clone, Copy, Debug, PartialEq, Eq, Structural)]
pub struct DespawnObserved {
    pub entity: Entity,
}

/// Appends text to a multi-line text; `\n` starts a new line.
#[derive(Debug)]
pub struct MultilineTextAppend {
    pub entity: Entity,
    pub append: String,
}

/// Clears a multi-line text.
#[derive(Clone, Copy, Debug, PartialEq, Eq, Structural)]
pub struct MultilineTextClear {
    pub entity: Entity,
}

/// A text shown as one child per line. The lines hold the text of each
/// child; `length` counts the bytes appended so far.
pub struct MultilineText {
    lines: Vec<String>,
    length: usize,
}

/// The lines joined with `\n` between them.
pub open spec fn join_lines(lines: Seq<Seq<char>>) -> Seq<char>
    decreases lines.len(),
{
    if lines.len() == 0 {
        Seq::empty()
    } else if lines.len() == 1 {
        lines[0]
    } else {
        join_lines(lines.drop_last()) + seq!['\n'] + lines.last()
    }
}

/// The characters of each line.
pub open spec fn line_seqs(v: Seq<String>) -> Seq<Seq<char>> {
    v.map_values(|s: String| s@)
}

/// Joining the pieces of a split gives back the text.
proof fn lemma_join_split(cs: Seq<char>)
    ensures
        join_lines(split_spec(cs, '\n')) == cs,
    decreases cs.len(),
{
    if cs.len() > 0 {
        lemma_join_split(cs.drop_last());
        let rest = split_spec(cs.drop_last(), '\n');
        lemma_split_len(cs.drop_last());
        if cs.last() == '\n' {
            assert(rest.push(Seq::empty()).drop_last() =~= rest);
            assert(cs =~= cs.drop_last() + seq!['\n'] + Seq::<char>::empty());
        } else {
            let upd = rest.update(rest.len() - 1, rest.last().push(cs.last()));
            lemma_join_update_last(rest, cs.last());
            assert(cs =~= cs.drop_last().push(cs.last()));
        }
    }
}

proof fn lemma_split_len(cs: Seq<char>)
    ensures
        split_spec(cs, '\n').len() >= 1,
    decreases cs.len(),
{
    if cs.len() > 0 {
        lemma_split_len(cs.drop_last());
    }
}

/// Adding a character to the last line adds it to the end of the joined text.
proof fn lemma_join_update_last(lines: Seq<Seq<char>>, c: char)
    requires
        lines.len() >= 1,
    ensures
        join_lines(lines.update(lines.len() - 1, lines.last().push(c))) == join_lines(lines).push(c),
{
    let upd = lines.update(lines.len() - 1, lines.last().push(c));
    if lines.len() == 1 {
    } else {
        assert(upd.drop_last() =~= lines.drop_last());
    }
}

/// Adding text to the last line, then new lines, adds their joined text.
proof fn lemma_join_append(lines: Seq<Seq<char>>, first: Seq<char>, more: Seq<Seq<char>>)
    requires
        lines.len() >= 1,
    ensures
        join_lines(lines.update(lines.len() - 1, lines.last() + first) + more) == join_lines(lines) + join_lines(
            seq![first] + more,
        ),
    decreases more.len(),
{
    let upd = lines.update(lines.len() - 1, lines.last() + first);
    if more.len() == 0 {
        assert(upd + more =~= upd);
        assert(seq![first] + more =~= seq![first]);
        if lines.len() == 1 {
            assert(join_lines(upd) == lines[0] + first);
        } else {
            assert(upd.drop_last() =~= lines.drop_last());
            assert(join_lines(upd) =~= join_lines(lines) + first);
        }
    } else {
        lemma_join_append(lines, first, more.drop_last());
        assert((upd + more).drop_last() =~= upd + more.drop_last());
        assert((seq![first] + more).drop_last() =~= seq![first] + more.drop_last());
        assert((upd + more).last() == more.last());
        assert((seq![first] + more).last() == more.last());
    }
}

/// The lines after appending the pieces of a text split at `\n`: the first
/// piece continues the last line (when there is one), the others become
/// new lines.
pub open spec fn appended_lines(lines: Seq<Seq<char>>, pieces: Seq<Seq<char>>) -> Seq<Seq<char>> {
    if lines.len() > 0 {
        lines.update(lines.len() - 1, lines.last() + pieces[0]) + pieces.skip(1)
    } else {
        pieces
    }
}

impl MultilineText {
    /// The characters of each line, first line first.
    pub closed spec fn line_texts(&self) -> Seq<Seq<char>> {
        line_seqs(self.lines@)
    }

    /// The lines, in order.
    pub fn lines(&self) -> (r: &Vec<String>)
        ensures
            line_seqs(r@) == self.line_texts(),
    {
        &self.lines
    }

    /// An empty text.
    pub fn new() -> (t: MultilineText)
        ensures
            t.line_texts().len() == 0,
            t.len() == 0,
    {
        MultilineText { lines: Vec::new(), length: 0 }
    }

    /// The number of bytes appended since the text was created or cleared.
    pub closed spec fn spec_len(&self) -> usize {
        self.length
    }

    #[verifier::when_used_as_spec(spec_len)]
    pub fn len(&self) -> (n: usize)
        ensures
            n == self.spec_len(),
    {
        self.length
    }

    pub fn is_empty(&self) -> (r: bool)
        ensures
            r == (self.spec_len() == 0),
    {
        self.length == 0
    }

    /// Appends text: its first line continues the last line (if there is
    /// one), each further line becomes a new line. Returns the number of new lines.
    pub fn append(&mut self, text: &str) -> (added: usize)
        requires
            old(self).spec_len() + text.spec_bytes().len() <= usize::MAX,
        ensures
            final(self).spec_len() == old(self).spec_len() + text.spec_bytes().len(),
            old(self).line_texts().len() > 0 ==> join_lines(final(self).line_texts()) == join_lines(old(self).line_texts()) + text@,
            old(self).line_texts().len() == 0 ==> join_lines(final(self).line_texts()) == text@,
            final(self).line_texts().len() == old(self).line_texts().len() + added,
            final(self).line_texts() == appended_lines(old(self).line_texts(), split_spec(text@, '\n')),
    {
        let pieces = split(text, '\n');
        proof {
            lemma_split_len(text@);
            lemma_join_split(text@);
        }
        let ghost ps = split_spec(text@, '\n');
        let start_len = self.length;
        let ghost before = line_seqs(self.lines@);
        let mut i: usize = 0;
        let mut added: usize = 0;
        if self.lines.len() > 0 {
            let n = self.lines.len();
            let mut last = self.lines.pop().unwrap();
            last.append(pieces[0].as_str());
            self.lines.push(last);
            i = 1;
            proof {
                assert(line_seqs(self.lines@) =~= before.update(before.len() - 1, before.last() + ps[0]));
            }
        }
        let ghost base = line_seqs(self.lines@);
        while i < pieces.len()
            invariant
                1 <= pieces@.len() == ps.len(),
                forall|k: int| 0 <= k < pieces@.len() ==> #[trigger] pieces@[k]@ == ps[k],
                before.len() > 0 ==> i >= 1,
                i <= pieces@.len(),
                line_seqs(self.lines@) == base + ps.subrange(if before.len() > 0 { 1 } else { 0 }, i as int),
                added == i - (if before.len() > 0 { 1int } else { 0int }),
                base.len() == before.len(),
                before.len() > 0 ==> base == before.update(before.len() - 1, before.last() + ps[0]),
            decreases pieces@.len() - i,
        {
            let piece = pieces[i].clone();
            let ghost prev = self.lines@;
            self.lines.push(piece);
            proof {
                let from: int = if before.len() > 0 { 1 } else { 0 };
                assert(piece@ == ps[i as int]);
                assert(line_seqs(self.lines@) =~= line_seqs(prev).push(ps[i as int]));
                assert(ps.subrange(from, i + 1) =~= ps.subrange(from, i as int).push(ps[i as int]));
                assert(line_seqs(self.lines@) =~= base + ps.subrange(from, i + 1));
            }
            i = i + 1;
            added = added + 1;
        }
        proof {
            if before.len() > 0 {
                lemma_join_append(before, ps[0], ps.subrange(1, ps.len() as int));
                assert(seq![ps[0]] + ps.subrange(1, ps.len() as int) =~= ps);
                assert(ps.subrange(1, ps.len() as int) =~= ps.skip(1));
            } else {
                assert(base =~= Seq::<Seq<char>>::empty());
                assert(line_seqs(self.lines@) =~= ps);
            }
        }
        self.length = start_len + text.len();
        added
    }

    /// Removes all lines and resets the length.
    pub fn clear(&mut self)
        ensures
            final(self).line_texts().len() == 0,
            final(self).spec_len() == 0,
    {
        self.lines = Vec::new();
        self.length = 0;
    }
}

/// Appending a text to lines, however long they and the text are, gives
/// lines that read as the old ones followed by the text: its first line
/// continues the last line (when there is one) and each further line of it
/// is a new line.
pub proof fn law_append_joins_lines(lines: Seq<Seq<char>>, text: Seq<char>)
    ensures
        lines.len() > 0 ==> join_lines(appended_lines(lines, split_spec(text, '\n'))) == join_lines(lines) + text,
        lines.len() == 0 ==> join_lines(appended_lines(lines, split_spec(text, '\n'))) == text,
        appended_lines(lines, split_spec(text, '\n')).len() == lines.len() + split_spec(text, '\n').len() - (if lines.len() > 0 {
            1int
        } else {
            0int
        }),
{
    let ps = split_spec(text, '\n');
    lemma_split_len(text);
    lemma_join_split(text);
    if lines.len() > 0 {
        lemma_join_append(lines, ps[0], ps.skip(1));
        assert(seq![ps[0]] + ps.skip(1) =~= ps);
    }
}

/// The number of bytes of some texts together.
pub open spec fn bytes_total(texts: Seq<Seq<u8>>) -> int
    decreases texts.len(),
{
    if texts.len() == 0 {
        0
    } else {
        bytes_total(texts.drop_last()) + texts.last().len()
    }
}

/// A multi-line text counts the bytes appended since it was created or
/// cleared: `texts` are its states, from a fresh or cleared one through one
/// append of each of `appends` (their bytes). Its length is then the total of
/// the appends, so it is empty exactly when every append was empty.
pub proof fn law_text_empty_iff_appends_empty(texts: Seq<MultilineText>, appends: Seq<Seq<u8>>)
    requires
        texts.len() == appends.len() + 1,
        texts[0].spec_len() == 0,
        forall|k: int|
            0 <= k < appends.len() ==> #[trigger] texts[k + 1].spec_len() == texts[k].spec_len() + appends[k].len(),
    ensures
        texts.last().spec_len() == bytes_total(appends),
        texts.last().spec_len() == 0 <==> forall|k: int| 0 <= k < appends.len() ==> #[trigger] appends[k].len() == 0,
    decreases appends.len(),
{
    if appends.len() > 0 {
        let n = appends.len() as int;
        let t2 = texts.drop_last();
        let a2 = appends.drop_last();
        assert forall|k: int| 0 <= k < a2.len() implies #[trigger] t2[k + 1].spec_len() == t2[k].spec_len() + a2[k].len() by {
            assert(texts[k + 1].spec_len() == texts[k].spec_len() + appends[k].len());
        }
        law_text_empty_iff_appends_empty(t2, a2);
        assert(texts[n].spec_len() == texts[n - 1].spec_len() + appends[n - 1].len());
        assert(t2.last() == texts[n - 1]);
        if texts.last().spec_len() == 0 {
            assert forall|k: int| 0 <= k < appends.len() implies #[trigger] appends[k].len() == 0 by {
                if k < n - 1 {
                    assert(a2[k] == appends[k]);
                }
            }
        }
        if forall|k: int| 0 <= k < appends.len() ==> #[trigger] appends[k].len() == 0 {
            assert forall|k: int| 0 <= k < a2.len() implies #[trigger] a2[k].len() == 0 by {
                assert(appends[k].len() == 0);
            }
            assert(appends[n - 1].len() == 0);
        }
    }
}

/// Notifies itself that a colour transition has played through its half point.
#[derive(Clone, Copy, Debug, PartialEq, Eq, Structural)]
pub struct PureColorHalfPoint {
    pub entity: Entity,
}

/// A transition to a plain colour and back. (The colour itself is kept by
/// the engine side.)
#[derive(Clone, Copy, Debug, PartialEq, Eq, Structural)]
pub struct PureColor {
    /// An entity despawned at the half point, when the colour covers the screen.
    pub destroy: Option<Entity>,
    /// Nanoseconds for the whole transition.
    pub duration: u64,
    /// Whether the transition despawns its entity at the end.
    pub remove_self: bool,
}

/// The clocks of a running colour transition.
#[derive(Clone, Copy, Debug, PartialEq, Eq, Structural)]
pub struct PureColorClock {
    pub timer: Timer,
    pub half_timer: Timer,
}

/// What a colour transition does this frame.
#[derive(Clone, Copy, Debug, PartialEq, Eq, Structural)]
pub struct PureColorEvents {
    /// The half point was reached: despawn `destroy`, show the entity, send `PureColorHalfPoint`.
    pub half_point: bool,
    /// The transition ended: despawn the entity when it removes itself,
    /// otherwise only the colour child and the transition's components.
    pub end: bool,
}

impl PureColorClock {
    /// The clocks of a transition that starts now: the whole duration and half of it.
    pub fn start(pure_color: &PureColor) -> (c: PureColorClock)
        ensures
            c.timer == Timer::new(pure_color.duration),
            c.half_timer == Timer::new(pure_color.duration / 2),
    {
        PureColorClock { timer: Timer::new(pure_color.duration), half_timer: Timer::new(pure_color.duration / 2) }
    }

    /// Advances both clocks by `delta` nanoseconds.
    pub fn step(&mut self, delta: u64) -> (ev: PureColorEvents)
        requires
            old(self).timer.finished || old(self).timer.elapsed + delta <= u64::MAX,
            old(self).half_timer.finished || old(self).half_timer.elapsed + delta <= u64::MAX,
        ensures
            final(self).timer == tick_spec(old(self).timer, delta),
            final(self).half_timer == tick_spec(old(self).half_timer, delta),
            ev.half_point == final(self).half_timer.just_finished,
            ev.end == final(self).timer.just_finished,
    {
        self.timer.tick(delta);
        self.half_timer.tick(delta);
        PureColorEvents { half_point: self.half_timer.just_finished(), end: self.timer.just_finished() }
    }
}

/// Disables the parent's collider as long as this component exists.
#[derive(Clone, Copy, Debug, PartialEq, Eq, Structural, Default)]
pub struct ParentColliderDisabled;

/// What happens to a parent whose children disable its collider.
#[derive(Debug)]
pub enum DisablingUpdate {
    /// No child disables it any more: the collider is enabled again.
    Release,
    /// These children still disable it; the flag says whether the collider
    /// must be disabled now (it was not yet).
    Keep(Vec<Entity>, bool),
}

/// Keeps the children that still disable their parent's collider.
pub fn update_disabling_children(children: &Vec<(Entity, bool)>, collider_disabled: bool) -> (u: DisablingUpdate)
    ensures
        ({
            let kept = children@.filter(|c: (Entity, bool)| c.1).map_values(|c: (Entity, bool)| c.0);
            if kept.len() == 0 {
                u is Release
            } else {
                u matches DisablingUpdate::Keep(v, disable) && v@ == kept && disable == !collider_disabled
            }
        }),
{
    let ghost keep = |c: (Entity, bool)| c.1;
    let ghost proj = |c: (Entity, bool)| c.0;
    let mut kept: Vec<Entity> = Vec::new();
    let mut i: usize = 0;
    while i < children.len()
        invariant
            i <= children@.len(),
            kept@ == children@.take(i as int).filter(|c: (Entity, bool)| c.1).map_values(|c: (Entity, bool)| c.0),
        decreases children@.len() - i,
    {
        let ghost t = children@.take(i as int);
        assert(children@.take(i + 1).drop_last() =~= t);
        assert(children@.take(i + 1).last() == children@[i as int]);
        proof {
            reveal_with_fuel(Seq::filter, 1);
        }
        if children[i].1 {
            kept.push(children[i].0);
            assert(kept@ =~= children@.take(i + 1).filter(|c: (Entity, bool)| c.1).map_values(|c: (Entity, bool)| c.0));
        } else {
            assert(kept@ =~= children@.take(i + 1).filter(|c: (Entity, bool)| c.1).map_values(|c: (Entity, bool)| c.0));
        }
        i = i + 1;
    }
    assert(children@.take(i as int) =~= children@);
    if kept.len() == 0 {
        DisablingUpdate::Release
    } else {
        DisablingUpdate::Keep(kept, !collider_disabled)
    }
}

/// A splash effect: a number of drops still to spawn, each living for
/// `duration` nanoseconds. (Its colour is kept by the engine side.)
#[derive(Clone, Copy, Debug, PartialEq, Eq, Structural)]
pub struct Splash {
    pub duration: u64,
    pub number: usize,
}

/// How many steps a falling drop fades through.
pub const DROP_FADING_LEVELS: u64 = 10;

/// The fading step of a drop that appeared `elapsed` nanoseconds ago in a
/// splash whose drops live `duration` nanoseconds: the share of its life
/// gone by, in tenths, rounded down; `None` once its life is over.
pub fn drop_fading_level(elapsed: u64, duration: u64) -> (level: Option<u64>)
    ensures
        level is None <==> elapsed >= duration,
        level matches Some(l) ==> l == (elapsed * DROP_FADING_LEVELS) as int / (duration as int) && l < DROP_FADING_LEVELS,
{
    if elapsed >= duration {
        return None;
    }
    let e: u128 = elapsed as u128;
    assert(e * 10 <= u128::MAX) by (nonlinear_arith)
        requires
            e <= u64::MAX,
    ;
    let scaled: u128 = e * (DROP_FADING_LEVELS as u128);
    let l: u128 = scaled / (duration as u128);
    proof {
        assert(l < 10) by (nonlinear_arith)
            requires
                l == scaled / (duration as u128),
                scaled == elapsed * 10,
                elapsed < duration,
                duration > 0,
        ;
    }
    Some(l as u64)
}

/// A drop only fades further: a later moment of its life never shows an
/// earlier fading step.
pub proof fn law_drop_fading_never_reverses(e1: u64, e2: u64, duration: u64)
    requires
        e1 <= e2 < duration,
    ensures
        (e1 * DROP_FADING_LEVELS) as int / (duration as int) <= (e2 * DROP_FADING_LEVELS) as int / (duration as int),
{
    vstd::arithmetic::div_mod::lemma_div_is_ordered(e1 * 10, e2 * 10, duration as int);
}

/// `n` made odd by setting its lowest bit.
pub open spec fn odd_up(n: usize) -> int {
    if n % 2 == 0 {
        n + 1
    } else {
        n as int
    }
}

/// The cell index of the `k`-th tile of a grid whose middle cell is `mid`:
/// the tiles are the cells in order with the middle one left out.
pub open spec fn tile_cell(k: int, mid: int) -> int {
    if k < mid {
        k
    } else {
        k + 1
    }
}

/// The tiles of a `cols` by `rows` background grid: every cell `(i, j)`, by
/// column and then by row, except the middle one, where the background
/// itself is drawn.
pub open spec fn grid_tiles(cols: int, rows: int) -> Seq<(usize, usize)> {
    let mid = (cols / 2) * rows + rows / 2;
    Seq::new(
        (cols * rows - 1) as nat,
        |k: int| ((tile_cell(k, mid) / rows) as usize, (tile_cell(k, mid) % rows) as usize),
    )
}

/// A tiled background: its number of columns and rows, and the tiles
/// around the middle one.
pub struct BackgroundGrid {
    pub cols: usize,
    pub rows: usize,
    pub tiles: Vec<(usize, usize)>,
}

proof fn lemma_cell_div_mod(i: int, j: int, rows: int)
    requires
        0 <= i,
        0 <= j < rows,
    ensures
        (i * rows + j) / rows == i,
        (i * rows + j) % rows == j,
{
    assert((i * rows + j) / rows == i && (i * rows + j) % rows == j) by (nonlinear_arith)
        requires
            0 <= i,
            0 <= j < rows,
    ;
}

/// The grid of a background that needs `cols_needed` by `rows_needed`
/// tiles to cover the screen: both counts are made odd, so that a middle
/// tile exists.
pub fn background_grid(cols_needed: usize, rows_needed: usize) -> (g: BackgroundGrid)
    requires
        odd_up(cols_needed) * odd_up(rows_needed) <= usize::MAX,
    ensures
        g.cols == odd_up(cols_needed),
        g.rows == odd_up(rows_needed),
        g.tiles@ == grid_tiles(g.cols as int, g.rows as int),
{
    let cols = cols_needed | 1;
    let rows = rows_needed | 1;
    assert(cols == if cols_needed % 2 == 0 { (cols_needed + 1) as usize } else { cols_needed }) by (bit_vector)
        requires
            cols == cols_needed | 1,
    ;
    assert(rows == if rows_needed % 2 == 0 { (rows_needed + 1) as usize } else { rows_needed }) by (bit_vector)
        requires
            rows == rows_needed | 1,
    ;
    let ghost mid: int = (cols / 2) * rows + rows / 2;
    assert(0 <= mid < cols * rows) by (nonlinear_arith)
        requires
            mid == (cols / 2) * rows + rows / 2,
            cols >= 1,
            rows >= 1,
    ;
    let mut tiles: Vec<(usize, usize)> = Vec::new();
    let mut i: usize = 0;
    while i < cols
        invariant
            cols >= 1,
            rows >= 1,
            cols * rows <= usize::MAX,
            mid == (cols / 2) * rows + rows / 2,
            0 <= mid < cols * rows,
            i <= cols,
            tiles@.len() == i * rows - (if i * rows > mid { 1int } else { 0int }),
            forall|k: int|
                0 <= k < tiles@.len() ==> #[trigger] tiles@[k] == ((tile_cell(k, mid) / (rows as int)) as usize, (
                tile_cell(k, mid) % (rows as int)) as usize),
        decreases cols - i,
    {
        let mut j: usize = 0;
        assert(i * rows < cols * rows) by (nonlinear_arith)
            requires
                i < cols,
                rows >= 1,
        ;
        while j < rows
            invariant
                cols >= 1,
                rows >= 1,
                cols * rows <= usize::MAX,
                mid == (cols / 2) * rows + rows / 2,
                0 <= mid < cols * rows,
                i < cols,
                i * rows < cols * rows,
                j <= rows,
                tiles@.len() == i * rows + j - (if i * rows + j > mid { 1int } else { 0int }),
                forall|k: int|
                    0 <= k < tiles@.len() ==> #[trigger] tiles@[k] == ((tile_cell(k, mid) / (rows as int)) as usize, (
                    tile_cell(k, mid) % (rows as int)) as usize),
            decreases rows - j,
        {
            let ghost m: int = i * rows + j;
            proof {
                lemma_cell_div_mod(i as int, j as int, rows as int);
                lemma_cell_div_mod((cols / 2) as int, (rows / 2) as int, rows as int);
            }
            if !(i == cols / 2 && j == rows / 2) {
                proof {
                    if m == mid {
                        assert(m / (rows as int) == cols / 2);
                    }
                    assert(m != mid);
                    assert(tile_cell(tiles@.len() as int, mid) == m);
                }
                tiles.push((i, j));
            } else {
                assert(m == mid);
            }
            j = j + 1;
        }
        proof {
            assert((i + 1) * rows == i * rows + rows) by (nonlinear_arith);
        }
        i = i + 1;
    }
    proof {
        assert(i == cols);
    }
    assert(tiles@ =~= grid_tiles(cols as int, rows as int));
    BackgroundGrid { cols, rows, tiles }
}

/// Forgets the drops that are gone; returns whether the splash is over:
/// nothing left to spawn and no drop left.
pub fn despawn_completed_splash(number: usize, drops: &mut BTreeSet<u64>, gone: &Vec<u64>) -> (over: bool)
    ensures
        final(drops)@ == old(drops)@.difference(gone@.to_set()),
        over == (number == 0 && final(drops)@.is_empty()),
{
    let mut i: usize = 0;
    while i < gone.len()
        invariant
            i <= gone@.len(),
            drops@ == old(drops)@.difference(gone@.take(i as int).to_set()),
        decreases gone@.len() - i,
    {
        drops.remove(&gone[i]);
        proof {
            assert(gone@.take(i + 1) =~= gone@.take(i as int).push(gone@[i as int]));
            gone@.take(i as int).lemma_push_to_set_commute(gone@[i as int]);
            assert(drops@ =~= old(drops)@.difference(gone@.take(i + 1).to_set()));
        }
        i = i + 1;
    }
    assert(gone@.take(i as int) =~= gone@);
    number == 0 && drops.is_empty()
}

/// Sent to a laser when it grows a new node.
#[derive(Clone, Copy, Debug, PartialEq, Eq, Structural)]
pub struct LaserSpawn {
    /// The laser.
    pub entity: Entity,
    /// The new node.
    pub spawn: Entity,
}

/// Sent to a laser when its end touches something.
#[derive(Clone, Copy, Debug, PartialEq, Eq, Structural)]
pub struct LaserTouch {
    /// The laser.
    pub entity: Entity,
    /// What its end touches.
    pub target: Entity,
}

/// One node of a laser beam and its neighbours along the beam.
#[derive(Clone, Copy, Debug, PartialEq, Eq, Structural)]
pub struct LaserNode {
    /// The node before it, or the laser itself for the first node.
    pub prev: Entity,
    /// The node after it, once one has grown.
    pub next: Option<Entity>,
}

/// How a node of the beam looks.
#[derive(Clone, Copy, Debug, PartialEq, Eq, Structural)]
pub enum LaserLook {
    /// Inside the beam.
    Middle,
    /// At its end.
    Terminal,
}

/// What one node of a laser does this frame.
#[derive(Debug)]
pub enum LaserStep {
    /// The node before it is gone: this node goes too.
    Despawn,
    Work {
        /// What the node touches, reported to the laser.
        touches: Vec<LaserTouch>,
        /// The rest of the beam after this node, to be destroyed.
        destroy: Option<Entity>,
        /// The node's new look, if it changes.
        look: Option<LaserLook>,
        /// A new node must grow after this one (and be attached with `attach_next`).
        grow: bool,
    },
}

/// The contacts of a node that are not part of a laser.
pub open spec fn laser_touches(laser: Entity, contacts: Seq<(Entity, bool)>) -> Seq<LaserTouch> {
    contacts.filter(|c: (Entity, bool)| !c.1).map_values(|c: (Entity, bool)| LaserTouch { entity: laser, target: c.0 })
}

/// One frame of a laser node of the laser `laser`. `contacts` lists what
/// the node collides with and whether each is part of a laser. A node whose
/// previous node is gone despawns. Otherwise it reports everything else it
/// touches; when it touches something, the beam after it is destroyed and it
/// becomes the end; when it touches nothing and is the end, a new node grows
/// after it and it becomes a middle node.
pub fn laser_step(node: &mut LaserNode, laser: Entity, prev_exists: bool, contacts: &Vec<(Entity, bool)>) -> (step:
    LaserStep)
    ensures
        !prev_exists ==> step is Despawn && *final(node) == *old(node),
        prev_exists ==> {
            let touches = laser_touches(laser, contacts@);
            let touching = touches.len() > 0;
            step matches LaserStep::Work { touches: t, destroy, look, grow } && t@ == touches && destroy == (
            if touching {
                old(node).next
            } else {
                None
            }) && look == (if touching && old(node).next is Some {
                Some(LaserLook::Terminal)
            } else if !touching && old(node).next is None {
                Some(LaserLook::Middle)
            } else {
                None
            }) && grow == (!touching && old(node).next is None) && *final(node) == (if touching {
                LaserNode { next: None, ..*old(node) }
            } else {
                *old(node)
            })
        },
{
    if !prev_exists {
        return LaserStep::Despawn;
    }
    let ghost keep = |c: (Entity, bool)| !c.1;
    let ghost to_touch = |c: (Entity, bool)| LaserTouch { entity: laser, target: c.0 };
    let mut touches: Vec<LaserTouch> = Vec::new();
    let mut i: usize = 0;
    while i < contacts.len()
        invariant
            i <= contacts@.len(),
            keep == (|c: (Entity, bool)| !c.1),
            to_touch == (|c: (Entity, bool)| LaserTouch { entity: laser, target: c.0 }),
            touches@ == contacts@.take(i as int).filter(keep).map_values(to_touch),
        decreases contacts@.len() - i,
    {
        let ghost t = contacts@.take(i as int);
        assert(contacts@.take(i + 1).drop_last() =~= t);
        assert(contacts@.take(i + 1).last() == contacts@[i as int]);
        proof {
            reveal_with_fuel(Seq::filter, 1);
        }
        let (other, is_laser) = contacts[i];
        if !is_laser {
            touches.push(LaserTouch { entity: laser, target: other });
            assert(touches@ =~= contacts@.take(i + 1).filter(keep).map_values(to_touch));
        } else {
            assert(contacts@.take(i + 1).filter(keep) =~= t.filter(keep));
        }
        i = i + 1;
    }
    assert(contacts@.take(i as int) =~= contacts@);
    let touching = touches.len() > 0;
    let mut destroy = None;
    let mut look = None;
    let mut grow = false;
    if touching {
        if let Some(next) = node.next {
            destroy = Some(next);
            look = Some(LaserLook::Terminal);
        }
        node.next = None;
    } else if node.next.is_none() {
        look = Some(LaserLook::Middle);
        grow = true;
    }
    LaserStep::Work { touches, destroy, look, grow }
}

impl LaserNode {
    /// Records the node that grew after this one.
    pub fn attach_next(&mut self, next: Entity)
        ensures
            *final(self) == (LaserNode { next: Some(next), ..*old(self) }),
    {
        self.next = Some(next);
    }
}

/// Makes an entity without a parent follow `target` rigidly, through a
/// parent that copies the target's placement.
#[derive(Clone, Copy, Debug, PartialEq, Eq, Structural)]
pub struct Follow {
    pub target: Entity,
    pub despawn_behavior: DespawnBehavior,
}

impl Follow {
    pub fn new(target: Entity) -> (f: Follow)
        ensures
            f == (Follow { target, despawn_behavior: DespawnBehavior::Despawn }),
    {
        Follow { target, despawn_behavior: DespawnBehavior::Despawn }
    }

    pub fn with_despawn_behavior(self, despawn_behavior: DespawnBehavior) -> (f: Follow)
        ensures
            f == (Follow { despawn_behavior, ..self }),
    {
        Follow { despawn_behavior, ..self }
    }
}

/// What a following entity does this frame.
#[derive(Clone, Copy, Debug, PartialEq, Eq, Structural)]
pub enum FollowAction {
    /// Nothing to do.
    Keep,
    /// A parent that copies the target must be spawned for it.
    SpawnParent,
    /// The entity goes: its copying parent is despawned (with it), or, without one, itself.
    Despawn(Entity),
    /// The entity stops following and keeps living; its copying parent, if any, is despawned.
    StopFollowing(Option<Entity>),
}

/// One frame of following, for the entity `this` whose current copying
/// parent is `parent`. When the target is gone the entity despawns or stops
/// following, by its despawn behaviour; otherwise an entity without a parent
/// gets one.
pub fn spawn_parent(follow: &Follow, this: Entity, parent: Option<Entity>, target_exists: bool) -> (a: FollowAction)
    ensures
        !target_exists && follow.despawn_behavior == DespawnBehavior::Despawn ==> a == FollowAction::Despawn(
            match parent {
                Some(p) => p,
                None => this,
            },
        ),
        !target_exists && follow.despawn_behavior == DespawnBehavior::Remove ==> a == FollowAction::StopFollowing(parent),
        target_exists && parent is None ==> a == FollowAction::SpawnParent,
        target_exists && parent is Some ==> a == FollowAction::Keep,
{
    if !target_exists {
        match follow.despawn_behavior {
            DespawnBehavior::Despawn => FollowAction::Despawn(
                match parent {
                    Some(p) => p,
                    None => this,
                },
            ),
            DespawnBehavior::Remove => FollowAction::StopFollowing(parent),
        }
    } else if parent.is_none() {
        FollowAction::SpawnParent
    } else {
        FollowAction::Keep
    }
}

} // verus!
