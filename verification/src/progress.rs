//! The player's saved progress and the rules that change it: boss tasks and
//! marks, coins, stages, shop purchases and achievements.

use vstd::prelude::*;

use crate::config::{shop_item_name, ShopDetails, ShopItem, StageDetails};
use crate::names::{NameMap, NameSet};
use crate::text::{concat, signed_decimal, signed_decimal_string};

verus! {

/// What the player has achieved against one boss.
pub struct BossProgress {
    pub defeated: bool,
    /// Names of the completed tasks, such as `Completed` or `NoHits`.
    pub tasks: NameSet,
}

impl BossProgress {
    /// Not defeated, no tasks.
    pub fn new() -> (p: BossProgress)
        ensures
            !p.defeated,
            p.tasks@ == Set::<Seq<char>>::empty(),
    {
        BossProgress { defeated: false, tasks: NameSet::new() }
    }
}

/// Unlocked achievements and the counters that lead to them.
pub struct Achievements {
    pub unlocked: NameSet,
    pub counters: NameMap<i32>,
}

/// The saved progress of the player.
pub struct Progress {
    pub coins: i32,
    pub boss_progress: NameMap<BossProgress>,
    pub completed_stages: NameSet,
    pub current_lobby: String,
    pub selected_weapons: Vec<String>,
    pub weapon_slots: usize,
    pub selected_health: String,
    pub selected_effects: NameSet,
    pub achievements: Achievements,
    pub unlocked_dash: bool,
    /// Names (as `ShopItem::to_name` gives them) of the items bought so far.
    pub owned_items: NameSet,
}

/// Whether the boss has been defeated, by the progress records.
pub open spec fn defeated_in(bp: Map<Seq<char>, BossProgress>, boss: Seq<char>) -> bool {
    bp.contains_key(boss) && bp[boss].defeated
}

/// `Mark_` followed by each task.
pub open spec fn marks_of(tasks: Seq<Seq<char>>) -> Seq<Seq<char>> {
    tasks.map_values(|t: Seq<char>| "Mark_"@ + t)
}

/// The marks of the boss `name`, one per completed task in increasing order;
/// none when the boss has no progress yet.
pub fn get_marks(progress: &Progress, name: &str) -> (marks: Vec<String>)
    ensures
        marks@.map_values(|s: String| s@) == (if progress.boss_progress@.contains_key(name@) {
            marks_of(progress.boss_progress@[name@].tasks.ordered())
        } else {
            Seq::empty()
        }),
{
    let mut marks: Vec<String> = Vec::new();
    match progress.boss_progress.get(name) {
        None => {
            assert(marks@.map_values(|s: String| s@) =~= Seq::<Seq<char>>::empty());
        },
        Some(bp) => {
            let mut i: usize = 0;
            while i < bp.tasks.len()
                invariant
                    i <= bp.tasks.ordered().len(),
                    marks@.map_values(|s: String| s@) == marks_of(bp.tasks.ordered().take(i as int)),
                decreases bp.tasks.ordered().len() - i,
            {
                let mark = concat("Mark_", bp.tasks.at(i).as_str());
                let ghost before = marks@;
                marks.push(mark);
                assert(marks@.map_values(|s: String| s@) =~= before.map_values(|s: String| s@).push(mark@));
                assert(marks_of(bp.tasks.ordered().take(i + 1)) =~= marks_of(bp.tasks.ordered().take(i as int)).push("Mark_"@ + bp.tasks.ordered()[i as int]));
                i = i + 1;
            }
            assert(bp.tasks.ordered().take(i as int) =~= bp.tasks.ordered());
        },
    }
    marks
}

/// Global event with the tasks just completed in a fight.
pub struct CompletedTasks {
    pub tasks: NameSet,
    /// The fight whose tasks were updated.
    pub fight: String,
}

/// The tasks of a boss after a victory: `Completed` is added on the first
/// victory, `NoHits` when the player was never hit.
pub open spec fn tasks_after(old_tasks: Set<Seq<char>>, was_defeated: bool, any_hits: bool) -> Set<Seq<char>> {
    let t1 = if !was_defeated {
        old_tasks.insert("Completed"@)
    } else {
        old_tasks
    };
    if !any_hits {
        t1.insert("NoHits"@)
    } else {
        t1
    }
}

/// A victory always leaves the boss's tasks holding every task it held
/// before, `Completed`, and `NoHits` when the player was never hit (on the
/// first victory or any later one); the newly completed tasks are exactly
/// `Completed` on the first victory and `NoHits` on a no-hit victory, each
/// only when not held before.
pub proof fn law_victory_tasks(old_tasks: Set<Seq<char>>, was_defeated: bool, any_hits: bool)
    requires
        was_defeated ==> old_tasks.contains("Completed"@),
    ensures
        old_tasks.subset_of(tasks_after(old_tasks, was_defeated, any_hits)),
        tasks_after(old_tasks, was_defeated, any_hits).contains("Completed"@),
        !any_hits ==> tasks_after(old_tasks, was_defeated, any_hits).contains("NoHits"@),
        forall|t: Seq<char>|
            #[trigger] tasks_after(old_tasks, was_defeated, any_hits).difference(old_tasks).contains(t) <==> (
            !old_tasks.contains(t) && ((t == "Completed"@ && !was_defeated) || (t == "NoHits"@ && !any_hits))),
{
    let c: Seq<char> = "Completed"@;
    let n: Seq<char> = "NoHits"@;
    assert forall|t: Seq<char>|
        #[trigger] tasks_after(old_tasks, was_defeated, any_hits).difference(old_tasks).contains(t) <==> (
        !old_tasks.contains(t) && ((t == c && !was_defeated) || (t == n && !any_hits))) by {
    }
}

impl Progress {
    /// Records a victory in `fight`: the boss counts as defeated, its tasks
    /// are updated, and the tasks that are new are returned.
    pub fn update_tasks(&mut self, fight: &str, any_hits: bool) -> (completed: CompletedTasks)
        ensures
            final(self).boss_progress@ == old(self).boss_progress@.insert(fight@, final(self).boss_progress@[fight@]),
            final(self).boss_progress@[fight@].defeated,
            ({
                let (was, old_tasks) = if old(self).boss_progress@.contains_key(fight@) {
                    (old(self).boss_progress@[fight@].defeated, old(self).boss_progress@[fight@].tasks@)
                } else {
                    (false, Set::<Seq<char>>::empty())
                };
                &&& final(self).boss_progress@[fight@].tasks@ == tasks_after(old_tasks, was, any_hits)
                &&& completed.tasks@ == tasks_after(old_tasks, was, any_hits).difference(old_tasks)
            }),
            completed.fight@ == fight@,
            *final(self) == (Progress { boss_progress: final(self).boss_progress, ..*old(self) }),
    {
        let mut bp = match self.boss_progress.remove(fight) {
            Some(bp) => bp,
            None => BossProgress::new(),
        };
        let mut completed = NameSet::new();
        if !bp.defeated {
            bp.defeated = true;
            if bp.tasks.insert("Completed".to_owned()) {
                completed.insert("Completed".to_owned());
            }
        }
        if !any_hits {
            if bp.tasks.insert("NoHits".to_owned()) {
                completed.insert("NoHits".to_owned());
            }
        }
        self.boss_progress.insert(fight.to_owned(), bp);
        proof {
            let (was, old_tasks) = if old(self).boss_progress@.contains_key(fight@) {
                (old(self).boss_progress@[fight@].defeated, old(self).boss_progress@[fight@].tasks@)
            } else {
                (false, Set::<Seq<char>>::empty())
            };
            assert(completed@ =~= tasks_after(old_tasks, was, any_hits).difference(old_tasks));
            assert(self.boss_progress@ =~= old(self).boss_progress@.insert(fight@, self.boss_progress@[fight@]));
        }
        CompletedTasks { tasks: completed, fight: fight.to_owned() }
    }
}

/// The coins that the completed `tasks` are worth, by the boss's `gains`.
pub open spec fn gain_sum(tasks: Seq<Seq<char>>, gains: Map<Seq<char>, i32>) -> int
    decreases tasks.len(),
{
    if tasks.len() == 0 {
        0
    } else {
        gain_sum(tasks.drop_last(), gains) + if gains.contains_key(tasks.last()) {
            gains[tasks.last()] as int
        } else {
            0
        }
    }
}

/// Adding the gains one task after another keeps the coins within `i32`.
pub open spec fn gains_fit(coins: i32, tasks: Seq<Seq<char>>, gains: Map<Seq<char>, i32>) -> bool {
    forall|i: int|
        0 <= i <= tasks.len() ==> i32::MIN <= coins + #[trigger] gain_sum(tasks.take(i), gains)
            <= i32::MAX
}

/// The gains of the boss fought in `fight`, if it has any configured.
pub open spec fn boss_gains(
    bosses: Map<Seq<char>, crate::config::BossDetails>,
    fight: Seq<char>,
) -> Map<Seq<char>, i32> {
    if bosses.contains_key(fight) {
        bosses[fight].gains@
    } else {
        Map::empty()
    }
}

impl Progress {
    /// Pays the coins that the completed tasks of a fight are worth.
    pub fn gain_coins(&mut self, bosses: &NameMap<crate::config::BossDetails>, completed: &CompletedTasks)
        requires
            gains_fit(
                old(self).coins,
                completed.tasks.ordered(),
                boss_gains(bosses@, completed.fight@),
            ),
        ensures
            final(self).coins == old(self).coins + gain_sum(
                completed.tasks.ordered(),
                boss_gains(bosses@, completed.fight@),
            ),
            *final(self) == (Progress { coins: final(self).coins, ..*old(self) }),
    {
        let ghost g = boss_gains(bosses@, completed.fight@);
        let ghost ts = completed.tasks.ordered();
        match bosses.get(completed.fight.as_str()) {
            None => {
                proof {
                    assert forall|i: int| 0 <= i <= ts.len() implies gain_sum(ts.take(i), g) == 0 by {
                        lemma_gain_sum_empty(ts.take(i));
                    }
                    assert(ts.take(ts.len() as int) =~= ts);
                }
            },
            Some(details) => {
                let mut i: usize = 0;
                assert(ts.take(0) =~= Seq::<Seq<char>>::empty());
                while i < completed.tasks.len()
                    invariant
                        i <= ts.len(),
                        ts == completed.tasks.ordered(),
                        g == details.gains@,
                        gains_fit(old(self).coins, ts, g),
                        self.coins == old(self).coins + gain_sum(ts.take(i as int), g),
                        *self == (Progress { coins: self.coins, ..*old(self) }),
                    decreases ts.len() - i,
                {
                    let task = completed.tasks.at(i);
                    assert(ts.take(i + 1).drop_last() =~= ts.take(i as int));
                    assert(ts.take(i + 1).last() == ts[i as int]);
                    assert(i32::MIN <= old(self).coins + gain_sum(ts.take(i + 1), g) <= i32::MAX);
                    if let Some(coins) = details.gains.get(task.as_str()) {
                        self.coins = self.coins + *coins;
                    }
                    i = i + 1;
                }
                assert(ts.take(i as int) =~= ts);
            },
        }
    }
}

proof fn lemma_gain_sum_empty(tasks: Seq<Seq<char>>)
    ensures
        gain_sum(tasks, Map::empty()) == 0,
    decreases tasks.len(),
{
    if tasks.len() > 0 {
        lemma_gain_sum_empty(tasks.drop_last());
    }
}

/// Whether every boss in `bosses` has been defeated.
pub fn all_defeated(boss_progress: &NameMap<BossProgress>, bosses: &NameSet) -> (r: bool)
    ensures
        r == (forall|b: Seq<char>| bosses@.contains(b) ==> defeated_in(boss_progress@, b)),
{
    proof {
        bosses.lemma_view();
    }
    let mut i: usize = 0;
    while i < bosses.len()
        invariant
            i <= bosses.ordered().len(),
            bosses@ == bosses.ordered().to_set(),
            forall|j: int| 0 <= j < i ==> defeated_in(boss_progress@, #[trigger] bosses.ordered()[j]),
        decreases bosses.ordered().len() - i,
    {
        let name = bosses.at(i);
        let done = match boss_progress.get(name.as_str()) {
            Some(p) => p.defeated,
            None => false,
        };
        if !done {
            assert(bosses.ordered()[i as int] == name@);
            assert(bosses.ordered().contains(name@));
            assert(bosses@.contains(name@));
            return false;
        }
        i = i + 1;
    }
    proof {
        assert forall|b: Seq<char>| bosses@.contains(b) implies defeated_in(boss_progress@, b) by {
            let j = choose|j: int| 0 <= j < bosses.ordered().len() && bosses.ordered()[j] == b;
        }
    }
    true
}

/// A stage becomes complete when `fight` is one of the bosses that complete
/// it and all of those bosses are defeated.
pub open spec fn stage_completes(
    stage: StageDetails,
    fight: Seq<char>,
    boss_progress: Map<Seq<char>, BossProgress>,
) -> bool {
    stage.complete_prereqs@.contains(fight) && forall|b: Seq<char>|
        stage.complete_prereqs@.contains(b) ==> defeated_in(boss_progress, b)
}

impl Progress {
    /// After the tasks of `fight` were completed, marks every stage that this
    /// completes as completed.
    pub fn update_stage(&mut self, stages: &NameMap<StageDetails>, fight: &str)
        ensures
            final(self).completed_stages@ == old(self).completed_stages@.union(
                Set::new(
                    |s: Seq<char>|
                        stages@.contains_key(s) && stage_completes(
                            stages@[s],
                            fight@,
                            old(self).boss_progress@,
                        ),
                ),
            ),
            *final(self) == (Progress { completed_stages: final(self).completed_stages, ..*old(self) }),
    {
        let names = stages.keys();
        let ghost ns = names@.map_values(|s: String| s@);
        let ghost want = Set::new(
            |s: Seq<char>| stages@.contains_key(s) && stage_completes(stages@[s], fight@, old(self).boss_progress@),
        );
        let mut i: usize = 0;
        while i < names.len()
            invariant
                i <= names@.len(),
                ns == names@.map_values(|s: String| s@),
                ns.to_set() == stages@.dom(),
                want == Set::new(
                    |s: Seq<char>| stages@.contains_key(s) && stage_completes(stages@[s], fight@, old(self).boss_progress@),
                ),
                *self == (Progress { completed_stages: self.completed_stages, ..*old(self) }),
                self.completed_stages@ == old(self).completed_stages@.union(
                    want.intersect(ns.take(i as int).to_set()),
                ),
            decreases names@.len() - i,
        {
            let name = &names[i];
            assert(ns[i as int] == name@);
            assert(stages@.contains_key(name@)) by {
                assert(ns.contains(name@));
            }
            let stage = stages.get(name.as_str()).unwrap();
            let completes = stage.complete_prereqs.contains(fight) && all_defeated(
                &self.boss_progress,
                &stage.complete_prereqs,
            );
            if completes {
                self.completed_stages.insert(name.clone());
            }
            proof {
                assert(ns.take(i + 1).to_set() =~= ns.take(i as int).to_set().insert(name@)) by {
                    let a = ns.take(i + 1);
                    let b = ns.take(i as int);
                    assert(a =~= b.push(name@));
                    assert forall|x: Seq<char>| a.contains(x) <==> (b.contains(x) || x == name@) by {
                        if a.contains(x) {
                            let j = choose|j: int| 0 <= j < a.len() && a[j] == x;
                            if j < i {
                                assert(b[j] == x);
                            }
                        }
                        if b.contains(x) {
                            let j = choose|j: int| 0 <= j < b.len() && b[j] == x;
                            assert(a[j] == x);
                        }
                        if x == name@ {
                            assert(a[i as int] == x);
                        }
                    }
                }
                assert(want.contains(name@) == completes);
                assert(self.completed_stages@ =~= old(self).completed_stages@.union(
                    want.intersect(ns.take(i + 1).to_set()),
                ));
            }
            i = i + 1;
        }
        proof {
            assert(ns.take(i as int) =~= ns);
            assert(want.intersect(ns.to_set()) =~= want);
        }
    }
}

/// What happens when the player tries to buy a shop item.
#[derive(Clone, Copy, Debug, PartialEq, Eq, Structural)]
pub enum PurchaseOutcome {
    /// The item is owned already; nothing happens.
    AlreadyOwned,
    /// Not enough coins; an error sound plays.
    NotEnough,
    /// The item's stand is gone; nothing happens.
    StandGone,
    /// The coins are paid and the item is owned from now on.
    Purchased,
}

/// The outcome of trying to buy an item, given whether it is owned, the
/// coins, its price and whether its stand still exists.
pub open spec fn purchase_outcome(owned: bool, coins: i32, price: i32, stand_exists: bool) -> PurchaseOutcome {
    if owned {
        PurchaseOutcome::AlreadyOwned
    } else if coins < price {
        PurchaseOutcome::NotEnough
    } else if !stand_exists {
        PurchaseOutcome::StandGone
    } else {
        PurchaseOutcome::Purchased
    }
}

impl Progress {
    /// Whether the item has been bought.
    pub fn has_shop_item(&self, item: &ShopItem) -> (r: bool)
        ensures
            r == self.owned_items@.contains(shop_item_name(*item)),
    {
        self.owned_items.contains(item.to_name().as_str())
    }

    /// Buys `item` for `price` when it is not owned yet and the coins suffice.
    pub fn purchase(&mut self, item: &ShopItem, price: i32, stand_exists: bool) -> (outcome: PurchaseOutcome)
        requires
            purchase_outcome(
                old(self).owned_items@.contains(shop_item_name(*item)),
                old(self).coins,
                price,
                stand_exists,
            ) == PurchaseOutcome::Purchased ==> old(self).coins - price <= i32::MAX,
        ensures
            outcome == purchase_outcome(
                old(self).owned_items@.contains(shop_item_name(*item)),
                old(self).coins,
                price,
                stand_exists,
            ),
            outcome == PurchaseOutcome::Purchased ==> final(self).coins == old(self).coins - price
                && final(self).owned_items@ == old(self).owned_items@.insert(shop_item_name(*item)),
            outcome != PurchaseOutcome::Purchased ==> *final(self) == *old(self),
            *final(self) == (Progress { coins: final(self).coins, owned_items: final(self).owned_items, ..*old(self) }),
    {
        if self.has_shop_item(item) {
            return PurchaseOutcome::AlreadyOwned;
        }
        if self.coins < price {
            return PurchaseOutcome::NotEnough;
        }
        if !stand_exists {
            return PurchaseOutcome::StandGone;
        }
        self.coins = self.coins - price;
        self.owned_items.insert(item.to_name());
        PurchaseOutcome::Purchased
    }
}

/// Buying the same item twice never charges twice: after a purchase, the
/// next attempt finds it owned and changes nothing.
pub proof fn law_purchase_once(owned: Set<Seq<char>>, coins: i32, price: i32, item: ShopItem, stand: bool)
    requires
        purchase_outcome(owned.contains(shop_item_name(item)), coins, price, stand)
            == PurchaseOutcome::Purchased,
    ensures
        purchase_outcome(owned.insert(shop_item_name(item)).contains(shop_item_name(item)), (coins - price) as i32, price, stand)
            == PurchaseOutcome::AlreadyOwned,
{
}

/// A purchase never leaves the player with negative coins when the price is
/// not negative and the coins were not negative.
pub proof fn law_purchase_keeps_coins_nonneg(owned: bool, coins: i32, price: i32, stand: bool)
    requires
        coins >= 0,
        price >= 0,
        purchase_outcome(owned, coins, price, stand) == PurchaseOutcome::Purchased,
    ensures
        coins - price >= 0,
{
}

/// The positions, among a shop's items, of those not bought yet; these are
/// the ones put on display.
pub fn items_on_sale(progress: &Progress, shop: &ShopDetails) -> (v: Vec<usize>)
    ensures
        forall|k: int| 0 <= k < v@.len() ==> v@[k] < shop.items@.len() && !progress.owned_items@.contains(shop_item_name(shop.items@[v@[k] as int].item)),
        forall|k: int, l: int| 0 <= k < l < v@.len() ==> v@[k] < v@[l],
        forall|j: int| 0 <= j < shop.items@.len() && !progress.owned_items@.contains(shop_item_name(shop.items@[j].item)) ==> v@.contains(j as usize),
{
    let mut v: Vec<usize> = Vec::new();
    let mut i: usize = 0;
    while i < shop.items.len()
        invariant
            i <= shop.items@.len(),
            forall|k: int| 0 <= k < v@.len() ==> v@[k] < i && !progress.owned_items@.contains(shop_item_name(shop.items@[v@[k] as int].item)),
            forall|k: int, l: int| 0 <= k < l < v@.len() ==> v@[k] < v@[l],
            forall|j: int| 0 <= j < i && !progress.owned_items@.contains(shop_item_name(shop.items@[j].item)) ==> v@.contains(j as usize),
        decreases shop.items@.len() - i,
    {
        let ghost before = v@;
        if !progress.has_shop_item(&shop.items[i].item) {
            v.push(i);
            assert(v@[v@.len() - 1] == i);
        }
        proof {
            assert forall|j: int| 0 <= j < i + 1 && !progress.owned_items@.contains(shop_item_name(shop.items@[j].item)) implies v@.contains(j as usize) by {
                if j < i {
                    let k = choose|k: int| 0 <= k < before.len() && before[k] == j as usize;
                    assert(v@[k] == j as usize);
                } else {
                    assert(v@[v@.len() - 1] == i);
                }
            }
        }
        i = i + 1;
    }
    v
}

/// How the outline of a shop item is drawn.
#[derive(Clone, Copy, Debug, PartialEq, Eq, Structural)]
pub enum OutlineStyle {
    /// Selected and affordable.
    Active,
    /// Selected but too expensive.
    NotEnough,
    /// Not selected.
    Inactive,
}

/// The outline of an item: inactive unless selected, then by whether the coins suffice.
pub fn outline_style(selecting: bool, coins: i32, price: i32) -> (s: OutlineStyle)
    ensures
        s == (if !selecting {
            OutlineStyle::Inactive
        } else if coins >= price {
            OutlineStyle::Active
        } else {
            OutlineStyle::NotEnough
        }),
{
    if selecting {
        if coins >= price {
            OutlineStyle::Active
        } else {
            OutlineStyle::NotEnough
        }
    } else {
        OutlineStyle::Inactive
    }
}

/// The text keys of an item on display: `<name>_Short` for its title and
/// `<name>_ShopDesc` for its description.
pub fn shop_item_text_keys(item: &ShopItem) -> (keys: (String, String))
    ensures
        keys.0@ == shop_item_name(*item) + "_Short"@,
        keys.1@ == shop_item_name(*item) + "_ShopDesc"@,
{
    let name = item.to_name();
    (concat(name.as_str(), "_Short"), concat(name.as_str(), "_ShopDesc"))
}

/// The label of an item on display: its title and its price, as in `Hp (30G)`.
pub fn price_label(short_title: &str, price: i32) -> (label: String)
    ensures
        label@ == short_title@ + " ("@ + signed_decimal(price as int) + "G)"@,
{
    let a = concat(short_title, " (");
    let digits = signed_decimal_string(price);
    let b = concat(a.as_str(), digits.as_str());
    concat(b.as_str(), "G)")
}

} // verus!
