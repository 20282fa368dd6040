//! Configuration values of the game: sprites, texts, bosses, stages, charms
//! and shops, and how configuration files included by one another are merged.

use vstd::prelude::*;

use crate::names::{NameMap, NameSet};
use crate::text::concat;

verus! {

/// One sprite atlas that will be played repeatedly in the game.
#[derive(Debug)]
pub struct SpriteAtlas {
    pub path: String,
    pub offset: (u32, u32),
    pub size: (u32, u32),
    pub count: u32,
    /// Milliseconds between switching frames.
    pub interval: u32,
}

/// The atlas size used when a configuration gives none.
pub fn return_default_size() -> (r: (u32, u32))
    ensures
        r == (32u32, 32u32),
{
    (32, 32)
}

/// The frame count used when a configuration gives none.
pub fn return_1() -> (r: u32)
    ensures
        r == 1,
{
    1
}

/// The frame interval, in milliseconds, used when a configuration gives none.
pub fn return_750() -> (r: u32)
    ensures
        r == 750,
{
    750
}

impl SpriteAtlas {
    /// An atlas at `path` with every other setting at its default: no offset,
    /// 32 by 32 pixels, one frame, 750 milliseconds per frame.
    pub fn with_defaults(path: String) -> (a: SpriteAtlas)
        ensures
            a.path == path,
            a.offset == (0u32, 0u32),
            a.size == (32u32, 32u32),
            a.count == 1,
            a.interval == 750,
    {
        SpriteAtlas {
            path,
            offset: (0, 0),
            size: return_default_size(),
            count: return_1(),
            interval: return_750(),
        }
    }
}

/// Text of one language: maps text keys to the text.
pub struct LanguageConfig(pub NameMap<String>);

/// Configuration for assets in the game. `Sound` holds what one sound needs
/// and `Tint` what one tinting style needs.
pub struct AssetsConfig<Sound, Tint> {
    /// Any child configurations that will be merged into this config.
    pub child_paths: Vec<String>,
    /// Map from aliases to the actual sprite.
    pub sprites: NameMap<Vec<SpriteAtlas>>,
    /// Defines tinting style aliases.
    pub tinting: NameMap<Tint>,
    /// Map from aliases to sound details.
    pub sounds: NameMap<Sound>,
    /// Map from language to text.
    pub text: NameMap<LanguageConfig>,
}

/// The text of every language after merging: the loaded text of a language
/// extends (and overrides) the text already there.
pub open spec fn merged_text(
    base: Map<Seq<char>, Map<Seq<char>, String>>,
    loaded: Map<Seq<char>, Map<Seq<char>, String>>,
) -> Map<Seq<char>, Map<Seq<char>, String>> {
    Map::new(
        |lang: Seq<char>| base.contains_key(lang) || loaded.contains_key(lang),
        |lang: Seq<char>|
            if !loaded.contains_key(lang) {
                base[lang]
            } else if !base.contains_key(lang) {
                loaded[lang]
            } else {
                base[lang].union_prefer_right(loaded[lang])
            },
    )
}

/// The text of every language, seen as maps.
pub open spec fn text_view(t: Map<Seq<char>, LanguageConfig>) -> Map<Seq<char>, Map<Seq<char>, String>> {
    t.map_values(|l: LanguageConfig| l.0@)
}

impl<Sound, Tint> AssetsConfig<Sound, Tint> {
    /// An empty configuration.
    pub fn new() -> (c: AssetsConfig<Sound, Tint>)
        ensures
            c.child_paths@.len() == 0,
            c.sprites@ == Map::<Seq<char>, Vec<SpriteAtlas>>::empty(),
            c.tinting@ == Map::<Seq<char>, Tint>::empty(),
            c.sounds@ == Map::<Seq<char>, Sound>::empty(),
            c.text@ == Map::<Seq<char>, LanguageConfig>::empty(),
    {
        AssetsConfig {
            child_paths: Vec::new(),
            sprites: NameMap::new(),
            tinting: NameMap::new(),
            sounds: NameMap::new(),
            text: NameMap::new(),
        }
    }

    /// Merges a configuration that was just read into this one, and returns
    /// the configurations it includes, to be merged next. Sprites, sounds and
    /// tinting styles of `loaded` replace those of the same name; the text of
    /// each language is extended entry by entry.
    pub fn merge(&mut self, loaded: AssetsConfig<Sound, Tint>) -> (child_paths: Vec<String>)
        ensures
            child_paths@ == loaded.child_paths@,
            final(self).child_paths@ == old(self).child_paths@,
            final(self).sprites@ == old(self).sprites@.union_prefer_right(loaded.sprites@),
            final(self).sounds@ == old(self).sounds@.union_prefer_right(loaded.sounds@),
            final(self).tinting@ == old(self).tinting@.union_prefer_right(loaded.tinting@),
            text_view(final(self).text@) == merged_text(text_view(old(self).text@), text_view(loaded.text@)),
    {
        let AssetsConfig { child_paths, sprites, tinting, sounds, text } = loaded;
        let ghost sprites_v = sprites@;
        let ghost sounds_v = sounds@;
        let ghost tinting_v = tinting@;
        self.sprites.extend(sprites);
        self.sounds.extend(sounds);
        self.tinting.extend(tinting);
        let ghost start = text_view(self.text@);
        let ghost lt = text_view(text@);
        let ghost all = text@;
        let mut rest = text;
        let ghost mut done: Set<Seq<char>> = Set::empty();
        proof {
            assert(rest@ =~= all.remove_keys(done));
            assert(merged_text(start, lt.restrict(done)) =~= start);
        }
        while rest.len() > 0
            invariant
                rest@ == all.remove_keys(done),
                lt == text_view(all),
                done.subset_of(all.dom()),
                text_view(self.text@) == merged_text(start, lt.restrict(done)),
                self.child_paths@ == old(self).child_paths@,
                self.sprites@ == old(self).sprites@.union_prefer_right(sprites_v),
                self.sounds@ == old(self).sounds@.union_prefer_right(sounds_v),
                self.tinting@ == old(self).tinting@.union_prefer_right(tinting_v),
            decreases rest@.dom().len(),
        {
            match rest.pop() {
                None => {},
                Some((lang, piece)) => {
                    let ghost k = lang@;
                    let ghost before = text_view(self.text@);
                    let ghost piece_v = piece.0@;
                    match self.text.remove(lang.as_str()) {
                        Some(current) => {
                            let ghost cur_v = current.0@;
                            let mut merged = current.0;
                            merged.extend(piece.0);
                            self.text.insert(lang, LanguageConfig(merged));
                            proof {
                                assert(before.contains_key(k) && before[k] == cur_v);
                                assert(text_view(self.text@)[k] == cur_v.union_prefer_right(piece_v));
                            }
                        },
                        None => {
                            self.text.insert(lang, piece);
                            proof {
                                assert(!before.contains_key(k));
                                assert(text_view(self.text@)[k] == piece_v);
                            }
                        },
                    }
                    proof {
                        let nd = done.insert(k);
                        assert(rest@ =~= all.remove_keys(nd));
                        let after = text_view(self.text@);
                        let want = merged_text(start, lt.restrict(nd));
                        assert(!done.contains(k));
                        assert(all.contains_key(k));
                        assert(lt[k] == piece_v);
                        assert forall|x: Seq<char>| #![auto] after.contains_key(x) == want.contains_key(x) by {
                            if x != k {
                                assert(before.contains_key(x) == after.contains_key(x));
                            }
                        }
                        assert forall|x: Seq<char>| #![auto] after.contains_key(x) implies after[x] == want[x] by {
                            if x != k {
                                assert(before[x] == after[x]);
                            }
                        }
                        assert(after =~= want);
                        done = nd;
                    }
                },
            }
        }
        proof {
            assert(rest@.dom().len() == 0);
            assert(all.dom() =~= done) by {
                assert forall|x: Seq<char>| all.dom().contains(x) implies done.contains(x) by {
                    if !done.contains(x) {
                        assert(rest@.contains_key(x));
                    }
                }
            }
            assert(lt.restrict(done) =~= lt);
        }
        child_paths
    }
}

/// A text given either as one string or as a list of strings, which are
/// joined together.
#[derive(Debug)]
pub struct StringList(pub String);

/// The pieces joined, in order.
pub open spec fn joined(pieces: Seq<String>) -> Seq<char>
    decreases pieces.len(),
{
    if pieces.len() == 0 {
        Seq::empty()
    } else {
        joined(pieces.drop_last()) + pieces.last()@
    }
}

impl StringList {
    pub fn new(value: String) -> (l: StringList)
        ensures
            l.0 == value,
    {
        StringList(value)
    }

    pub fn into_inner(self) -> (s: String)
        ensures
            s == self.0,
    {
        self.0
    }

    /// The text given as a list of strings: all of them joined in order.
    pub fn from_pieces(pieces: &Vec<String>) -> (l: StringList)
        ensures
            l.0@ == joined(pieces@),
    {
        let mut out = String::new();
        let mut i: usize = 0;
        while i < pieces.len()
            invariant
                i <= pieces.len(),
                out@ == joined(pieces@.take(i as int)),
            decreases pieces.len() - i,
        {
            assert(pieces@.take(i + 1).drop_last() =~= pieces@.take(i as int));
            out.append(pieces[i].as_str());
            i = i + 1;
        }
        assert(pieces@.take(i as int) =~= pieces@);
        StringList(out)
    }
}

/// Gain coins from getting a completion mark: maps a task to its coins.
pub struct BossDetails {
    pub gains: NameMap<i32>,
}

impl BossDetails {
    /// No gains at all.
    pub fn new() -> (d: BossDetails)
        ensures
            d.gains@ == Map::<Seq<char>, i32>::empty(),
    {
        BossDetails { gains: NameMap::new() }
    }

    /// Adds the gains of `other`, which replace gains of the same task.
    pub fn merge(&mut self, other: BossDetails)
        ensures
            final(self).gains@ == old(self).gains@.union_prefer_right(other.gains@),
    {
        self.gains.extend(other.gains);
    }
}

/// The requirements of one stage. (Its sizes and lock positions are kept by
/// the engine side.)
pub struct StageDetails {
    /// Bosses to defeat before the stage opens.
    pub unlock_prereqs: NameSet,
    /// Bosses whose defeat completes the stage.
    pub complete_prereqs: NameSet,
    /// For each lock of the stage's lobby, the bosses that open it.
    pub lock_prereqs: Vec<NameSet>,
}

/// Which slots a charm costs, as bit flags: defensive, offensive, general.
#[derive(Debug, Clone, Copy, Default, PartialEq, Eq, Structural)]
pub struct CharmCost(pub u8);

impl CharmCost {
    /// If the charm costs a defensive slot.
    pub fn defensive(self) -> (r: bool)
        ensures
            r == (self.0 & 0x1 != 0),
    {
        (self.0 & 0x1) != 0
    }

    /// If the charm costs an offensive slot.
    pub fn offensive(self) -> (r: bool)
        ensures
            r == (self.0 & 0x2 != 0),
    {
        (self.0 & 0x2) != 0
    }

    /// If the charm costs a general slot.
    pub fn general(self) -> (r: bool)
        ensures
            r == (self.0 & 0x4 != 0),
    {
        (self.0 & 0x4) != 0
    }

    /// Reads a cost written as letters: `D` for defensive, `O` for offensive,
    /// `G` for general, in any order and number. Any other character is an
    /// error that names it.
    pub fn parse(text: &str) -> (r: Result<CharmCost, char>)
        ensures
            r is Ok == (forall|i: int| 0 <= i < text@.len() ==> is_cost_letter(#[trigger] text@[i])),
            r matches Ok(c) ==> c.0 == cost_bits(text@.contains('D'), text@.contains('O'), text@.contains('G')),
            r matches Err(ch) ==> exists|i: int|
                0 <= i < text@.len() && text@[i] == ch && !is_cost_letter(ch) && forall|j: int|
                    0 <= j < i ==> is_cost_letter(#[trigger] text@[j]),
    {
        let cs = crate::text::chars_of(text);
        let mut d = false;
        let mut o = false;
        let mut g = false;
        let mut i: usize = 0;
        while i < cs.len()
            invariant
                cs@ == text@,
                i <= cs.len(),
                forall|j: int| 0 <= j < i ==> is_cost_letter(#[trigger] cs@[j]),
                d == cs@.take(i as int).contains('D'),
                o == cs@.take(i as int).contains('O'),
                g == cs@.take(i as int).contains('G'),
            decreases cs.len() - i,
        {
            let ch = cs[i];
            let ghost t = cs@.take(i as int);
            let ghost t1 = cs@.take(i + 1);
            assert(t1 =~= t.push(ch));
            assert(forall|c: char| t1.contains(c) == (t.contains(c) || c == ch)) by {
                assert forall|c: char| t1.contains(c) implies (t.contains(c) || c == ch) by {
                    let j = choose|j: int| 0 <= j < t1.len() && t1[j] == c;
                    if j < i {
                        assert(t[j] == c);
                    }
                }
                assert forall|c: char| t.contains(c) || c == ch implies t1.contains(c) by {
                    if c == ch {
                        assert(t1[i as int] == c);
                    } else {
                        let j = choose|j: int| 0 <= j < t.len() && t[j] == c;
                        assert(t1[j] == c);
                    }
                }
            }
            if ch == 'D' {
                d = true;
            } else if ch == 'O' {
                o = true;
            } else if ch == 'G' {
                g = true;
            } else {
                return Err(ch);
            }
            i = i + 1;
        }
        assert(cs@.take(i as int) =~= cs@);
        let value: u8 = (if d { 1u8 } else { 0u8 }) | (if o { 2u8 } else { 0u8 }) | (if g { 4u8 } else { 0u8 });
        Ok(CharmCost(value))
    }
}

/// The letters that a charm cost is written with.
pub open spec fn is_cost_letter(c: char) -> bool {
    c == 'D' || c == 'O' || c == 'G'
}

/// The bit flags of a cost with the given slots.
pub open spec fn cost_bits(d: bool, o: bool, g: bool) -> u8 {
    (if d { 1u8 } else { 0u8 }) | (if o { 2u8 } else { 0u8 }) | (if g { 4u8 } else { 0u8 })
}

/// A cost read from letters costs exactly the slots whose letters it holds.
pub proof fn law_cost_letters(d: bool, o: bool, g: bool)
    ensures
        CharmCost(cost_bits(d, o, g)).0 & 0x1 != 0 <==> d,
        CharmCost(cost_bits(d, o, g)).0 & 0x2 != 0 <==> o,
        CharmCost(cost_bits(d, o, g)).0 & 0x4 != 0 <==> g,
{
    let a: u8 = if d { 1u8 } else { 0u8 };
    let b: u8 = if o { 2u8 } else { 0u8 };
    let c: u8 = if g { 4u8 } else { 0u8 };
    assert(((a | b | c) & 0x1 != 0) <==> a == 1) by (bit_vector)
        requires
            a == 0 || a == 1,
            b == 0 || b == 2,
            c == 0 || c == 4,
    ;
    assert(((a | b | c) & 0x2 != 0) <==> b == 2) by (bit_vector)
        requires
            a == 0 || a == 1,
            b == 0 || b == 2,
            c == 0 || c == 4,
    ;
    assert(((a | b | c) & 0x4 != 0) <==> c == 4) by (bit_vector)
        requires
            a == 0 || a == 1,
            b == 0 || b == 2,
            c == 0 || c == 4,
    ;
}

/// What a charm costs and what it does.
pub struct CharmDetails {
    pub cost: CharmCost,
    pub effects: Vec<String>,
}

/// An item for sale: a charm or a weapon, by name.
#[derive(Debug, Clone, PartialEq, Eq)]
pub enum ShopItem {
    Charm(String),
    Weapon(String),
}

/// The name under which an item's texts and pictures are found.
pub open spec fn shop_item_name(item: ShopItem) -> Seq<char> {
    match item {
        ShopItem::Charm(name) => "Charm_"@ + name@,
        ShopItem::Weapon(name) => "Weapon_"@ + name@,
    }
}

impl ShopItem {
    /// `Charm_` or `Weapon_` followed by the item's name.
    pub fn to_name(&self) -> (s: String)
        ensures
            s@ == shop_item_name(*self),
    {
        match self {
            ShopItem::Charm(name) => concat("Charm_", name.as_str()),
            ShopItem::Weapon(name) => concat("Weapon_", name.as_str()),
        }
    }
}

/// One item of a shop and its price.
pub struct ShopItemDetails {
    pub price: i32,
    pub item: ShopItem,
}

/// The items of one shop.
pub struct ShopDetails {
    pub items: Vec<ShopItemDetails>,
}

/// Gameplay values: bosses, stages, charms and shops.
pub struct Values {
    /// Any child value files that will be merged into these values.
    pub child_paths: Vec<String>,
    /// Maps from boss code name to gains.
    pub boss: NameMap<BossDetails>,
    pub stage: NameMap<StageDetails>,
    pub charm: NameMap<CharmDetails>,
    pub shop: NameMap<ShopDetails>,
}

/// The gains of every boss, seen as maps.
pub open spec fn gains_view(b: Map<Seq<char>, BossDetails>) -> Map<Seq<char>, Map<Seq<char>, i32>> {
    b.map_values(|d: BossDetails| d.gains@)
}

impl Values {
    /// No values at all.
    pub fn new() -> (v: Values)
        ensures
            v.child_paths@.len() == 0,
            v.boss@ == Map::<Seq<char>, BossDetails>::empty(),
            v.stage@ == Map::<Seq<char>, StageDetails>::empty(),
            v.charm@ == Map::<Seq<char>, CharmDetails>::empty(),
            v.shop@ == Map::<Seq<char>, ShopDetails>::empty(),
    {
        Values {
            child_paths: Vec::new(),
            boss: NameMap::new(),
            stage: NameMap::new(),
            charm: NameMap::new(),
            shop: NameMap::new(),
        }
    }

    /// Merges values that were just read into these, and returns the child
    /// value files they name, to be merged next. The gains of each boss are
    /// merged task by task; stages and charms of the same name are replaced.
    /// Shops of the loaded values are not taken over.
    pub fn merge(&mut self, loaded: Values) -> (child_paths: Vec<String>)
        ensures
            child_paths@ == loaded.child_paths@,
            gains_view(final(self).boss@) == merged_gains(gains_view(old(self).boss@), gains_view(loaded.boss@)),
            final(self).stage@ == old(self).stage@.union_prefer_right(loaded.stage@),
            final(self).charm@ == old(self).charm@.union_prefer_right(loaded.charm@),
            final(self).shop@ == old(self).shop@,
            final(self).child_paths@ == old(self).child_paths@,
    {
        let Values { child_paths, boss, stage, charm, shop: _ } = loaded;
        let ghost start = gains_view(self.boss@);
        let ghost all = boss@;
        let ghost lg = gains_view(all);
        let mut rest = boss;
        let ghost mut done: Set<Seq<char>> = Set::empty();
        proof {
            assert(rest@ =~= all.remove_keys(done));
            assert(merged_gains(start, lg.restrict(done)) =~= start);
        }
        while rest.len() > 0
            invariant
                rest@ == all.remove_keys(done),
                lg == gains_view(all),
                done.subset_of(all.dom()),
                gains_view(self.boss@) == merged_gains(start, lg.restrict(done)),
                self.stage@ == old(self).stage@,
                self.charm@ == old(self).charm@,
                self.shop@ == old(self).shop@,
                self.child_paths@ == old(self).child_paths@,
            decreases rest@.dom().len(),
        {
            match rest.pop() {
                None => {},
                Some((name, details)) => {
                    let ghost k = name@;
                    let ghost before = gains_view(self.boss@);
                    let ghost piece_v = details.gains@;
                    match self.boss.remove(name.as_str()) {
                        Some(current) => {
                            let ghost cur_v = current.gains@;
                            let mut merged = current;
                            merged.merge(details);
                            self.boss.insert(name, merged);
                            proof {
                                assert(before.contains_key(k) && before[k] == cur_v);
                                assert(gains_view(self.boss@)[k] == cur_v.union_prefer_right(piece_v));
                            }
                        },
                        None => {
                            let mut fresh = BossDetails::new();
                            fresh.merge(details);
                            self.boss.insert(name, fresh);
                            proof {
                                assert(!before.contains_key(k));
                                assert(Map::<Seq<char>, i32>::empty().union_prefer_right(piece_v) =~= piece_v);
                                assert(gains_view(self.boss@)[k] == piece_v);
                            }
                        },
                    }
                    proof {
                        let nd = done.insert(k);
                        assert(rest@ =~= all.remove_keys(nd));
                        let after = gains_view(self.boss@);
                        let want = merged_gains(start, lg.restrict(nd));
                        assert(!done.contains(k));
                        assert(all.contains_key(k));
                        assert(lg[k] == piece_v);
                        assert forall|x: Seq<char>| #![auto] after.contains_key(x) == want.contains_key(x) by {
                            if x != k {
                                assert(before.contains_key(x) == after.contains_key(x));
                            }
                        }
                        assert forall|x: Seq<char>| #![auto] after.contains_key(x) implies after[x] == want[x] by {
                            if x != k {
                                assert(before[x] == after[x]);
                            }
                        }
                        assert(after =~= want);
                        done = nd;
                    }
                },
            }
        }
        proof {
            assert(all.dom() =~= done) by {
                assert forall|x: Seq<char>| all.dom().contains(x) implies done.contains(x) by {
                    if !done.contains(x) {
                        assert(rest@.contains_key(x));
                    }
                }
            }
            assert(lg.restrict(done) =~= lg);
        }
        self.stage.extend(stage);
        self.charm.extend(charm);
        child_paths
    }
}

/// The gains of every boss after merging: the loaded gains of a boss extend
/// (and override) those already there.
pub open spec fn merged_gains(
    base: Map<Seq<char>, Map<Seq<char>, i32>>,
    loaded: Map<Seq<char>, Map<Seq<char>, i32>>,
) -> Map<Seq<char>, Map<Seq<char>, i32>> {
    Map::new(
        |boss: Seq<char>| base.contains_key(boss) || loaded.contains_key(boss),
        |boss: Seq<char>|
            if !loaded.contains_key(boss) {
                base[boss]
            } else if !base.contains_key(boss) {
                loaded[boss]
            } else {
                base[boss].union_prefer_right(loaded[boss])
            },
    )
}

/// Merging keeps every gain that the loaded values do not mention and takes
/// every gain that they do: a boss known on either side stays known; a task
/// of a loaded boss pays what the loaded values say; a task that the loaded
/// values leave out keeps what it paid before.
pub proof fn law_merge_keeps_gains(
    base: Map<Seq<char>, Map<Seq<char>, i32>>,
    loaded: Map<Seq<char>, Map<Seq<char>, i32>>,
    boss: Seq<char>,
    task: Seq<char>,
)
    ensures
        merged_gains(base, loaded).contains_key(boss) <==> (base.contains_key(boss) || loaded.contains_key(boss)),
        loaded.contains_key(boss) ==> (merged_gains(base, loaded)[boss].contains_key(task) <==> (
        loaded[boss].contains_key(task) || (base.contains_key(boss) && base[boss].contains_key(task)))),
        loaded.contains_key(boss) && loaded[boss].contains_key(task) ==> merged_gains(base, loaded)[boss][task]
            == loaded[boss][task],
        base.contains_key(boss) && base[boss].contains_key(task) && !(loaded.contains_key(boss)
            && loaded[boss].contains_key(task)) ==> merged_gains(base, loaded)[boss].contains_key(task)
            && merged_gains(base, loaded)[boss][task] == base[boss][task],
        base.contains_key(boss) && !loaded.contains_key(boss) ==> merged_gains(base, loaded)[boss] == base[boss],
{
}

} // verus!
