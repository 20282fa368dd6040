//! Collections keyed by names: a map from names to values, and an ordered set of names.

use vstd::prelude::*;

use crate::text::{lemma_seq_lt_asym, lemma_seq_lt_irreflexive, lemma_seq_lt_total, lemma_seq_lt_trans, seq_lt, str_lt};

verus! {

/// The map that a list of entries with distinct names describes.
pub open spec fn entries_map<V>(s: Seq<(String, V)>) -> Map<Seq<char>, V>
    decreases s.len(),
{
    if s.len() == 0 {
        Map::empty()
    } else {
        entries_map(s.drop_last()).insert(s.last().0@, s.last().1)
    }
}

/// No two entries share a name.
pub open spec fn distinct_names<V>(s: Seq<(String, V)>) -> bool {
    forall|i: int, j: int| 0 <= i < j < s.len() ==> s[i].0@ != s[j].0@
}

proof fn lemma_entries_map_has<V>(s: Seq<(String, V)>, i: int)
    requires
        distinct_names(s),
        0 <= i < s.len(),
    ensures
        entries_map(s).contains_key(s[i].0@),
        entries_map(s)[s[i].0@] == s[i].1,
    decreases s.len(),
{
    if i < s.len() - 1 {
        lemma_entries_map_has(s.drop_last(), i);
    }
}

proof fn lemma_entries_map_dom<V>(s: Seq<(String, V)>, k: Seq<char>)
    ensures
        entries_map(s).contains_key(k) <==> exists|i: int| 0 <= i < s.len() && s[i].0@ == k,
    decreases s.len(),
{
    if s.len() > 0 {
        lemma_entries_map_dom(s.drop_last(), k);
        if entries_map(s.drop_last()).contains_key(k) {
            let i = choose|i: int| 0 <= i < s.drop_last().len() && s.drop_last()[i].0@ == k;
            assert(s[i].0@ == k);
        }
        if exists|i: int| 0 <= i < s.len() && s[i].0@ == k {
            let i = choose|i: int| 0 <= i < s.len() && s[i].0@ == k;
            if i < s.len() - 1 {
                assert(s.drop_last()[i].0@ == k);
            }
        }
    }
}

proof fn lemma_entries_map_remove<V>(s: Seq<(String, V)>, i: int)
    requires
        distinct_names(s),
        0 <= i < s.len(),
    ensures
        entries_map(s.remove(i)) == entries_map(s).remove(s[i].0@),
{
    let r = s.remove(i);
    assert(distinct_names(r));
    assert forall|k: Seq<char>| #![auto] entries_map(r).contains_key(k) <==> entries_map(s).remove(s[i].0@).contains_key(k) by {
        lemma_entries_map_dom(r, k);
        lemma_entries_map_dom(s, k);
        if entries_map(s).remove(s[i].0@).contains_key(k) {
            let j = choose|j: int| 0 <= j < s.len() && s[j].0@ == k;
            if j < i {
                assert(r[j].0@ == k);
            } else {
                assert(j != i);
                assert(r[j - 1].0@ == k);
            }
        }
        if entries_map(r).contains_key(k) {
            let j = choose|j: int| 0 <= j < r.len() && r[j].0@ == k;
            if j < i {
                assert(s[j].0@ == k);
            } else {
                assert(s[j + 1].0@ == k);
            }
        }
    }
    assert forall|k: Seq<char>| #[trigger] entries_map(r).contains_key(k) implies entries_map(r)[k]
        == entries_map(s)[k] by {
        lemma_entries_map_dom(r, k);
        let j = choose|j: int| 0 <= j < r.len() && r[j].0@ == k;
        lemma_entries_map_has(r, j);
        if j < i {
            lemma_entries_map_has(s, j);
        } else {
            lemma_entries_map_has(s, j + 1);
        }
    }
    assert(entries_map(r) =~= entries_map(s).remove(s[i].0@));
}

/// A map from names to values. Names are compared by their characters.
pub struct NameMap<V> {
    entries: Vec<(String, V)>,
}

impl<V> View for NameMap<V> {
    type V = Map<Seq<char>, V>;

    closed spec fn view(&self) -> Map<Seq<char>, V> {
        entries_map(self.entries@)
    }
}

impl<V> NameMap<V> {
    #[verifier::type_invariant]
    closed spec fn wf(&self) -> bool {
        distinct_names(self.entries@)
    }

    /// The entries in the order they are stored.
    pub closed spec fn entry_seq(&self) -> Seq<(String, V)> {
        self.entries@
    }

    /// The stored entries describe the map; a later entry would win over an earlier one.
    pub proof fn lemma_view(&self)
        ensures
            self@ == entries_map(self.entry_seq()),
    {
    }

    /// Facts that follow from every name being stored once.
    fn facts(&self)
        ensures
            self@ == entries_map(self.entry_seq()),
            distinct_names(self.entry_seq()),
            self@.dom().finite(),
            self@.dom().len() == self.entry_seq().len(),
            forall|i: int|
                0 <= i < self.entry_seq().len() ==> #[trigger] self@.contains_key(
                    self.entry_seq()[i].0@,
                ) && self@[self.entry_seq()[i].0@] == self.entry_seq()[i].1,
            forall|k: Seq<char>|
                #[trigger] self@.contains_key(k) ==> exists|i: int|
                    0 <= i < self.entry_seq().len() && self.entry_seq()[i].0@ == k,
    {
        proof {
            use_type_invariant(self);
            assert forall|i: int| 0 <= i < self.entry_seq().len() implies #[trigger] self@.contains_key(
                self.entry_seq()[i].0@,
            ) && self@[self.entry_seq()[i].0@] == self.entry_seq()[i].1 by {
                lemma_entries_map_has(self.entries@, i);
            }
            assert forall|k: Seq<char>| #[trigger] self@.contains_key(k) implies exists|i: int|
                0 <= i < self.entry_seq().len() && self.entry_seq()[i].0@ == k by {
                lemma_entries_map_dom(self.entries@, k);
                let i = choose|i: int| 0 <= i < self.entries@.len() && self.entries@[i].0@ == k;
                assert(self.entry_seq()[i].0@ == k);
            }
            lemma_entries_len(self.entries@);
        }
    }

    /// An empty map.
    pub fn new() -> (m: NameMap<V>)
        ensures
            m@ == Map::<Seq<char>, V>::empty(),
    {
        NameMap { entries: Vec::new() }
    }

    /// The number of names.
    pub fn len(&self) -> (n: usize)
        ensures
            n == self.entry_seq().len(),
            n == self@.dom().len(),
            self@.dom().finite(),
    {
        self.facts();
        self.entries.len()
    }

    /// All names of the map, each once.
    pub fn keys(&self) -> (v: Vec<String>)
        ensures
            v@.map_values(|s: String| s@).to_set() == self@.dom(),
            v@.map_values(|s: String| s@).no_duplicates(),
            v@.len() == self@.dom().len(),
    {
        self.facts();
        let mut v: Vec<String> = Vec::new();
        let mut i: usize = 0;
        while i < self.entries.len()
            invariant
                i <= self.entries.len(),
                distinct_names(self.entries@),
                v@.len() == i,
                forall|j: int| 0 <= j < i ==> #[trigger] v@[j]@ == self.entries@[j].0@,
            decreases self.entries.len() - i,
        {
            v.push(self.entries[i].0.clone());
            i = i + 1;
        }
        proof {
            let names = v@.map_values(|s: String| s@);
            assert forall|x: Seq<char>| names.to_set().contains(x) <==> self@.dom().contains(x) by {
                if names.contains(x) {
                    let j = choose|j: int| 0 <= j < names.len() && names[j] == x;
                    assert(self.entry_seq()[j].0@ == x);
                }
                if self@.dom().contains(x) {
                    let j = choose|j: int| 0 <= j < self.entry_seq().len() && self.entry_seq()[j].0@ == x;
                    assert(names[j] == x);
                }
            }
            assert(names.to_set() =~= self@.dom());
        }
        v
    }

    /// Takes some entry out of the map, or `None` when it is empty.
    pub fn pop(&mut self) -> (r: Option<(String, V)>)
        ensures
            r is None <==> old(self)@.dom().len() == 0,
            old(self)@.dom().finite(),
            r matches Some(e) ==> old(self)@.contains_key(e.0@) && old(self)@[e.0@] == e.1
                && final(self)@ == old(self)@.remove(e.0@),
            r is None ==> final(self)@ == old(self)@,
    {
        proof {
            use_type_invariant(&*self);
        }
        self.facts();
        let mut entries: Vec<(String, V)> = Vec::new();
        std::mem::swap(&mut entries, &mut self.entries);
        let ghost before = entries@;
        let r = entries.pop();
        proof {
            if before.len() > 0 {
                let n = before.len() - 1;
                lemma_entries_map_remove(before, n);
                assert(before.remove(n) =~= entries@);
                lemma_entries_map_has(before, n);
                assert(distinct_names(entries@));
            }
        }
        self.entries = entries;
        r
    }

    /// The position of `name` among the entries, if it is there.
    pub fn position(&self, name: &str) -> (r: Option<usize>)
        ensures
            r is None <==> !self@.contains_key(name@),
            r matches Some(i) ==> i < self.entry_seq().len() && self.entry_seq()[i as int].0@
                == name@,
    {
        self.facts();
        let key = name.to_owned();
        let mut i: usize = 0;
        while i < self.entries.len()
            invariant
                key@ == name@,
                i <= self.entries.len(),
                distinct_names(self.entries@),
                forall|j: int| 0 <= j < i ==> self.entries@[j].0@ != name@,
            decreases self.entries.len() - i,
        {
            if self.entries[i].0 == key {
                proof {
                    lemma_entries_map_has(self.entries@, i as int);
                }
                return Some(i);
            }
            i = i + 1;
        }
        proof {
            if self@.contains_key(name@) {
                let j = choose|j: int| 0 <= j < self.entry_seq().len() && self.entry_seq()[j].0@
                    == name@;
                assert(self.entries@[j].0@ == name@);
            }
        }
        None
    }

    /// The name and value stored at position `i`.
    pub fn entry_at(&self, i: usize) -> (e: (&String, &V))
        requires
            i < self.entry_seq().len(),
        ensures
            *e.0 == self.entry_seq()[i as int].0,
            *e.1 == self.entry_seq()[i as int].1,
    {
        (&self.entries[i].0, &self.entries[i].1)
    }

    /// The value stored under `name`.
    pub fn get(&self, name: &str) -> (r: Option<&V>)
        ensures
            r is Some == self@.contains_key(name@),
            r matches Some(v) ==> *v == self@[name@],
    {
        self.facts();
        match self.position(name) {
            Some(i) => Some(&self.entries[i].1),
            None => None,
        }
    }

    /// Whether `name` is in the map.
    pub fn contains_key(&self, name: &str) -> (r: bool)
        ensures
            r == self@.contains_key(name@),
    {
        self.position(name).is_some()
    }

    /// Stores `value` under `name`, replacing any value stored there before.
    pub fn insert(&mut self, name: String, value: V)
        ensures
            final(self)@ == old(self)@.insert(name@, value),
    {
        proof {
            use_type_invariant(&*self);
        }
        self.facts();
        let pos = self.position(name.as_str());
        let mut entries: Vec<(String, V)> = Vec::new();
        std::mem::swap(&mut entries, &mut self.entries);
        let ghost before = entries@;
        match pos {
            Some(i) => {
                let (old_name, _old_value) = entries.remove(i);
                proof {
                    lemma_entries_map_remove(before, i as int);
                    assert(distinct_names(entries@));
                    lemma_entries_map_dom(entries@, name@);
                }
                entries.push((old_name, value));
                proof {
                    assert(entries@.drop_last() =~= before.remove(i as int));
                    assert(entries_map(entries@) =~= old(self)@.insert(name@, value));
                    assert forall|a: int, b: int| 0 <= a < b < entries@.len() implies entries@[a].0@
                        != entries@[b].0@ by {
                        if b == entries@.len() - 1 {
                            if entries@[a].0@ == name@ {
                                assert(before.remove(i as int)[a].0@ == name@);
                            }
                        }
                    }
                }
            },
            None => {
                entries.push((name, value));
                proof {
                    assert(entries@.drop_last() =~= before);
                    assert forall|a: int, b: int| 0 <= a < b < entries@.len() implies entries@[a].0@
                        != entries@[b].0@ by {
                        if b == entries@.len() - 1 {
                            if entries@[a].0@ == name@ {
                                lemma_entries_map_dom(before, name@);
                                assert(before[a].0@ == name@);
                            }
                        }
                    }
                }
            },
        }
        self.entries = entries;
    }

    /// Takes the value stored under `name` out of the map.
    pub fn remove(&mut self, name: &str) -> (r: Option<V>)
        ensures
            final(self)@ == old(self)@.remove(name@),
            r is Some == old(self)@.contains_key(name@),
            r matches Some(v) ==> v == old(self)@[name@],
    {
        proof {
            use_type_invariant(&*self);
        }
        self.facts();
        match self.position(name) {
            Some(i) => {
                let mut entries: Vec<(String, V)> = Vec::new();
                std::mem::swap(&mut entries, &mut self.entries);
                let ghost before = entries@;
                let (_n, v) = entries.remove(i);
                proof {
                    lemma_entries_map_remove(before, i as int);
                    lemma_entries_map_has(before, i as int);
                    assert(distinct_names(entries@));
                }
                self.entries = entries;
                Some(v)
            },
            None => {
                assert(old(self)@.remove(name@) =~= old(self)@);
                None
            },
        }
    }

    /// Adds every entry of `other`, its values replacing those stored under the same names.
    pub fn extend(&mut self, other: NameMap<V>)
        ensures
            final(self)@ == old(self)@.union_prefer_right(other@),
    {
        other.facts();
        let ghost want = old(self)@.union_prefer_right(other@);
        let ghost oseq = other.entry_seq();
        let mut rest = other.entries;
        // Entries are taken from the back; the ones still in `rest` come later in `other`.
        while rest.len() > 0
            invariant
                distinct_names(oseq),
                rest@ == oseq.take(rest@.len() as int),
                rest@.len() <= oseq.len(),
                want == self@.union_prefer_right(entries_map(rest@)),
            decreases rest.len(),
        {
            let ghost before_rest = rest@;
            let (k, v) = rest.pop().unwrap();
            proof {
                assert(rest@ =~= oseq.take(rest@.len() as int));
                assert(before_rest.drop_last() =~= rest@);
                let br = before_rest;
                assert(distinct_names(br));
                lemma_entries_map_dom(rest@, k@);
                assert(!entries_map(rest@).contains_key(k@)) by {
                    if entries_map(rest@).contains_key(k@) {
                        let j = choose|j: int| 0 <= j < rest@.len() && rest@[j].0@ == k@;
                        assert(br[j].0@ == br[br.len() - 1].0@);
                    }
                }
                assert(self@.union_prefer_right(entries_map(before_rest)) =~= self@.insert(
                    k@,
                    v,
                ).union_prefer_right(entries_map(rest@)));
            }
            self.insert(k, v);
        }
        assert(self@.union_prefer_right(entries_map(rest@)) =~= self@);
    }
}

proof fn lemma_entries_len<V>(s: Seq<(String, V)>)
    requires
        distinct_names(s),
    ensures
        entries_map(s).dom().finite(),
        entries_map(s).dom().len() == s.len(),
    decreases s.len(),
{
    if s.len() > 0 {
        let t = s.drop_last();
        assert(distinct_names(t));
        lemma_entries_len(t);
        lemma_entries_map_dom(t, s.last().0@);
        if entries_map(t).contains_key(s.last().0@) {
            let j = choose|j: int| 0 <= j < t.len() && t[j].0@ == s.last().0@;
            assert(s[j].0@ == s[s.len() - 1].0@);
        }
    }
}

/// Names in increasing order, each once.
pub open spec fn sorted_names(s: Seq<Seq<char>>) -> bool {
    forall|i: int, j: int| 0 <= i < j < s.len() ==> seq_lt(#[trigger] s[i], #[trigger] s[j])
}

/// Whether a name starts with `prefix`.
pub open spec fn has_prefix(prefix: Seq<char>) -> spec_fn(Seq<char>) -> bool {
    |s: Seq<char>| prefix.len() <= s.len() && s.take(prefix.len() as int) == prefix
}

/// A set of names, kept in increasing order.
pub struct NameSet {
    items: Vec<String>,
}

/// The characters of each name.
pub open spec fn name_seqs(v: Seq<String>) -> Seq<Seq<char>> {
    v.map_values(|s: String| s@)
}

impl View for NameSet {
    type V = Set<Seq<char>>;

    closed spec fn view(&self) -> Set<Seq<char>> {
        name_seqs(self.items@).to_set()
    }
}

impl NameSet {
    #[verifier::type_invariant]
    closed spec fn wf(&self) -> bool {
        sorted_names(name_seqs(self.items@))
    }

    /// The names in increasing order.
    pub closed spec fn ordered(&self) -> Seq<Seq<char>> {
        name_seqs(self.items@)
    }

    /// The set is made of the ordered names.
    pub proof fn lemma_view(&self)
        ensures
            self@ == self.ordered().to_set(),
    {
    }

    /// Facts that follow from the names being kept in increasing order.
    fn facts(&self)
        ensures
            sorted_names(self.ordered()),
            self.ordered().no_duplicates(),
            self@ == self.ordered().to_set(),
            self@.finite(),
            self@.len() == self.ordered().len(),
    {
        proof {
            use_type_invariant(self);
            lemma_sorted_no_dup(self.ordered());
            self.ordered().unique_seq_to_set();
        }
    }

    /// An empty set.
    pub fn new() -> (s: NameSet)
        ensures
            s@ == Set::<Seq<char>>::empty(),
            s.ordered() == Seq::<Seq<char>>::empty(),
    {
        let s = NameSet { items: Vec::new() };
        assert(s.ordered() =~= Seq::<Seq<char>>::empty());
        s
    }

    /// The number of names. The names are kept in increasing order, each once.
    pub fn len(&self) -> (n: usize)
        ensures
            n == self.ordered().len(),
            sorted_names(self.ordered()),
            self.ordered().no_duplicates(),
            self@ == self.ordered().to_set(),
    {
        self.facts();
        self.items.len()
    }

    /// The `i`-th name in increasing order.
    pub fn at(&self, i: usize) -> (s: &String)
        requires
            i < self.ordered().len(),
        ensures
            s@ == self.ordered()[i as int],
    {
        &self.items[i]
    }

    /// Where `name` is, or where it would go: the number of names before it.
    fn find(&self, name: &str) -> (r: (usize, bool))
        ensures
            r.0 <= self.ordered().len(),
            forall|j: int| 0 <= j < r.0 ==> seq_lt(#[trigger] self.ordered()[j], name@),
            r.1 == (r.0 < self.ordered().len() && self.ordered()[r.0 as int] == name@),
            !r.1 ==> forall|j: int| r.0 <= j < self.ordered().len() ==> seq_lt(name@, #[trigger] self.ordered()[j]),
    {
        proof {
            use_type_invariant(self);
        }
        let mut i: usize = 0;
        while i < self.items.len() && str_lt(self.items[i].as_str(), name)
            invariant
                i <= self.items.len(),
                sorted_names(self.ordered()),
                forall|j: int| 0 <= j < i ==> seq_lt(#[trigger] self.ordered()[j], name@),
            decreases self.items.len() - i,
        {
            i = i + 1;
        }
        let key = name.to_owned();
        let found = i < self.items.len() && self.items[i] == key;
        proof {
            if !found && i < self.items.len() {
                let o = self.ordered();
                assert(o[i as int] == self.items@[i as int]@);
                lemma_seq_lt_total(o[i as int], name@);
                assert forall|j: int| i <= j < o.len() implies seq_lt(name@, #[trigger] o[j]) by {
                    if j > i {
                        lemma_seq_lt_trans(name@, o[i as int], o[j]);
                    }
                }
            }
        }
        (i, found)
    }

    /// Whether `name` is in the set.
    pub fn contains(&self, name: &str) -> (r: bool)
        ensures
            r == self@.contains(name@),
    {
        self.facts();
        let (i, found) = self.find(name);
        proof {
            if !found && self@.contains(name@) {
                let o = self.ordered();
                let j = choose|j: int| 0 <= j < o.len() && o[j] == name@;
                lemma_seq_lt_irreflexive(name@);
            }
        }
        found
    }

    /// Adds `name`; returns whether it was new.
    pub fn insert(&mut self, name: String) -> (added: bool)
        ensures
            final(self)@ == old(self)@.insert(name@),
            added == !old(self)@.contains(name@),
    {
        proof {
            use_type_invariant(&*self);
        }
        self.facts();
        let (i, found) = self.find(name.as_str());
        let ghost o = self.ordered();
        if found {
            proof {
                assert(o.contains(name@));
                assert(old(self)@.insert(name@) =~= old(self)@);
            }
            return false;
        }
        proof {
            if o.contains(name@) {
                let j = choose|j: int| 0 <= j < o.len() && o[j] == name@;
                lemma_seq_lt_irreflexive(name@);
            }
        }
        let ghost nm = name@;
        let mut items: Vec<String> = Vec::new();
        std::mem::swap(&mut items, &mut self.items);
        items.insert(i, name);
        proof {
            let n = name_seqs(items@);
            assert(n =~= o.insert(i as int, nm));
            assert forall|a: int, b: int| 0 <= a < b < n.len() implies seq_lt(#[trigger] n[a], #[trigger] n[b]) by {
                if b == i {
                } else if a == i {
                    assert(n[b] == o[b - 1]);
                } else {
                    let a2 = if a < i { a } else { a - 1 };
                    let b2 = if b < i { b } else { b - 1 };
                    assert(n[a] == o[a2]);
                    assert(n[b] == o[b2]);
                }
            }
            assert forall|x: Seq<char>| n.contains(x) <==> (o.contains(x) || x == nm) by {
                if n.contains(x) {
                    let j = choose|j: int| 0 <= j < n.len() && n[j] == x;
                    if j < i {
                        assert(o[j] == x);
                    } else if j > i {
                        assert(o[j - 1] == x);
                    }
                }
                if o.contains(x) {
                    let j = choose|j: int| 0 <= j < o.len() && o[j] == x;
                    if j < i {
                        assert(n[j] == x);
                    } else {
                        assert(n[j + 1] == x);
                    }
                }
                if x == nm {
                    assert(n[i as int] == x);
                }
            }
            assert(n.to_set() =~= o.to_set().insert(nm));
        }
        self.items = items;
        true
    }

    /// The names that start with `prefix`, in increasing order.
    pub fn starting_with(&self, prefix: &str) -> (r: Vec<String>)
        ensures
            name_seqs(r@) == self.ordered().filter(has_prefix(prefix@)),
    {
        let mut r: Vec<String> = Vec::new();
        let mut i: usize = 0;
        while i < self.items.len()
            invariant
                i <= self.items.len(),
                name_seqs(r@) == self.ordered().take(i as int).filter(has_prefix(prefix@)),
            decreases self.items.len() - i,
        {
            let ghost o = self.ordered();
            assert(o.take(i + 1).drop_last() =~= o.take(i as int));
            assert(o[i as int] == self.items@[i as int]@);
            assert(o.take(i + 1).last() == o[i as int]);
            let sw = crate::text::starts_with(self.items[i].as_str(), prefix);
            proof {
                reveal_with_fuel(Seq::filter, 1);
                assert(has_prefix(prefix@)(o[i as int]) == (prefix@.len() <= o[i as int].len() && o[i as int].take(
                    prefix@.len() as int,
                ) == prefix@));
                assert(has_prefix(prefix@)(o[i as int]) == sw);
                assert(o.take(i + 1).filter(has_prefix(prefix@)) == (if has_prefix(prefix@)(o[i as int]) {
                    o.take(i as int).filter(has_prefix(prefix@)).push(o[i as int])
                } else {
                    o.take(i as int).filter(has_prefix(prefix@))
                }));
            }
            if sw {
                let ghost before = r@;
                r.push(self.items[i].clone());
                assert(name_seqs(r@) =~= name_seqs(before).push(self.items@[i as int]@));
            }
            i = i + 1;
        }
        assert(self.ordered().take(i as int) =~= self.ordered());
        r
    }
}

proof fn lemma_sorted_no_dup(s: Seq<Seq<char>>)
    requires
        sorted_names(s),
    ensures
        s.no_duplicates(),
{
    assert forall|i: int, j: int| 0 <= i < s.len() && 0 <= j < s.len() && i != j implies s[i] != s[j] by {
        if i < j {
            assert(seq_lt(s[i], s[j]));
            if s[i] == s[j] {
                lemma_seq_lt_irreflexive(s[i]);
            }
        } else {
            assert(seq_lt(s[j], s[i]));
            if s[i] == s[j] {
                lemma_seq_lt_irreflexive(s[i]);
            }
        }
    }
}

/// A read gives back what the last write wrote under that name, and
/// writing under one name leaves every other name as it was.
pub proof fn law_read_after_write<V>(m: Map<Seq<char>, V>, name: Seq<char>, value: V, other: Seq<char>)
    requires
        other != name,
    ensures
        m.insert(name, value).contains_key(name),
        m.insert(name, value)[name] == value,
        m.insert(name, value).contains_key(other) == m.contains_key(other),
        m.contains_key(other) ==> m.insert(name, value)[other] == m[other],
        !m.remove(name).contains_key(name),
{
}

/// Adding a name to a set twice is the same as adding it once.
pub proof fn law_insert_idempotent(s: Set<Seq<char>>, name: Seq<char>)
    ensures
        s.insert(name).insert(name) == s.insert(name),
        s.insert(name).contains(name),
{
    assert(s.insert(name).insert(name) =~= s.insert(name));
}

} // verus!
