//! The result of a transmutation: selector name to a set of spell strings.

use vstd::prelude::*;

verus! {

/// The texts of a list of strings, as a set.
pub open spec fn text_set(v: Seq<String>) -> Set<Seq<char>> {
    Set::new(|t: Seq<char>| exists|j: int| 0 <= j < v.len() && v[j]@ == t)
}

/// No two strings of the list hold the same text.
pub open spec fn texts_distinct(v: Seq<String>) -> bool {
    forall|a: int, b: int| 0 <= a < b < v.len() ==> v[a]@ != v[b]@
}

/// Union of two spell maps: keys of either side; where both have a key, the
/// union of their sets.
pub open spec fn merged(
    a: Map<Seq<char>, Set<Seq<char>>>,
    b: Map<Seq<char>, Set<Seq<char>>>,
) -> Map<Seq<char>, Set<Seq<char>>> {
    Map::new(
        |k: Seq<char>| a.contains_key(k) || b.contains_key(k),
        |k: Seq<char>|
            if a.contains_key(k) && b.contains_key(k) {
                a[k].union(b[k])
            } else if a.contains_key(k) {
                a[k]
            } else {
                b[k]
            },
    )
}

/// One selector name with its spells.
pub struct SpellEntry {
    pub name: String,
    pub spells: Vec<String>,
}

impl SpellEntry {
    pub open spec fn spell_set(&self) -> Set<Seq<char>> {
        text_set(self.spells@)
    }
}

/// Selector names with their spell sets; a name appears once, and a spell
/// appears once under its name.
pub struct SpellMap {
    pub entries: Vec<SpellEntry>,
}

/// Well-formed entries: names distinct, and no spell twice under a name.
pub open spec fn entries_wf(es: Seq<SpellEntry>) -> bool {
    &&& forall|i: int, j: int| 0 <= i < j < es.len() ==> es[i].name@ != es[j].name@
    &&& forall|i: int| 0 <= i < es.len() ==> texts_distinct(#[trigger] es[i].spells@)
}

/// Some entry of `es` is named `k`.
pub open spec fn names_has(es: Seq<SpellEntry>, k: Seq<char>) -> bool {
    exists|i: int| 0 <= i < es.len() && es[i].name@ == k
}

/// The map that a list of entries stands for.
pub open spec fn entries_view(es: Seq<SpellEntry>) -> Map<Seq<char>, Set<Seq<char>>> {
    Map::new(
        |k: Seq<char>| names_has(es, k),
        |k: Seq<char>| es[choose|i: int| 0 <= i < es.len() && es[i].name@ == k].spell_set(),
    )
}

impl SpellMap {
    pub open spec fn wf(&self) -> bool {
        entries_wf(self.entries@)
    }
}

impl View for SpellMap {
    type V = Map<Seq<char>, Set<Seq<char>>>;

    open spec fn view(&self) -> Map<Seq<char>, Set<Seq<char>>> {
        entries_view(self.entries@)
    }
}

/// In well-formed entries, the entry at `i` is what its name maps to.
pub proof fn lemma_entry_in_view(es: Seq<SpellEntry>, i: int)
    requires
        entries_wf(es),
        0 <= i < es.len(),
    ensures
        entries_view(es).contains_key(es[i].name@),
        entries_view(es)[es[i].name@] == es[i].spell_set(),
{
    let k = es[i].name@;
    assert(names_has(es, k));
    let c = choose|c: int| 0 <= c < es.len() && es[c].name@ == k;
    assert(c == i);
}

/// Taking one more entry of a well-formed list merges that entry in.
proof fn lemma_entries_view_step(es: Seq<SpellEntry>, k: int)
    requires
        entries_wf(es),
        0 <= k < es.len(),
    ensures
        entries_view(es.subrange(0, k + 1)) == merged(
            entries_view(es.subrange(0, k)),
            map![es[k].name@ => es[k].spell_set()],
        ),
{
    let p = es.subrange(0, k);
    let q = es.subrange(0, k + 1);
    let n = es[k].name@;
    assert(entries_wf(p));
    assert(entries_wf(q));
    let r = merged(entries_view(p), map![n => es[k].spell_set()]);
    assert(!names_has(p, n)) by {
        if names_has(p, n) {
            let c = choose|c: int| 0 <= c < p.len() && p[c].name@ == n;
            assert(es[c].name@ == es[k].name@);
        }
    }
    assert forall|key: Seq<char>| #[trigger] entries_view(q).contains_key(key) == r.contains_key(key) by {
        if names_has(q, key) {
            let c = choose|c: int| 0 <= c < q.len() && q[c].name@ == key;
            if c < k {
                assert(p[c].name@ == key);
            }
        }
        if names_has(p, key) {
            let c = choose|c: int| 0 <= c < p.len() && p[c].name@ == key;
            assert(q[c].name@ == key);
        }
        if key == n {
            assert(q[k].name@ == key);
        }
    }
    assert forall|key: Seq<char>| #[trigger] entries_view(q).contains_key(key) implies entries_view(q)[key] == r[key] by {
        let c = choose|c: int| 0 <= c < q.len() && q[c].name@ == key;
        lemma_entry_in_view(q, c);
        if c < k {
            assert(p[c] == q[c]);
            lemma_entry_in_view(p, c);
        }
    }
    assert(entries_view(q) =~= r);
}

/// Merging with the empty map changes nothing.
pub proof fn lemma_merge_empty(a: Map<Seq<char>, Set<Seq<char>>>)
    ensures
        merged(a, Map::empty()) == a,
{
    assert(merged(a, Map::empty()) =~= a);
}

/// Two one-key maps with the same key merge into one with the union.
pub proof fn lemma_merge_same_key(n: Seq<char>, x: Set<Seq<char>>, y: Set<Seq<char>>)
    ensures
        merged(map![n => x], map![n => y]) == map![n => x.union(y)],
{
    assert(merged(map![n => x], map![n => y]) =~= map![n => x.union(y)]);
}

/// One more string adds its text to the set of texts.
proof fn lemma_text_set_push(v: Seq<String>, j: int)
    requires
        0 <= j < v.len(),
    ensures
        text_set(v.subrange(0, j + 1)) == text_set(v.subrange(0, j)).union(set![v[j]@]),
{
    let a = v.subrange(0, j + 1);
    let b = v.subrange(0, j);
    assert forall|t: Seq<char>| #[trigger] text_set(a).contains(t) == text_set(b).union(set![v[j]@]).contains(t) by {
        if text_set(a).contains(t) {
            let w = choose|w: int| 0 <= w < a.len() && a[w]@ == t;
            if w < j {
                assert(b[w]@ == t);
            }
        }
        if text_set(b).contains(t) {
            let w = choose|w: int| 0 <= w < b.len() && b[w]@ == t;
            assert(a[w]@ == t);
        }
        if t == v[j]@ {
            assert(a[j]@ == t);
        }
    }
    assert(text_set(a) =~= text_set(b).union(set![v[j]@]));
}

/// Merging is commutative.
pub proof fn lemma_merge_commutative(a: Map<Seq<char>, Set<Seq<char>>>, b: Map<Seq<char>, Set<Seq<char>>>)
    ensures
        merged(a, b) == merged(b, a),
{
    assert forall|k: Seq<char>| #[trigger] merged(a, b).contains_key(k) implies merged(a, b)[k] == merged(b, a)[k] by {
        if a.contains_key(k) && b.contains_key(k) {
            assert(a[k].union(b[k]) =~= b[k].union(a[k]));
        }
    }
    assert(merged(a, b) =~= merged(b, a));
}

/// Merging a map with itself gives the map back.
pub proof fn lemma_merge_idempotent(a: Map<Seq<char>, Set<Seq<char>>>)
    ensures
        merged(a, a) == a,
{
    assert forall|k: Seq<char>| #[trigger] merged(a, a).contains_key(k) implies merged(a, a)[k] == a[k] by {
        assert(a[k].union(a[k]) =~= a[k]);
    }
    assert(merged(a, a) =~= a);
}

/// Merging is associative.
pub proof fn lemma_merge_associative(
    a: Map<Seq<char>, Set<Seq<char>>>,
    b: Map<Seq<char>, Set<Seq<char>>>,
    c: Map<Seq<char>, Set<Seq<char>>>,
)
    ensures
        merged(merged(a, b), c) == merged(a, merged(b, c)),
{
    let l = merged(merged(a, b), c);
    let r = merged(a, merged(b, c));
    assert forall|k: Seq<char>| #[trigger] l.contains_key(k) implies l[k] == r[k] by {
        if a.contains_key(k) && b.contains_key(k) && c.contains_key(k) {
            assert(a[k].union(b[k]).union(c[k]) =~= a[k].union(b[k].union(c[k])));
        }
    }
    assert(l =~= r);
}

impl SpellMap {
    /// An empty map.
    pub fn new() -> (r: SpellMap)
        ensures
            r.wf(),
            r@ == Map::<Seq<char>, Set<Seq<char>>>::empty(),
    {
        let r = SpellMap { entries: Vec::new() };
        assert(r@ =~= Map::<Seq<char>, Set<Seq<char>>>::empty());
        r
    }

    /// Position of the entry named `name`, if there is one.
    pub fn find(&self, name: &String) -> (r: Option<usize>)
        ensures
            r matches Some(i) ==> i < self.entries.len() && self.entries@[i as int].name@ == name@,
            r is None ==> !self@.contains_key(name@),
    {
        let mut i: usize = 0;
        while i < self.entries.len()
            invariant
                i <= self.entries.len(),
                forall|j: int| 0 <= j < i ==> self.entries@[j].name@ != name@,
            decreases self.entries.len() - i,
        {
            if self.entries[i].name == *name {
                return Some(i);
            }
            i += 1;
        }
        None
    }

    /// Adds `spell` under `name`, creating the entry where there is none.
    pub fn insert_spell(&mut self, name: &String, spell: &String)
        requires
            old(self).wf(),
        ensures
            final(self).wf(),
            final(self)@ == merged(old(self)@, map![name@ => set![spell@]]),
    {
        let ghost old_map = self@;
        match self.find(name) {
            Some(i) => {
                let mut e = self.entries.remove(i);
                proof {
                    assert(texts_distinct(e.spells@)) by {
                        assert(old(self).entries@[i as int] == e);
                    }
                }
                let mut j: usize = 0;
                let mut found = false;
                while j < e.spells.len()
                    invariant
                        j <= e.spells.len(),
                        !found ==> forall|t: int| 0 <= t < j ==> e.spells@[t]@ != spell@,
                        found ==> exists|t: int| 0 <= t < e.spells.len() && e.spells@[t]@ == spell@,
                    decreases e.spells.len() - j,
                {
                    if e.spells[j] == *spell {
                        found = true;
                    }
                    j += 1;
                }
                let ghost before = e.spells@;
                if !found {
                    e.spells.push(spell.clone());
                }
                proof {
                    assert(texts_distinct(e.spells@));
                    let old_set = old(self).entries@[i as int].spell_set();
                    assert(old_set == text_set(before));
                    assert forall|t: Seq<char>| #[trigger] e.spell_set().contains(t) == old_set.insert(spell@).contains(t) by {
                        if old_set.contains(t) {
                            let w = choose|w: int| 0 <= w < before.len() && before[w]@ == t;
                            assert(e.spells@[w]@ == t);
                        }
                        if t == spell@ && !found {
                            assert(e.spells@[before.len() as int]@ == t);
                        }
                        if e.spell_set().contains(t) {
                            let w = choose|w: int| 0 <= w < e.spells@.len() && e.spells@[w]@ == t;
                            if w < before.len() {
                                assert(before[w]@ == t);
                            }
                        }
                    }
                    assert(e.spell_set() =~= old_set.insert(spell@));
                    assert(old_set.insert(spell@) =~= old_set.union(set![spell@]));
                }
                self.entries.insert(i, e);
                proof {
                    assert(self.entries@ =~= old(self).entries@.update(i as int, e));
                    lemma_entry_in_view(old(self).entries@, i as int);
                    lemma_entry_in_view(self.entries@, i as int);
                    assert forall|k: Seq<char>| #[trigger] self@.contains_key(k) == old_map.contains_key(k) by {
                        if names_has(old(self).entries@, k) {
                            let c = choose|c: int| 0 <= c < old(self).entries@.len() && old(self).entries@[c].name@ == k;
                            assert(self.entries@[c].name@ == k);
                        }
                        if names_has(self.entries@, k) {
                            let c = choose|c: int| 0 <= c < self.entries@.len() && self.entries@[c].name@ == k;
                            assert(old(self).entries@[c].name@ == k);
                        }
                    }
                    assert forall|k: Seq<char>| #[trigger] self@.contains_key(k) && k != name@ implies self@[k] == old_map[k] by {
                        let c = choose|c: int| 0 <= c < self.entries@.len() && self.entries@[c].name@ == k;
                        assert(c != i);
                        lemma_entry_in_view(self.entries@, c);
                        lemma_entry_in_view(old(self).entries@, c);
                    }
                    assert(self@ =~= merged(old_map, map![name@ => set![spell@]]));
                }
            },
            None => {
                let mut spells = Vec::new();
                spells.push(spell.clone());
                let e = SpellEntry { name: name.clone(), spells };
                self.entries.push(e);
                proof {
                    let n = old(self).entries.len() as int;
                    assert(self.entries@ =~= old(self).entries@.push(e));
                    assert(e.spell_set() =~= set![spell@]) by {
                        assert(e.spells@[0]@ == spell@);
                    }
                    lemma_entry_in_view(self.entries@, n);
                    assert forall|k: Seq<char>| #[trigger] self@.contains_key(k) && k != name@ implies
                        old_map.contains_key(k) && self@[k] == old_map[k] by {
                        let c = choose|c: int| 0 <= c < self.entries@.len() && self.entries@[c].name@ == k;
                        assert(c != n);
                        lemma_entry_in_view(self.entries@, c);
                        lemma_entry_in_view(old(self).entries@, c);
                    }
                    assert forall|k: Seq<char>| #[trigger] old_map.contains_key(k) implies self@.contains_key(k) by {
                        let c = choose|c: int| 0 <= c < old(self).entries@.len() && old(self).entries@[c].name@ == k;
                        assert(self.entries@[c].name@ == k);
                    }
                    assert(self@ =~= merged(old_map, map![name@ => set![spell@]]));
                }
            },
        }
    }
}

impl SpellMap {
    /// Makes sure an entry named `name` exists, keeping its spells if it did.
    pub fn insert_name(&mut self, name: &String)
        requires
            old(self).wf(),
        ensures
            final(self).wf(),
            final(self)@ == merged(old(self)@, map![name@ => Set::<Seq<char>>::empty()]),
    {
        let ghost old_map = self@;
        match self.find(name) {
            Some(i) => {
                proof {
                    lemma_entry_in_view(self.entries@, i as int);
                    assert(old_map[name@].union(Set::empty()) =~= old_map[name@]);
                    assert(old_map =~= merged(old_map, map![name@ => Set::<Seq<char>>::empty()]));
                }
            },
            None => {
                let e = SpellEntry { name: name.clone(), spells: Vec::new() };
                self.entries.push(e);
                proof {
                    let n = old(self).entries.len() as int;
                    assert(self.entries@ =~= old(self).entries@.push(e));
                    assert(e.spell_set() =~= Set::<Seq<char>>::empty());
                    lemma_entry_in_view(self.entries@, n);
                    assert forall|k: Seq<char>| #[trigger] self@.contains_key(k) && k != name@ implies
                        old_map.contains_key(k) && self@[k] == old_map[k] by {
                        let c = choose|c: int| 0 <= c < self.entries@.len() && self.entries@[c].name@ == k;
                        assert(c != n);
                        lemma_entry_in_view(self.entries@, c);
                        lemma_entry_in_view(old(self).entries@, c);
                    }
                    assert forall|k: Seq<char>| #[trigger] old_map.contains_key(k) implies self@.contains_key(k) by {
                        let c = choose|c: int| 0 <= c < old(self).entries@.len() && old(self).entries@[c].name@ == k;
                        assert(self.entries@[c].name@ == k);
                    }
                    assert(self@ =~= merged(old_map, map![name@ => Set::<Seq<char>>::empty()]));
                }
            },
        }
    }

    /// Replaces what `name` maps to by the texts of `spells`.
    pub fn insert(&mut self, name: String, spells: Vec<String>)
        requires
            old(self).wf(),
        ensures
            final(self).wf(),
            final(self)@ == old(self)@.insert(name@, text_set(spells@)),
    {
        let ghost old_map = self@;
        match self.find(&name) {
            Some(i) => {
                self.entries.remove(i);
                proof {
                    assert forall|k: Seq<char>| #[trigger] self@.contains_key(k) == (old_map.contains_key(k) && k != name@) by {
                        if names_has(old(self).entries@, k) {
                            let c = choose|c: int| 0 <= c < old(self).entries@.len() && old(self).entries@[c].name@ == k;
                            if c < i {
                                assert(self.entries@[c].name@ == k);
                            } else if c > i {
                                assert(self.entries@[c - 1].name@ == k);
                            }
                        }
                        if names_has(self.entries@, k) {
                            let c = choose|c: int| 0 <= c < self.entries@.len() && self.entries@[c].name@ == k;
                            if c < i {
                                assert(old(self).entries@[c].name@ == k);
                            } else {
                                assert(old(self).entries@[c + 1].name@ == k);
                            }
                        }
                    }
                    assert forall|k: Seq<char>| #[trigger] self@.contains_key(k) implies self@[k] == old_map[k] by {
                        let c = choose|c: int| 0 <= c < self.entries@.len() && self.entries@[c].name@ == k;
                        lemma_entry_in_view(self.entries@, c);
                        if c < i {
                            lemma_entry_in_view(old(self).entries@, c);
                        } else {
                            lemma_entry_in_view(old(self).entries@, c + 1);
                        }
                    }
                    assert(self@ =~= old_map.remove(name@));
                }
            },
            None => {
                proof {
                    assert(old_map =~= old_map.remove(name@));
                }
            },
        }
        let ghost base = self@;
        let n = spells.len();
        let mut distinct: Vec<String> = Vec::new();
        let mut j: usize = 0;
        while j < n
            invariant
                n == spells.len(),
                j <= n,
                texts_distinct(distinct@),
                text_set(distinct@) == text_set(spells@.subrange(0, j as int)),
            decreases n - j,
        {
            let mut t: usize = 0;
            let mut seen = false;
            while t < distinct.len()
                invariant
                    n == spells.len(),
                    j < n,
                    texts_distinct(distinct@),
                    text_set(distinct@) == text_set(spells@.subrange(0, j as int)),
                    t <= distinct.len(),
                    !seen ==> forall|u: int| 0 <= u < t ==> distinct@[u]@ != spells@[j as int]@,
                    seen ==> text_set(distinct@).contains(spells@[j as int]@),
                decreases distinct.len() - t,
            {
                if distinct[t] == spells[j] {
                    seen = true;
                }
                t += 1;
            }
            proof {
                lemma_text_set_push(spells@, j as int);
            }
            if !seen {
                let ghost before = distinct@;
                distinct.push(spells[j].clone());
                proof {
                    assert(distinct@ == before.push(spells@[j as int]));
                    assert forall|x: Seq<char>| #[trigger] text_set(distinct@).contains(x) == text_set(before).union(set![spells@[j as int]@]).contains(x) by {
                        if text_set(distinct@).contains(x) {
                            let w = choose|w: int| 0 <= w < distinct@.len() && distinct@[w]@ == x;
                            if w < before.len() {
                                assert(before[w]@ == x);
                            }
                        }
                        if text_set(before).contains(x) {
                            let w = choose|w: int| 0 <= w < before.len() && before[w]@ == x;
                            assert(distinct@[w]@ == x);
                        }
                        if x == spells@[j as int]@ {
                            assert(distinct@[before.len() as int]@ == x);
                        }
                    }
                    assert(text_set(distinct@) =~= text_set(before).union(set![spells@[j as int]@]));
                }
            } else {
                proof {
                    assert(text_set(distinct@) =~= text_set(distinct@).union(set![spells@[j as int]@]));
                }
            }
            j += 1;
        }
        proof {
            assert(spells@.subrange(0, n as int) =~= spells@);
        }
        let e = SpellEntry { name, spells: distinct };
        let ghost before_entries = self.entries@;
        self.entries.push(e);
        proof {
            let m = before_entries.len() as int;
            assert(!base.contains_key(name@));
            assert(self.entries@ =~= before_entries.push(e));
            lemma_entry_in_view(self.entries@, m);
            assert forall|k: Seq<char>| #[trigger] self@.contains_key(k) && k != name@ implies
                base.contains_key(k) && self@[k] == base[k] by {
                let c = choose|c: int| 0 <= c < self.entries@.len() && self.entries@[c].name@ == k;
                assert(c != m);
                lemma_entry_in_view(self.entries@, c);
                lemma_entry_in_view(before_entries, c);
            }
            assert forall|k: Seq<char>| #[trigger] base.contains_key(k) implies self@.contains_key(k) by {
                let c = choose|c: int| 0 <= c < before_entries.len() && before_entries[c].name@ == k;
                assert(self.entries@[c].name@ == k);
            }
            assert(self@ =~= old_map.insert(name@, text_set(spells@)));
        }
    }

    /// The spells under `name`, if it is there.
    pub fn get(&self, name: &str) -> (r: Option<&Vec<String>>)
        requires
            self.wf(),
        ensures
            r is Some == self@.contains_key(name@),
            r matches Some(v) ==> text_set(v@) == self@[name@] && texts_distinct(v@),
    {
        let key = String::from_str(name);
        match self.find(&key) {
            Some(i) => {
                proof {
                    lemma_entry_in_view(self.entries@, i as int);
                }
                Some(&self.entries[i].spells)
            },
            None => None,
        }
    }
}

/// Merges `map2` into `map1`: names of either map, and where both hold a
/// name, the union of their spells.
pub fn merge_maps(map1: &mut SpellMap, map2: SpellMap)
    requires
        old(map1).wf(),
        map2.wf(),
    ensures
        final(map1).wf(),
        final(map1)@ == merged(old(map1)@, map2@),
{
    let ghost first = map1@;
    let es = &map2.entries;
    let ghost ess = es@;
    proof {
        assert(ess.subrange(0, 0) =~= Seq::<SpellEntry>::empty());
        assert(entries_view(ess.subrange(0, 0)) =~= Map::empty());
        lemma_merge_empty(first);
    }
    let mut k: usize = 0;
    while k < es.len()
        invariant
            ess == es@,
            entries_wf(ess),
            k <= es.len(),
            map1.wf(),
            map1@ == merged(first, entries_view(ess.subrange(0, k as int))),
        decreases es.len() - k,
    {
        let name = &es[k].name;
        let spells = &es[k].spells;
        let ghost done = entries_view(ess.subrange(0, k as int));
        let ghost before = map1@;
        map1.insert_name(name);
        proof {
            lemma_merge_associative(first, done, map![name@ => Set::<Seq<char>>::empty()]);
            assert(spells@.subrange(0, 0) =~= Seq::<String>::empty());
            assert(text_set(spells@.subrange(0, 0)) =~= Set::<Seq<char>>::empty());
        }
        let mut j: usize = 0;
        while j < spells.len()
            invariant
                ess == es@,
                entries_wf(ess),
                k < es.len(),
                name == &es[k as int].name,
                spells == &es[k as int].spells,
                j <= spells.len(),
                map1.wf(),
                done == entries_view(ess.subrange(0, k as int)),
                map1@ == merged(first, merged(done, map![name@ => text_set(spells@.subrange(0, j as int))])),
            decreases spells.len() - j,
        {
            let ghost t = text_set(spells@.subrange(0, j as int));
            map1.insert_spell(name, &spells[j]);
            proof {
                let s1 = map![name@ => set![spells@[j as int]@]];
                lemma_merge_associative(first, merged(done, map![name@ => t]), s1);
                lemma_merge_associative(done, map![name@ => t], s1);
                lemma_merge_same_key(name@, t, set![spells@[j as int]@]);
                lemma_text_set_push(spells@, j as int);
            }
            j += 1;
        }
        proof {
            assert(spells@.subrange(0, spells@.len() as int) =~= spells@);
            lemma_entries_view_step(ess, k as int);
        }
        k += 1;
    }
    proof {
        assert(ess.subrange(0, ess.len() as int) =~= ess);
    }
}

} // verus!
