//! The stored `modifier-remap` option: a JSON object keyed by lowercased peer
//! OS, each entry a table from slot names to slot names.
//!
//! Parsing never fails: anything unparseable yields fewer entries, and a
//! missing entry (or slot) means identity. Writing one OS entry merges it into
//! the stored text; an identity map removes the entry, and an option with no
//! entry left collapses to the empty string.
use crate::json_text::{
    distinct_keys, json_tables_of, json_text_of, parse_json_tables, table_read_back,
    tables_read_back, write_json_tables, keys_distinct_at_both_levels,
};
use crate::modifier_remap::{
    law_slot_names_round_trip, slot_from_name, slot_index, slot_name, spec_swap_ctrl_cmd, str_equal, swap_ctrl_cmd_map,
    ModifierMap, Slot,
};
use vstd::prelude::*;

verus! {

/// Whether every character is ASCII.
pub open spec fn seq_is_ascii(s: Seq<char>) -> bool {
    forall|i: int| 0 <= i < s.len() ==> (#[trigger] s[i] as u32) < 128
}

/// ASCII lowercasing: `A`..=`Z` become `a`..=`z`, everything else is kept.
pub open spec fn ascii_lower(s: Seq<char>) -> Seq<char> {
    s.map_values(|c: char| if 'A' <= c <= 'Z' { ((c as u32) + 32) as char } else { c })
}

/// The Unicode lowercase of a string that is not all ASCII, as
/// `str::to_lowercase` computes it.
pub uninterp spec fn unicode_lowercase(s: Seq<char>) -> Seq<char>;

/// The lowercase of a string, as `str::to_lowercase` computes it.
pub open spec fn lowercase(s: Seq<char>) -> Seq<char> {
    if seq_is_ascii(s) {
        ascii_lower(s)
    } else {
        unicode_lowercase(s)
    }
}

/// `str::to_lowercase`. Claimed of std: an all-ASCII string is lowercased
/// letter by letter (`A`..=`Z` to `a`..=`z`, other characters kept); any
/// other string gives the name `unicode_lowercase` of it.
#[verifier::external_body]
fn to_lowercase(s: &str) -> (r: String)
    ensures
        seq_is_ascii(s@) ==> r@ == ascii_lower(s@),
        !seq_is_ascii(s@) ==> r@ == unicode_lowercase(s@),
{
    s.to_lowercase()
}

/// Lowercasing an all-ASCII string twice is lowercasing it once.
pub proof fn lemma_lowercase_ascii_idempotent(s: Seq<char>)
    requires
        seq_is_ascii(s),
    ensures
        seq_is_ascii(lowercase(s)),
        lowercase(lowercase(s)) == lowercase(s),
{
    let l = ascii_lower(s);
    assert forall|i: int| 0 <= i < l.len() implies (#[trigger] l[i] as u32) < 128 by {
        assert((s[i] as u32) < 128);
    }
    assert(ascii_lower(l) =~= l);
}

/// The map a sequence of entries denotes: later entries win.
pub open spec fn entries_map<V>(s: Seq<(Seq<char>, V)>) -> Map<Seq<char>, V>
    decreases s.len(),
{
    if s.len() == 0 {
        Map::empty()
    } else {
        entries_map(s.drop_last()).insert(s.last().0, s.last().1)
    }
}

proof fn lemma_distinct_drop_last<V>(s: Seq<(Seq<char>, V)>)
    requires
        distinct_keys(s),
        s.len() > 0,
    ensures
        distinct_keys(s.drop_last()),
{
    let t = s.drop_last();
    assert forall|i: int, j: int| 0 <= i < t.len() && 0 <= j < t.len() && i != j implies t[i].0
        != t[j].0 by {
        assert(t[i] == s[i] && t[j] == s[j]);
    }
}

/// With distinct keys, the map holds exactly the entries.
proof fn lemma_entries_map<V>(s: Seq<(Seq<char>, V)>)
    requires
        distinct_keys(s),
    ensures
        forall|k: Seq<char>| #[trigger]
            entries_map(s).dom().contains(k) <==> exists|i: int| 0 <= i < s.len() && s[i].0 == k,
        forall|i: int| 0 <= i < s.len() ==> entries_map(s)[#[trigger] s[i].0] == s[i].1,
        entries_map(s).dom().finite(),
        entries_map(s).dom().len() == s.len(),
    decreases s.len(),
{
    if s.len() > 0 {
        let t = s.drop_last();
        lemma_distinct_drop_last(s);
        lemma_entries_map(t);
        let last = s.last();
        assert forall|k: Seq<char>| #[trigger]
            entries_map(s).dom().contains(k) <==> exists|i: int| 0 <= i < s.len() && s[i].0 == k by {
            if entries_map(s).dom().contains(k) && k != last.0 {
                let i = choose|i: int| 0 <= i < t.len() && t[i].0 == k;
                assert(s[i] == t[i]);
            }
            if exists|i: int| 0 <= i < s.len() && s[i].0 == k {
                let i = choose|i: int| 0 <= i < s.len() && s[i].0 == k;
                if i < s.len() - 1 {
                    assert(t[i] == s[i]);
                }
            }
        }
        assert forall|i: int| 0 <= i < s.len() implies entries_map(s)[#[trigger] s[i].0]
            == s[i].1 by {
            if i < s.len() - 1 {
                assert(t[i] == s[i]);
                assert(s[i].0 != last.0);
            }
        }
        assert(!entries_map(t).dom().contains(last.0)) by {
            if entries_map(t).dom().contains(last.0) {
                let i = choose|i: int| 0 <= i < t.len() && t[i].0 == last.0;
                assert(s[i] == t[i]);
                assert(s[i].0 == s[s.len() - 1].0);
            }
        }
    }
}

/// The entries after storing `v` under `k`: the first entry with key `k`
/// gets the new value in place, or the entry is appended when there is none.
pub open spec fn put_entry<V>(s: Seq<(Seq<char>, V)>, k: Seq<char>, v: V) -> Seq<(Seq<char>, V)>
    decreases s.len(),
{
    if s.len() == 0 {
        seq![(k, v)]
    } else if s[0].0 == k {
        s.update(0, (k, v))
    } else {
        seq![s[0]] + put_entry(s.drop_first(), k, v)
    }
}

/// The entries after dropping the first entry with key `k`, if any.
pub open spec fn drop_entry<V>(s: Seq<(Seq<char>, V)>, k: Seq<char>) -> Seq<(Seq<char>, V)>
    decreases s.len(),
{
    if s.len() == 0 {
        s
    } else if s[0].0 == k {
        s.drop_first()
    } else {
        seq![s[0]] + drop_entry(s.drop_first(), k)
    }
}

proof fn lemma_put_entry<V>(s: Seq<(Seq<char>, V)>, k: Seq<char>, v: V, i: int)
    requires
        0 <= i <= s.len(),
        forall|j: int| 0 <= j < i ==> s[j].0 != k,
        i < s.len() ==> s[i].0 == k,
    ensures
        put_entry(s, k, v) == (if i < s.len() {
            s.update(i, (k, v))
        } else {
            s.push((k, v))
        }),
    decreases s.len(),
{
    if s.len() > 0 && i > 0 {
        let t = s.drop_first();
        assert forall|j: int| 0 <= j < i - 1 implies t[j].0 != k by {
            assert(t[j] == s[j + 1]);
        }
        if i < s.len() {
            assert(t[i - 1] == s[i]);
        }
        lemma_put_entry(t, k, v, i - 1);
        if i < s.len() {
            assert(seq![s[0]] + t.update(i - 1, (k, v)) =~= s.update(i, (k, v)));
        } else {
            assert(seq![s[0]] + t.push((k, v)) =~= s.push((k, v)));
        }
    } else if s.len() == 0 {
        assert(seq![(k, v)] =~= s.push((k, v)));
    }
}

proof fn lemma_drop_entry<V>(s: Seq<(Seq<char>, V)>, k: Seq<char>, i: int)
    requires
        0 <= i <= s.len(),
        forall|j: int| 0 <= j < i ==> s[j].0 != k,
        i < s.len() ==> s[i].0 == k,
    ensures
        drop_entry(s, k) == (if i < s.len() {
            s.remove(i)
        } else {
            s
        }),
    decreases s.len(),
{
    if s.len() > 0 && i > 0 {
        let t = s.drop_first();
        assert forall|j: int| 0 <= j < i - 1 implies t[j].0 != k by {
            assert(t[j] == s[j + 1]);
        }
        if i < s.len() {
            assert(t[i - 1] == s[i]);
        }
        lemma_drop_entry(t, k, i - 1);
        if i < s.len() {
            assert(seq![s[0]] + t.remove(i - 1) =~= s.remove(i));
        } else {
            assert(seq![s[0]] + t =~= s);
        }
    } else if s.len() > 0 {
        assert(s.drop_first() =~= s.remove(0));
    }
}

/// OS name to modifier map, as parsed from the stored option.
pub struct ModifierMaps {
    entries: Vec<(String, ModifierMap)>,
}

impl ModifierMaps {
    /// The entries as plain values.
    pub closed spec fn pairs(self) -> Seq<(Seq<char>, ModifierMap)> {
        Seq::new(self.entries@.len(), |i: int| (self.entries@[i].0@, self.entries@[i].1))
    }

    /// No OS name occurs twice.
    pub closed spec fn wf(self) -> bool {
        distinct_keys(self.pairs())
    }

    /// The maps by OS name.
    pub closed spec fn view(self) -> Map<Seq<char>, ModifierMap> {
        entries_map(self.pairs())
    }

    /// No maps.
    pub fn new() -> (r: Self)
        ensures
            r.wf(),
            r.view() == Map::<Seq<char>, ModifierMap>::empty(),
            r.pairs() == Seq::<(Seq<char>, ModifierMap)>::empty(),
    {
        let r = ModifierMaps { entries: Vec::new() };
        assert(r.pairs() =~= Seq::<(Seq<char>, ModifierMap)>::empty());
        r
    }

    fn position(&self, key: &str) -> (r: Option<usize>)
        requires
            self.wf(),
        ensures
            r matches Some(i) ==> i < self.entries@.len() && self.pairs()[i as int].0 == key@,
            r matches Some(i) ==> forall|j: int| 0 <= j < i ==> self.pairs()[j].0 != key@,
            r is None ==> forall|j: int| 0 <= j < self.pairs().len() ==> self.pairs()[j].0 != key@,
            r is None <==> !self.view().dom().contains(key@),
    {
        proof {
            lemma_entries_map(self.pairs());
        }
        let mut i: usize = 0;
        while i < self.entries.len()
            invariant
                self.wf(),
                i <= self.entries@.len(),
                forall|j: int| 0 <= j < i ==> self.pairs()[j].0 != key@,
            decreases self.entries@.len() - i,
        {
            if str_equal(self.entries[i].0.as_str(), key) {
                proof {
                    lemma_entries_map(self.pairs());
                    assert(self.pairs()[i as int].0 == key@);
                }
                return Some(i);
            }
            i = i + 1;
        }
        None
    }

    /// The number of OS entries.
    pub fn len(&self) -> (r: usize)
        requires
            self.wf(),
        ensures
            r == self.view().len(),
    {
        proof {
            lemma_entries_map(self.pairs());
        }
        self.entries.len()
    }

    /// Whether there is no OS entry.
    pub fn is_empty(&self) -> (r: bool)
        requires
            self.wf(),
        ensures
            r == (self.view().len() == 0),
    {
        proof {
            lemma_entries_map(self.pairs());
        }
        self.entries.len() == 0
    }

    /// The map stored for an OS, if any.
    pub fn get(&self, key: &str) -> (r: Option<&ModifierMap>)
        requires
            self.wf(),
        ensures
            r is Some <==> self.view().dom().contains(key@),
            r matches Some(m) ==> *m == self.view()[key@],
    {
        proof {
            lemma_entries_map(self.pairs());
        }
        match self.position(key) {
            Some(i) => Some(&self.entries[i].1),
            None => None,
        }
    }

    /// Whether an OS has a stored map.
    pub fn contains_key(&self, key: &str) -> (r: bool)
        requires
            self.wf(),
        ensures
            r == self.view().dom().contains(key@),
    {
        self.position(key).is_some()
    }

    /// Store `map` for `key`, replacing any map stored for it.
    pub fn insert(&mut self, key: String, map: ModifierMap)
        requires
            old(self).wf(),
        ensures
            final(self).wf(),
            final(self).view() == old(self).view().insert(key@, map),
            final(self).pairs() == put_entry(old(self).pairs(), key@, map),
    {
        proof {
            lemma_entries_map(self.pairs());
        }
        let ghost old_pairs = self.pairs();
        let ghost k = key@;
        match self.position(key.as_str()) {
            Some(i) => {
                self.entries.set(i, (key, map));
                proof {
                    let p = self.pairs();
                    assert(p =~= old_pairs.update(i as int, (k, map)));
                    lemma_put_entry(old_pairs, k, map, i as int);
                    assert forall|a: int, b: int| 0 <= a < p.len() && 0 <= b < p.len() && a != b
                        implies p[a].0
                        != p[b].0 by {
                        if a != i && b != i {
                            assert(p[a] == old_pairs[a] && p[b] == old_pairs[b]);
                        } else if a == i {
                            assert(p[b] == old_pairs[b]);
                        } else {
                            assert(p[a] == old_pairs[a]);
                        }
                    }
                    lemma_entries_map(p);
                    assert(self.view() =~= old(self).view().insert(k, map)) by {
                        assert forall|q: Seq<char>| #[trigger] self.view().dom().contains(q)
                            implies old(self).view().insert(k, map).dom().contains(q) by {
                            let j = choose|j: int| 0 <= j < p.len() && p[j].0 == q;
                            if j != i {
                                assert(p[j] == old_pairs[j]);
                            }
                        }
                        assert forall|q: Seq<char>| #[trigger] old(self).view().insert(k, map).dom().contains(q)
                            implies self.view().dom().contains(q) by {
                            if q != k {
                                let j = choose|j: int| 0 <= j < old_pairs.len() && old_pairs[j].0 == q;
                                assert(p[j] == old_pairs[j]);
                            } else {
                                assert(p[i as int].0 == q);
                            }
                        }
                        assert forall|q: Seq<char>| #[trigger] self.view().dom().contains(q)
                            implies self.view()[q] == old(self).view().insert(k, map)[q] by {
                            let j = choose|j: int| 0 <= j < p.len() && p[j].0 == q;
                            if j != i {
                                assert(p[j] == old_pairs[j]);
                                assert(entries_map(p)[p[j].0] == p[j].1);
                                assert(entries_map(old_pairs)[old_pairs[j].0] == old_pairs[j].1);
                            } else {
                                assert(entries_map(p)[p[j].0] == p[j].1);
                            }
                        }
                    }
                }
            },
            None => {
                self.entries.push((key, map));
                proof {
                    let p = self.pairs();
                    assert(p.drop_last() =~= old_pairs);
                    lemma_put_entry(old_pairs, k, map, old_pairs.len() as int);
                    assert(p =~= old_pairs.push((k, map)));
                    assert(p.last() == (k, map));
                    assert forall|a: int, b: int| 0 <= a < p.len() && 0 <= b < p.len() && a != b
                        implies p[a].0
                        != p[b].0 by {
                        if a < old_pairs.len() && b < old_pairs.len() {
                            assert(p[a] == old_pairs[a] && p[b] == old_pairs[b]);
                        } else if a < old_pairs.len() {
                            assert(p[a] == old_pairs[a]);
                            assert(entries_map(old_pairs).dom().contains(old_pairs[a].0));
                        } else {
                            assert(p[b] == old_pairs[b]);
                            assert(entries_map(old_pairs).dom().contains(old_pairs[b].0));
                        }
                    }
                }
            },
        }
    }

    /// Drop the map stored for `key`, if any.
    pub fn remove(&mut self, key: &str)
        requires
            old(self).wf(),
        ensures
            final(self).wf(),
            final(self).view() == old(self).view().remove(key@),
            final(self).pairs() == drop_entry(old(self).pairs(), key@),
    {
        proof {
            lemma_entries_map(self.pairs());
        }
        let ghost old_pairs = self.pairs();
        match self.position(key) {
            Some(i) => {
                let _ = self.entries.remove(i);
                proof {
                    let p = self.pairs();
                    assert(p =~= old_pairs.remove(i as int));
                    lemma_drop_entry(old_pairs, key@, i as int);
                    assert forall|a: int, b: int| 0 <= a < p.len() && 0 <= b < p.len() && a != b
                        implies p[a].0
                        != p[b].0 by {
                        let a2 = if a < i { a } else { a + 1 };
                        let b2 = if b < i { b } else { b + 1 };
                        assert(p[a] == old_pairs[a2] && p[b] == old_pairs[b2]);
                    }
                    lemma_entries_map(p);
                    assert(self.view() =~= old(self).view().remove(key@)) by {
                        assert forall|q: Seq<char>| #[trigger] self.view().dom().contains(q)
                            implies old(self).view().remove(key@).dom().contains(q) by {
                            let j = choose|j: int| 0 <= j < p.len() && p[j].0 == q;
                            let j2 = if j < i { j } else { j + 1 };
                            assert(p[j] == old_pairs[j2]);
                        }
                        assert forall|q: Seq<char>| #[trigger] old(self).view().remove(key@).dom().contains(q)
                            implies self.view().dom().contains(q) by {
                            let j = choose|j: int| 0 <= j < old_pairs.len() && old_pairs[j].0 == q;
                            if j < i {
                                assert(p[j] == old_pairs[j]);
                            } else {
                                assert(j != i);
                                assert(p[j - 1] == old_pairs[j]);
                            }
                        }
                        assert forall|q: Seq<char>| #[trigger] self.view().dom().contains(q)
                            implies self.view()[q] == old(self).view().remove(key@)[q] by {
                            let j = choose|j: int| 0 <= j < p.len() && p[j].0 == q;
                            let j2 = if j < i { j } else { j + 1 };
                            assert(p[j] == old_pairs[j2]);
                            assert(entries_map(p)[p[j].0] == p[j].1);
                            assert(entries_map(old_pairs)[old_pairs[j2].0] == old_pairs[j2].1);
                        }
                    }
                }
            },
            None => {
                assert(old(self).view().remove(key@) =~= old(self).view());
                proof {
                    lemma_drop_entry(old_pairs, key@, old_pairs.len() as int);
                }
            },
        }
    }
}

/// The value stored under `key` in a parsed table: the first entry with that
/// key (`Some(None)` when that value is not a string).
pub open spec fn table_lookup(t: Seq<(Seq<char>, Option<Seq<char>>)>, key: Seq<char>) -> Option<
    Option<Seq<char>>,
>
    decreases t.len(),
{
    if t.len() == 0 {
        None
    } else if t[0].0 == key {
        Some(t[0].1)
    } else {
        table_lookup(t.drop_first(), key)
    }
}

/// The slot a parsed table makes `from` send: the slot named by its string
/// entry for `from`, or `from` itself when that entry is missing, not a
/// string, or not a slot name.
pub open spec fn table_target(t: Seq<(Seq<char>, Option<Seq<char>>)>, from: Slot) -> Slot {
    match table_lookup(t, slot_name(from)) {
        Some(Some(v)) => match slot_from_name(v) {
            Some(to) => to,
            None => from,
        },
        _ => from,
    }
}

/// The map a parsed table denotes.
pub open spec fn map_of_table(t: Seq<(Seq<char>, Option<Seq<char>>)>) -> ModifierMap {
    ModifierMap::from_targets(
        table_target(t, Slot::Ctrl),
        table_target(t, Slot::Meta),
        table_target(t, Slot::Alt),
        table_target(t, Slot::Shift),
    )
}

/// The maps a parsed root object denotes: each entry whose table is an
/// object, under its lowercased OS name, later entries winning.
pub open spec fn tables_view(
    root: Seq<(Seq<char>, Option<Seq<(Seq<char>, Option<Seq<char>>)>>)>,
) -> Map<Seq<char>, ModifierMap>
    decreases root.len(),
{
    if root.len() == 0 {
        Map::empty()
    } else {
        let prev = tables_view(root.drop_last());
        match root.last().1 {
            Some(t) => prev.insert(lowercase(root.last().0), map_of_table(t)),
            None => prev,
        }
    }
}

/// The maps the stored option text denotes; none when it is not a JSON
/// object.
pub open spec fn spec_parse_all(raw: Seq<char>) -> Map<Seq<char>, ModifierMap> {
    if raw.len() == 0 {
        Map::empty()
    } else {
        match json_tables_of(raw) {
            Some(root) => tables_view(root),
            None => Map::empty(),
        }
    }
}

/// The slot named by the string value stored under `key`, if any.
fn table_slot(table: &Vec<(String, Option<String>)>, key: &str) -> (r: Option<Slot>)
    ensures
        r == (match table_lookup(table.deep_view(), key@) {
            Some(Some(v)) => slot_from_name(v),
            _ => None,
        }),
{
    let ghost t = table.deep_view();
    let mut i: usize = 0;
    assert(t.skip(0) =~= t);
    while i < table.len()
        invariant
            t == table.deep_view(),
            i <= table@.len(),
            table_lookup(t, key@) == table_lookup(t.skip(i as int), key@),
        decreases table@.len() - i,
    {
        proof {
            assert(t.skip(i as int).drop_first() =~= t.skip(i + 1));
            assert(t.skip(i as int)[0] == t[i as int]);
        }
        if str_equal(table[i].0.as_str(), key) {
            return match &table[i].1 {
                Some(v) => Slot::from_name(v.as_str()),
                None => None,
            };
        }
        i = i + 1;
    }
    proof {
        assert(t.skip(i as int).len() == 0);
    }
    None
}

/// The map a parsed table denotes: identity, with each slot whose entry
/// names a slot sent there instead.
fn map_from_table(table: &Vec<(String, Option<String>)>) -> (m: ModifierMap)
    ensures
        m == map_of_table(table.deep_view()),
{
    let mut map = ModifierMap::identity();
    if let Some(to) = table_slot(table, Slot::Ctrl.name()) {
        map.set(Slot::Ctrl, to);
    }
    if let Some(to) = table_slot(table, Slot::Meta.name()) {
        map.set(Slot::Meta, to);
    }
    if let Some(to) = table_slot(table, Slot::Alt.name()) {
        map.set(Slot::Alt, to);
    }
    if let Some(to) = table_slot(table, Slot::Shift.name()) {
        map.set(Slot::Shift, to);
    }
    proof {
        let t = table.deep_view();
        ModifierMap::lemma_from_targets(
            table_target(t, Slot::Ctrl),
            table_target(t, Slot::Meta),
            table_target(t, Slot::Alt),
            table_target(t, Slot::Shift),
        );
        assert forall|s: Slot| #[trigger] map.target_of(s) == map_of_table(t).target_of(s) by {
            match s {
                Slot::Ctrl => {},
                Slot::Meta => {},
                Slot::Alt => {},
                Slot::Shift => {},
            }
        }
        ModifierMap::lemma_ext_equal(map, map_of_table(t));
    }
    map
}

/// The OS entries a parsed root object yields, in the order they are
/// stored: each entry whose table is an object, under its lowercased OS name;
/// a later entry for a name already present replaces its map in place.
pub open spec fn tables_pairs(
    root: Seq<(Seq<char>, Option<Seq<(Seq<char>, Option<Seq<char>>)>>)>,
) -> Seq<(Seq<char>, ModifierMap)>
    decreases root.len(),
{
    if root.len() == 0 {
        Seq::empty()
    } else {
        let prev = tables_pairs(root.drop_last());
        match root.last().1 {
            Some(t) => put_entry(prev, lowercase(root.last().0), map_of_table(t)),
            None => prev,
        }
    }
}

/// The OS entries the stored option text yields, in the order they are
/// stored; none when it is not a JSON object.
pub open spec fn spec_parse_pairs(raw: Seq<char>) -> Seq<(Seq<char>, ModifierMap)> {
    if raw.len() == 0 {
        Seq::empty()
    } else {
        match json_tables_of(raw) {
            Some(root) => tables_pairs(root),
            None => Seq::empty(),
        }
    }
}

/// The maps of a root object as serde_json read it: each entry whose table is
/// an object, under its lowercased OS name, later entries winning.
pub fn maps_of_tables(root: &Vec<(String, Option<Vec<(String, Option<String>)>>)>) -> (r:
    ModifierMaps)
    ensures
        r.wf(),
        r.view() == tables_view(root.deep_view()),
        r.pairs() == tables_pairs(root.deep_view()),
{
    let mut out = ModifierMaps::new();
    let ghost rv = root.deep_view();
    for i in 0..root.len()
        invariant
            rv == root.deep_view(),
            out.wf(),
            out.view() == tables_view(rv.take(i as int)),
            out.pairs() == tables_pairs(rv.take(i as int)),
    {
        proof {
            assert(rv.take(i + 1).drop_last() =~= rv.take(i as int));
        }
        match &root[i].1 {
            Some(table) => {
                let map = map_from_table(table);
                out.insert(to_lowercase(root[i].0.as_str()), map);
            },
            None => {},
        }
    }
    proof {
        assert(rv.take(rv.len() as int) =~= rv);
    }
    out
}

/// Parses the whole `modifier-remap` option. Never fails: anything
/// unparseable simply yields fewer entries, and a missing entry means
/// identity.
pub fn parse_all(raw: &str) -> (r: ModifierMaps)
    ensures
        r.wf(),
        r.view() == spec_parse_all(raw@),
        r.pairs() == spec_parse_pairs(raw@),
{
    match parse_json_tables(raw) {
        None => ModifierMaps::new(),
        Some(root) => maps_of_tables(&root),
    }
}

/// The maps after writing `map` for `os`: an identity map removes the entry,
/// any other map replaces it.
pub open spec fn merged_maps(
    before: Map<Seq<char>, ModifierMap>,
    os: Seq<char>,
    map: ModifierMap,
) -> Map<Seq<char>, ModifierMap> {
    if map.spec_is_identity() {
        before.remove(os)
    } else {
        before.insert(os, map)
    }
}

/// Every OS name is its own lowercase.
pub open spec fn keys_lowercase(m: Map<Seq<char>, ModifierMap>) -> bool {
    forall|k: Seq<char>| #[trigger] m.dom().contains(k) ==> lowercase(k) == k
}

/// `t` is the object of tables that stores the maps `m`, in some order: one
/// table per OS, each the map's slot-name entries.
pub open spec fn stores_maps(
    t: Seq<(Seq<char>, Seq<(Seq<char>, Seq<char>)>)>,
    m: Map<Seq<char>, ModifierMap>,
) -> bool {
    &&& distinct_keys(t)
    &&& forall|k: Seq<char>|
        #[trigger] m.dom().contains(k) <==> exists|i: int| 0 <= i < t.len() && t[i].0 == k
    &&& forall|i: int|
        0 <= i < t.len() ==> m.dom().contains(#[trigger] t[i].0) && t[i].1
            == m[t[i].0].json_entries_view()
}

/// The OS entries after writing `map` for `os`, in the order they are
/// stored: an identity map drops the entry, any other map replaces it in
/// place or is appended.
pub open spec fn merged_pairs(raw: Seq<char>, os: Seq<char>, map: ModifierMap) -> Seq<
    (Seq<char>, ModifierMap),
> {
    if map.spec_is_identity() {
        drop_entry(spec_parse_pairs(raw), os)
    } else {
        put_entry(spec_parse_pairs(raw), os, map)
    }
}

/// The object of tables that stores the entries, in their order: each OS
/// with its map's slot-name entries.
pub open spec fn stored_tables(p: Seq<(Seq<char>, ModifierMap)>) -> Seq<
    (Seq<char>, Seq<(Seq<char>, Seq<char>)>),
> {
    Seq::new(p.len(), |i: int| (p[i].0, p[i].1.json_entries_view()))
}

/// The option text `merge_into` writes: empty when no entry is left,
/// otherwise what serde_json writes for the stored tables.
pub open spec fn merged_text(raw: Seq<char>, os: Seq<char>, map: ModifierMap) -> Seq<char> {
    let p = merged_pairs(raw, os, map);
    if p.len() == 0 {
        Seq::empty()
    } else {
        json_text_of(stored_tables(p))
    }
}

/// With distinct keys, the first entry with a key is its only one.
proof fn lemma_table_lookup(t: Seq<(Seq<char>, Option<Seq<char>>)>, b: int)
    requires
        distinct_keys(t),
        0 <= b < t.len(),
    ensures
        table_lookup(t, t[b].0) == Some(t[b].1),
    decreases t.len(),
{
    if t[0].0 != t[b].0 {
        let u = t.drop_first();
        assert forall|i: int, j: int| 0 <= i < u.len() && 0 <= j < u.len() && i != j implies u[i].0
            != u[j].0 by {
            assert(u[i] == t[i + 1] && u[j] == t[j + 1]);
        }
        assert(u[b - 1] == t[b]);
        lemma_table_lookup(u, b - 1);
    }
}

/// A table read back from a map's stored entries denotes that map.
proof fn lemma_map_read_back(pt: Seq<(Seq<char>, Option<Seq<char>>)>, m: ModifierMap)
    requires
        table_read_back(pt, m.json_entries_view()),
    ensures
        map_of_table(pt) == m,
{
    let w = m.json_entries_view();
    law_slot_names_round_trip();
    assert forall|s: Slot| #[trigger] table_target(pt, s) == m.target_of(s) by {
        let a = slot_index(s);
        assert(w[a] == (slot_name(s), slot_name(m.target_of(s))));
        let b = choose|b: int| 0 <= b < pt.len() && #[trigger] pt[b] == (w[a].0, Some(w[a].1));
        lemma_table_lookup(pt, b);
        assert(slot_from_name(slot_name(m.target_of(s))) == Some(m.target_of(s)));
    }
    ModifierMap::lemma_from_targets(
        table_target(pt, Slot::Ctrl),
        table_target(pt, Slot::Meta),
        table_target(pt, Slot::Alt),
        table_target(pt, Slot::Shift),
    );
    assert forall|s: Slot| #[trigger] map_of_table(pt).target_of(s) == m.target_of(s) by {
        match s {
            Slot::Ctrl => {},
            Slot::Meta => {},
            Slot::Alt => {},
            Slot::Shift => {},
        }
    }
    ModifierMap::lemma_ext_equal(map_of_table(pt), m);
}

/// The maps of a root object whose tables are all objects, under OS names
/// that are their own lowercase.
spec fn root_maps(
    p: Seq<(Seq<char>, Option<Seq<(Seq<char>, Option<Seq<char>>)>>)>,
) -> Seq<(Seq<char>, ModifierMap)> {
    Seq::new(p.len(), |j: int| (p[j].0, map_of_table(p[j].1->0)))
}

proof fn lemma_tables_view_all_objects(
    p: Seq<(Seq<char>, Option<Seq<(Seq<char>, Option<Seq<char>>)>>)>,
)
    requires
        forall|j: int| 0 <= j < p.len() ==> (#[trigger] p[j]).1 is Some && lowercase(p[j].0) == p[j].0,
    ensures
        tables_view(p) == entries_map(root_maps(p)),
    decreases p.len(),
{
    if p.len() > 0 {
        let q = p.drop_last();
        assert forall|j: int| 0 <= j < q.len() implies (#[trigger] q[j]).1 is Some && lowercase(q[j].0)
            == q[j].0 by {
            assert(q[j] == p[j]);
        }
        lemma_tables_view_all_objects(q);
        assert(root_maps(p).drop_last() =~= root_maps(q));
        assert(p[p.len() - 1] == p.last());
    }
}

/// Text that reads back as the stored form of some maps denotes those maps,
/// when every OS name is its own lowercase.
proof fn lemma_read_back_maps(
    p: Seq<(Seq<char>, Option<Seq<(Seq<char>, Option<Seq<char>>)>>)>,
    t: Seq<(Seq<char>, Seq<(Seq<char>, Seq<char>)>)>,
    m: Map<Seq<char>, ModifierMap>,
)
    requires
        tables_read_back(p, t),
        stores_maps(t, m),
        keys_lowercase(m),
    ensures
        tables_view(p) == m,
{
    assert forall|j: int| 0 <= j < p.len() implies (#[trigger] p[j]).1 is Some && lowercase(p[j].0)
        == p[j].0 by {
        let i = choose|i: int|
            0 <= i < t.len() && #[trigger] p[j].0 == #[trigger] t[i].0 && (p[j].1 matches Some(
                pt,
            ) && table_read_back(pt, t[i].1));
        assert(m.dom().contains(t[i].0));
    }
    lemma_tables_view_all_objects(p);
    let rm = root_maps(p);
    assert(distinct_keys(rm)) by {
        assert forall|a: int, b: int| 0 <= a < rm.len() && 0 <= b < rm.len() && a != b implies rm[a].0
            != rm[b].0 by {
            assert(rm[a].0 == p[a].0 && rm[b].0 == p[b].0);
        }
    }
    lemma_entries_map(rm);
    assert(entries_map(rm) =~= m) by {
        assert forall|k: Seq<char>| #[trigger] entries_map(rm).dom().contains(k)
            implies m.dom().contains(k) by {
            let j = choose|j: int| 0 <= j < rm.len() && rm[j].0 == k;
            assert(rm[j].0 == p[j].0);
            let i = choose|i: int|
                0 <= i < t.len() && #[trigger] p[j].0 == #[trigger] t[i].0 && (p[j].1 matches Some(
                    pt,
                ) && table_read_back(pt, t[i].1));
            assert(m.dom().contains(t[i].0));
        }
        assert forall|k: Seq<char>| #[trigger] m.dom().contains(k) implies entries_map(rm).dom().contains(k)
            && entries_map(rm)[k] == m[k] by {
            let i = choose|i: int| 0 <= i < t.len() && t[i].0 == k;
            let j = choose|j: int|
                0 <= j < p.len() && #[trigger] p[j].0 == #[trigger] t[i].0 && (p[j].1 matches Some(
                    pt,
                ) && table_read_back(pt, t[i].1));
            assert(m.dom().contains(t[i].0));
            lemma_map_read_back(p[j].1->0, m[k]);
            assert(rm[j] == (p[j].0, map_of_table(p[j].1->0)));
        }
    }
}

/// Writes the maps as the option text.
fn write_maps(maps: &ModifierMaps) -> (r: String)
    requires
        maps.wf(),
    ensures
        exists|t| stores_maps(t, maps.view()) && r@ == json_text_of(t),
        r@ == json_text_of(stored_tables(maps.pairs())),
        r@.len() > 0,
        keys_lowercase(maps.view()) ==> spec_parse_all(r@) == maps.view(),
{
    let mut tables: Vec<(String, Vec<(String, String)>)> = Vec::new();
    let ghost pairs = maps.pairs();
    proof {
        lemma_entries_map(pairs);
    }
    for i in 0..maps.entries.len()
        invariant
            pairs == maps.pairs(),
            maps.wf(),
            tables@.len() == i,
            forall|j: int|
                0 <= j < i ==> #[trigger] tables.deep_view()[j] == (
                    pairs[j].0,
                    pairs[j].1.json_entries_view(),
                ),
    {
        let entry = &maps.entries[i];
        let ghost before = tables.deep_view();
        tables.push((entry.0.clone(), entry.1.json_entries()));
        proof {
            assert(tables.deep_view()[i as int] == (pairs[i as int].0, pairs[i as int].1.json_entries_view()));
            assert forall|j: int| 0 <= j < i + 1 implies #[trigger] tables.deep_view()[j] == (
                pairs[j].0,
                pairs[j].1.json_entries_view(),
            ) by {
                if j < i {
                    assert(tables.deep_view()[j] == before[j]);
                }
            }
        }
    }
    let ghost t = tables.deep_view();
    proof {
        assert(t =~= stored_tables(pairs));
        law_slot_names_round_trip();
        assert(stores_maps(t, maps.view())) by {
            assert forall|a: int, b: int| 0 <= a < t.len() && 0 <= b < t.len() && a != b implies t[a].0
                != t[b].0 by {
                assert(t[a].0 == pairs[a].0 && t[b].0 == pairs[b].0);
            }
            assert forall|k: Seq<char>| #[trigger] maps.view().dom().contains(k) <==> exists|i: int|
                0 <= i < t.len() && t[i].0 == k by {
                if maps.view().dom().contains(k) {
                    let i = choose|i: int| 0 <= i < pairs.len() && pairs[i].0 == k;
                    assert(t[i].0 == k);
                }
                if exists|i: int| 0 <= i < t.len() && t[i].0 == k {
                    let i = choose|i: int| 0 <= i < t.len() && t[i].0 == k;
                    assert(pairs[i].0 == k);
                }
            }
            assert forall|i: int| 0 <= i < t.len() implies maps.view().dom().contains(#[trigger] t[i].0)
                && t[i].1 == maps.view()[t[i].0].json_entries_view() by {
                assert(t[i] == (pairs[i].0, pairs[i].1.json_entries_view()));
                assert(entries_map(pairs)[pairs[i].0] == pairs[i].1);
            }
        }
        assert(keys_distinct_at_both_levels(t)) by {
            assert forall|i: int| 0 <= i < t.len() implies distinct_keys(#[trigger] t[i].1) by {
                let w = t[i].1;
                assert(w == pairs[i].1.json_entries_view());
                assert(w[0].0 == slot_name(Slot::Ctrl));
                assert(w[1].0 == slot_name(Slot::Meta));
                assert(w[2].0 == slot_name(Slot::Alt));
                assert(w[3].0 == slot_name(Slot::Shift));
            }
        }
    }
    let r = write_json_tables(tables);
    proof {
        if keys_lowercase(maps.view()) {
            let p = json_tables_of(r@)->0;
            lemma_read_back_maps(p, t, maps.view());
        }
    }
    r
}

/// Merges one OS entry into a raw option string and returns the new raw
/// value. An identity map removes the entry entirely, so an untouched config
/// collapses back to empty.
pub fn merge_into(raw: &str, os_lower: &str, map: ModifierMap) -> (r: String)
    ensures
        r@.len() == 0 <==> merged_maps(spec_parse_all(raw@), os_lower@, map).len() == 0,
        r@.len() > 0 ==> exists|t|
            stores_maps(t, merged_maps(spec_parse_all(raw@), os_lower@, map)) && r@
                == json_text_of(t),
        keys_lowercase(merged_maps(spec_parse_all(raw@), os_lower@, map)) ==> spec_parse_all(r@)
            == merged_maps(spec_parse_all(raw@), os_lower@, map),
        r@ == merged_text(raw@, os_lower@, map),
{
    let mut maps = parse_all(raw);
    if map.is_identity() {
        maps.remove(os_lower);
    } else {
        maps.insert(String::from_str(os_lower), map);
    }
    if maps.is_empty() {
        proof {
            lemma_entries_map(maps.pairs());
            maps.view().dom().lemma_len0_is_empty();
            assert(maps.view() =~= Map::<Seq<char>, ModifierMap>::empty());
        }
        return String::new();
    }
    proof {
        lemma_entries_map(maps.pairs());
    }
    write_maps(&maps)
}

/// The OS tables the retired swap checkbox applied to: it was only offered
/// when exactly one side of the connection was macOS, so a macOS machine
/// seeds the Windows and Linux tables and any other machine the macOS one.
pub open spec fn spec_seed_targets(local_is_macos: bool) -> Seq<Seq<char>> {
    if local_is_macos {
        seq!["windows"@, "linux"@]
    } else {
        seq!["macos"@]
    }
}

/// Which OS tables the retired checkbox's setting applies to.
pub fn seed_targets(local_is_macos: bool) -> (r: Vec<&'static str>)
    ensures
        r@.len() == spec_seed_targets(local_is_macos).len(),
        forall|i: int| 0 <= i < r@.len() ==> #[trigger] r@[i]@ == spec_seed_targets(local_is_macos)[i],
{
    let mut r: Vec<&'static str> = Vec::new();
    if local_is_macos {
        r.push("windows");
        r.push("linux");
    } else {
        r.push("macos");
    }
    r
}

/// The seeded OS names are their own lowercase.
proof fn lemma_seed_targets_lowercase(local_is_macos: bool)
    ensures
        forall|i: int|
            0 <= i < spec_seed_targets(local_is_macos).len() ==> lowercase(
                #[trigger] spec_seed_targets(local_is_macos)[i],
            ) == spec_seed_targets(local_is_macos)[i],
{
    reveal_strlit("windows");
    reveal_strlit("linux");
    reveal_strlit("macos");
    assert forall|i: int| 0 <= i < spec_seed_targets(local_is_macos).len() implies lowercase(
        #[trigger] spec_seed_targets(local_is_macos)[i],
    ) == spec_seed_targets(local_is_macos)[i] by {
        let w = spec_seed_targets(local_is_macos)[i];
        assert(seq_is_ascii(w));
        assert(ascii_lower(w) =~= w);
    }
}

/// The maps with the swap map written for each of the first `n` OS names.
pub open spec fn seeded_maps(
    before: Map<Seq<char>, ModifierMap>,
    targets: Seq<Seq<char>>,
    n: int,
) -> Map<Seq<char>, ModifierMap>
    decreases n,
{
    if n <= 0 {
        before
    } else {
        seeded_maps(before, targets, n - 1).insert(targets[n - 1], spec_swap_ctrl_cmd())
    }
}

/// The option text after merging the swap map for each of the first `n` OS
/// names into `raw`, one after the other.
pub open spec fn seeded_text(raw: Seq<char>, targets: Seq<Seq<char>>, n: int) -> Seq<char>
    decreases n,
{
    if n <= 0 {
        raw
    } else {
        merged_text(seeded_text(raw, targets, n - 1), targets[n - 1], spec_swap_ctrl_cmd())
    }
}

/// The raw option value produced by seeding the swap map for whichever OS
/// tables the retired checkbox applied to.
pub fn seeded_raw(raw: &str, local_is_macos: bool) -> (r: String)
    ensures
        r@ == seeded_text(
            raw@,
            spec_seed_targets(local_is_macos),
            spec_seed_targets(local_is_macos).len() as int,
        ),
        keys_lowercase(spec_parse_all(raw@)) ==> spec_parse_all(r@) == seeded_maps(
            spec_parse_all(raw@),
            spec_seed_targets(local_is_macos),
            spec_seed_targets(local_is_macos).len() as int,
        ),
{
    let swap = swap_ctrl_cmd_map();
    let mut out = String::from_str(raw);
    let targets = seed_targets(local_is_macos);
    let ghost ts = spec_seed_targets(local_is_macos);
    let ghost before = spec_parse_all(raw@);
    proof {
        lemma_seed_targets_lowercase(local_is_macos);
        law_slot_names_round_trip();
    }
    for i in 0..targets.len()
        invariant
            ts == spec_seed_targets(local_is_macos),
            before == spec_parse_all(raw@),
            targets@.len() == ts.len(),
            forall|j: int| 0 <= j < targets@.len() ==> #[trigger] targets@[j]@ == ts[j],
            forall|j: int| 0 <= j < ts.len() ==> lowercase(#[trigger] ts[j]) == ts[j],
            swap == spec_swap_ctrl_cmd(),
            keys_lowercase(before) ==> spec_parse_all(out@) == seeded_maps(before, ts, i as int),
            out@ == seeded_text(raw@, ts, i as int),
    {
        proof {
            if keys_lowercase(before) {
                assert(!swap.spec_is_identity()) by {
                    ModifierMap::lemma_from_targets(Slot::Meta, Slot::Ctrl, Slot::Alt, Slot::Shift);
                    assert(swap.target_of(Slot::Ctrl) != Slot::Ctrl);
                }
                let m = spec_parse_all(out@).insert(targets@[i as int]@, swap);
                assert forall|k: Seq<char>| #[trigger] m.dom().contains(k) implies lowercase(k) == k by {
                    if k != targets@[i as int]@ {
                        assert(seeded_maps(before, ts, i as int).dom().contains(k));
                        lemma_seeded_maps_keys(before, ts, i as int, k);
                    }
                }
            }
        }
        out = merge_into(out.as_str(), targets[i], swap);
    }
    out
}

/// A key of the seeded maps is an original key or a seeded OS name.
proof fn lemma_seeded_maps_keys(
    before: Map<Seq<char>, ModifierMap>,
    targets: Seq<Seq<char>>,
    n: int,
    k: Seq<char>,
)
    requires
        seeded_maps(before, targets, n).dom().contains(k),
        keys_lowercase(before),
        0 <= n <= targets.len(),
        forall|j: int| 0 <= j < targets.len() ==> lowercase(#[trigger] targets[j]) == targets[j],
    ensures
        lowercase(k) == k,
    decreases n,
{
    if n > 0 && k != targets[n - 1] {
        lemma_seeded_maps_keys(before, targets, n - 1, k);
    }
}

/// Whether the one-shot migration should seed anything: only when the user
/// has not configured a table yet and some saved peer had the retired swap
/// flag on.
pub fn should_seed(existing_map_raw: &str, any_peer_swap: bool) -> (r: bool)
    ensures
        r == (existing_map_raw@.len() == 0 && any_peer_swap),
{
    existing_map_raw.is_empty() && any_peer_swap
}

/// Whether the one-shot migration has yet to run: its marker option is
/// still unset.
pub fn migration_pending(marker: &str) -> (r: bool)
    ensures
        r == (marker@.len() == 0),
{
    marker.is_empty()
}

/// The option value the migration stores, if it stores one: the seeded
/// swap map when `should_seed` holds, otherwise nothing.
pub fn migrated_option(existing_map_raw: &str, any_peer_swap: bool, local_is_macos: bool) -> (r:
    Option<String>)
    ensures
        r is Some <==> (existing_map_raw@.len() == 0 && any_peer_swap),
        r matches Some(v) ==> spec_parse_all(v@) == seeded_maps(
            Map::empty(),
            spec_seed_targets(local_is_macos),
            spec_seed_targets(local_is_macos).len() as int,
        ),
        r matches Some(v) ==> v@ == seeded_text(
            Seq::empty(),
            spec_seed_targets(local_is_macos),
            spec_seed_targets(local_is_macos).len() as int,
        ),
{
    if should_seed(existing_map_raw, any_peer_swap) {
        proof {
            assert(existing_map_raw@ =~= Seq::<char>::empty());
        }
        Some(seeded_raw(existing_map_raw, local_is_macos))
    } else {
        None
    }
}

/// The map stored for an OS, identity when there is none.
pub open spec fn map_for(maps: Map<Seq<char>, ModifierMap>, os: Seq<char>) -> ModifierMap {
    if maps.dom().contains(os) {
        maps[os]
    } else {
        ModifierMap::spec_identity()
    }
}

/// Parsed maps kept between keystrokes: parsed once, then reused for every
/// keystroke, and invalidated whenever the option is written.
pub struct RemapCache {
    maps: Option<ModifierMaps>,
}

impl RemapCache {
    /// The cached maps; `None` means "not loaded yet".
    pub closed spec fn view(self) -> Option<Map<Seq<char>, ModifierMap>> {
        match self.maps {
            Some(m) => Some(m.view()),
            None => None,
        }
    }

    pub closed spec fn wf(self) -> bool {
        self.maps matches Some(m) ==> m.wf()
    }

    /// A cache with nothing loaded.
    pub fn new() -> (r: Self)
        ensures
            r.wf(),
            r.view() is None,
    {
        RemapCache { maps: None }
    }

    /// The map for a peer OS from the loaded maps (identity when the OS has
    /// none); `None` when nothing is loaded. `peer_platform_lower` must
    /// already be lowercased and whitespace-stripped.
    pub fn cached_for_peer(&self, peer_platform_lower: &str) -> (r: Option<ModifierMap>)
        requires
            self.wf(),
        ensures
            r == (match self.view() {
                Some(m) => Some(map_for(m, peer_platform_lower@)),
                None => None,
            }),
    {
        match &self.maps {
            Some(maps) => match maps.get(peer_platform_lower) {
                Some(m) => Some(*m),
                None => Some(ModifierMap::identity()),
            },
            None => None,
        }
    }

    /// Parse the stored option `raw`, keep the maps, and return the map for
    /// a peer OS (identity when the OS has none).
    pub fn load_for_peer(&mut self, raw: &str, peer_platform_lower: &str) -> (r: ModifierMap)
        ensures
            final(self).wf(),
            final(self).view() == Some(spec_parse_all(raw@)),
            r == map_for(spec_parse_all(raw@), peer_platform_lower@),
    {
        let maps = parse_all(raw);
        let found = match maps.get(peer_platform_lower) {
            Some(m) => *m,
            None => ModifierMap::identity(),
        };
        self.maps = Some(maps);
        found
    }
}

/// Drop the cached maps, so that the next lookup parses the option again.
pub fn invalidate_cache(cache: &mut RemapCache)
    ensures
        final(cache).wf(),
        final(cache).view() is None,
{
    cache.maps = None;
}

proof fn lemma_tables_view_keys(root: Seq<(Seq<char>, Option<Seq<(Seq<char>, Option<Seq<char>>)>>)>)
    ensures
        forall|k: Seq<char>| #[trigger]
            tables_view(root).dom().contains(k) ==> exists|j: int|
                0 <= j < root.len() && k == lowercase(#[trigger] root[j].0),
    decreases root.len(),
{
    if root.len() > 0 {
        let q = root.drop_last();
        lemma_tables_view_keys(q);
        assert forall|k: Seq<char>| #[trigger] tables_view(root).dom().contains(k) implies exists|j: int|
            0 <= j < root.len() && k == lowercase(#[trigger] root[j].0) by {
            if tables_view(q).dom().contains(k) {
                let j = choose|j: int| 0 <= j < q.len() && k == lowercase(#[trigger] q[j].0);
                assert(q[j] == root[j]);
            } else {
                assert(k == lowercase(root[root.len() - 1].0));
            }
        }
    }
}

/// OS names are normalised to lowercase: every OS name of the parsed maps is
/// the lowercase of an OS name in the text.
pub proof fn law_parsed_names_are_lowercased(raw: Seq<char>)
    ensures
        forall|k: Seq<char>| #[trigger]
            spec_parse_all(raw).dom().contains(k) ==> (json_tables_of(raw) matches Some(root)
                && exists|j: int| 0 <= j < root.len() && k == lowercase(#[trigger] root[j].0)),
{
    if raw.len() > 0 {
        if let Some(root) = json_tables_of(raw) {
            lemma_tables_view_keys(root);
        }
    }
}

/// When every OS name in the text is ASCII, every OS name of the parsed maps
/// is its own lowercase, so `merge_into` and `seeded_raw` read back exactly
/// what they wrote.
pub proof fn law_ascii_names_read_back(raw: Seq<char>)
    requires
        json_tables_of(raw) matches Some(root) && forall|j: int|
            0 <= j < root.len() ==> seq_is_ascii(#[trigger] root[j].0),
    ensures
        keys_lowercase(spec_parse_all(raw)),
{
    law_parsed_names_are_lowercased(raw);
    let root = json_tables_of(raw)->0;
    assert forall|k: Seq<char>| #[trigger] spec_parse_all(raw).dom().contains(k) implies lowercase(k)
        == k by {
        let j = choose|j: int| 0 <= j < root.len() && k == lowercase(#[trigger] root[j].0);
        lemma_lowercase_ascii_idempotent(root[j].0);
    }
}

/// What a read gives back of a write: after writing `m` for `os`, the map
/// for `os` is `m` (an identity write removes the entry, and a missing entry
/// reads as identity), and every other OS reads as before. With
/// `merge_into` (whose text parses back to `merged_maps` when OS names are
/// their own lowercase) this is the stored option's round trip.
pub proof fn law_read_gives_back_the_write(
    before: Map<Seq<char>, ModifierMap>,
    os: Seq<char>,
    m: ModifierMap,
    other: Seq<char>,
)
    ensures
        map_for(merged_maps(before, os, m), os) == m,
        other != os ==> map_for(merged_maps(before, os, m), other) == map_for(before, other),
{
    if m.spec_is_identity() {
        ModifierMap::lemma_from_targets(Slot::Ctrl, Slot::Meta, Slot::Alt, Slot::Shift);
        assert forall|s: Slot| #[trigger] m.target_of(s) == ModifierMap::spec_identity().target_of(s) by {
            match s {
                Slot::Ctrl => {},
                Slot::Meta => {},
                Slot::Alt => {},
                Slot::Shift => {},
            }
        }
        ModifierMap::lemma_ext_equal(m, ModifierMap::spec_identity());
    }
}

} // verus!
