use std::collections::BTreeMap;

use vstd::prelude::*;

use crate::params::{param_target_of_id, ParamTarget};
use crate::text_order::{
    compare_names, lemma_name_lt_irreflexive, lemma_name_lt_total, lemma_name_lt_transitive,
    name_lt, same_text, NameOrder,
};

verus! {

/// A position of an entry named `k`, where there is one.
pub open spec fn entry_index(s: Seq<(String, String)>, k: Seq<char>) -> int {
    choose|i: int| 0 <= i < s.len() && (#[trigger] s[i]).0@ == k
}

/// The map from names to texts that a sequence of (name, text) entries holds.
pub open spec fn entries_view(s: Seq<(String, String)>) -> Map<Seq<char>, Seq<char>> {
    Map::new(
        |k: Seq<char>| exists|i: int| 0 <= i < s.len() && (#[trigger] s[i]).0@ == k,
        |k: Seq<char>| s[entry_index(s, k)].1@,
    )
}

/// The entries are in strictly increasing name order (so no name occurs twice).
pub open spec fn entries_sorted(s: Seq<(String, String)>) -> bool {
    forall|i: int, j: int| 0 <= i < j < s.len() ==> name_lt((#[trigger] s[i]).0@, (#[trigger] s[j]).0@)
}

/// In sorted entries, each entry is what the map holds under its name.
proof fn lemma_entry_in_view(s: Seq<(String, String)>, i: int)
    requires
        entries_sorted(s),
        0 <= i < s.len(),
    ensures
        entries_view(s).contains_key(s[i].0@),
        entries_view(s)[s[i].0@] == s[i].1@,
{
    let k = s[i].0@;
    assert(exists|j: int| 0 <= j < s.len() && (#[trigger] s[j]).0@ == k);
    let j = entry_index(s, k);
    if j < i {
        assert(name_lt(s[j].0@, s[i].0@));
        lemma_name_lt_irreflexive(k);
    } else if i < j {
        assert(name_lt(s[i].0@, s[j].0@));
        lemma_name_lt_irreflexive(k);
    }
    assert(j == i);
    assert(entries_view(s).contains_key(k));
    assert(entries_view(s)[k] == s[j].1@);
}

/// Overwriting the text of an entry, under the same name, keeps the order and
/// changes the map at that name only.
proof fn lemma_replace_entry(s: Seq<(String, String)>, p: int, e: (String, String))
    requires
        entries_sorted(s),
        0 <= p < s.len(),
        e.0@ == s[p].0@,
    ensures
        entries_sorted(s.update(p, e)),
        entries_view(s.update(p, e)) == entries_view(s).insert(e.0@, e.1@),
{
    let t = s.update(p, e);
    assert forall|i: int, j: int| 0 <= i < j < t.len() implies name_lt(
        (#[trigger] t[i]).0@,
        (#[trigger] t[j]).0@,
    ) by {
        assert(name_lt(s[i].0@, s[j].0@));
    }
    let vs = entries_view(s);
    let vt = entries_view(t);
    assert forall|k: Seq<char>| #[trigger] vt.contains_key(k) == vs.insert(e.0@, e.1@).contains_key(k) by {
        if vt.contains_key(k) {
            let i = choose|i: int| 0 <= i < t.len() && (#[trigger] t[i]).0@ == k;
            if i != p {
                assert(s[i].0@ == k);
            }
        }
        if vs.contains_key(k) {
            let i = choose|i: int| 0 <= i < s.len() && (#[trigger] s[i]).0@ == k;
            assert(t[i].0@ == k);
        }
        if k == e.0@ {
            assert(t[p].0@ == k);
        }
    }
    assert forall|k: Seq<char>| vt.contains_key(k) implies #[trigger] vt[k] == vs.insert(
        e.0@,
        e.1@,
    )[k] by {
        if k == e.0@ {
            lemma_entry_in_view(t, p);
        } else {
            let i = choose|i: int| 0 <= i < t.len() && (#[trigger] t[i]).0@ == k;
            lemma_entry_in_view(t, i);
            lemma_entry_in_view(s, i);
        }
    }
    assert(vt =~= vs.insert(e.0@, e.1@));
}

/// Inserting a new entry at its place in the order keeps the order and adds
/// that name to the map.
proof fn lemma_insert_entry(s: Seq<(String, String)>, p: int, e: (String, String))
    requires
        entries_sorted(s),
        0 <= p <= s.len(),
        forall|j: int| 0 <= j < p ==> name_lt((#[trigger] s[j]).0@, e.0@),
        p < s.len() ==> !name_lt(s[p].0@, e.0@) && s[p].0@ != e.0@,
    ensures
        entries_sorted(s.insert(p, e)),
        entries_view(s.insert(p, e)) == entries_view(s).insert(e.0@, e.1@),
{
    let t = s.insert(p, e);
    let n = e.0@;
    if p < s.len() {
        lemma_name_lt_total(s[p].0@, n);
    }
    assert forall|j: int| p <= j < s.len() implies name_lt(n, (#[trigger] s[j]).0@) by {
        if j > p {
            assert(name_lt(s[p].0@, s[j].0@));
            lemma_name_lt_transitive(n, s[p].0@, s[j].0@);
        }
    }
    assert forall|i: int, j: int| 0 <= i < j < t.len() implies name_lt(
        (#[trigger] t[i]).0@,
        (#[trigger] t[j]).0@,
    ) by {
        if j < p {
            assert(name_lt(s[i].0@, s[j].0@));
        } else if j == p {
            assert(name_lt(s[i].0@, n));
        } else if i < p {
            assert(name_lt(s[i].0@, n));
            assert(name_lt(n, s[j - 1].0@));
            lemma_name_lt_transitive(s[i].0@, n, s[j - 1].0@);
        } else if i == p {
            assert(name_lt(n, s[j - 1].0@));
        } else {
            assert(name_lt(s[i - 1].0@, s[j - 1].0@));
        }
    }
    let vs = entries_view(s);
    let vt = entries_view(t);
    assert forall|k: Seq<char>| #[trigger] vt.contains_key(k) == vs.insert(n, e.1@).contains_key(k) by {
        if vt.contains_key(k) {
            let i = choose|i: int| 0 <= i < t.len() && (#[trigger] t[i]).0@ == k;
            if i < p {
                assert(s[i].0@ == k);
            } else if i > p {
                assert(s[i - 1].0@ == k);
            }
        }
        if vs.contains_key(k) {
            let i = choose|i: int| 0 <= i < s.len() && (#[trigger] s[i]).0@ == k;
            if i < p {
                assert(t[i].0@ == k);
            } else {
                assert(t[i + 1].0@ == k);
            }
        }
        if k == n {
            assert(t[p].0@ == k);
        }
    }
    assert forall|k: Seq<char>| vt.contains_key(k) implies #[trigger] vt[k] == vs.insert(
        n,
        e.1@,
    )[k] by {
        if k == n {
            lemma_entry_in_view(t, p);
        } else {
            let i = choose|i: int| 0 <= i < s.len() && (#[trigger] s[i]).0@ == k;
            lemma_entry_in_view(s, i);
            if i < p {
                lemma_entry_in_view(t, i);
            } else {
                lemma_entry_in_view(t, i + 1);
            }
        }
    }
    assert(vt =~= vs.insert(n, e.1@));
}

/// `names` lists the names that `m` holds: each exactly once, in increasing
/// name order.
pub open spec fn lists_names(names: Seq<Seq<char>>, m: Map<Seq<char>, Seq<char>>) -> bool {
    &&& forall|i: int| 0 <= i < names.len() ==> m.contains_key(#[trigger] names[i])
    &&& forall|k: Seq<char>| #[trigger] m.contains_key(k) ==> names.contains(k)
    &&& forall|i: int, j: int| 0 <= i < j < names.len() ==> name_lt(#[trigger] names[i], #[trigger] names[j])
}

/// Named presets, each kept as its serialized text, listed in name order.
pub struct PresetStore {
    entries: Vec<(String, String)>,
}

impl View for PresetStore {
    type V = Map<Seq<char>, Seq<char>>;

    closed spec fn view(&self) -> Map<Seq<char>, Seq<char>> {
        entries_view(self.entries@)
    }
}

impl PresetStore {
    #[verifier::type_invariant]
    spec fn sorted_by_name(&self) -> bool {
        entries_sorted(self.entries@)
    }

    /// The names of all stored presets, in increasing name order.
    pub fn list(&self) -> (names: Vec<String>)
        ensures
            lists_names(names@.map_values(|name: String| name@), self@),
    {
        proof {
            use_type_invariant(self);
        }
        let n = self.entries.len();
        let mut names: Vec<String> = Vec::new();
        let mut i: usize = 0;
        while i < n
            invariant
                n == self.entries.len(),
                i <= n,
                names.len() == i,
                forall|j: int| 0 <= j < i ==> (#[trigger] names[j])@ == self.entries@[j].0@,
            decreases n - i,
        {
            let name = self.entries[i].0.clone();
            names.push(name);
            i = i + 1;
        }
        proof {
            let s = self.entries@;
            let listed = names@.map_values(|name: String| name@);
            assert forall|j: int| 0 <= j < listed.len() implies self@.contains_key(
                #[trigger] listed[j],
            ) by {
                lemma_entry_in_view(s, j);
            }
            assert forall|k: Seq<char>| #[trigger] self@.contains_key(k) implies listed.contains(
                k,
            ) by {
                let j = choose|j: int| 0 <= j < s.len() && (#[trigger] s[j]).0@ == k;
                assert(listed[j] == k);
            }
            assert forall|a: int, b: int| 0 <= a < b < listed.len() implies name_lt(
                #[trigger] listed[a],
                #[trigger] listed[b],
            ) by {
                assert(name_lt(s[a].0@, s[b].0@));
            }
        }
        names
    }

    /// Stores `json` as the preset `name`, replacing any preset of that name.
    pub fn save(&mut self, name: &str, json: String)
        ensures
            final(self)@ == old(self)@.insert(name@, json@),
    {
        proof {
            use_type_invariant(&*self);
        }
        let mut entries: Vec<(String, String)> = Vec::new();
        std::mem::swap(&mut entries, &mut self.entries);
        let ghost s = entries@;
        let n = entries.len();
        let mut p: usize = 0;
        while p < n && compare_names(entries[p].0.as_str(), name) == NameOrder::Less
            invariant
                n == entries.len(),
                entries@ == s,
                p <= n,
                forall|j: int| 0 <= j < p ==> name_lt((#[trigger] s[j]).0@, name@),
            decreases n - p,
        {
            p = p + 1;
        }
        let entry = (name.to_owned(), json);
        if p < n && same_text(entries[p].0.as_str(), name) {
            proof {
                lemma_replace_entry(s, p as int, entry);
            }
            entries.set(p, entry);
        } else {
            proof {
                if p < n {
                    lemma_name_lt_total(s[p as int].0@, name@);
                }
                lemma_insert_entry(s, p as int, entry);
            }
            entries.insert(p, entry);
        }
        self.entries = entries;
    }

    /// The serialized text of the preset `name`, if one is stored.
    pub fn load(&self, name: &str) -> (r: Option<String>)
        ensures
            match r {
                Some(text) => self@.contains_key(name@) && self@[name@] == text@,
                None => !self@.contains_key(name@),
            },
    {
        proof {
            use_type_invariant(self);
        }
        let n = self.entries.len();
        let mut i: usize = 0;
        while i < n
            invariant
                n == self.entries.len(),
                i <= n,
                entries_sorted(self.entries@),
                forall|j: int| 0 <= j < i ==> (#[trigger] self.entries@[j]).0@ != name@,
            decreases n - i,
        {
            if same_text(self.entries[i].0.as_str(), name) {
                proof {
                    lemma_entry_in_view(self.entries@, i as int);
                }
                return Some(self.entries[i].1.clone());
            }
            i = i + 1;
        }
        None
    }
}

impl Default for PresetStore {
    fn default() -> (store: Self)
        ensures
            store@ == Map::<Seq<char>, Seq<char>>::empty(),
    {
        let store = PresetStore { entries: Vec::new() };
        assert(store@ =~= Map::<Seq<char>, Seq<char>>::empty());
        store
    }
}

/// MIDI controller assignments: controller number to parameter id.
pub struct MappingStore {
    assignments: BTreeMap<u8, String>,
}

impl View for MappingStore {
    type V = Map<u8, Seq<char>>;

    closed spec fn view(&self) -> Map<u8, Seq<char>> {
        self.assignments@.map_values(|id: String| id@)
    }
}

/// The parameter that controller `cc` drives under the assignments `m`.
pub open spec fn mapped_target(m: Map<u8, Seq<char>>, cc: u8) -> Option<ParamTarget> {
    if m.contains_key(cc) {
        param_target_of_id(m[cc])
    } else {
        None
    }
}

impl MappingStore {
    /// The parameter that a change of controller `cc` moves, if the controller
    /// is assigned to a known parameter id.
    pub fn apply(&self, cc: u8) -> (r: Option<ParamTarget>)
        ensures
            r == mapped_target(self@, cc),
    {
        match self.assignments.get(&cc) {
            Some(id) => ParamTarget::from_id(id.as_str()),
            None => None,
        }
    }
}

impl Default for MappingStore {
    fn default() -> (store: Self)
        ensures
            store@ == Map::<u8, Seq<char>>::empty(),
    {
        let store = MappingStore { assignments: BTreeMap::new() };
        assert(store@ =~= Map::<u8, Seq<char>>::empty());
        store
    }
}

/// Loading a name after saving it gives back the saved text, and saving a
/// name leaves what every other name loads unchanged.
pub proof fn law_load_after_save(
    before: Map<Seq<char>, Seq<char>>,
    name: Seq<char>,
    json: Seq<char>,
    other: Seq<char>,
)
    ensures
        before.insert(name, json).contains_key(name),
        before.insert(name, json)[name] == json,
        other != name ==> (before.insert(name, json).contains_key(other) == before.contains_key(
            other,
        )),
        other != name && before.contains_key(other) ==> before.insert(name, json)[other]
            == before[other],
{
}

/// A saved name shows up in every later listing of the presets.
pub proof fn law_saved_name_is_listed(
    before: Map<Seq<char>, Seq<char>>,
    name: Seq<char>,
    json: Seq<char>,
    names: Seq<Seq<char>>,
)
    requires
        lists_names(names, before.insert(name, json)),
    ensures
        names.contains(name),
{
    assert(before.insert(name, json).contains_key(name));
}

/// The listing is determined by what is stored: any two listings of the same
/// presets are the same sequence of names.
pub proof fn law_listing_unique(a: Seq<Seq<char>>, b: Seq<Seq<char>>, m: Map<Seq<char>, Seq<char>>)
    requires
        lists_names(a, m),
        lists_names(b, m),
    ensures
        a == b,
{
    lemma_sorted_same_members(a, b);
}

/// Two strictly increasing sequences of names with the same members are equal.
proof fn lemma_sorted_same_members(a: Seq<Seq<char>>, b: Seq<Seq<char>>)
    requires
        forall|i: int, j: int| 0 <= i < j < a.len() ==> name_lt(#[trigger] a[i], #[trigger] a[j]),
        forall|i: int, j: int| 0 <= i < j < b.len() ==> name_lt(#[trigger] b[i], #[trigger] b[j]),
        forall|k: Seq<char>| a.contains(k) <==> b.contains(k),
    ensures
        a == b,
    decreases a.len() + b.len(),
{
    if a.len() == 0 {
        if b.len() > 0 {
            assert(b.contains(b[0]));
        }
        assert(b =~= a);
    } else if b.len() == 0 {
        assert(a.contains(a[0]));
    } else {
        assert(a.contains(a[0]));
        assert(b.contains(b[0]));
        let i = choose|i: int| 0 <= i < a.len() && a[i] == b[0];
        let j = choose|j: int| 0 <= j < b.len() && b[j] == a[0];
        if a[0] != b[0] {
            assert(i > 0 && j > 0);
            assert(name_lt(a[0], a[i]));
            assert(name_lt(b[0], b[j]));
            lemma_name_lt_total(a[0], b[0]);
        }
        let ta = a.drop_first();
        let tb = b.drop_first();
        assert forall|k: Seq<char>| ta.contains(k) <==> tb.contains(k) by {
            if ta.contains(k) {
                let x = choose|x: int| 0 <= x < ta.len() && ta[x] == k;
                assert(name_lt(a[0], a[x + 1]));
                lemma_name_lt_irreflexive(k);
                assert(b.contains(k));
                let y = choose|y: int| 0 <= y < b.len() && b[y] == k;
                assert(y != 0);
                assert(tb[y - 1] == k);
            }
            if tb.contains(k) {
                let x = choose|x: int| 0 <= x < tb.len() && tb[x] == k;
                assert(name_lt(b[0], b[x + 1]));
                lemma_name_lt_irreflexive(k);
                assert(a.contains(k));
                let y = choose|y: int| 0 <= y < a.len() && a[y] == k;
                assert(y != 0);
                assert(ta[y - 1] == k);
            }
        }
        assert forall|x: int, y: int| 0 <= x < y < ta.len() implies name_lt(
            #[trigger] ta[x],
            #[trigger] ta[y],
        ) by {
            assert(name_lt(a[x + 1], a[y + 1]));
        }
        assert forall|x: int, y: int| 0 <= x < y < tb.len() implies name_lt(
            #[trigger] tb[x],
            #[trigger] tb[y],
        ) by {
            assert(name_lt(b[x + 1], b[y + 1]));
        }
        lemma_sorted_same_members(ta, tb);
        assert(a =~= seq![a[0]] + ta);
        assert(b =~= seq![b[0]] + tb);
    }
}

} // verus!
