//! A map from MCP server names to their configuration.
use vstd::prelude::*;

use crate::text::str_eq;
use crate::text::string_views;

verus! {

/// The map that the entries describe, later entries winning.
pub open spec fn entries_map<M>(entries: Seq<(String, M)>) -> Map<Seq<char>, M>
    decreases entries.len(),
{
    if entries.len() == 0 {
        Map::empty()
    } else {
        entries_map(entries.drop_last()).insert(entries.last().0@, entries.last().1)
    }
}

/// The names of the entries.
pub open spec fn entry_names<M>(entries: Seq<(String, M)>) -> Seq<Seq<char>> {
    entries.map_values(|e: (String, M)| e.0@)
}

/// No two entries share a name.
pub open spec fn distinct_names<M>(entries: Seq<(String, M)>) -> bool {
    forall|i: int, j: int|
        0 <= i < j < entries.len() ==> #[trigger] entries[i].0@ != #[trigger] entries[j].0@
}

proof fn lemma_entries_map_contains<M>(entries: Seq<(String, M)>, name: Seq<char>)
    ensures
        entries_map(entries).dom().contains(name) <==> exists|i: int|
            0 <= i < entries.len() && #[trigger] entries[i].0@ == name,
    decreases entries.len(),
{
    if entries.len() > 0 {
        let t = entries.drop_last();
        lemma_entries_map_contains(t, name);
        if entries_map(t).dom().contains(name) {
            let i = choose|i: int| 0 <= i < t.len() && #[trigger] t[i].0@ == name;
            assert(entries[i].0@ == name);
        }
        if exists|i: int| 0 <= i < entries.len() && #[trigger] entries[i].0@ == name {
            let i = choose|i: int| 0 <= i < entries.len() && #[trigger] entries[i].0@ == name;
            if i < entries.len() - 1 {
                assert(t[i].0@ == name);
            }
        }
    }
}

proof fn lemma_entries_map_update<M>(entries: Seq<(String, M)>, i: int, e: (String, M))
    requires
        0 <= i < entries.len(),
        distinct_names(entries),
        entries[i].0@ == e.0@,
    ensures
        entries_map(entries.update(i, e)) == entries_map(entries).insert(e.0@, e.1),
    decreases entries.len(),
{
    let u = entries.update(i, e);
    let t = entries.drop_last();
    if i == entries.len() - 1 {
        assert(u.drop_last() =~= t);
        assert(entries_map(entries).insert(e.0@, e.1) =~= entries_map(t).insert(e.0@, e.1));
    } else {
        assert(u.drop_last() =~= t.update(i, e));
        lemma_entries_map_update(t, i, e);
        assert(entries.last().0@ != e.0@);
        assert(entries_map(u) =~= entries_map(entries).insert(e.0@, e.1));
    }
}

/// MCP server configurations keyed by server name; names are unique.
pub struct McpServerMap<M> {
    entries: Vec<(String, M)>,
}

impl<M> View for McpServerMap<M> {
    type V = Map<Seq<char>, M>;

    closed spec fn view(&self) -> Map<Seq<char>, M> {
        entries_map(self.entries@)
    }
}

impl<M> McpServerMap<M> {
    #[verifier::type_invariant]
    spec fn names_are_distinct(self) -> bool {
        distinct_names(self.entries@)
    }

    /// An empty map.
    pub fn new() -> (r: Self)
        ensures
            r@ == Map::<Seq<char>, M>::empty(),
    {
        McpServerMap { entries: Vec::new() }
    }

    /// The position of the entry named `name`, if any.
    fn position(&self, name: &str) -> (r: Option<usize>)
        ensures
            match r {
                Some(i) => i < self.entries@.len() && self.entries@[i as int].0@ == name@,
                None => forall|i: int|
                    0 <= i < self.entries@.len() ==> #[trigger] self.entries@[i].0@ != name@,
            },
    {
        let mut i: usize = 0;
        while i < self.entries.len()
            invariant
                i <= self.entries@.len(),
                forall|j: int| 0 <= j < i ==> #[trigger] self.entries@[j].0@ != name@,
            decreases self.entries.len() - i,
        {
            if str_eq(self.entries[i].0.as_str(), name) {
                return Some(i);
            }
            i = i + 1;
        }
        None
    }

    /// Whether a server named `name` is configured.
    pub fn contains_key(&self, name: &str) -> (r: bool)
        ensures
            r == self@.dom().contains(name@),
    {
        proof {
            lemma_entries_map_contains(self.entries@, name@);
        }
        self.position(name).is_some()
    }

    /// Adds or replaces the server named `name`.
    pub fn insert(&mut self, name: String, value: M)
        ensures
            final(self)@ == old(self)@.insert(name@, value),
    {
        proof {
            use_type_invariant(&*self);
        }
        let ghost old_entries = self.entries@;
        match self.position(name.as_str()) {
            Some(i) => {
                let ghost e = (name, value);
                let mut entries = Vec::new();
                std::mem::swap(&mut entries, &mut self.entries);
                entries.set(i, (name, value));
                proof {
                    lemma_entries_map_update(old_entries, i as int, e);
                    assert(entries@ =~= old_entries.update(i as int, e));
                }
                self.entries = entries;
            },
            None => {
                let ghost e = (name, value);
                let mut entries = Vec::new();
                std::mem::swap(&mut entries, &mut self.entries);
                entries.push((name, value));
                proof {
                    assert(entries@.drop_last() =~= old_entries);
                }
                self.entries = entries;
            },
        }
    }

    /// The names of the configured servers, each once.
    pub fn keys(&self) -> (r: Vec<String>)
        ensures
            string_views(r@).no_duplicates(),
            string_views(r@).to_set() == self@.dom(),
    {
        proof {
            use_type_invariant(self);
        }
        let mut r: Vec<String> = Vec::new();
        let mut i: usize = 0;
        while i < self.entries.len()
            invariant
                i <= self.entries@.len(),
                distinct_names(self.entries@),
                r@.len() == i,
                forall|j: int| 0 <= j < i ==> #[trigger] r@[j]@ == self.entries@[j].0@,
            decreases self.entries.len() - i,
        {
            r.push(self.entries[i].0.clone());
            i = i + 1;
        }
        proof {
            let v = string_views(r@);
            assert forall|a: int, b: int| 0 <= a < v.len() && 0 <= b < v.len() && a != b implies v[a]
                != v[b] by {
                if a < b {
                    assert(self.entries@[a].0@ != self.entries@[b].0@);
                } else {
                    assert(self.entries@[b].0@ != self.entries@[a].0@);
                }
            }
            assert forall|n: Seq<char>| v.to_set().contains(n) <==> self@.dom().contains(n) by {
                lemma_entries_map_contains(self.entries@, n);
                if v.to_set().contains(n) {
                    let j = choose|j: int| 0 <= j < v.len() && v[j] == n;
                    assert(self.entries@[j].0@ == n);
                }
                if self@.dom().contains(n) {
                    let j = choose|j: int| 0 <= j < self.entries@.len() && #[trigger] self.entries@[j].0@ == n;
                    assert(v[j] == n);
                }
            }
            assert(v.to_set() =~= self@.dom());
        }
        r
    }

    /// Drops every server whose name is in `names`; the others stay.
    pub fn remove_named(&mut self, names: &Vec<String>)
        ensures
            final(self)@ == old(self)@.remove_keys(string_views(names@).to_set()),
    {
        proof {
            use_type_invariant(&*self);
        }
        let ghost names_set = string_views(names@).to_set();
        let ghost old_entries = self.entries@;
        let mut rest = Vec::new();
        std::mem::swap(&mut rest, &mut self.entries);
        let mut kept: Vec<(String, M)> = Vec::new();
        let ghost mut j: int = 0;
        assert(old_entries.take(0) =~= Seq::<(String, M)>::empty());
        assert(entries_map(Seq::<(String, M)>::empty()).remove_keys(names_set) =~= Map::empty());
        while rest.len() > 0
            invariant
                0 <= j <= old_entries.len(),
                rest@ == old_entries.skip(j),
                distinct_names(old_entries),
                distinct_names(kept@),
                forall|k: int|
                    0 <= k < kept@.len() ==> exists|m: int|
                        0 <= m < j && #[trigger] old_entries[m].0@ == #[trigger] kept@[k].0@,
                entries_map(kept@) == entries_map(old_entries.take(j)).remove_keys(names_set),
                names_set == string_views(names@).to_set(),
            decreases rest.len(),
        {
            let e = rest.remove(0);
            assert(e == old_entries[j]);
            assert(old_entries.take(j + 1) =~= old_entries.take(j).push(e));
            assert(old_entries.take(j + 1).drop_last() =~= old_entries.take(j));
            let mut named = false;
            let mut q: usize = 0;
            while q < names.len()
                invariant
                    q <= names@.len(),
                    named == exists|m: int| 0 <= m < q && #[trigger] names@[m]@ == e.0@,
                decreases names.len() - q,
            {
                if names[q] == e.0 {
                    named = true;
                }
                q = q + 1;
            }
            proof {
                assert(named == names_set.contains(e.0@)) by {
                    if named {
                        let m = choose|m: int| 0 <= m < q && #[trigger] names@[m]@ == e.0@;
                        assert(string_views(names@)[m] == e.0@);
                    }
                    if names_set.contains(e.0@) {
                        let m = choose|m: int|
                            0 <= m < string_views(names@).len() && string_views(names@)[m] == e.0@;
                        assert(names@[m]@ == e.0@);
                    }
                }
            }
            if named {
                assert(entries_map(kept@) =~= entries_map(old_entries.take(j + 1)).remove_keys(
                    names_set,
                ));
            } else {
                let ghost before = kept@;
                proof {
                    assert forall|k: int| 0 <= k < before.len() implies before[k].0@ != e.0@ by {
                        let m = choose|m: int|
                            0 <= m < j && #[trigger] old_entries[m].0@ == #[trigger] before[k].0@;
                        assert(old_entries[m].0@ != old_entries[j].0@);
                    }
                }
                kept.push(e);
                proof {
                    assert(kept@.drop_last() =~= before);
                    assert(entries_map(kept@) =~= entries_map(old_entries.take(j + 1)).remove_keys(
                        names_set,
                    ));
                    assert forall|k: int| 0 <= k < kept@.len() implies exists|m: int|
                        0 <= m < j + 1 && #[trigger] old_entries[m].0@ == #[trigger] kept@[k].0@ by {
                        if k == before.len() {
                            assert(old_entries[j].0@ == kept@[k].0@);
                        } else {
                            assert(kept@[k] == before[k]);
                        }
                    }
                }
            }
            proof {
                j = j + 1;
                assert(old_entries.skip(j) =~= old_entries.skip(j - 1).remove(0));
            }
        }
        assert(old_entries.take(j) =~= old_entries);
        self.entries = kept;
    }
}

} // verus!
