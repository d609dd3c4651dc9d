//! A flat mapping from variable names to values, the shape shared by a
//! configuration's `environment` field and by a parsed overlay file.

use vstd::prelude::*;
use crate::text::str_eq;

verus! {

/// Environment-variable assignments, one entry per distinct name.
///
/// The meaning of a value is the mapping [`EnvMap::as_map`]; the entry order
/// only records insertion history and carries no meaning of its own.
#[derive(Debug, Clone, PartialEq)]
pub struct EnvMap {
    pub entries: Vec<(String, String)>,
}

/// The mapping denoted by a sequence of assignments, a later entry winning
/// over an earlier one with the same name.
pub open spec fn map_of(entries: Seq<(String, String)>) -> Map<Seq<char>, Seq<char>>
    decreases entries.len(),
{
    if entries.len() == 0 {
        Map::empty()
    } else {
        map_of(entries.drop_last()).insert(entries.last().0@, entries.last().1@)
    }
}

/// A key is in the mapping exactly when some entry carries it.
pub proof fn lemma_map_of_contains(entries: Seq<(String, String)>, k: Seq<char>)
    ensures
        map_of(entries).contains_key(k) <==> exists|i: int|
            0 <= i < entries.len() && entries[i].0@ == k,
    decreases entries.len(),
{
    if entries.len() > 0 {
        lemma_map_of_contains(entries.drop_last(), k);
        if entries.last().0@ == k {
            assert(entries[entries.len() - 1].0@ == k);
        } else if map_of(entries).contains_key(k) {
            let i = choose|i: int| 0 <= i < entries.drop_last().len() && entries.drop_last()[i].0@ == k;
            assert(entries[i].0@ == k);
        } else if exists|i: int| 0 <= i < entries.len() && entries[i].0@ == k {
            let i = choose|i: int| 0 <= i < entries.len() && entries[i].0@ == k;
            assert(entries.drop_last()[i].0@ == k);
        }
    }
}

/// An entry whose name no later entry repeats decides the mapping's value at
/// that name.
pub proof fn lemma_map_of_get(entries: Seq<(String, String)>, i: int)
    requires
        0 <= i < entries.len(),
        forall|j: int| i < j < entries.len() ==> entries[j].0@ != entries[i].0@,
    ensures
        map_of(entries).contains_key(entries[i].0@),
        map_of(entries)[entries[i].0@] == entries[i].1@,
    decreases entries.len(),
{
    if i == entries.len() - 1 {
    } else {
        lemma_map_of_get(entries.drop_last(), i);
        assert(entries.drop_last()[i] == entries[i]);
    }
}

/// Replacing the value of an entry whose name no later entry repeats acts on
/// the mapping as an insert of the new pair.
pub proof fn lemma_map_of_update(entries: Seq<(String, String)>, i: int, p: (String, String))
    requires
        0 <= i < entries.len(),
        p.0@ == entries[i].0@,
        forall|j: int| i < j < entries.len() ==> entries[j].0@ != p.0@,
    ensures
        map_of(entries.update(i, p)) =~= map_of(entries).insert(p.0@, p.1@),
    decreases entries.len(),
{
    let upd = entries.update(i, p);
    if i == entries.len() - 1 {
        assert(upd.drop_last() =~= entries.drop_last());
    } else {
        assert(upd.drop_last() =~= entries.drop_last().update(i, p));
        assert(entries.drop_last()[i] == entries[i]);
        lemma_map_of_update(entries.drop_last(), i, p);
        assert(upd.last() == entries.last());
    }
}

/// Under unique names, the mapping has exactly one pair per entry.
pub proof fn lemma_map_of_dom_len(entries: Seq<(String, String)>)
    requires
        forall|i: int, j: int|
            0 <= i < j < entries.len() ==> entries[i].0@ != entries[j].0@,
    ensures
        map_of(entries).dom().finite(),
        map_of(entries).dom().len() == entries.len(),
    decreases entries.len(),
{
    if entries.len() > 0 {
        let rest = entries.drop_last();
        lemma_map_of_dom_len(rest);
        lemma_map_of_contains(rest, entries.last().0@);
        assert(!map_of(rest).contains_key(entries.last().0@));
        assert(map_of(entries).dom() =~= map_of(rest).dom().insert(entries.last().0@));
    }
}

impl EnvMap {
    /// The mapping this value denotes.
    pub open spec fn as_map(self) -> Map<Seq<char>, Seq<char>> {
        map_of(self.entries@)
    }

    /// Well-formed: no two entries share a name.
    pub open spec fn wf(self) -> bool {
        forall|i: int, j: int|
            0 <= i < j < self.entries@.len() ==> self.entries@[i].0@ != self.entries@[j].0@
    }

    /// An empty mapping.
    pub fn new() -> (r: EnvMap)
        ensures
            r.wf(),
            r.as_map() == Map::<Seq<char>, Seq<char>>::empty(),
            r.entries@.len() == 0,
    {
        EnvMap { entries: Vec::new() }
    }

    /// Number of assignments held.
    pub fn len(&self) -> (n: usize)
        ensures
            n == self.entries@.len(),
            self.wf() ==> n == self.as_map().dom().len(),
    {
        proof {
            if self.wf() {
                lemma_map_of_dom_len(self.entries@);
            }
        }
        self.entries.len()
    }

    /// Binds `key` to `value`, replacing any earlier binding of `key`.
    pub fn insert(&mut self, key: String, value: String)
        requires
            old(self).wf(),
        ensures
            final(self).wf(),
            final(self).as_map() == old(self).as_map().insert(key@, value@),
    {
        let n = self.entries.len();
        let mut i: usize = 0;
        while i < n
            invariant
                self == old(self),
                self.wf(),
                n == self.entries@.len(),
                i <= n,
                forall|j: int| 0 <= j < i ==> self.entries@[j].0@ != key@,
            decreases n - i,
        {
            if str_eq(self.entries[i].0.as_str(), key.as_str()) {
                proof {
                    assert(self.entries@[i as int].0@ == key@);
                    assert forall|j: int| i < j < self.entries@.len() implies self.entries@[j].0@
                        != key@ by {
                        assert(self.entries@[i as int].0@ != self.entries@[j].0@);
                    }
                    lemma_map_of_update(self.entries@, i as int, (key, value));
                }
                self.entries[i] = (key, value);
                proof {
                    let oe = old(self).entries@;
                    let ue = self.entries@;
                    assert(forall|k: int| 0 <= k < ue.len() && k != i ==> ue[k] == oe[k]);
                    assert(ue[i as int].0@ == oe[i as int].0@);
                    assert forall|a: int, b: int| 0 <= a < b < ue.len() implies ue[a].0@
                        != ue[b].0@ by {
                        assert(oe[a].0@ != oe[b].0@);
                    }
                }
                return ;
            }
            i = i + 1;
        }
        proof {
            assert(self.entries@.push((key, value)).drop_last() =~= self.entries@);
        }
        self.entries.push((key, value));
    }

    /// The value bound to `key`, if any.
    pub fn get(&self, key: &str) -> (r: Option<&String>)
        requires
            self.wf(),
        ensures
            r matches Some(v) ==> self.as_map().contains_key(key@) && v@ == self.as_map()[key@],
            r is None ==> !self.as_map().contains_key(key@),
    {
        let n = self.entries.len();
        let mut i: usize = 0;
        while i < n
            invariant
                self.wf(),
                n == self.entries@.len(),
                i <= n,
                forall|j: int| 0 <= j < i ==> self.entries@[j].0@ != key@,
            decreases n - i,
        {
            if str_eq(self.entries[i].0.as_str(), key) {
                proof {
                    lemma_map_of_get(self.entries@, i as int);
                }
                return Some(&self.entries[i].1);
            }
            i = i + 1;
        }
        proof {
            lemma_map_of_contains(self.entries@, key@);
        }
        None
    }
}

} // verus!
