//! The variable mapping: an insertion-ordered association from variable
//! names to rational values, with unique keys.

use vstd::prelude::*;
use vstd::string::StringExecFns;

use crate::text::str_eq;
use crate::value::Value;

verus! {

/// A mapping from variable names to their current values. Keys are unique;
/// replacing a value keeps the key's position, so the key order is the
/// insertion order.
#[derive(Debug)]
pub struct VarMap {
    entries: Vec<(String, Value)>,
}

/// The mapping that a sequence of entries denotes: later entries win (keys
/// are unique in a well-formed `VarMap`, so no entry shadows another).
spec fn entries_map(s: Seq<(String, Value)>) -> Map<Seq<char>, Value>
    decreases s.len(),
{
    if s.len() == 0 {
        Map::empty()
    } else {
        entries_map(s.drop_last()).insert(s.last().0@, s.last().1)
    }
}

impl View for VarMap {
    type V = Map<Seq<char>, Value>;

    closed spec fn view(&self) -> Map<Seq<char>, Value> {
        entries_map(self.entries@)
    }
}

impl VarMap {
    /// The key names, in insertion order.
    pub closed spec fn key_seq(&self) -> Seq<Seq<char>> {
        self.entries@.map_values(|e: (String, Value)| e.0@)
    }

    /// Keys are pairwise distinct and every value is a well-formed rational.
    pub closed spec fn wf(&self) -> bool {
        &&& forall|i: int, j: int|
            0 <= i < j < self.entries@.len() ==> self.entries@[i].0@ != self.entries@[j].0@
        &&& forall|i: int| 0 <= i < self.entries@.len() ==> (#[trigger] self.entries@[i].1).wf()
    }

    pub fn new() -> (r: VarMap)
        ensures
            r.wf(),
            r@ == Map::<Seq<char>, Value>::empty(),
            r.key_seq() == Seq::<Seq<char>>::empty(),
    {
        let r = VarMap { entries: Vec::new() };
        proof {
            assert(r.key_seq() =~~= Seq::<Seq<char>>::empty());
        }
        r
    }

    /// How many variables the mapping holds.
    pub fn len(&self) -> (n: usize)
        requires
            self.wf(),
        ensures
            n == self.key_seq().len(),
            n == self@.dom().len(),
    {
        proof {
            lemma_entries_dom(self.entries@);
        }
        self.entries.len()
    }

    /// The value of `name`, when the mapping knows it.
    pub fn get(&self, name: &str) -> (r: Option<Value>)
        requires
            self.wf(),
        ensures
            match r {
                Some(v) => self@.contains_key(name@) && v == self@[name@] && v.wf(),
                None => !self@.contains_key(name@),
            },
    {
        let n = self.entries.len();
        let mut i: usize = 0;
        while i < n
            invariant
                self.wf(),
                i <= n,
                n == self.entries@.len(),
                forall|j: int| 0 <= j < i ==> self.entries@[j].0@ != name@,
            decreases n - i,
        {
            if str_eq(self.entries[i].0.as_str(), name) {
                proof {
                    lemma_entries_map_found(self.entries@, i as int);
                }
                return Some(self.entries[i].1);
            }
            i = i + 1;
        }
        proof {
            lemma_entries_map_absent(self.entries@, name@);
        }
        None
    }

    /// Whether the mapping knows `name`.
    pub fn contains(&self, name: &str) -> (r: bool)
        requires
            self.wf(),
        ensures
            r == self@.contains_key(name@),
    {
        self.get(name).is_some()
    }

    /// Sets `name` to `value`: replaces in place when the key exists, appends
    /// a new key otherwise.
    pub fn put(&mut self, name: &str, value: Value)
        requires
            old(self).wf(),
            value.wf(),
        ensures
            final(self).wf(),
            final(self)@ == old(self)@.insert(name@, value),
            old(self)@.contains_key(name@) ==> final(self).key_seq() == old(self).key_seq(),
            !old(self)@.contains_key(name@) ==> final(self).key_seq() == old(self).key_seq().push(
                name@,
            ),
    {
        let n = self.entries.len();
        let mut i: usize = 0;
        while i < n
            invariant
                old(self).wf(),
                value.wf(),
                *self == *old(self),
                i <= n,
                n == self.entries@.len(),
                forall|j: int| 0 <= j < i ==> self.entries@[j].0@ != name@,
            decreases n - i,
        {
            if str_eq(self.entries[i].0.as_str(), name) {
                let ghost before = self.entries@;
                self.entries[i].1 = value;
                proof {
                    assert(self.entries@ =~= before.update(i as int, (before[i as int].0, value)));
                    lemma_entries_map_found(before, i as int);
                    lemma_entries_map_update(before, i as int, value);
                    assert forall|p: int, q: int|
                        0 <= p < q < self.entries@.len() implies (self.entries@[p]).0@ != (
                    self.entries@[q]).0@ by {
                        assert(before[p].0@ != before[q].0@);
                        assert(self.entries@[p].0 == before[p].0);
                        assert(self.entries@[q].0 == before[q].0);
                    }
                    assert forall|p: int|
                        0 <= p < self.entries@.len() implies (self.entries@[p]).1.wf() by {
                        if p != i as int {
                            assert(self.entries@[p].1 == before[p].1);
                            assert(before[p].1.wf());
                        } else {
                            assert(self.entries@[p].1 == value);
                        }
                    }
                    assert(self.wf());
                    assert(self.key_seq() =~~= old(self).key_seq());
                }
                return ;
            }
            i = i + 1;
        }
        let ghost before = self.entries@;
        self.entries.push((String::from_str(name), value));
        proof {
            assert(self.entries@.drop_last() =~= before);
            lemma_entries_map_absent(before, name@);
            assert(self.wf());
            assert(self.key_seq() =~~= old(self).key_seq().push(name@));
        }
    }

    /// The key names, in insertion order.
    pub fn keys(&self) -> (r: Vec<String>)
        ensures
            r@.len() == self.key_seq().len(),
            forall|i: int| 0 <= i < r@.len() ==> r@[i]@ == self.key_seq()[i],
    {
        let n = self.entries.len();
        let mut r: Vec<String> = Vec::new();
        let mut i: usize = 0;
        while i < n
            invariant
                i <= n,
                n == self.entries@.len(),
                r@.len() == i,
                forall|j: int| 0 <= j < i ==> r@[j]@ == self.key_seq()[j],
            decreases n - i,
        {
            r.push(self.entries[i].0.clone());
            i = i + 1;
        }
        r
    }
}

/// An entry settles the mapping at its key when no later entry shares it.
proof fn lemma_entries_map_found(s: Seq<(String, Value)>, i: int)
    requires
        0 <= i < s.len(),
        forall|j: int| i < j < s.len() ==> s[j].0@ != s[i].0@,
    ensures
        entries_map(s).contains_key(s[i].0@),
        entries_map(s)[s[i].0@] == s[i].1,
    decreases s.len(),
{
    if i + 1 < s.len() {
        assert(s.drop_last()[i] == s[i]);
        lemma_entries_map_found(s.drop_last(), i);
    }
}

/// A name on no entry is not in the mapping.
proof fn lemma_entries_map_absent(s: Seq<(String, Value)>, name: Seq<char>)
    requires
        forall|j: int| 0 <= j < s.len() ==> s[j].0@ != name,
    ensures
        !entries_map(s).contains_key(name),
    decreases s.len(),
{
    if s.len() > 0 {
        lemma_entries_map_absent(s.drop_last(), name);
    }
}

/// Replacing one entry's value replaces exactly that key's value in the
/// mapping, when keys are unique.
proof fn lemma_entries_map_update(s: Seq<(String, Value)>, i: int, value: Value)
    requires
        0 <= i < s.len(),
        forall|p: int, q: int| 0 <= p < q < s.len() ==> s[p].0@ != s[q].0@,
    ensures
        entries_map(s.update(i, (s[i].0, value))) == entries_map(s).insert(s[i].0@, value),
    decreases s.len(),
{
    let t = s.update(i, (s[i].0, value));
    if i + 1 == s.len() {
        assert(t.drop_last() =~= s.drop_last());
        assert(entries_map(t) =~= entries_map(s).insert(s[i].0@, value));
    } else {
        assert(t.drop_last() =~= s.drop_last().update(i, (s[i].0, value)));
        assert(s.drop_last()[i] == s[i]);
        lemma_entries_map_update(s.drop_last(), i, value);
        assert(t.last() == s.last());
        assert(entries_map(t) == entries_map(t.drop_last()).insert(t.last().0@, t.last().1));
        assert(entries_map(t) =~= entries_map(s).insert(s[i].0@, value));
    }
}

/// The mapping's domain has exactly one element per entry, when keys are
/// unique.
proof fn lemma_entries_dom(s: Seq<(String, Value)>)
    requires
        forall|p: int, q: int| 0 <= p < q < s.len() ==> s[p].0@ != s[q].0@,
    ensures
        entries_map(s).dom().finite(),
        entries_map(s).dom().len() == s.len(),
    decreases s.len(),
{
    if s.len() > 0 {
        lemma_entries_dom(s.drop_last());
        lemma_entries_map_absent(s.drop_last(), s.last().0@);
    }
}

} // verus!
