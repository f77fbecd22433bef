//! A mapping from field names to values, keyed by the mathematical
//! equality that [`FieldName`] implementations decide.

use crate::FieldName;
use vstd::prelude::*;

verus! {

/// An association map from field names to values. Inserting under a name
/// that is already present replaces the stored value.
pub struct ValueMap<F, V> {
    entries: Vec<(F, V)>,
}

/// The mapping an entry list denotes: later entries shadow earlier ones.
spec fn entries_map<F, V>(s: Seq<(F, V)>) -> Map<F, V>
    decreases s.len(),
{
    if s.len() == 0 {
        Map::empty()
    } else {
        entries_map(s.drop_last()).insert(s.last().0, s.last().1)
    }
}

proof fn lemma_entries_map_found<F, V>(s: Seq<(F, V)>, name: F, i: int)
    requires
        0 <= i < s.len(),
        s[i].0 == name,
        forall|j: int| i < j < s.len() ==> (#[trigger] s[j]).0 != name,
    ensures
        entries_map(s).contains_key(name),
        entries_map(s)[name] == s[i].1,
    decreases s.len(),
{
    if i < s.len() - 1 {
        lemma_entries_map_found(s.drop_last(), name, i);
    }
}

proof fn lemma_entries_map_absent<F, V>(s: Seq<(F, V)>, name: F)
    requires
        forall|j: int| 0 <= j < s.len() ==> (#[trigger] s[j]).0 != name,
    ensures
        !entries_map(s).contains_key(name),
    decreases s.len(),
{
    if s.len() > 0 {
        lemma_entries_map_absent(s.drop_last(), name);
    }
}

impl<F: FieldName, V> View for ValueMap<F, V> {
    type V = Map<F, V>;

    closed spec fn view(&self) -> Map<F, V> {
        entries_map(self.entries@)
    }
}

impl<F: FieldName, V> ValueMap<F, V> {
    /// Creates an empty mapping.
    pub fn new() -> (r: Self)
        ensures
            r@ == Map::<F, V>::empty(),
    {
        ValueMap { entries: Vec::new() }
    }

    /// Binds `name` to `value`, replacing any value stored under `name`.
    pub fn insert(&mut self, name: F, value: V)
        ensures
            final(self)@ == old(self)@.insert(name, value),
    {
        let ghost before = self.entries@;
        self.entries.push((name, value));
        proof {
            assert(self.entries@.drop_last() =~= before);
        }
    }

    /// Looks up the value stored under `name`.
    pub fn get(&self, name: &F) -> (r: Option<&V>)
        ensures
            match r {
                Some(v) => self@.contains_key(*name) && *v == self@[*name],
                None => !self@.contains_key(*name),
            },
    {
        let n = self.entries.len();
        let mut i: usize = n;
        while i > 0
            invariant
                i <= n == self.entries@.len(),
                forall|j: int| i <= j < n ==> (#[trigger] self.entries@[j]).0 != *name,
            decreases i,
        {
            i = i - 1;
            let entry = &self.entries[i];
            if entry.0.eq_name(name) {
                proof {
                    lemma_entries_map_found(self.entries@, *name, i as int);
                }
                return Some(&entry.1);
            }
        }
        proof {
            lemma_entries_map_absent(self.entries@, *name);
        }
        None
    }
}

} // verus!
