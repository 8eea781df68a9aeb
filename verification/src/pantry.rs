//! A finite mapping from ingredient names to whole quantities.
//!
//! Recipes and pantries are both such mappings: a recipe says how much of
//! each ingredient one batch needs, a pantry how much of each is on hand.

use vstd::prelude::*;
use crate::text::same_text;

verus! {

/// One line of a recipe or of a pantry: an ingredient and how much of it.
pub struct Entry {
    /// The ingredient; upper and lower case are told apart.
    pub name: String,
    /// How much of it.
    pub quantity: u64,
}

/// The names of `entries` are pairwise different.
pub open spec fn distinct_names(entries: Seq<Entry>) -> bool {
    forall|i: int, j: int|
        0 <= i < j < entries.len() ==> (#[trigger] entries[i]).name@ != (#[trigger] entries[j]).name@
}

/// Some entry of `entries` carries `name`.
pub open spec fn names(entries: Seq<Entry>, name: Seq<char>) -> bool {
    exists|i: int| 0 <= i < entries.len() && (#[trigger] entries[i]).name@ == name
}

/// The mapping that a list of entries stands for. Where the names are
/// distinct, each entry is one pair of the mapping.
pub open spec fn entries_map(entries: Seq<Entry>) -> Map<Seq<char>, nat> {
    Map::new(
        |name: Seq<char>| names(entries, name),
        |name: Seq<char>|
            entries[choose|i: int| 0 <= i < entries.len() && (#[trigger] entries[i]).name@ == name].quantity as nat,
    )
}

/// An entry of a list with distinct names is what the mapping holds under its name.
pub proof fn lemma_entry_in_map(entries: Seq<Entry>, i: int)
    requires
        distinct_names(entries),
        0 <= i < entries.len(),
    ensures
        entries_map(entries).dom().contains(entries[i].name@),
        entries_map(entries)[entries[i].name@] == entries[i].quantity as nat,
{
    let name = entries[i].name@;
    let j = choose|j: int| 0 <= j < entries.len() && (#[trigger] entries[j]).name@ == name;
    assert(j == i);
}

/// A mapping from ingredient names to quantities, each name held once.
pub struct Ingredients {
    entries: Vec<Entry>,
}

impl View for Ingredients {
    type V = Map<Seq<char>, nat>;

    closed spec fn view(&self) -> Map<Seq<char>, nat> {
        entries_map(self.entries@)
    }
}

impl Ingredients {
    #[verifier::type_invariant]
    spec fn well_formed(self) -> bool {
        distinct_names(self.entries@)
    }

    /// The mapping without any ingredient.
    pub fn new() -> (empty: Self)
        ensures
            empty@ == Map::<Seq<char>, nat>::empty(),
    {
        let empty = Ingredients { entries: Vec::new() };
        assert(empty@ =~= Map::<Seq<char>, nat>::empty());
        empty
    }

    /// The place of `name` among the entries, if it has one.
    fn position(&self, name: &str) -> (found: Option<usize>)
        ensures
            match found {
                Some(i) => i < self.entries@.len() && self.entries@[i as int].name@ == name@,
                None => !names(self.entries@, name@),
            },
    {
        let mut i: usize = 0;
        while i < self.entries.len()
            invariant
                i <= self.entries@.len(),
                forall|k: int| 0 <= k < i ==> (#[trigger] self.entries@[k]).name@ != name@,
            decreases self.entries@.len() - i,
        {
            if same_text(self.entries[i].name.as_str(), name) {
                return Some(i);
            }
            i += 1;
        }
        None
    }

    /// The quantity held under `name`, if the mapping has that ingredient.
    pub fn get(&self, name: &str) -> (quantity: Option<u64>)
        ensures
            match quantity {
                Some(q) => self@.dom().contains(name@) && self@[name@] == q as nat,
                None => !self@.dom().contains(name@),
            },
    {
        proof {
            use_type_invariant(self);
        }
        match self.position(name) {
            Some(i) => {
                proof {
                    lemma_entry_in_map(self.entries@, i as int);
                }
                Some(self.entries[i].quantity)
            },
            None => None,
        }
    }

    /// Puts `quantity` under `name`, in place of what was held there if anything was.
    pub fn insert(&mut self, name: String, quantity: u64)
        ensures
            final(self)@ == old(self)@.insert(name@, quantity as nat),
    {
        proof {
            use_type_invariant(&*self);
        }
        let found = self.position(name.as_str());
        let ghost before = self.entries@;
        let ghost key = name@;
        let mut entries: Vec<Entry> = Vec::new();
        std::mem::swap(&mut entries, &mut self.entries);
        match found {
            Some(i) => {
                entries.set(i, Entry { name, quantity });
            },
            None => {
                entries.push(Entry { name, quantity });
            },
        }
        proof {
            let after = entries@;
            assert(distinct_names(after));
            assert forall|n: Seq<char>| names(after, n) <==> (n == key || names(before, n)) by {
                if names(after, n) {
                    let k = choose|k: int| 0 <= k < after.len() && (#[trigger] after[k]).name@ == n;
                    if n != key {
                        assert(before[k].name@ == n);
                    }
                }
                if names(before, n) {
                    let k = choose|k: int| 0 <= k < before.len() && (#[trigger] before[k]).name@ == n;
                    assert(after[k].name@ == n);
                }
                if n == key {
                    match found {
                        Some(i) => {
                            assert(after[i as int].name@ == n);
                        },
                        None => {
                            assert(after[before.len() as int].name@ == n);
                        },
                    }
                }
            }
            assert forall|n: Seq<char>| names(after, n) implies #[trigger] entries_map(after)[n] == (if n
                == key {
                quantity as nat
            } else {
                entries_map(before)[n]
            }) by {
                let k = choose|k: int| 0 <= k < after.len() && (#[trigger] after[k]).name@ == n;
                lemma_entry_in_map(after, k);
                if n != key {
                    lemma_entry_in_map(before, k);
                } else {
                    match found {
                        Some(i) => {
                            assert(k == i);
                        },
                        None => {
                            assert(k == before.len());
                        },
                    }
                }
            }
            assert(entries_map(after) =~= entries_map(before).insert(key, quantity as nat));
        }
        self.entries = entries;
    }

    /// The mapping that holds exactly the given pairs.
    pub(crate) fn from_distinct(entries: Vec<Entry>) -> (made: Self)
        requires
            distinct_names(entries@),
        ensures
            made@ == entries_map(entries@),
    {
        Ingredients { entries }
    }

    /// The pairs of the mapping as a list, each name once.
    pub fn entries(&self) -> (entries: &Vec<Entry>)
        ensures
            distinct_names(entries@),
            entries_map(entries@) == self@,
    {
        proof {
            use_type_invariant(self);
        }
        &self.entries
    }
}

} // verus!
