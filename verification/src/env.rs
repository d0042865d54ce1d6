//! The variable environment: a map from names to numbers.

use vstd::prelude::*;
use crate::text::same_text;

verus! {

/// Bindings of variable names to binary64 bit patterns.
///
/// The bindings are kept in insertion order; no name is bound twice.
pub struct Environment {
    entries: Vec<(String, u64)>,
}

/// Whether `i` is a position of `entries` that binds `name`.
spec fn binds_at(entries: Seq<(String, u64)>, name: Seq<char>, i: int) -> bool {
    0 <= i < entries.len() && entries[i].0@ == name
}

/// The map that a duplicate-free list of bindings stands for.
spec fn bindings(entries: Seq<(String, u64)>) -> Map<Seq<char>, u64> {
    Map::new(
        |name: Seq<char>| exists|i: int| binds_at(entries, name, i),
        |name: Seq<char>| entries[choose|i: int| binds_at(entries, name, i)].1,
    )
}

/// No name occurs at two positions.
spec fn distinct_names(entries: Seq<(String, u64)>) -> bool {
    forall|i: int, j: int|
        0 <= i < j < entries.len() ==> entries[i].0@ != entries[j].0@
}

impl View for Environment {
    type V = Map<Seq<char>, u64>;

    closed spec fn view(&self) -> Map<Seq<char>, u64> {
        bindings(self.entries@)
    }
}

impl Environment {
    #[verifier::type_invariant]
    spec fn well_formed(&self) -> bool {
        distinct_names(self.entries@)
    }

    /// An environment without bindings.
    pub fn new() -> (env: Environment)
        ensures
            env@ == Map::<Seq<char>, u64>::empty(),
    {
        let env = Environment { entries: Vec::new() };
        assert(env@ =~= Map::<Seq<char>, u64>::empty());
        env
    }

    /// The number bound to `name`, if it is bound.
    pub fn get(&self, name: &str) -> (value: Option<u64>)
        ensures
            value == (if self@.contains_key(name@) {
                Some(self@[name@])
            } else {
                None
            }),
    {
        proof {
            use_type_invariant(self);
        }
        match position(&self.entries, name) {
            Some(i) => {
                proof {
                    lemma_bound_value(self.entries@, i as int);
                }
                Some(self.entries[i].1)
            },
            None => None,
        }
    }

    /// Binds `name` to `value`, and returns the number it was bound to before.
    pub fn insert(&mut self, name: String, value: u64) -> (previous: Option<u64>)
        ensures
            final(self)@ == old(self)@.insert(name@, value),
            previous == (if old(self)@.contains_key(name@) {
                Some(old(self)@[name@])
            } else {
                None
            }),
    {
        proof {
            use_type_invariant(&*self);
        }
        // The list is taken out while it changes, and put back once no
        // name occurs twice in it.
        let mut entries: Vec<(String, u64)> = Vec::new();
        core::mem::swap(&mut entries, &mut self.entries);
        let ghost before = entries@;
        let previous = match position(&entries, name.as_str()) {
            Some(i) => {
                let previous = entries[i].1;
                proof {
                    lemma_bound_value(before, i as int);
                    lemma_rebind(before, i as int, (name, value));
                }
                entries.set(i, (name, value));
                Some(previous)
            },
            None => {
                proof {
                    lemma_bind_new(before, (name, value));
                }
                entries.push((name, value));
                None
            },
        };
        core::mem::swap(&mut entries, &mut self.entries);
        previous
    }
}

/// The position that binds `name`, if there is one.
fn position(entries: &Vec<(String, u64)>, name: &str) -> (at: Option<usize>)
    ensures
        match at {
            Some(i) => binds_at(entries@, name@, i as int),
            None => forall|i: int| !binds_at(entries@, name@, i),
        },
{
    let mut i: usize = 0;
    while i < entries.len()
        invariant
            i <= entries.len(),
            forall|j: int| 0 <= j < i ==> entries@[j].0@ != name@,
        decreases entries.len() - i,
    {
        if same_text(entries[i].0.as_str(), name) {
            return Some(i);
        }
        i += 1;
    }
    None
}

/// In a duplicate-free list, the map holds at each name the number listed
/// with it.
proof fn lemma_bound_value(entries: Seq<(String, u64)>, i: int)
    requires
        distinct_names(entries),
        0 <= i < entries.len(),
    ensures
        bindings(entries).contains_key(entries[i].0@),
        bindings(entries)[entries[i].0@] == entries[i].1,
{
    let name = entries[i].0@;
    assert(binds_at(entries, name, i));
    let k = choose|k: int| binds_at(entries, name, k);
    assert(k == i);
}

/// Replacing the entry at a position by one of the same name updates the
/// map at that name and nowhere else.
proof fn lemma_rebind(entries: Seq<(String, u64)>, i: int, entry: (String, u64))
    requires
        distinct_names(entries),
        0 <= i < entries.len(),
        entries[i].0@ == entry.0@,
    ensures
        distinct_names(entries.update(i, entry)),
        bindings(entries.update(i, entry)) == bindings(entries).insert(entry.0@, entry.1),
{
    let after = entries.update(i, entry);
    assert(distinct_names(after)) by {
        assert forall|a: int, b: int| 0 <= a < b < after.len() implies after[a].0@ != after[b].0@ by {
            assert(after[a].0@ == entries[a].0@);
            assert(after[b].0@ == entries[b].0@);
        }
    }
    let expected = bindings(entries).insert(entry.0@, entry.1);
    assert forall|name: Seq<char>| bindings(after).contains_key(name) <==> expected.contains_key(
        name,
    ) by {
        if bindings(after).contains_key(name) {
            let k = choose|k: int| binds_at(after, name, k);
            assert(binds_at(entries, name, k));
        }
        if expected.contains_key(name) {
            if name == entry.0@ {
                assert(binds_at(after, name, i));
            } else {
                let k = choose|k: int| binds_at(entries, name, k);
                assert(binds_at(after, name, k));
            }
        }
    }
    assert forall|name: Seq<char>| bindings(after).contains_key(name) implies bindings(after)[name]
        == expected[name] by {
        let k = choose|k: int| binds_at(after, name, k);
        lemma_bound_value(after, k);
        if k != i {
            lemma_bound_value(entries, k);
        }
    }
    assert(bindings(after) =~= expected);
}

/// Appending an entry whose name is not listed yet adds it to the map.
proof fn lemma_bind_new(entries: Seq<(String, u64)>, entry: (String, u64))
    requires
        distinct_names(entries),
        forall|i: int| !binds_at(entries, entry.0@, i),
    ensures
        distinct_names(entries.push(entry)),
        bindings(entries.push(entry)) == bindings(entries).insert(entry.0@, entry.1),
        !bindings(entries).contains_key(entry.0@),
{
    let after = entries.push(entry);
    let last = entries.len() as int;
    assert(distinct_names(after)) by {
        assert forall|a: int, b: int| 0 <= a < b < after.len() implies after[a].0@ != after[b].0@ by {
            if b == last {
                assert(!binds_at(entries, entry.0@, a));
            }
        }
    }
    let expected = bindings(entries).insert(entry.0@, entry.1);
    assert forall|name: Seq<char>| bindings(after).contains_key(name) <==> expected.contains_key(
        name,
    ) by {
        if bindings(after).contains_key(name) {
            let k = choose|k: int| binds_at(after, name, k);
            if k != last {
                assert(binds_at(entries, name, k));
            }
        }
        if expected.contains_key(name) {
            if name == entry.0@ {
                assert(binds_at(after, name, last));
            } else {
                let k = choose|k: int| binds_at(entries, name, k);
                assert(binds_at(after, name, k));
            }
        }
    }
    assert forall|name: Seq<char>| bindings(after).contains_key(name) implies bindings(after)[name]
        == expected[name] by {
        let k = choose|k: int| binds_at(after, name, k);
        lemma_bound_value(after, k);
        if k != last {
            lemma_bound_value(entries, k);
        }
    }
    assert(bindings(after) =~= expected);
}

} // verus!
