//! An ordered mapping from names to values.
//!
//! The entries keep the order in which their names were first inserted. A
//! hash index from each name to the position of its entry, an
//! `indexmap::IndexMap`, finds an entry without walking the others.

use vstd::prelude::*;

verus! {

/// `indexmap::IndexMap`, held as an opaque value.
#[verifier::external_type_specification]
#[verifier::external_body]
#[verifier::reject_recursive_types(K)]
#[verifier::reject_recursive_types(V)]
#[verifier::reject_recursive_types(S)]
pub struct ExIndexMap<K, V, S>(indexmap::IndexMap<K, V, S>);

/// What a name index holds: the position recorded for each name.
pub uninterp spec fn slot_map(index: indexmap::IndexMap<String, usize>) -> Map<Seq<char>, usize>;

/// Makes an empty name index: `IndexMap::new`. The contract claims that the
/// new index records no name.
#[verifier::external_body]
fn slots_new() -> (index: indexmap::IndexMap<String, usize>)
    ensures
        forall|name: Seq<char>| !slot_map(index).contains_key(name),
{
    indexmap::IndexMap::new()
}

/// Looks a name up: `IndexMap::get`. The contract claims that the position
/// recorded for `name` comes back, and nothing where none is recorded.
#[verifier::external_body]
fn slots_get(index: &indexmap::IndexMap<String, usize>, name: &str) -> (r: Option<usize>)
    ensures
        r == (if slot_map(*index).contains_key(name@) {
            Some(slot_map(*index)[name@])
        } else {
            None
        }),
{
    index.get(name).copied()
}

/// Records a position for a name: `IndexMap::insert`. The contract claims
/// that afterwards `name` has `position` and every other name has what it had.
#[verifier::external_body]
fn slots_insert(index: &mut indexmap::IndexMap<String, usize>, name: String, position: usize)
    ensures
        slot_map(*final(index)) == slot_map(*old(index)).insert(name@, position),
{
    index.insert(name, position);
}

/// The first position at which `name` is the name of an entry, or the number
/// of entries where no entry has that name.
pub open spec fn position<V>(entries: Seq<(Seq<char>, V)>, name: Seq<char>) -> int
    decreases entries.len(),
{
    if entries.len() == 0 {
        0
    } else if entries[0].0 == name {
        0
    } else {
        1 + position(entries.skip(1), name)
    }
}

/// The value of the first entry named `name`, if there is one.
pub open spec fn lookup<V>(entries: Seq<(Seq<char>, V)>, name: Seq<char>) -> Option<V> {
    let i = position(entries, name);
    if i < entries.len() {
        Some(entries[i].1)
    } else {
        None
    }
}

/// Whether no two entries share a name.
pub open spec fn distinct_names<V>(entries: Seq<(Seq<char>, V)>) -> bool {
    forall|i: int, j: int|
        0 <= i < j < entries.len() ==> (#[trigger] entries[i]).0 != (#[trigger] entries[j]).0
}

/// `position` is in range, names its entry, and passes over no entry of that
/// name on the way.
pub proof fn lemma_position<V>(entries: Seq<(Seq<char>, V)>, name: Seq<char>)
    ensures
        0 <= position(entries, name) <= entries.len(),
        position(entries, name) < entries.len() ==> entries[position(entries, name)].0 == name,
        forall|j: int| 0 <= j < position(entries, name) ==> (#[trigger] entries[j]).0 != name,
    decreases entries.len(),
{
    if entries.len() > 0 && entries[0].0 != name {
        let rest = entries.skip(1);
        lemma_position(rest, name);
        assert forall|j: int| 0 <= j < position(entries, name) implies (#[trigger] entries[j]).0
            != name by {
            if j > 0 {
                assert(entries[j] == rest[j - 1]);
            }
        }
    }
}

/// An entry named `name` that no entry of that name precedes is where
/// `position` points.
pub proof fn lemma_position_found<V>(entries: Seq<(Seq<char>, V)>, name: Seq<char>, i: int)
    requires
        0 <= i < entries.len(),
        entries[i].0 == name,
        forall|j: int| 0 <= j < i ==> (#[trigger] entries[j]).0 != name,
    ensures
        position(entries, name) == i,
{
    lemma_position(entries, name);
    let p = position(entries, name);
    if p < i {
        assert(entries[p].0 != name);
    }
}

/// Where no entry is named `name`, `position` is the number of entries.
pub proof fn lemma_position_absent<V>(entries: Seq<(Seq<char>, V)>, name: Seq<char>)
    requires
        forall|j: int| 0 <= j < entries.len() ==> (#[trigger] entries[j]).0 != name,
    ensures
        position(entries, name) == entries.len(),
        lookup(entries, name) is None,
{
    lemma_position(entries, name);
}

/// Giving the entry at `position(entries, name)` the name `name` and a new
/// value makes that value the one found under `name`, and changes what is
/// found under no other name.
pub proof fn lemma_lookup_after_update<V>(
    entries: Seq<(Seq<char>, V)>,
    name: Seq<char>,
    value: V,
    other: Seq<char>,
)
    requires
        position(entries, name) < entries.len(),
    ensures
        lookup(entries.update(position(entries, name), (name, value)), name) == Some(value),
        other != name ==> lookup(entries.update(position(entries, name), (name, value)), other)
            == lookup(entries, other),
{
    let i = position(entries, name);
    let after = entries.update(i, (name, value));
    lemma_position(entries, name);
    lemma_position(entries, other);
    assert forall|j: int| 0 <= j < i implies (#[trigger] after[j]).0 != name by {
        assert(entries[j].0 != name);
    }
    lemma_position_found(after, name, i);
    if other != name {
        let p = position(entries, other);
        if p < entries.len() {
            assert forall|j: int| 0 <= j < p implies (#[trigger] after[j]).0 != other by {
                assert(entries[j].0 != other);
            }
            lemma_position_found(after, other, p);
        } else {
            assert forall|j: int| 0 <= j < after.len() implies (#[trigger] after[j]).0 != other by {
                assert(entries[j].0 != other);
            }
            lemma_position_absent(after, other);
        }
    }
}

/// Adding an entry under a name that no entry has makes its value the one
/// found under that name, and changes what is found under no other name.
pub proof fn lemma_lookup_after_push<V>(
    entries: Seq<(Seq<char>, V)>,
    name: Seq<char>,
    value: V,
    other: Seq<char>,
)
    requires
        position(entries, name) == entries.len(),
    ensures
        lookup(entries.push((name, value)), name) == Some(value),
        other != name ==> lookup(entries.push((name, value)), other) == lookup(entries, other),
{
    let after = entries.push((name, value));
    lemma_position(entries, name);
    lemma_position(entries, other);
    assert forall|j: int| 0 <= j < entries.len() implies (#[trigger] after[j]).0 != name by {
        assert(entries[j].0 != name);
    }
    lemma_position_found(after, name, entries.len() as int);
    if other != name {
        let p = position(entries, other);
        if p < entries.len() {
            assert forall|j: int| 0 <= j < p implies (#[trigger] after[j]).0 != other by {
                assert(entries[j].0 != other);
            }
            assert(after[p] == entries[p]);
            lemma_position_found(after, other, p);
        } else {
            assert forall|j: int| 0 <= j < after.len() implies (#[trigger] after[j]).0 != other by {
                if j < entries.len() {
                    assert(entries[j].0 != other);
                }
            }
            lemma_position_absent(after, other);
        }
    }
}

/// An ordered mapping from names to values of type `T`.
#[derive(Debug)]
pub struct NamedMap<T> {
    slots: indexmap::IndexMap<String, usize>,
    entries: Vec<(String, T)>,
}

impl<T> NamedMap<T> {
    /// The index and the entries agree: each entry's name is recorded with
    /// the entry's position, and nothing else is recorded.
    #[verifier::type_invariant]
    pub closed spec fn wf(self) -> bool {
        &&& forall|i: int|
            0 <= i < self.entries@.len() ==> {
                &&& slot_map(self.slots).contains_key(#[trigger] self.entries@[i].0@)
                &&& slot_map(self.slots)[self.entries@[i].0@] == i
            }
        &&& forall|name: Seq<char>| #[trigger]
            slot_map(self.slots).contains_key(name) ==> {
                &&& slot_map(self.slots)[name] < self.entries@.len()
                &&& self.entries@[slot_map(self.slots)[name] as int].0@ == name
            }
    }
}

impl<T: View> View for NamedMap<T> {
    type V = Seq<(Seq<char>, T::V)>;

    /// The entries in order, each as its name and the view of its value.
    closed spec fn view(&self) -> Seq<(Seq<char>, T::V)> {
        Seq::new(self.entries@.len(), |i: int| (self.entries@[i].0@, self.entries@[i].1@))
    }
}

impl<T: View> NamedMap<T> {
    /// A well-formed mapping has no name twice.
    pub proof fn lemma_distinct(self)
        requires
            self.wf(),
        ensures
            distinct_names(self@),
    {
    }

    /// The empty mapping.
    pub fn new() -> (m: Self)
        ensures
            m@ == Seq::<(Seq<char>, T::V)>::empty(),
    {
        let m = NamedMap { slots: slots_new(), entries: Vec::new() };
        assert(m@ =~= Seq::empty());
        m
    }

    /// The number of entries.
    pub fn len(&self) -> (n: usize)
        ensures
            n == self@.len(),
    {
        self.entries.len()
    }

    /// The name of entry `i`.
    pub fn name_at(&self, i: usize) -> (name: &str)
        requires
            i < self@.len(),
        ensures
            name@ == self@[i as int].0,
    {
        self.entries[i].0.as_str()
    }

    /// The value of entry `i`.
    pub fn value_at(&self, i: usize) -> (value: &T)
        requires
            i < self@.len(),
        ensures
            value@ == self@[i as int].1,
    {
        &self.entries[i].1
    }

    /// The value stored under `name`, if there is one.
    pub fn get(&self, name: &str) -> (r: Option<&T>)
        ensures
            match r {
                Some(value) => lookup(self@, name@) == Some(value@),
                None => lookup(self@, name@) is None,
            },
    {
        proof {
            use_type_invariant(self);
        }
        match slots_get(&self.slots, name) {
            Some(i) => {
                proof {
                    lemma_position_found(self@, name@, i as int);
                }
                Some(&self.entries[i].1)
            },
            None => {
                proof {
                    lemma_position_absent(self@, name@);
                }
                None
            },
        }
    }

    /// Stores `value` under `name`. A name that is already there keeps its
    /// place and gets the new value; a new name goes last.
    pub fn insert(&mut self, name: String, value: T)
        ensures
            position(old(self)@, name@) < old(self)@.len() ==> final(self)@ == old(self)@.update(
                position(old(self)@, name@),
                (name@, value@),
            ),
            position(old(self)@, name@) == old(self)@.len() ==> final(self)@ == old(self)@.push(
                (name@, value@),
            ),
            lookup(final(self)@, name@) == Some(value@),
            forall|other: Seq<char>|
                other != name@ ==> #[trigger] lookup(final(self)@, other) == lookup(
                    old(self)@,
                    other,
                ),
    {
        let mut taken = NamedMap::new();
        std::mem::swap(self, &mut taken);
        proof {
            use_type_invariant(&taken);
            lemma_position(taken@, name@);
        }
        let ghost before = taken@;
        let ghost new_name = name@;
        let ghost new_value = value@;
        let NamedMap { mut slots, mut entries } = taken;
        match slots_get(&slots, name.as_str()) {
            Some(i) => {
                proof {
                    lemma_position_found(before, name@, i as int);
                }
                entries.set(i, (name, value));
                *self = NamedMap { slots, entries };
                assert(self@ =~= before.update(i as int, (new_name, new_value)));
                proof {
                    lemma_lookup_after_update(before, new_name, new_value, new_name);
                    assert forall|other: Seq<char>| other != new_name implies #[trigger] lookup(
                        self@,
                        other,
                    ) == lookup(before, other) by {
                        lemma_lookup_after_update(before, new_name, new_value, other);
                    }
                }
            },
            None => {
                proof {
                    lemma_position_absent(before, name@);
                }
                let n = entries.len();
                slots_insert(&mut slots, name.clone(), n);
                entries.push((name, value));
                *self = NamedMap { slots, entries };
                assert(self@ =~= before.push((new_name, new_value)));
                proof {
                    lemma_lookup_after_push(before, new_name, new_value, new_name);
                    assert forall|other: Seq<char>| other != new_name implies #[trigger] lookup(
                        self@,
                        other,
                    ) == lookup(before, other) by {
                        lemma_lookup_after_push(before, new_name, new_value, other);
                    }
                }
            },
        }
    }
}

} // verus!
