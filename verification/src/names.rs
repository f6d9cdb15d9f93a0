//! A list of values under unique names, in the order in which the names came.

use crate::ordered::{
    name_set_get_index, name_set_get_index_of, name_set_insert_full, name_set_items,
    name_set_new, name_set_shift_remove_index,
};
use indexmap::IndexSet;
use vstd::prelude::*;

verus! {

/// Values under unique names. A name is found by its text or by its position;
/// positions follow the order of insertion.
pub struct NameMap<V> {
    entries: Entries<V>,
}

struct Entries<V> {
    names: IndexSet<String>,
    values: Vec<V>,
}

impl<V> NameMap<V> {
    #[verifier::type_invariant]
    spec fn consistent(self) -> bool {
        &&& name_set_items(self.entries.names).len() == self.entries.values@.len()
        &&& name_set_items(self.entries.names).no_duplicates()
    }

    /// The names, in order.
    pub closed spec fn names(self) -> Seq<Seq<char>> {
        name_set_items(self.entries.names)
    }

    /// The values, each at the position of its name.
    pub closed spec fn values(self) -> Seq<V> {
        self.entries.values@
    }

    /// What holds of every list: one value per name, and no name twice.
    pub open spec fn well_formed(self) -> bool {
        &&& self.names().len() == self.values().len()
        &&& self.names().no_duplicates()
    }

    /// The position of a name, if it is present.
    pub open spec fn position(self, name: Seq<char>) -> Option<int> {
        if self.names().contains(name) {
            Some(self.names().index_of(name))
        } else {
            None
        }
    }

    /// An empty list.
    pub fn new() -> (created: Self)
        ensures
            created.names() == Seq::<Seq<char>>::empty(),
            created.values() == Seq::<V>::empty(),
            created.well_formed(),
    {
        NameMap { entries: Entries { names: name_set_new(), values: Vec::new() } }
    }

    /// The number of names.
    pub fn len(&self) -> (len: usize)
        ensures
            len == self.names().len(),
            self.well_formed(),
    {
        proof {
            use_type_invariant(self);
        }
        self.entries.values.len()
    }

    /// The position of `name`, or `None` where it is absent.
    pub fn get_index_of(&self, name: &str) -> (found: Option<usize>)
        ensures
            self.well_formed(),
            match found {
                Some(index) => index < self.names().len() && self.names()[index as int] == name@,
                None => !self.names().contains(name@),
            },
            found.is_some() == self.names().contains(name@),
    {
        proof {
            use_type_invariant(self);
        }
        name_set_get_index_of(&self.entries.names, name)
    }

    /// The name at `index`.
    pub fn name_at(&self, index: usize) -> (name: &String)
        requires
            index < self.names().len(),
        ensures
            name@ == self.names()[index as int],
            self.well_formed(),
    {
        proof {
            use_type_invariant(self);
        }
        match name_set_get_index(&self.entries.names, index) {
            Some(name) => name,
            None => vstd::pervasive::unreached(),
        }
    }

    /// The value at `index`.
    pub fn value_at(&self, index: usize) -> (value: &V)
        requires
            index < self.names().len(),
        ensures
            *value == self.values()[index as int],
            self.well_formed(),
    {
        proof {
            use_type_invariant(self);
        }
        &self.entries.values[index]
    }

    /// Adds `value` under `name` at the end, unless the name is present: then
    /// nothing changes. Returns the position of the name and whether it was
    /// added.
    pub fn insert_full(&mut self, name: String, value: V) -> (placed: (usize, bool))
        ensures
            old(self).well_formed(),
            final(self).well_formed(),
            placed.1 == !old(self).names().contains(name@),
            placed.1 ==> final(self).names() == old(self).names().push(name@) && final(self).values() == old(self).values().push(value) && placed.0 == old(self).names().len(),
            !placed.1 ==> final(self).names() == old(self).names() && final(self).values() == old(self).values() && placed.0 < old(self).names().len() && old(self).names()[placed.0 as int]
                == name@,
    {
        proof {
            use_type_invariant(&*self);
        }
        let mut entries = Entries { names: name_set_new(), values: Vec::new() };
        core::mem::swap(&mut entries, &mut self.entries);
        let ghost before = name_set_items(entries.names);
        let placed = name_set_insert_full(&mut entries.names, name);
        if placed.1 {
            entries.values.push(value);
            proof {
                lemma_push_unique(before, name@);
            }
        }
        self.entries = entries;
        placed
    }

    /// Puts `value` under `name`: in place of the value that the name has,
    /// or at the end where the name is new. Returns the value that was
    /// replaced.
    pub fn insert(&mut self, name: String, value: V) -> (replaced: Option<V>)
        ensures
            old(self).well_formed(),
            final(self).well_formed(),
            final(self).names() == inserted_names(old(self).names(), name@),
            final(self).values() == inserted_values(
                old(self).names(),
                old(self).values(),
                name@,
                value,
            ),
            match replaced {
                Some(previous) => old(self).names().contains(name@) && previous == old(self).values()[old(self).names().index_of(name@)],
                None => !old(self).names().contains(name@),
            },
    {
        proof {
            use_type_invariant(&*self);
        }
        let mut entries = Entries { names: name_set_new(), values: Vec::new() };
        core::mem::swap(&mut entries, &mut self.entries);
        let ghost before = name_set_items(entries.names);
        let ghost before_values = entries.values@;
        let ghost text = name@;
        let placed = name_set_insert_full(&mut entries.names, name);
        entries.values.push(value);
        let replaced = if placed.1 {
            proof {
                lemma_push_unique(before, text);
            }
            None
        } else {
            proof {
                let chosen = before.index_of(text);
                assert(before[chosen] == text);
                assert(chosen == placed.0);
            }
            let previous = entries.values.swap_remove(placed.0);
            proof {
                assert(entries.values@ =~= before_values.update(placed.0 as int, value));
            }
            Some(previous)
        };
        self.entries = entries;
        replaced
    }

    /// Replaces the value at `index`.
    pub fn set_value(&mut self, index: usize, value: V)
        requires
            index < old(self).names().len(),
        ensures
            old(self).well_formed(),
            final(self).well_formed(),
            final(self).names() == old(self).names(),
            final(self).values() == old(self).values().update(index as int, value),
    {
        proof {
            use_type_invariant(&*self);
        }
        let mut entries = Entries { names: name_set_new(), values: Vec::new() };
        core::mem::swap(&mut entries, &mut self.entries);
        entries.values[index] = value;
        self.entries = entries;
    }

    /// Takes out the name at `index` with its value; what follows moves up by
    /// one position.
    pub fn shift_remove_index(&mut self, index: usize) -> (removed: V)
        requires
            index < old(self).names().len(),
        ensures
            old(self).well_formed(),
            final(self).well_formed(),
            final(self).names() == old(self).names().remove(index as int),
            final(self).values() == old(self).values().remove(index as int),
            removed == old(self).values()[index as int],
    {
        proof {
            use_type_invariant(&*self);
        }
        let mut entries = Entries { names: name_set_new(), values: Vec::new() };
        core::mem::swap(&mut entries, &mut self.entries);
        let ghost before = name_set_items(entries.names);
        let _ = name_set_shift_remove_index(&mut entries.names, index);
        proof {
            lemma_remove_unique(before, index as int);
        }
        let removed = entries.values.remove(index);
        self.entries = entries;
        removed
    }
}

/// The names after `name` has been put in: it is appended where it is new.
pub open spec fn inserted_names(names: Seq<Seq<char>>, name: Seq<char>) -> Seq<Seq<char>> {
    if names.contains(name) {
        names
    } else {
        names.push(name)
    }
}

/// The values after `value` has been put under `name`: in place of the value
/// that the name has, or at the end where the name is new.
pub open spec fn inserted_values<V>(
    names: Seq<Seq<char>>,
    values: Seq<V>,
    name: Seq<char>,
    value: V,
) -> Seq<V> {
    if names.contains(name) {
        values.update(names.index_of(name), value)
    } else {
        values.push(value)
    }
}

/// Whether `a` comes before `b` in the order of names: at the first place
/// where they differ `a` has the character with the smaller code point, or
/// `a` ends there and `b` goes on.
pub open spec fn name_less(a: Seq<char>, b: Seq<char>) -> bool
    decreases a.len(),
{
    if b.len() == 0 {
        false
    } else if a.len() == 0 {
        true
    } else if a[0] != b[0] {
        (a[0] as int) < (b[0] as int)
    } else {
        name_less(a.skip(1), b.skip(1))
    }
}

/// `<` on `str`: strings are ordered lexicographically by their bytes, which
/// orders them by the code points of their characters.
#[verifier::external_body]
pub(crate) fn name_precedes(a: &str, b: &str) -> (before: bool)
    ensures
        before == name_less(a@, b@),
{
    a < b
}

/// Of two names at most one comes before the other, and of two different
/// names exactly one does.
pub proof fn lemma_name_order(a: Seq<char>, b: Seq<char>)
    ensures
        !(name_less(a, b) && name_less(b, a)),
        a != b ==> name_less(a, b) || name_less(b, a),
        !name_less(a, a),
    decreases a.len(),
{
    if a.len() > 0 && b.len() > 0 {
        if a[0] == b[0] {
            lemma_name_order(a.skip(1), b.skip(1));
            if a.skip(1) == b.skip(1) {
                assert(a =~= seq![a[0]] + a.skip(1));
                assert(b =~= seq![b[0]] + b.skip(1));
            }
        } else {
            assert(a[0] as int != b[0] as int);
        }
    } else if a.len() == 0 && b.len() == 0 {
        assert(a =~= b);
    }
    if a.len() > 0 {
        lemma_name_order(a.skip(1), a.skip(1));
    }
}

/// Whether `order` lists the positions of `names`, each once, so that the
/// names ascend.
pub open spec fn is_name_order(names: Seq<Seq<char>>, order: Seq<u8>) -> bool {
    &&& order.len() == names.len()
    &&& order.no_duplicates()
    &&& forall|k: int| 0 <= k < order.len() ==> (#[trigger] order[k]) < names.len()
    &&& forall|k: int|
        0 <= k < order.len() - 1 ==> name_less(
            names[(#[trigger] order[k]) as int],
            names[order[k + 1] as int],
        )
}

/// The positions of the names of a list, in the order of the names.
pub fn sort_by_name<V>(list: &NameMap<V>) -> (order: Vec<u8>)
    requires
        list.names().len() <= 256,
    ensures
        is_name_order(list.names(), order@),
{
    let count: usize = list.len();
    let ghost names = list.names();
    let mut order: Vec<u8> = Vec::new();
    let mut i: usize = 0;
    while i < count
        invariant
            i <= count <= 256,
            list.well_formed(),
            names == list.names(),
            count == names.len(),
            order@.len() == i,
            order@.no_duplicates(),
            forall|k: int| 0 <= k < i ==> (#[trigger] order@[k]) < i,
            forall|k: int|
                0 <= k < i - 1 ==> !name_less(
                    names[order@[k + 1] as int],
                    names[(#[trigger] order@[k]) as int],
                ),
        decreases count - i,
    {
        order.push(i as u8);
        let mut j: usize = i;
        let mut moving: bool = j > 0 && name_precedes(
            list.name_at(order[j] as usize).as_str(),
            list.name_at(order[j - 1] as usize).as_str(),
        );
        while moving
            invariant
                j <= i < count <= 256,
                list.well_formed(),
                names == list.names(),
                count == names.len(),
                order@.len() == i + 1,
                order@.no_duplicates(),
                forall|k: int| 0 <= k <= i ==> (#[trigger] order@[k]) <= i,
                forall|k: int|
                    0 <= k < i && k != j && k + 1 != j ==> !name_less(
                        names[order@[k + 1] as int],
                        names[(#[trigger] order@[k]) as int],
                    ),
                0 < j < i ==> !name_less(
                    names[order@[j + 1] as int],
                    names[order@[j - 1] as int],
                ),
                j < i ==> name_less(names[order@[j as int] as int], names[order@[j + 1] as int]),
                moving == (j > 0 && name_less(
                    names[order@[j as int] as int],
                    names[order@[j - 1] as int],
                )),
            decreases j,
        {
            let ghost before = order@;
            let left: u8 = order[j - 1];
            let right: u8 = order[j];
            order[j - 1] = right;
            order[j] = left;
            j -= 1;
            proof {
                assert(order@ == before.update(j as int, right).update(j + 1, left));
                assert forall|a: int, b: int|
                    0 <= a < order@.len() && 0 <= b < order@.len() && a != b implies order@[a]
                    != order@[b] by {
                    let pa = if a == j { j + 1 } else if a == j + 1 { j as int } else { a };
                    let pb = if b == j { j + 1 } else if b == j + 1 { j as int } else { b };
                    assert(order@[a] == before[pa]);
                    assert(order@[b] == before[pb]);
                }
            }
            moving = j > 0 && name_precedes(
                list.name_at(order[j] as usize).as_str(),
                list.name_at(order[j - 1] as usize).as_str(),
            );
        }
        proof {
            if j < i {
                lemma_name_order(names[order@[j as int] as int], names[order@[j + 1] as int]);
            }
        }
        i += 1;
    }
    proof {
        assert forall|k: int| 0 <= k < order@.len() - 1 implies name_less(
            names[(#[trigger] order@[k]) as int],
            names[order@[k + 1] as int],
        ) by {
            let a = order@[k] as int;
            let b = order@[k + 1] as int;
            assert(a != b);
            assert(names[a] != names[b]);
            lemma_name_order(names[a], names[b]);
        }
    }
    order
}

/// Appending a name that a duplicate-free list lacks keeps it duplicate-free.
pub proof fn lemma_push_unique(names: Seq<Seq<char>>, name: Seq<char>)
    requires
        names.no_duplicates(),
        !names.contains(name),
    ensures
        names.push(name).no_duplicates(),
{
    let grown = names.push(name);
    assert forall|i: int, j: int| 0 <= i < grown.len() && 0 <= j < grown.len() && i != j implies grown[i]
        != grown[j] by {
        if i < names.len() && j < names.len() {
        } else if i < names.len() {
            assert(names.contains(names[i]));
        } else if j < names.len() {
            assert(names.contains(names[j]));
        }
    }
}

/// Taking one name out of a duplicate-free list keeps it duplicate-free.
pub proof fn lemma_remove_unique(names: Seq<Seq<char>>, index: int)
    requires
        names.no_duplicates(),
        0 <= index < names.len(),
    ensures
        names.remove(index).no_duplicates(),
{
    let cut = names.remove(index);
    assert forall|i: int, j: int| 0 <= i < cut.len() && 0 <= j < cut.len() && i != j implies cut[i]
        != cut[j] by {
        let a = if i < index { i } else { i + 1 };
        let b = if j < index { j } else { j + 1 };
        assert(cut[i] == names[a]);
        assert(cut[j] == names[b]);
    }
}

} // verus!
