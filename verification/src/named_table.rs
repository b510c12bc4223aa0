//! An insertion-ordered table of values found by name.
//!
//! The order of the names is the order in which they first came in, and a
//! name's position never changes afterwards. Positions are what the rest of
//! the library hands around as indices, and the order is the order of
//! emission.
//!
//! The names are kept in an `indexmap::IndexSet`, which finds the position
//! of a name; the values stand beside them in a vector. A map of the same
//! crate would hold the values itself, but what is taken on trust of it
//! would then have to be said anew for every type of value. Here it is said
//! once, of names, in the four functions at the top; that each name has one
//! value, that no name occurs twice, and what inserting does to a value that
//! is there is proved.

use indexmap::IndexSet;
use vstd::prelude::*;

verus! {

/// `indexmap::IndexSet`, of which nothing is known but what the functions
/// below say.
#[verifier::external_type_specification]
#[verifier::external_body]
#[verifier::reject_recursive_types(T)]
#[verifier::reject_recursive_types(S)]
pub struct ExIndexSet<T, S>(IndexSet<T, S>);

/// The names that an `IndexSet<String>` holds, in its own order.
pub uninterp spec fn names_of(set: IndexSet<String>) -> Seq<Seq<char>>;

/// `IndexSet::new`: a set that holds nothing.
#[verifier::external_body]
fn names_new() -> (set: IndexSet<String>)
    ensures
        names_of(set) == Seq::<Seq<char>>::empty(),
{
    IndexSet::new()
}

/// `IndexSet::get_index_of`: the position of `name`, if the set holds it.
/// What comes back points at an equal name; `None` comes back only when no
/// position holds one.
#[verifier::external_body]
fn names_get_index_of(set: &IndexSet<String>, name: &str) -> (r: Option<usize>)
    ensures
        match r {
            Some(i) => i < names_of(*set).len() && names_of(*set)[i as int] == name@,
            None => !names_of(*set).contains(name@),
        },
{
    set.get_index_of(name)
}

/// `IndexSet::get_index`: the name at a position, for every position below
/// the number of names, and nothing for any other.
#[verifier::external_body]
fn names_get_index(set: &IndexSet<String>, index: usize) -> (r: Option<&String>)
    ensures
        match r {
            Some(name) => index < names_of(*set).len() && name@ == names_of(*set)[index as int],
            None => index >= names_of(*set).len(),
        },
{
    set.get_index(index)
}

/// `IndexSet::insert_full`: a name that the set lacks goes to the end and
/// comes back with its new position and `true`; for one that it holds, the
/// set stays as it is and the position of the equal name comes back with
/// `false`.
#[verifier::external_body]
fn names_insert_full(set: &mut IndexSet<String>, name: String) -> (r: (usize, bool))
    ensures
        r.1 ==> {
            &&& !names_of(*old(set)).contains(name@)
            &&& names_of(*final(set)) == names_of(*old(set)).push(name@)
            &&& r.0 == names_of(*old(set)).len()
        },
        !r.1 ==> {
            &&& names_of(*final(set)) == names_of(*old(set))
            &&& r.0 < names_of(*old(set)).len()
            &&& names_of(*old(set))[r.0 as int] == name@
        },
{
    set.insert_full(name)
}

/// Values stored under distinct names, in order of first insertion.
#[derive(Debug)]
pub struct NamedTable<V> {
    names: IndexSet<String>,
    values: Vec<V>,
}

impl<V> NamedTable<V> {
    /// The names, in insertion order.
    pub closed spec fn names(&self) -> Seq<Seq<char>> {
        names_of(self.names)
    }

    /// The values; `values()[i]` is stored under `names()[i]`.
    pub closed spec fn values(&self) -> Seq<V> {
        self.values@
    }

    /// Every name has exactly one value and no name occurs twice.
    pub open spec fn wf(&self) -> bool {
        &&& self.names().len() == self.values().len()
        &&& self.names().no_duplicates()
    }

    /// The position of `name`, if the table holds it.
    pub open spec fn position(&self, name: Seq<char>) -> Option<int> {
        if self.names().contains(name) {
            Some(self.names().index_of(name))
        } else {
            None
        }
    }

    /// An empty table.
    pub fn new() -> (r: Self)
        ensures
            r.wf(),
            r.names() == Seq::<Seq<char>>::empty(),
            r.values() == Seq::<V>::empty(),
    {
        NamedTable { names: names_new(), values: Vec::new() }
    }

    /// The number of entries.
    pub fn len(&self) -> (r: usize)
        ensures
            r == self.values().len(),
    {
        self.values.len()
    }

    /// Looks a name up.
    pub fn index_of(&self, name: &str) -> (r: Option<usize>)
        requires
            self.wf(),
        ensures
            match r {
                Some(i) => self.position(name@) == Some(i as int),
                None => self.position(name@).is_none(),
            },
            r matches Some(i) ==> i < self.names().len() && self.names()[i as int] == name@,
    {
        let r = names_get_index_of(&self.names, name);
        proof {
            if let Some(i) = r {
                assert(self.names().contains(name@));
                self.names().index_of_first_ensures(name@);
            }
        }
        r
    }

    /// The name at a position.
    pub fn name_at(&self, index: usize) -> (r: Option<&String>)
        ensures
            match r {
                Some(name) => index < self.names().len() && name@ == self.names()[index as int],
                None => index >= self.names().len(),
            },
    {
        names_get_index(&self.names, index)
    }

    /// The value at a position.
    pub fn get(&self, index: usize) -> (r: &V)
        requires
            index < self.values().len(),
        ensures
            *r == self.values()[index as int],
    {
        &self.values[index]
    }

    /// The value at a position, to be changed in place.
    pub fn get_mut(&mut self, index: usize) -> (r: &mut V)
        requires
            index < old(self).values().len(),
        ensures
            *r == old(self).values()[index as int],
            final(self).names() == old(self).names(),
            final(self).values() == old(self).values().update(index as int, *final(r)),
    {
        &mut self.values[index]
    }

    /// All values, in insertion order.
    pub fn as_vec(&self) -> (r: &Vec<V>)
        ensures
            r@ == self.values(),
    {
        &self.values
    }

    /// Stores `value` under `name`. A new name goes to the end; for a name
    /// that is already there the value is replaced where it stands and the
    /// old one is handed back. Either way the position comes back too.
    pub fn insert_full(&mut self, name: String, value: V) -> (r: (usize, Option<V>))
        requires
            old(self).wf(),
        ensures
            final(self).wf(),
            match old(self).position(name@) {
                Some(i) => {
                    &&& r.0 == i
                    &&& r.1 == Some(old(self).values()[i])
                    &&& final(self).names() == old(self).names()
                    &&& final(self).values() == old(self).values().update(i, value)
                },
                None => {
                    &&& r.0 == old(self).values().len()
                    &&& r.1.is_none()
                    &&& final(self).names() == old(self).names().push(name@)
                    &&& final(self).values() == old(self).values().push(value)
                },
            },
    {
        let ghost name_view = name@;
        let (index, is_new) = names_insert_full(&mut self.names, name);
        if is_new {
            self.values.push(value);
            proof {
                let old_names = old(self).names();
                let new_names = self.names();
                assert forall|i: int, j: int|
                    0 <= i < new_names.len() && 0 <= j < new_names.len() && i != j implies new_names[i]
                    != new_names[j] by {
                    if i < old_names.len() && j < old_names.len() {
                    } else if i < old_names.len() {
                        assert(old_names.contains(old_names[i]));
                    } else {
                        assert(old_names.contains(old_names[j]));
                    }
                }
            }
            (index, None)
        } else {
            proof {
                assert(old(self).names().contains(name_view));
                old(self).names().index_of_first_ensures(name_view);
            }
            let mut value = value;
            std::mem::swap(&mut self.values[index], &mut value);
            (index, Some(value))
        }
    }
}

} // verus!
