//! Names: their order, and sorting and finding by name.
//!
//! Names are compared character by character, by code point; the first
//! difference decides, and a proper prefix precedes what it is a prefix of.
//! This is the order in which the fields of rows and parameter structs and
//! the modules are laid out, so it is stated once here together with the
//! facts that sorting relies on.

use vstd::prelude::*;

verus! {

/// `a` precedes or equals `b`, looking only at the characters from `i` on.
pub open spec fn name_le_from(a: Seq<char>, b: Seq<char>, i: int) -> bool
    decreases a.len() - i,
{
    if i < 0 || i >= a.len() {
        true
    } else if i >= b.len() {
        false
    } else if a[i] == b[i] {
        name_le_from(a, b, i + 1)
    } else {
        (a[i] as int) < (b[i] as int)
    }
}

/// `a` precedes or equals `b` in lexicographic order by code point.
pub open spec fn name_le(a: Seq<char>, b: Seq<char>) -> bool {
    name_le_from(a, b, 0)
}

/// The two names agree on their first `i` characters.
pub open spec fn same_prefix(a: Seq<char>, b: Seq<char>, i: int) -> bool {
    &&& 0 <= i <= a.len()
    &&& i <= b.len()
    &&& forall|k: int| 0 <= k < i ==> a[k] == b[k]
}

proof fn lemma_le_from_total(a: Seq<char>, b: Seq<char>, i: int)
    requires
        0 <= i,
    ensures
        name_le_from(a, b, i) || name_le_from(b, a, i),
    decreases a.len() - i,
{
    if i < a.len() && i < b.len() {
        if a[i] == b[i] {
            lemma_le_from_total(a, b, i + 1);
        } else {
            assert((a[i] as int) != (b[i] as int));
        }
    }
}

proof fn lemma_le_from_transitive(a: Seq<char>, b: Seq<char>, c: Seq<char>, i: int)
    requires
        0 <= i,
        name_le_from(a, b, i),
        name_le_from(b, c, i),
    ensures
        name_le_from(a, c, i),
    decreases a.len() - i,
{
    if i < a.len() {
        if a[i] == b[i] && b[i] == c[i] {
            lemma_le_from_transitive(a, b, c, i + 1);
        }
    }
}

proof fn lemma_le_from_antisymmetric(a: Seq<char>, b: Seq<char>, i: int)
    requires
        same_prefix(a, b, i),
        name_le_from(a, b, i),
        name_le_from(b, a, i),
    ensures
        a == b,
    decreases a.len() - i,
{
    if i < a.len() {
        lemma_le_from_antisymmetric(a, b, i + 1);
    } else {
        assert(a =~= b);
    }
}

/// Any two names are comparable.
pub proof fn lemma_name_le_total(a: Seq<char>, b: Seq<char>)
    ensures
        name_le(a, b) || name_le(b, a),
{
    lemma_le_from_total(a, b, 0);
}

/// The order is transitive.
pub proof fn lemma_name_le_transitive(a: Seq<char>, b: Seq<char>, c: Seq<char>)
    requires
        name_le(a, b),
        name_le(b, c),
    ensures
        name_le(a, c),
{
    lemma_le_from_transitive(a, b, c, 0);
}

/// Two names that precede each other are the same name.
pub proof fn lemma_name_le_antisymmetric(a: Seq<char>, b: Seq<char>)
    requires
        name_le(a, b),
        name_le(b, a),
    ensures
        a == b,
{
    lemma_le_from_antisymmetric(a, b, 0);
}

/// Every name precedes or equals itself.
pub proof fn lemma_name_le_reflexive(a: Seq<char>)
    ensures
        name_le(a, a),
{
    lemma_le_from_total(a, a, 0);
}

/// Decides `name_le` on two strings.
pub fn name_le_exec(a: &str, b: &str) -> (r: bool)
    ensures
        r == name_le(a@, b@),
{
    let la = a.unicode_len();
    let lb = b.unicode_len();
    let mut i: usize = 0;
    while i < la && i < lb
        invariant
            la == a@.len(),
            lb == b@.len(),
            i <= la,
            i <= lb,
            name_le(a@, b@) == name_le_from(a@, b@, i as int),
        decreases la - i,
    {
        let ca = a.get_char(i);
        let cb = b.get_char(i);
        if ca != cb {
            return ca < cb;
        }
        i += 1;
    }
    i >= la
}

/// The values in reverse order, so that the first can be taken off the end.
pub fn reversed<T>(items: Vec<T>) -> (r: Vec<T>)
    ensures
        r@ == items@.reverse(),
{
    let mut rest = items;
    let mut r: Vec<T> = Vec::new();
    while rest.len() > 0
        invariant
            rest.len() + r.len() == items.len(),
            forall|k: int| 0 <= k < rest.len() ==> rest[k] == items[k],
            forall|k: int| 0 <= k < r.len() ==> r[k] == items[items.len() - 1 - k],
        decreases rest.len(),
    {
        let item = rest.pop().unwrap();
        r.push(item);
    }
    assert(r@ =~= items@.reverse());
    r
}

/// Something that is laid out by its name.
pub trait Named: View + Sized {
    /// The name that the model of a value carries.
    spec fn name_of(model: Self::V) -> Seq<char>;

    /// The name of a value.
    fn name(&self) -> (r: &String)
        ensures
            r@ == Self::name_of(self@),
    ;
}

/// The models of a sequence of values.
pub open spec fn views<T: View>(items: Seq<T>) -> Seq<T::V> {
    items.map_values(|item: T| item@)
}

/// The models of a sequence with one more value are the models of the
/// sequence with one more model.
pub proof fn lemma_views_push<T: View>(items: Seq<T>, item: T)
    ensures
        views(items.push(item)) == views(items).push(item@),
{
    assert(views(items.push(item)) =~= views(items).push(item@));
}

/// Where a value named `name` goes into a sequence sorted by name: behind
/// every value whose name precedes or equals `name`.
pub open spec fn insert_position<A>(sorted: Seq<A>, key: spec_fn(A) -> Seq<char>, name: Seq<char>) -> int
    decreases sorted.len(),
{
    if sorted.len() == 0 {
        0
    } else if name_le(key(sorted.last()), name) {
        sorted.len() as int
    } else {
        insert_position(sorted.drop_last(), key, name)
    }
}

/// The values of `items` in the order of their names; values of the same
/// name stay in the order in which they came.
pub open spec fn sort_by_name<A>(items: Seq<A>, key: spec_fn(A) -> Seq<char>) -> Seq<A>
    decreases items.len(),
{
    if items.len() == 0 {
        Seq::empty()
    } else {
        let front = sort_by_name(items.drop_last(), key);
        front.insert(insert_position(front, key, key(items.last())), items.last())
    }
}

/// No value stands before one whose name precedes its own.
pub open spec fn sorted_by_name<A>(items: Seq<A>, key: spec_fn(A) -> Seq<char>) -> bool {
    forall|i: int, j: int|
        0 <= i < j < items.len() ==> name_le(#[trigger] key(items[i]), #[trigger] key(items[j]))
}

/// The place that `insert_position` gives lies in the sequence, everything
/// from it on has a name strictly behind `name`, and the value just before it
/// has not.
pub proof fn lemma_insert_position<A>(sorted: Seq<A>, key: spec_fn(A) -> Seq<char>, name: Seq<char>)
    ensures
        0 <= insert_position(sorted, key, name) <= sorted.len(),
        forall|j: int|
            insert_position(sorted, key, name) <= j < sorted.len() ==> !name_le(
                #[trigger] key(sorted[j]),
                name,
            ),
        insert_position(sorted, key, name) > 0 ==> name_le(
            key(sorted[insert_position(sorted, key, name) - 1]),
            name,
        ),
    decreases sorted.len(),
{
    if sorted.len() > 0 && !name_le(key(sorted.last()), name) {
        let front = sorted.drop_last();
        lemma_insert_position(front, key, name);
        let at = insert_position(sorted, key, name);
        assert forall|j: int| at <= j < sorted.len() implies !name_le(
            #[trigger] key(sorted[j]),
            name,
        ) by {
            if j < front.len() {
                assert(sorted[j] == front[j]);
            }
        }
        if at > 0 {
            assert(sorted[at - 1] == front[at - 1]);
        }
    }
}

/// Sorting keeps every value, as often as it occurred, and puts the values in
/// the order of their names.
pub proof fn lemma_sort_by_name<A>(items: Seq<A>, key: spec_fn(A) -> Seq<char>)
    ensures
        sort_by_name(items, key).len() == items.len(),
        sort_by_name(items, key).to_multiset() == items.to_multiset(),
        sorted_by_name(sort_by_name(items, key), key),
    decreases items.len(),
{
    broadcast use vstd::seq_lib::group_to_multiset_ensures;

    if items.len() == 0 {
        assert(items =~= Seq::empty());
    } else {
        let front = sort_by_name(items.drop_last(), key);
        let last = items.last();
        let at = insert_position(front, key, key(last));
        lemma_sort_by_name(items.drop_last(), key);
        lemma_insert_position(front, key, key(last));
        let all = front.insert(at, last);
        assert(items =~= items.drop_last().push(last));
        assert(all.to_multiset() == front.to_multiset().insert(last));
        assert(items.to_multiset() == items.drop_last().to_multiset().insert(last));
        assert forall|i: int, j: int| 0 <= i < j < all.len() implies name_le(
            #[trigger] key(all[i]),
            #[trigger] key(all[j]),
        ) by {
            if j < at {
                assert(all[i] == front[i] && all[j] == front[j]);
            } else if j == at {
                assert(all[i] == front[i]);
                if i < at - 1 {
                    assert(name_le(key(front[i]), key(front[at - 1])));
                    lemma_name_le_transitive(key(front[i]), key(front[at - 1]), key(last));
                }
            } else if i < at {
                assert(all[i] == front[i] && all[j] == front[j - 1]);
            } else if i == at {
                assert(all[j] == front[j - 1]);
                assert(!name_le(key(front[j - 1]), key(last)));
                lemma_name_le_total(key(front[j - 1]), key(last));
            } else {
                assert(all[i] == front[i - 1] && all[j] == front[j - 1]);
            }
        }
    }
}

/// A sequence that is sorted already stays as it is.
pub proof fn lemma_sort_sorted<A>(items: Seq<A>, key: spec_fn(A) -> Seq<char>)
    requires
        sorted_by_name(items, key),
    ensures
        sort_by_name(items, key) == items,
    decreases items.len(),
{
    if items.len() == 0 {
        assert(items =~= Seq::empty());
    } else {
        let front = items.drop_last();
        assert forall|i: int, j: int| 0 <= i < j < front.len() implies name_le(
            #[trigger] key(front[i]),
            #[trigger] key(front[j]),
        ) by {
            assert(front[i] == items[i] && front[j] == items[j]);
        }
        lemma_sort_sorted(front, key);
        if front.len() > 0 {
            assert(front.last() == items[front.len() - 1]);
            assert(name_le(key(items[front.len() - 1]), key(items[items.len() - 1])));
        }
        assert(insert_position(front, key, key(items.last())) == front.len());
        assert(front.insert(front.len() as int, items.last()) =~= items);
    }
}

/// Of values with different names there is one order by name: two sequences
/// that hold the same values and both stand in the order of their names are
/// the same sequence.
pub proof fn lemma_sorted_is_unique<A>(a: Seq<A>, b: Seq<A>, key: spec_fn(A) -> Seq<char>)
    requires
        sorted_by_name(a, key),
        sorted_by_name(b, key),
        distinct_names(a, key),
        a.to_multiset() == b.to_multiset(),
    ensures
        a == b,
    decreases a.len(),
{
    broadcast use vstd::seq_lib::group_to_multiset_ensures;

    vstd::seq_lib::to_multiset_len(a);
    vstd::seq_lib::to_multiset_len(b);
    if a.len() == 0 {
        assert(a =~= b);
    } else {
        let x = a.last();
        let y = b.last();
        let n = a.len() - 1;
        // The last of each is among the other, so each name precedes the other.
        assert(a.contains(x));
        vstd::seq_lib::to_multiset_contains(a, x);
        vstd::seq_lib::to_multiset_contains(b, x);
        assert(b.contains(x));
        let i = choose|i: int| 0 <= i < b.len() && b[i] == x;
        assert(b.contains(y));
        vstd::seq_lib::to_multiset_contains(b, y);
        vstd::seq_lib::to_multiset_contains(a, y);
        assert(a.contains(y));
        let j = choose|j: int| 0 <= j < a.len() && a[j] == y;
        if i < n {
            assert(name_le(key(b[i]), key(b[n])));
        } else {
            lemma_name_le_reflexive(key(x));
        }
        if j < n {
            assert(name_le(key(a[j]), key(a[n])));
        } else {
            lemma_name_le_reflexive(key(y));
        }
        lemma_name_le_antisymmetric(key(x), key(y));
        if j < n {
            assert(key(a[j]) != key(a[n]));
        }
        assert(x == y);
        let front_a = a.drop_last();
        let front_b = b.drop_last();
        assert(a =~= front_a.push(x));
        assert(b =~= front_b.push(x));
        vstd::seq_lib::to_multiset_build(front_a, x);
        vstd::seq_lib::to_multiset_build(front_b, x);
        assert(front_a.to_multiset() =~= front_b.to_multiset()) by {
            broadcast use vstd::multiset::group_multiset_axioms;

            assert(front_a.to_multiset() =~= a.to_multiset().remove(x));
            assert(front_b.to_multiset() =~= b.to_multiset().remove(x));
        }
        assert forall|p: int, q: int| 0 <= p < q < front_a.len() implies name_le(
            #[trigger] key(front_a[p]),
            #[trigger] key(front_a[q]),
        ) && key(front_a[p]) != key(front_a[q]) by {
            assert(front_a[p] == a[p] && front_a[q] == a[q]);
            assert(name_le(key(a[p]), key(a[q])));
            assert(key(a[p]) != key(a[q]));
        }
        assert forall|p: int, q: int| 0 <= p < q < front_b.len() implies name_le(
            #[trigger] key(front_b[p]),
            #[trigger] key(front_b[q]),
        ) by {
            assert(front_b[p] == b[p] && front_b[q] == b[q]);
            assert(name_le(key(b[p]), key(b[q])));
        }
        lemma_sorted_is_unique(front_a, front_b, key);
    }
}

/// Sorts values by name; values of the same name keep their order.
pub fn sort_vec_by_name<T: Named>(items: Vec<T>) -> (sorted: Vec<T>)
    ensures
        views(sorted@) == sort_by_name(views(items@), key_of::<T>()),
        forall|k: int| 0 <= k < sorted.len() ==> items@.contains(#[trigger] sorted[k]),
{
    let ghost key = key_of::<T>();
    let ghost all = views(items@);
    let mut rest = items;
    let mut sorted: Vec<T> = Vec::new();
    let ghost mut done: int = 0;
    assert(views(sorted@) =~= sort_by_name(all.take(0), key));
    while rest.len() > 0
        invariant
            0 <= done <= all.len(),
            key == key_of::<T>(),
            views(rest@) == all.skip(done),
            views(sorted@) == sort_by_name(all.take(done), key),
            forall|k: int| 0 <= k < rest.len() ==> items@.contains(#[trigger] rest[k]),
            forall|k: int| 0 <= k < sorted.len() ==> items@.contains(#[trigger] sorted[k]),
        decreases rest.len(),
    {
        let ghost before = rest@;
        let item = rest.remove(0);
        let ghost front = views(sorted@);
        proof {
            assert(views(before).len() == before.len());
            assert(done < all.len());
            assert(views(before)[0] == item@);
            assert(all.skip(done)[0] == all[done]);
            assert(views(rest@) =~= all.skip(done + 1)) by {
                assert forall|k: int| 0 <= k < rest@.len() implies views(rest@)[k] == all.skip(
                    done + 1,
                )[k] by {
                    assert(rest@[k] == before[k + 1]);
                    assert(views(before)[k + 1] == all.skip(done)[k + 1]);
                }
            }
            lemma_sort_by_name(all.take(done), key);
            lemma_insert_position(front, key, key(item@));
            assert(front.take(sorted.len() as int) =~= front);
        }
        let mut at: usize = sorted.len();
        while at > 0 && !name_le_exec(sorted[at - 1].name(), item.name())
            invariant
                at <= sorted.len(),
                front == views(sorted@),
                key == key_of::<T>(),
                insert_position(front, key, key(item@)) == insert_position(
                    front.take(at as int),
                    key,
                    key(item@),
                ),
            decreases at,
        {
            proof {
                let head = front.take(at as int);
                assert(head.last() == sorted@[at - 1]@);
                assert(head.drop_last() =~= front.take(at - 1));
            }
            at -= 1;
        }
        proof {
            let head = front.take(at as int);
            if at > 0 {
                assert(head.last() == sorted@[at - 1]@);
            }
            assert(insert_position(head, key, key(item@)) == at);
            assert(front.take(sorted.len() as int) =~= front);
        }
        let ghost unchanged = sorted@;
        sorted.insert(at, item);
        proof {
            assert(items@.contains(before[0]));
            assert forall|k: int| 0 <= k < rest.len() implies items@.contains(
                #[trigger] rest[k],
            ) by {
                assert(rest[k] == before[k + 1]);
            }
            assert forall|k: int| 0 <= k < sorted.len() implies items@.contains(
                #[trigger] sorted[k],
            ) by {
                if k < at {
                    assert(sorted[k] == unchanged[k]);
                } else if k > at {
                    assert(sorted[k] == unchanged[k - 1]);
                }
            }
            assert(views(sorted@) =~= front.insert(at as int, item@));
            assert(all.take(done + 1).drop_last() =~= all.take(done));
            assert(all.take(done + 1).last() == item@);
            done = done + 1;
        }
    }
    proof {
        assert(all.take(done) =~= all);
    }
    sorted
}

/// The position of the first value named `name`.
pub open spec fn index_of_name<A>(items: Seq<A>, key: spec_fn(A) -> Seq<char>, name: Seq<char>) -> Option<
    int,
>
    decreases items.len(),
{
    if items.len() == 0 {
        None
    } else {
        match index_of_name(items.drop_last(), key, name) {
            Some(i) => Some(i),
            None => if key(items.last()) == name {
                Some(items.len() - 1)
            } else {
                None
            },
        }
    }
}

/// `index_of_name` gives the first position that holds the name, and `None`
/// only if no position does.
pub proof fn lemma_index_of_name<A>(items: Seq<A>, key: spec_fn(A) -> Seq<char>, name: Seq<char>)
    ensures
        match index_of_name(items, key, name) {
            Some(i) => {
                &&& 0 <= i < items.len()
                &&& key(items[i]) == name
                &&& forall|j: int| 0 <= j < i ==> #[trigger] key(items[j]) != name
            },
            None => forall|j: int| 0 <= j < items.len() ==> #[trigger] key(items[j]) != name,
        },
    decreases items.len(),
{
    if items.len() > 0 {
        let front = items.drop_last();
        lemma_index_of_name(front, key, name);
        assert forall|j: int| 0 <= j < front.len() implies items[j] == front[j] by {}
        match index_of_name(front, key, name) {
            Some(i) => {
                assert(items[i] == front[i]);
                assert forall|j: int| 0 <= j < i implies #[trigger] key(items[j]) != name by {
                    assert(items[j] == front[j]);
                }
            },
            None => {
                assert forall|j: int| 0 <= j < front.len() implies #[trigger] key(items[j])
                    != name by {
                    assert(items[j] == front[j]);
                }
            },
        }
    }
}

/// The key by which values of `T` are named.
pub open spec fn key_of<T: Named>() -> spec_fn(T::V) -> Seq<char> {
    |model: T::V| T::name_of(model)
}

/// Finds the first of the first `end` values that is named `name`.
pub fn position_by_name<T: Named>(items: &Vec<T>, end: usize, name: &String) -> (r: Option<usize>)
    requires
        end <= items.len(),
    ensures
        match r {
            Some(i) => index_of_name(views(items@).take(end as int), key_of::<T>(), name@) == Some(
                i as int,
            ),
            None => index_of_name(views(items@).take(end as int), key_of::<T>(), name@).is_none(),
        },
{
    let ghost models = views(items@).take(end as int);
    let mut i: usize = 0;
    while i < end
        invariant
            i <= end <= items.len(),
            models == views(items@).take(end as int),
            forall|j: int| 0 <= j < i ==> #[trigger] key_of::<T>()(models[j]) != name@,
        decreases end - i,
    {
        if *items[i].name() == *name {
            proof {
                lemma_index_of_name(models, key_of::<T>(), name@);
                assert(key_of::<T>()(models[i as int]) == name@);
            }
            return Some(i);
        }
        assert(key_of::<T>()(models[i as int]) != name@);
        i += 1;
    }
    proof {
        lemma_index_of_name(models, key_of::<T>(), name@);
    }
    None
}

/// The position of the first value whose name some earlier value has too.
pub open spec fn first_duplicate<A>(items: Seq<A>, key: spec_fn(A) -> Seq<char>) -> Option<int>
    decreases items.len(),
{
    if items.len() == 0 {
        None
    } else {
        match first_duplicate(items.drop_last(), key) {
            Some(j) => Some(j),
            None => if index_of_name(items.drop_last(), key, key(items.last())).is_some() {
                Some(items.len() - 1)
            } else {
                None
            },
        }
    }
}

/// No two values have the same name.
pub open spec fn distinct_names<A>(items: Seq<A>, key: spec_fn(A) -> Seq<char>) -> bool {
    forall|i: int, j: int|
        0 <= i < j < items.len() ==> #[trigger] key(items[i]) != #[trigger] key(items[j])
}

/// `first_duplicate` gives the first value that repeats a name, and `None`
/// exactly if all names differ.
pub proof fn lemma_first_duplicate<A>(items: Seq<A>, key: spec_fn(A) -> Seq<char>)
    ensures
        match first_duplicate(items, key) {
            Some(j) => {
                &&& 0 <= j < items.len()
                &&& exists|i: int| 0 <= i < j && #[trigger] key(items[i]) == key(items[j])
                &&& distinct_names(items.take(j), key)
            },
            None => distinct_names(items, key),
        },
    decreases items.len(),
{
    if items.len() > 0 {
        let front = items.drop_last();
        lemma_first_duplicate(front, key);
        lemma_index_of_name(front, key, key(items.last()));
        assert forall|j: int| 0 <= j < front.len() implies items[j] == front[j] by {}
        match first_duplicate(front, key) {
            Some(j) => {
                let i = choose|i: int| 0 <= i < j && #[trigger] key(front[i]) == key(front[j]);
                assert(key(items[i]) == key(items[j]));
                assert(items.take(j) =~= front.take(j));
            },
            None => {
                match index_of_name(front, key, key(items.last())) {
                    Some(i) => {
                        assert(key(items[i]) == key(items[items.len() - 1]));
                        assert(items.take(items.len() - 1) =~= front);
                    },
                    None => {
                        assert forall|i: int, j: int| 0 <= i < j < items.len() implies #[trigger] key(
                            items[i],
                        ) != #[trigger] key(items[j]) by {
                            if j < front.len() {
                                assert(key(front[i]) != key(front[j]));
                            } else {
                                assert(key(front[i]) != key(items.last()));
                            }
                        }
                    },
                }
            },
        }
    }
}

/// Finds the first value whose name some earlier value has too.
pub fn has_duplicate<T: Named>(items: &Vec<T>) -> (r: Option<usize>)
    ensures
        match r {
            Some(j) => first_duplicate(views(items@), key_of::<T>()) == Some(j as int),
            None => first_duplicate(views(items@), key_of::<T>()).is_none(),
        },
{
    let ghost models = views(items@);
    let mut j: usize = 0;
    while j < items.len()
        invariant
            j <= items.len(),
            models == views(items@),
            first_duplicate(models.take(j as int), key_of::<T>()).is_none(),
        decreases items.len() - j,
    {
        let earlier = position_by_name(items, j, items[j].name());
        proof {
            assert(models.take(j + 1).drop_last() =~= models.take(j as int));
            assert(models.take(j + 1).last() == models[j as int]);
            if earlier.is_some() {
                lemma_duplicate_stays(models, key_of::<T>(), j + 1);
            }
        }
        if earlier.is_some() {
            return Some(j);
        }
        j += 1;
    }
    proof {
        assert(models.take(items.len() as int) =~= models);
    }
    None
}

/// A duplicate among the first `n` values is the first duplicate of the whole.
proof fn lemma_duplicate_stays<A>(items: Seq<A>, key: spec_fn(A) -> Seq<char>, n: int)
    requires
        0 <= n <= items.len(),
        first_duplicate(items.take(n), key).is_some(),
    ensures
        first_duplicate(items, key) == first_duplicate(items.take(n), key),
    decreases items.len() - n,
{
    if n < items.len() {
        assert(items.take(n + 1).drop_last() =~= items.take(n));
        lemma_duplicate_stays(items, key, n + 1);
    } else {
        assert(items.take(n) =~= items);
    }
}

} // verus!
