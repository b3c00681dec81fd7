//! Insertion-ordered maps and sets from `indexmap`, as used by events and transforms.
//!
//! An ordered map is described by its entries in order; keys are compared by their
//! characters.

use vstd::prelude::*;

use indexmap::{IndexMap, IndexSet};

use crate::condition::{self, CondView};
use crate::event::{AttrView, EventLogAttribute};

verus! {

#[verifier::external_type_specification]
#[verifier::external_body]
#[verifier::reject_recursive_types(K)]
#[verifier::reject_recursive_types(V)]
#[verifier::reject_recursive_types(S)]
pub struct ExIndexMap<K, V, S>(IndexMap<K, V, S>);

#[verifier::external_type_specification]
#[verifier::external_body]
#[verifier::reject_recursive_types(T)]
#[verifier::reject_recursive_types(S)]
pub struct ExIndexSet<T, S>(IndexSet<T, S>);

/// The position of the first entry with key `k`.
pub open spec fn key_index<V>(e: Seq<(Seq<char>, V)>, k: Seq<char>) -> Option<int> {
    if exists|i: int| is_first_key(e, k, i) {
        Some(choose|i: int| is_first_key(e, k, i))
    } else {
        None
    }
}

/// Entry `i` is the first one with key `k`.
pub open spec fn is_first_key<V>(e: Seq<(Seq<char>, V)>, k: Seq<char>, i: int) -> bool {
    0 <= i < e.len() && e[i].0 == k && forall|j: int| 0 <= j < i ==> e[j].0 != k
}

/// Some entry with key `k` is the first one with that key.
pub proof fn lemma_first_key_exists<V>(e: Seq<(Seq<char>, V)>, k: Seq<char>, i: int)
    requires
        0 <= i < e.len(),
        e[i].0 == k,
    ensures
        exists|j: int| is_first_key(e, k, j),
    decreases i,
{
    if exists|j: int| 0 <= j < i && e[j].0 == k {
        let j = choose|j: int| 0 <= j < i && e[j].0 == k;
        lemma_first_key_exists(e, k, j);
    } else {
        assert(is_first_key(e, k, i));
    }
}

/// The value stored under `k`.
pub open spec fn entry_value<V>(e: Seq<(Seq<char>, V)>, k: Seq<char>) -> Option<V> {
    match key_index(e, k) {
        Some(i) => Some(e[i].1),
        None => None,
    }
}

/// Inserting `k -> v`: an existing key keeps its place and takes the new value, a new
/// key goes last.
pub open spec fn insert_entry<V>(e: Seq<(Seq<char>, V)>, k: Seq<char>, v: V) -> Seq<(Seq<char>, V)> {
    match key_index(e, k) {
        Some(i) => e.update(i, (k, v)),
        None => e.push((k, v)),
    }
}

/// Removing `k`: the other entries keep their relative order.
pub open spec fn remove_entry<V>(e: Seq<(Seq<char>, V)>, k: Seq<char>) -> Seq<(Seq<char>, V)> {
    e.filter(|p: (Seq<char>, V)| p.0 != k)
}

/// Adding `x` to an ordered set: a new item goes last, a present one changes nothing.
pub open spec fn insert_item(s: Seq<Seq<char>>, x: Seq<char>) -> Seq<Seq<char>> {
    if s.contains(x) {
        s
    } else {
        s.push(x)
    }
}

/// After `k -> v` is inserted, `k` maps to `v`.
pub proof fn lemma_insert_then_get<V>(e: Seq<(Seq<char>, V)>, k: Seq<char>, v: V)
    ensures
        entry_value(insert_entry(e, k, v), k) == Some(v),
{
    let e2 = insert_entry(e, k, v);
    match key_index(e, k) {
        Some(i) => {
            assert(is_first_key(e, k, i));
            assert(is_first_key(e2, k, i));
            let i2 = choose|j: int| is_first_key(e2, k, j);
            if i2 < i {
                assert(e2[i2] == e[i2]);
            } else if i2 > i {
                assert(e2[i].0 == k);
            }
        },
        None => {
            assert forall|j: int| 0 <= j < e.len() implies e[j].0 != k by {
                if e[j].0 == k {
                    lemma_first_key_exists(e, k, j);
                }
            }
            assert(is_first_key(e2, k, e.len() as int));
            let i2 = choose|j: int| is_first_key(e2, k, j);
            if i2 < e.len() {
                assert(e2[i2] == e[i2]);
            }
        },
    }
}

/// After `k` is removed, `k` maps to nothing.
pub proof fn lemma_remove_then_get<V>(e: Seq<(Seq<char>, V)>, k: Seq<char>)
    ensures
        entry_value(remove_entry(e, k), k) is None,
{
    broadcast use vstd::seq_lib::group_filter_ensures;

    let e2 = remove_entry(e, k);
    assert forall|i: int| 0 <= i < e2.len() implies e2[i].0 != k by {
    }
}

/// Inserting under one key leaves the value of another key as it was.
pub proof fn lemma_insert_other<V>(e: Seq<(Seq<char>, V)>, k: Seq<char>, v: V, k2: Seq<char>)
    requires
        k2 != k,
    ensures
        entry_value(insert_entry(e, k, v), k2) == entry_value(e, k2),
{
    lemma_update_other(e, k, v, k2);
    let e2 = insert_entry(e, k, v);
    if key_index(e, k) is None {
        if exists|i: int| is_first_key(e, k2, i) {
            let i = choose|i: int| is_first_key(e, k2, i);
            assert(is_first_key(e2, k2, i));
            let i2 = choose|j: int| is_first_key(e2, k2, j);
            if i2 < i {
                assert(e2[i2] == e[i2]);
            }
        }
        if exists|i: int| is_first_key(e2, k2, i) {
            let i2 = choose|j: int| is_first_key(e2, k2, j);
            assert(e2[e.len() as int].0 == k);
            assert(i2 < e.len());
            assert(e2[i2] == e[i2]);
            assert forall|m: int| 0 <= m < i2 implies e[m].0 != k2 by {
                assert(e2[m] == e[m]);
            }
            assert(is_first_key(e, k2, i2));
        }
    }
}

/// Replacing the entry of key `k` at its first position leaves the value of another key.
proof fn lemma_update_other<V>(e: Seq<(Seq<char>, V)>, k: Seq<char>, v: V, k2: Seq<char>)
    requires
        k2 != k,
    ensures
        key_index(e, k) matches Some(i) ==> entry_value(e.update(i, (k, v)), k2) == entry_value(e, k2),
{
    if let Some(i) = key_index(e, k) {
        assert(is_first_key(e, k, i));
        let e2 = e.update(i, (k, v));
        if exists|j: int| is_first_key(e, k2, j) {
            let j = choose|j: int| is_first_key(e, k2, j);
            assert(is_first_key(e2, k2, j));
            let j2 = choose|m: int| is_first_key(e2, k2, m);
            if j2 < j {
                assert(e2[j2] == e[j2] || j2 == i);
            }
        }
        if exists|j: int| is_first_key(e2, k2, j) {
            let j2 = choose|m: int| is_first_key(e2, k2, m);
            assert(j2 != i);
            assert(e2[j2] == e[j2]);
            assert forall|m: int| 0 <= m < j2 implies e[m].0 != k2 by {
                if m != i {
                    assert(e2[m] == e[m]);
                }
            }
            assert(is_first_key(e, k2, j2));
        }
    }
}

/// The entries of an attribute map, in order.
pub uninterp spec fn attribute_entries(m: IndexMap<String, EventLogAttribute>) -> Seq<(Seq<char>, AttrView)>;

/// The entries of a map from strings to strings, in order.
pub uninterp spec fn text_entries(m: IndexMap<String, String>) -> Seq<(Seq<char>, Seq<char>)>;

/// The items of a set of strings, in order.
pub uninterp spec fn text_items(s: IndexSet<String>) -> Seq<Seq<char>>;

/// The routes of a router, by output name and condition, in order.
pub uninterp spec fn route_entries(m: IndexMap<String, condition::Config>) -> Seq<(Seq<char>, CondView)>;

/// Relies on `IndexMap::new`: a new map is empty.
#[verifier::external_body]
pub(crate) fn routes_new() -> (r: IndexMap<String, condition::Config>)
    ensures
        route_entries(r) == Seq::<(Seq<char>, CondView)>::empty(),
{
    IndexMap::new()
}

/// Relies on `IndexMap::insert`: an equivalent key keeps its place and takes the new
/// value; otherwise the pair goes last.
#[verifier::external_body]
pub(crate) fn routes_insert(m: &mut IndexMap<String, condition::Config>, k: String, v: condition::Config)
    ensures
        route_entries(*final(m)) == insert_entry(route_entries(*old(m)), k@, v.view()),
{
    m.insert(k, v);
}

/// Relies on `IndexMap::len`: the number of entries.
#[verifier::external_body]
pub(crate) fn routes_len(m: &IndexMap<String, condition::Config>) -> (r: usize)
    ensures
        r == route_entries(*m).len(),
{
    m.len()
}

/// Relies on `IndexMap::get_index`: the entry at a position below the length.
#[verifier::external_body]
pub(crate) fn routes_get_index<'a>(m: &'a IndexMap<String, condition::Config>, i: usize) -> (r: (&'a String, &'a condition::Config))
    requires
        i < route_entries(*m).len(),
    ensures
        (r.0@, r.1.view()) == route_entries(*m)[i as int],
{
    m.get_index(i).unwrap()
}

/// Relies on `IndexMap::new`: a new map is empty.
#[verifier::external_body]
pub(crate) fn attributes_new() -> (r: IndexMap<String, EventLogAttribute>)
    ensures
        attribute_entries(r) == Seq::<(Seq<char>, AttrView)>::empty(),
{
    IndexMap::new()
}

/// Relies on `IndexMap::insert`: an equivalent key keeps its place and takes the new
/// value; otherwise the pair goes last.
#[verifier::external_body]
pub(crate) fn attributes_insert(m: &mut IndexMap<String, EventLogAttribute>, k: String, v: EventLogAttribute)
    ensures
        attribute_entries(*final(m)) == insert_entry(attribute_entries(*old(m)), k@, v@),
{
    m.insert(k, v);
}

/// Relies on `IndexMap::clone`, which clones every entry in order.
#[verifier::external_body]
pub(crate) fn attributes_clone(m: &IndexMap<String, EventLogAttribute>) -> (r: IndexMap<String, EventLogAttribute>)
    ensures
        attribute_entries(r) == attribute_entries(*m),
{
    m.clone()
}

/// Relies on `IndexMap::get`: the value stored under the key, if any.
#[verifier::external_body]
pub(crate) fn attributes_get<'a>(m: &'a IndexMap<String, EventLogAttribute>, k: &str) -> (r: Option<&'a EventLogAttribute>)
    ensures
        r is Some <==> entry_value(attribute_entries(*m), k@) is Some,
        r matches Some(v) ==> entry_value(attribute_entries(*m), k@) == Some(v@),
{
    m.get(k)
}

/// Relies on `IndexMap::shift_remove`: the entry goes and the others keep their order.
#[verifier::external_body]
pub(crate) fn attributes_remove(m: &mut IndexMap<String, EventLogAttribute>, k: &str)
    ensures
        attribute_entries(*final(m)) == remove_entry(attribute_entries(*old(m)), k@),
{
    m.shift_remove(k);
}

/// Relies on `IndexMap::new`: a new map is empty.
#[verifier::external_body]
pub(crate) fn texts_new() -> (r: IndexMap<String, String>)
    ensures
        text_entries(r) == Seq::<(Seq<char>, Seq<char>)>::empty(),
{
    IndexMap::new()
}

/// Relies on `IndexMap::insert`: an equivalent key keeps its place and takes the new
/// value; otherwise the pair goes last.
#[verifier::external_body]
pub(crate) fn texts_insert(m: &mut IndexMap<String, String>, k: String, v: String)
    ensures
        text_entries(*final(m)) == insert_entry(text_entries(*old(m)), k@, v@),
{
    m.insert(k, v);
}

/// Relies on `IndexMap::clone`, which clones every entry in order.
#[verifier::external_body]
pub(crate) fn texts_clone(m: &IndexMap<String, String>) -> (r: IndexMap<String, String>)
    ensures
        text_entries(r) == text_entries(*m),
{
    m.clone()
}

/// Relies on `IndexMap::get`: the value stored under the key, if any.
#[verifier::external_body]
pub(crate) fn texts_get<'a>(m: &'a IndexMap<String, String>, k: &str) -> (r: Option<&'a String>)
    ensures
        r is Some <==> entry_value(text_entries(*m), k@) is Some,
        r matches Some(v) ==> entry_value(text_entries(*m), k@) == Some(v@),
{
    m.get(k)
}

/// Relies on `IndexMap::shift_remove`: the entry goes and the others keep their order.
#[verifier::external_body]
pub(crate) fn texts_remove(m: &mut IndexMap<String, String>, k: &str)
    ensures
        text_entries(*final(m)) == remove_entry(text_entries(*old(m)), k@),
{
    m.shift_remove(k);
}

/// Relies on `IndexMap::len`: the number of entries.
#[verifier::external_body]
pub(crate) fn texts_len(m: &IndexMap<String, String>) -> (r: usize)
    ensures
        r == text_entries(*m).len(),
{
    m.len()
}

/// Relies on `IndexMap::get_index`: the entry at a position below the length.
#[verifier::external_body]
pub(crate) fn texts_get_index<'a>(m: &'a IndexMap<String, String>, i: usize) -> (r: (&'a String, &'a String))
    requires
        i < text_entries(*m).len(),
    ensures
        (r.0@, r.1@) == text_entries(*m)[i as int],
{
    m.get_index(i).unwrap()
}

/// Relies on `IndexSet::new`: a new set is empty.
#[verifier::external_body]
pub(crate) fn items_new() -> (r: IndexSet<String>)
    ensures
        text_items(r) == Seq::<Seq<char>>::empty(),
{
    IndexSet::new()
}

/// Relies on `IndexSet::insert`: a new item goes last, a present one changes nothing.
#[verifier::external_body]
pub(crate) fn items_insert(s: &mut IndexSet<String>, x: String)
    ensures
        text_items(*final(s)) == insert_item(text_items(*old(s)), x@),
{
    s.insert(x);
}

/// Relies on `IndexSet::len`: the number of items.
#[verifier::external_body]
pub(crate) fn items_len(s: &IndexSet<String>) -> (r: usize)
    ensures
        r == text_items(*s).len(),
{
    s.len()
}

/// Relies on `IndexSet::get_index`: the item at a position below the length.
#[verifier::external_body]
pub(crate) fn items_get_index<'a>(s: &'a IndexSet<String>, i: usize) -> (r: &'a String)
    requires
        i < text_items(*s).len(),
    ensures
        r@ == text_items(*s)[i as int],
{
    s.get_index(i).unwrap()
}

} // verus!
