//! The ordered set of cache keys, kept in an `indexmap::IndexSet`.

use vstd::prelude::*;
use indexmap::IndexSet;

verus! {

#[verifier::external_type_specification]
#[verifier::external_body]
#[verifier::reject_recursive_types(T)]
#[verifier::reject_recursive_types(S)]
pub struct ExIndexSet<T, S>(IndexSet<T, S>);

/// The strings of an index set, in the order in which they were first
/// inserted.
pub uninterp spec fn index_keys(s: IndexSet<String>) -> Seq<Seq<char>>;

/// Relies on `IndexSet::new`: a new set holds nothing.
#[verifier::external_body]
pub(crate) fn new_key_set() -> (r: IndexSet<String>)
    ensures
        index_keys(r) == Seq::<Seq<char>>::empty(),
{
    IndexSet::new()
}

/// Relies on `IndexSet::insert_full`: an equal key already in the set keeps
/// its place and its index is returned with `false`; otherwise the key goes
/// to the end and its new index is returned with `true`.
#[verifier::external_body]
pub(crate) fn insert_key(s: &mut IndexSet<String>, key: String) -> (r: (usize, bool))
    ensures
        r.1 == !index_keys(*old(s)).contains(key@),
        r.1 ==> index_keys(*final(s)) == index_keys(*old(s)).push(key@),
        r.1 ==> r.0 == index_keys(*old(s)).len(),
        !r.1 ==> index_keys(*final(s)) == index_keys(*old(s)),
        !r.1 ==> r.0 < index_keys(*old(s)).len() && index_keys(*old(s))[r.0 as int] == key@,
{
    s.insert_full(key)
}

/// Relies on `IndexSet::get_index_of`: the index of an equal key, if there
/// is one.
#[verifier::external_body]
pub(crate) fn key_index(s: &IndexSet<String>, key: &str) -> (r: Option<usize>)
    ensures
        match r {
            Some(i) => i < index_keys(*s).len() && index_keys(*s)[i as int] == key@,
            None => !index_keys(*s).contains(key@),
        },
{
    s.get_index_of(key)
}

/// Relies on `IndexSet::get_index`: the key at index `i`, if `i` is below
/// the length.
#[verifier::external_body]
pub(crate) fn key_at(s: &IndexSet<String>, i: usize) -> (r: Option<&String>)
    ensures
        match r {
            Some(k) => i < index_keys(*s).len() && k@ == index_keys(*s)[i as int],
            None => i >= index_keys(*s).len(),
        },
{
    s.get_index(i)
}

} // verus!
