//! The insertion-ordered tables of a prepared module, kept in indexmap's
//! `IndexMap`, and what the library relies on of it.

use crate::prepared::{PreparedParams, PreparedQuery, PreparedRow};
use indexmap::IndexMap;
use vstd::prelude::*;

verus! {

#[verifier::external_type_specification]
#[verifier::external_body]
#[verifier::reject_recursive_types(K)]
#[verifier::reject_recursive_types(V)]
#[verifier::reject_recursive_types(S)]
pub struct ExIndexMap<K, V, S>(IndexMap<K, V, S>);

/// The entries of the rows table, in insertion order.
pub uninterp spec fn row_entries(m: IndexMap<String, PreparedRow>) -> Seq<(Seq<char>, PreparedRow)>;

/// The entries of the queries table, in insertion order.
pub uninterp spec fn query_entries(m: IndexMap<String, PreparedQuery>) -> Seq<(Seq<char>, PreparedQuery)>;

/// The entries of the params table, in insertion order.
pub uninterp spec fn params_entries(m: IndexMap<String, PreparedParams>) -> Seq<(Seq<char>, PreparedParams)>;

/// Relies on `IndexMap::new`: the map is empty.
#[verifier::external_body]
pub(crate) fn new_rows() -> (r: IndexMap<String, PreparedRow>)
    ensures
        row_entries(r) == Seq::<(Seq<char>, PreparedRow)>::empty(),
{
    IndexMap::new()
}

/// Relies on `IndexMap::new`: the map is empty.
#[verifier::external_body]
pub(crate) fn new_queries() -> (r: IndexMap<String, PreparedQuery>)
    ensures
        query_entries(r) == Seq::<(Seq<char>, PreparedQuery)>::empty(),
{
    IndexMap::new()
}

/// Relies on `IndexMap::new`: the map is empty.
#[verifier::external_body]
pub(crate) fn new_params() -> (r: IndexMap<String, PreparedParams>)
    ensures
        params_entries(r) == Seq::<(Seq<char>, PreparedParams)>::empty(),
{
    IndexMap::new()
}

/// Relies on `IndexMap::get_index_of`: the place of the entry whose key
/// equals `key`, if there is one.
#[verifier::external_body]
pub(crate) fn rows_index_of(m: &IndexMap<String, PreparedRow>, key: &str) -> (r: Option<usize>)
    ensures
        r matches Some(i) ==> i < row_entries(*m).len() && row_entries(*m)[i as int].0 == key@,
        r is None ==> forall|i: int| 0 <= i < row_entries(*m).len() ==> #[trigger] row_entries(*m)[i].0 != key@,
{
    m.get_index_of(key)
}

/// Relies on `IndexMap::get_index_of`: the place of the entry whose key
/// equals `key`, if there is one.
#[verifier::external_body]
pub(crate) fn queries_index_of(m: &IndexMap<String, PreparedQuery>, key: &str) -> (r: Option<usize>)
    ensures
        r matches Some(i) ==> i < query_entries(*m).len() && query_entries(*m)[i as int].0 == key@,
        r is None ==> forall|i: int| 0 <= i < query_entries(*m).len() ==> #[trigger] query_entries(*m)[i].0 != key@,
{
    m.get_index_of(key)
}

/// Relies on `IndexMap::get_index_of`: the place of the entry whose key
/// equals `key`, if there is one.
#[verifier::external_body]
pub(crate) fn params_index_of(m: &IndexMap<String, PreparedParams>, key: &str) -> (r: Option<usize>)
    ensures
        r matches Some(i) ==> i < params_entries(*m).len() && params_entries(*m)[i as int].0 == key@,
        r is None ==> forall|i: int| 0 <= i < params_entries(*m).len() ==> #[trigger] params_entries(*m)[i].0 != key@,
{
    m.get_index_of(key)
}

/// Relies on `Index<usize>` of `IndexMap`: the value of entry `i`.
#[verifier::external_body]
pub(crate) fn row_at(m: &IndexMap<String, PreparedRow>, i: usize) -> (r: &PreparedRow)
    requires
        i < row_entries(*m).len(),
    ensures
        *r == row_entries(*m)[i as int].1,
{
    &m[i]
}

/// Relies on `Index<usize>` of `IndexMap`: the value of entry `i`.
#[verifier::external_body]
pub(crate) fn query_at(m: &IndexMap<String, PreparedQuery>, i: usize) -> (r: &PreparedQuery)
    requires
        i < query_entries(*m).len(),
    ensures
        *r == query_entries(*m)[i as int].1,
{
    &m[i]
}

/// Relies on `Index<usize>` of `IndexMap`: the value of entry `i`.
#[verifier::external_body]
pub(crate) fn params_at(m: &IndexMap<String, PreparedParams>, i: usize) -> (r: &PreparedParams)
    requires
        i < params_entries(*m).len(),
    ensures
        *r == params_entries(*m)[i as int].1,
{
    &m[i]
}

/// Relies on `IndexMap::insert_full`: a key not yet present is added last.
#[verifier::external_body]
pub(crate) fn rows_insert(m: &mut IndexMap<String, PreparedRow>, key: String, v: PreparedRow) -> (r: usize)
    requires
        forall|i: int| 0 <= i < row_entries(*old(m)).len() ==> #[trigger] row_entries(*old(m))[i].0 != key@,
    ensures
        row_entries(*final(m)) == row_entries(*old(m)).push((key@, v)),
        r == row_entries(*old(m)).len(),
{
    m.insert_full(key, v).0
}

/// Relies on `IndexMap::insert_full`: a key not yet present is added last.
#[verifier::external_body]
pub(crate) fn queries_insert(m: &mut IndexMap<String, PreparedQuery>, key: String, v: PreparedQuery) -> (r: usize)
    requires
        forall|i: int| 0 <= i < query_entries(*old(m)).len() ==> #[trigger] query_entries(*old(m))[i].0 != key@,
    ensures
        query_entries(*final(m)) == query_entries(*old(m)).push((key@, v)),
        r == query_entries(*old(m)).len(),
{
    m.insert_full(key, v).0
}

/// Relies on `IndexMap::insert_full`: a key not yet present is added last.
#[verifier::external_body]
pub(crate) fn params_insert(m: &mut IndexMap<String, PreparedParams>, key: String, v: PreparedParams) -> (r: usize)
    requires
        forall|i: int| 0 <= i < params_entries(*old(m)).len() ==> #[trigger] params_entries(*old(m))[i].0 != key@,
    ensures
        params_entries(*final(m)) == params_entries(*old(m)).push((key@, v)),
        r == params_entries(*old(m)).len(),
{
    m.insert_full(key, v).0
}

/// Relies on `IndexMut<usize>` of `IndexMap`: the value of entry `i` is
/// swapped for `v`, its key and place kept; the former value is returned.
#[verifier::external_body]
pub(crate) fn params_replace(m: &mut IndexMap<String, PreparedParams>, i: usize, v: PreparedParams) -> (r: PreparedParams)
    requires
        i < params_entries(*old(m)).len(),
    ensures
        params_entries(*final(m)) == params_entries(*old(m)).update(i as int, (params_entries(*old(m))[i as int].0, v)),
        r == params_entries(*old(m))[i as int].1,
{
    std::mem::replace(&mut m[i], v)
}

} // verus!
