//! The mathematical model of the record store, and the laws that relate the
//! data-access operations to one another.
//!
//! A store holds at most one payload per ISBN, so its model is a map from key
//! to payload. Each operation's contract is stated through the model
//! functions here; the laws then hold of every backend that meets those
//! contracts.

use crate::json::canon_elems;
use crate::json::lemma_render_empty;
use crate::json::render_model;
use vstd::prelude::*;

verus! {

/// What `create` does to the store: an upsert, silently replacing any record
/// already stored under the key.
pub open spec fn create_model(
    m: Map<Seq<char>, Seq<char>>,
    isbn: Seq<char>,
    payload: Seq<char>,
) -> Map<Seq<char>, Seq<char>> {
    m.insert(isbn, payload)
}

/// What `get` finds in the store: the payload stored under the key, or
/// nothing.
pub open spec fn get_model(m: Map<Seq<char>, Seq<char>>, isbn: Seq<char>) -> Option<Seq<char>> {
    if m.contains_key(isbn) {
        Some(m[isbn])
    } else {
        None
    }
}

/// What `delete` does to the store: removes the record under the key, and
/// leaves the store as it was when there is none.
pub open spec fn delete_model(
    m: Map<Seq<char>, Seq<char>>,
    isbn: Seq<char>,
) -> Map<Seq<char>, Seq<char>> {
    m.remove(isbn)
}

/// Whether `es` is one enumeration of the store `m`: its keys are distinct,
/// every entry carries the payload stored under its key, and every stored key
/// appears. The order is left open, as a scan guarantees none.
pub open spec fn records_listing(
    m: Map<Seq<char>, Seq<char>>,
    es: Seq<(Seq<char>, Seq<char>)>,
) -> bool {
    &&& forall|i: int, j: int| 0 <= i < j < es.len() ==> (#[trigger] es[i]).0 != (#[trigger] es[j]).0
    &&& forall|i: int|
        0 <= i < es.len() ==> m.contains_key((#[trigger] es[i]).0) && m[es[i].0] == es[i].1
    &&& forall|k: Seq<char>|
        m.contains_key(k) ==> exists|i: int| 0 <= i < es.len() && (#[trigger] es[i]).0 == k
}

/// The payloads of an enumeration, one per scanned entry, each present.
pub open spec fn listed_payloads(es: Seq<(Seq<char>, Seq<char>)>) -> Seq<Option<Seq<char>>> {
    es.map_values(|e: (Seq<char>, Seq<char>)| Some(e.1))
}

/// Round trip: writing a payload under a key and then looking the key up
/// finds exactly that payload, unchanged.
pub proof fn lemma_create_then_get(
    m: Map<Seq<char>, Seq<char>>,
    isbn: Seq<char>,
    payload: Seq<char>,
)
    ensures
        get_model(create_model(m, isbn, payload), isbn) == Some(payload),
{
}

/// Deletion is idempotent: removing a key twice leaves the store exactly as
/// removing it once does.
pub proof fn lemma_delete_idempotent(m: Map<Seq<char>, Seq<char>>, isbn: Seq<char>)
    ensures
        delete_model(delete_model(m, isbn), isbn) == delete_model(m, isbn),
{
    assert(delete_model(delete_model(m, isbn), isbn) =~= delete_model(m, isbn));
}

/// A key never written is not found: looking it up yields nothing, so `get`
/// on it can only fail.
pub proof fn lemma_get_absent(m: Map<Seq<char>, Seq<char>>, isbn: Seq<char>)
    requires
        !m.contains_key(isbn),
    ensures
        get_model(m, isbn) is None,
{
}

/// Listing an empty store succeeds with the empty JSON array: the only
/// enumeration of the empty store is the empty one, and it renders as `[]`.
pub proof fn lemma_list_empty_store(es: Seq<(Seq<char>, Seq<char>)>)
    requires
        records_listing(Map::<Seq<char>, Seq<char>>::empty(), es),
    ensures
        render_model(listed_payloads(es)) == "[]"@,
{
    assert(es.len() == 0) by {
        if es.len() > 0 {
            assert(Map::<Seq<char>, Seq<char>>::empty().contains_key(es[0].0));
        }
    }
    assert(listed_payloads(es) =~= Seq::<Option<Seq<char>>>::empty());
    assert(canon_elems(listed_payloads(es)).len() == 0);
    lemma_render_empty(listed_payloads(es));
}

} // verus!
