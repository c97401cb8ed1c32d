use vstd::prelude::*;
use crate::link::LinkModel;
use crate::store::{
    can_insert, column_max, delete_spec, find_spec, increment_spec, insert_spec, resolve_result,
    valid, StoreError, StoreView,
};

verus! {

/// The table after `n` resolutions of `id` in a row.
pub open spec fn resolve_times(v: StoreView, id: int, n: nat) -> StoreView
    decreases n,
{
    if n == 0 {
        v
    } else {
        increment_spec(resolve_times(v, id, (n - 1) as nat), id)
    }
}

/// Every operation keeps a table valid.
pub proof fn lemma_operations_keep_valid(v: StoreView, id: int, url: Seq<char>)
    requires
        valid(v),
    ensures
        can_insert(v) ==> valid(insert_spec(v, url)),
        valid(delete_spec(v, id)),
        valid(increment_spec(v, id)),
{
}

/// Creating a link yields a record with a fresh identifier and counter 0,
/// and the table then holds exactly that record under that identifier,
/// beside the records it held before.
pub proof fn lemma_create(v: StoreView, url: Seq<char>)
    requires
        valid(v),
        can_insert(v),
    ensures
        !v.links.contains_key(v.next_id),
        find_spec(insert_spec(v, url), v.next_id) == Some(LinkModel { url, count: 0 }),
        forall|k: int| k != v.next_id ==> find_spec(insert_spec(v, url), k) == find_spec(v, k),
{
}

/// Resolving an existing record `n` times, where its counter has room,
/// redirects each time to its stored destination and raises its counter
/// by `n`.
pub proof fn lemma_resolve_repeatedly(v: StoreView, id: int, n: nat)
    requires
        valid(v),
        v.links.contains_key(id),
        v.links[id].count + n <= column_max(),
    ensures
        find_spec(resolve_times(v, id, n), id) == Some(
            LinkModel { url: v.links[id].url, count: v.links[id].count + n },
        ),
        forall|k: nat| k < n ==> resolve_result(#[trigger] resolve_times(v, id, k), id) == Ok::<
            Seq<char>,
            StoreError,
        >(v.links[id].url),
    decreases n,
{
    if n > 0 {
        lemma_resolve_repeatedly(v, id, (n - 1) as nat);
    }
}

/// A link created with destination `url` and resolved `n` times has been
/// redirected to `url` each time, and its counter went from 0 to `n`.
pub proof fn lemma_created_then_resolved(v: StoreView, url: Seq<char>, n: nat)
    requires
        valid(v),
        can_insert(v),
        n <= column_max(),
    ensures
        find_spec(resolve_times(insert_spec(v, url), v.next_id, n), v.next_id) == Some(
            LinkModel { url, count: n as int },
        ),
        forall|k: nat|
            k < n ==> resolve_result(
                #[trigger] resolve_times(insert_spec(v, url), v.next_id, k),
                v.next_id,
            ) == Ok::<Seq<char>, StoreError>(url),
{
    lemma_operations_keep_valid(v, v.next_id, url);
    lemma_resolve_repeatedly(insert_spec(v, url), v.next_id, n);
}

/// After a deletion of `id`, finding, resolving and deleting `id` all fail
/// with `NotFound`, and a resolution changes nothing.
pub proof fn lemma_deleted_is_gone(v: StoreView, id: int)
    requires
        valid(v),
    ensures
        find_spec(delete_spec(v, id), id) is None,
        !delete_spec(v, id).links.contains_key(id),
        resolve_result(delete_spec(v, id), id) == Err::<Seq<char>, StoreError>(StoreError::NotFound),
        increment_spec(delete_spec(v, id), id) == delete_spec(v, id),
        delete_spec(delete_spec(v, id), id) == delete_spec(v, id),
{
    assert(delete_spec(v, id).links.remove(id) =~= delete_spec(v, id).links);
}

/// An identifier that was never assigned names no record: resolving it
/// fails with `NotFound` and changes nothing.
pub proof fn lemma_never_created(v: StoreView, id: int)
    requires
        valid(v),
        !(1 <= id < v.next_id),
    ensures
        find_spec(v, id) is None,
        resolve_result(v, id) == Err::<Seq<char>, StoreError>(StoreError::NotFound),
        increment_spec(v, id) == v,
{
}

/// Identifiers are never reused: a record created after a deletion gets an
/// identifier other than the deleted one.
pub proof fn lemma_ids_not_reused(v: StoreView, id: int, url: Seq<char>)
    requires
        valid(v),
        v.links.contains_key(id),
    ensures
        delete_spec(v, id).next_id != id,
        !insert_spec(delete_spec(v, id), url).links.contains_key(id),
{
}

/// A link created with destination `url` resolves to exactly `url`.
pub proof fn lemma_round_trip(v: StoreView, url: Seq<char>)
    requires
        valid(v),
        can_insert(v),
    ensures
        resolve_result(insert_spec(v, url), v.next_id) == Ok::<Seq<char>, StoreError>(url),
{
}

/// Two resolutions of one record that both read it before either adds to
/// its counter both redirect to its destination, and together they raise
/// the counter by two.
pub proof fn lemma_interleaved_resolutions(v: StoreView, id: int)
    requires
        valid(v),
        v.links.contains_key(id),
        v.links[id].count + 2 <= column_max(),
    ensures
        resolve_result(v, id) == Ok::<Seq<char>, StoreError>(v.links[id].url),
        find_spec(increment_spec(increment_spec(v, id), id), id) == Some(
            LinkModel { url: v.links[id].url, count: v.links[id].count + 2 },
        ),
{
}

/// A deletion that falls between a resolution's read and its increment:
/// the resolution still redirects to the destination it read, the increment
/// finds no record and changes nothing, so no counter records that
/// resolution.
pub proof fn lemma_delete_between_read_and_increment(v: StoreView, id: int)
    requires
        valid(v),
        v.links.contains_key(id),
    ensures
        find_spec(v, id) == Some(v.links[id]),
        increment_spec(delete_spec(v, id), id) == delete_spec(v, id),
        find_spec(increment_spec(delete_spec(v, id), id), id) is None,
{
}

} // verus!
