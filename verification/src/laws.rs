//! Store-level laws relating the record operations to one another,
//! stated over the store's mathematical model and proved once and for
//! all. The codec round-trip law lives next to the codec itself, in
//! [`crate::codec::lemma_round_trip`].
use vstd::prelude::*;
use crate::record::ExpenseView;
use crate::store::ExpenseStore;

verus! {

/// Id uniqueness and monotonicity. A create assigns the counter value
/// and bumps the counter; no operation ever lowers it, deletion
/// included. So across any two creates — however many other operations
/// run between them — the second assigned id is strictly greater than
/// the first, and in a well-formed store the assigned id is never
/// already present.
pub proof fn lemma_ids_strictly_increase(
    pre1: ExpenseStore,
    id1: u64,
    pre2: ExpenseStore,
    id2: u64,
)
    requires
        pre1.wf(),
        pre2.wf(),
        id1 == pre1.next_id(),
        id2 == pre2.next_id(),
        // The second create starts after the first completed: the
        // counter has moved past the first assignment and never shrinks.
        pre2.next_id() > pre1.next_id(),
    ensures
        id2 > id1,
        !pre1.records().contains_key(id1),
        !pre2.records().contains_key(id2),
        !pre2.records().contains_key(id1) || pre2.records()[id1].id == id1,
{
}

/// Create-then-get. A successful create leaves the store holding exactly
/// the returned record under the assigned id, with `created_at` set to
/// the creation instant and `updated_at` absent; a lookup of that id
/// therefore returns that very record.
pub proof fn lemma_create_then_get(
    pre: ExpenseStore,
    post: ExpenseStore,
    x: u64,
    v: ExpenseView,
    now: u64,
)
    requires
        post.records() == pre.records().insert(x, v),
        v.created_at == now,
        v.updated_at is None,
    ensures
        post.records().contains_key(x),
        post.records()[x] == v,
        post.records()[x].created_at == now,
        post.records()[x].updated_at is None,
{
}

/// Update keeps every other record. After an update of `x`, a record
/// stored under any other id is exactly what it was before.
pub proof fn lemma_update_preserves_others(
    pre: ExpenseStore,
    post: ExpenseStore,
    x: u64,
    v: ExpenseView,
    y: u64,
)
    requires
        post.records() == pre.records().insert(x, v),
        y != x,
    ensures
        post.records().contains_key(y) <==> pre.records().contains_key(y),
        pre.records().contains_key(y) ==> post.records()[y] == pre.records()[y],
{
}

/// Delete-then-get. After a successful delete of `x` the store no longer
/// holds `x`, so a lookup of `x` reports it absent; every other record
/// is untouched.
pub proof fn lemma_delete_then_get(pre: ExpenseStore, post: ExpenseStore, x: u64, y: u64)
    requires
        post.records() == pre.records().remove(x),
    ensures
        !post.records().contains_key(x),
        y != x ==> (post.records().contains_key(y) <==> pre.records().contains_key(y)),
        y != x && pre.records().contains_key(y) ==> post.records()[y] == pre.records()[y],
{
}

} // verus!
