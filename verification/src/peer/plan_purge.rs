//! Reconciling a peer's purge manifest with the local purge set.
//!
//! Purges only accumulate: an id that either device has purged is purged on both.

use vstd::prelude::*;

use crate::ids::FileId;
use crate::peer::batch::{batch_views, batched, clamped, split_in_batches};
use crate::seqs::{lemma_filter_concat, lemma_filter_none, lemma_filter_take};
use crate::store::types::CatalogView;
use crate::store::CatalogStore;

verus! {

/// The ids that a peer has purged and this device has not, in the order announced.
pub open spec fn purge_plan(catalog: CatalogView, entries: Seq<FileId>) -> Seq<FileId> {
    entries.filter(|file_id: FileId| !catalog.is_purged(file_id))
}

/// Every id that this device has purged.
pub fn build_local_purge_manifest(database: &CatalogStore) -> (r: Result<Vec<FileId>, String>)
    ensures
        r matches Ok(ids) && ids@ == database@.purged,
{
    match database.purged_ids() {
        Ok(ids) => Ok(ids),
        Err(_) => Err("purged_ids".to_owned()),
    }
}

/// Splits a purge manifest into batches of at most `batch_size` ids, each for a frame of its own.
pub fn batch_purge_manifest(entries: Vec<FileId>, batch_size: usize) -> (r: Vec<Vec<FileId>>)
    ensures
        batch_views(r@) == batched(entries@, clamped(batch_size)),
{
    split_in_batches(entries, batch_size)
}

/// The announced purges that are new here.
pub fn plan_purge_sync(
    _peer_name: &str,
    entries: Vec<FileId>,
    database: &CatalogStore,
) -> (to_purge: Vec<FileId>)
    ensures
        to_purge@ == purge_plan(database@, entries@),
{
    let ghost p = |file_id: FileId| !database@.is_purged(file_id);
    let mut to_purge: Vec<FileId> = Vec::new();
    let mut i: usize = 0;
    proof {
        lemma_filter_none(entries@.take(0), p);
    }
    while i < entries.len()
        invariant
            i <= entries.len(),
            p == (|file_id: FileId| !database@.is_purged(file_id)),
            to_purge@ == entries@.take(i as int).filter(p),
        decreases entries.len() - i,
    {
        proof {
            lemma_filter_take(entries@, i as int, p);
        }
        let held = match database.is_purged(entries[i]) {
            Ok(held) => held,
            Err(_) => true,
        };
        if !held {
            to_purge.push(entries[i]);
        }
        i = i + 1;
    }
    assert(entries@.take(i as int) =~= entries@);
    to_purge
}

/// The catalog after some purges, one after the other.
pub open spec fn with_purges(catalog: CatalogView, ids: Seq<FileId>) -> CatalogView
    decreases ids.len(),
{
    if ids.len() == 0 {
        catalog
    } else {
        with_purges(catalog, ids.drop_last()).with_purge(ids.last())
    }
}

proof fn lemma_with_purges(catalog: CatalogView, ids: Seq<FileId>, file_id: FileId)
    ensures
        with_purges(catalog, ids).is_purged(file_id) == (catalog.is_purged(file_id)
            || ids.contains(file_id)),
    decreases ids.len(),
{
    if ids.len() > 0 {
        let before = with_purges(catalog, ids.drop_last());
        lemma_with_purges(catalog, ids.drop_last(), file_id);
        let last = ids.last();
        assert(ids =~= ids.drop_last().push(last));
        if ids.contains(file_id) && file_id != last {
            let k = ids.index_of(file_id);
            assert(ids.drop_last()[k] == file_id);
        }
        if ids.drop_last().contains(file_id) {
            let k = ids.drop_last().index_of(file_id);
            assert(ids[k] == file_id);
        }
        if file_id == last {
            assert(ids[ids.len() - 1] == file_id);
        }
        if !before.is_purged(last) {
            let after = before.purged.push(last);
            assert(after[after.len() - 1] == last);
            if before.purged.contains(file_id) {
                let k = before.purged.index_of(file_id);
                assert(after[k] == file_id);
            }
        }
    }
}

/// Applying the plan for a manifest brings in every announced purge, and the same manifest
/// then plans nothing.
pub proof fn law_applied_purges_settle(catalog: CatalogView, entries: Seq<FileId>)
    ensures
        ({
            let after = with_purges(catalog, purge_plan(catalog, entries));
            &&& forall|file_id: FileId|
                #![trigger after.is_purged(file_id)]
                after.is_purged(file_id) <==> catalog.is_purged(file_id) || entries.contains(
                    file_id,
                )
            &&& purge_plan(after, entries) == Seq::<FileId>::empty()
        }),
{
    let p = |file_id: FileId| !catalog.is_purged(file_id);
    let plan = purge_plan(catalog, entries);
    let after = with_purges(catalog, plan);
    assert forall|file_id: FileId| #![trigger after.is_purged(file_id)] after.is_purged(file_id)
        <==> catalog.is_purged(file_id) || entries.contains(file_id) by {
        lemma_with_purges(catalog, plan, file_id);
        if plan.contains(file_id) {
            let k = plan.index_of(file_id);
            crate::seqs::lemma_filter_member(entries, p, k);
            let i = choose|i: int| 0 <= i < entries.len() && entries[i] == plan[k];
            assert(entries.contains(file_id));
        }
        if entries.contains(file_id) && !catalog.is_purged(file_id) {
            let i = entries.index_of(file_id);
            crate::seqs::lemma_filter_keeps(entries, p, i);
            let k = choose|k: int| 0 <= k < plan.len() && plan[k] == entries[i];
            assert(plan.contains(file_id));
        }
    }
    assert forall|i: int| 0 <= i < entries.len() implies after.is_purged(#[trigger] entries[i]) by {
        assert(entries.contains(entries[i]));
    }
    lemma_filter_none(entries, |file_id: FileId| !after.is_purged(file_id));
}

/// However a purge manifest is split in two, the parts plan what the whole plans.
pub proof fn law_purge_plan_is_additive(
    catalog: CatalogView,
    first: Seq<FileId>,
    second: Seq<FileId>,
)
    ensures
        purge_plan(catalog, first + second) == purge_plan(catalog, first) + purge_plan(
            catalog,
            second,
        ),
{
    lemma_filter_concat(first, second, |file_id: FileId| !catalog.is_purged(file_id));
}

} // verus!
