//! Splitting a long announcement into frames of bounded size.

use vstd::prelude::*;

verus! {

/// The size of a batch: at least one item, whatever was configured.
pub open spec fn clamped(batch_size: usize) -> nat {
    if batch_size == 0 {
        1
    } else {
        batch_size as nat
    }
}

/// Some items in batches of `size`, in order; only the last batch may be shorter.
pub open spec fn batched<T>(items: Seq<T>, size: nat) -> Seq<Seq<T>>
    recommends
        size > 0,
    decreases items.len(),
    when size > 0
{
    if items.len() == 0 {
        Seq::empty()
    } else if items.len() <= size {
        seq![items]
    } else {
        seq![items.take(size as int)] + batched(items.skip(size as int), size)
    }
}

/// The models of some batches.
pub open spec fn batch_views<T>(batches: Seq<Vec<T>>) -> Seq<Seq<T>> {
    batches.map_values(|batch: Vec<T>| batch@)
}

/// Batching the images of some items batches the items.
pub proof fn lemma_batched_map<T, U>(items: Seq<T>, f: spec_fn(T) -> U, size: nat)
    requires
        size > 0,
    ensures
        batched(items.map_values(f), size) == batched(items, size).map_values(
            |batch: Seq<T>| batch.map_values(f),
        ),
    decreases items.len(),
{
    let g = |batch: Seq<T>| batch.map_values(f);
    let images = items.map_values(f);
    if items.len() == 0 {
        assert(batched(images, size) =~= batched(items, size).map_values(g));
    } else if items.len() <= size {
        assert(batched(images, size) =~= batched(items, size).map_values(g));
    } else {
        let head = items.take(size as int);
        let tail = items.skip(size as int);
        lemma_batched_map(tail, f, size);
        assert(images.take(size as int) =~= head.map_values(f));
        assert(images.skip(size as int) =~= tail.map_values(f));
        assert(batched(items, size) == seq![head] + batched(tail, size));
        assert(batched(images, size) =~= batched(items, size).map_values(g));
    }
}

/// Splits items into batches of at most `batch_size`. No item gives no batch.
pub fn split_in_batches<T>(items: Vec<T>, batch_size: usize) -> (r: Vec<Vec<T>>)
    ensures
        batch_views(r@) == batched(items@, clamped(batch_size)),
{
    let size: usize = if batch_size == 0 {
        1
    } else {
        batch_size
    };
    let ghost all = items@;
    let mut batches: Vec<Vec<T>> = Vec::new();
    let mut rest: Vec<T> = items;
    assert(batch_views(batches@) + batched(rest@, size as nat) =~= batched(all, size as nat));
    while rest.len() > size
        invariant
            size == clamped(batch_size),
            batch_views(batches@) + batched(rest@, size as nat) == batched(all, size as nat),
        decreases rest.len(),
    {
        let ghost before = rest@;
        let ghost done = batch_views(batches@);
        let tail = rest.split_off(size);
        assert(rest@ == before.take(size as int));
        assert(tail@ == before.skip(size as int));
        batches.push(rest);
        rest = tail;
        assert(batch_views(batches@) =~= done.push(before.take(size as int)));
        assert(batch_views(batches@) + batched(rest@, size as nat) =~= done + batched(
            before,
            size as nat,
        ));
    }
    if rest.len() > 0 {
        let ghost done = batch_views(batches@);
        let ghost last = rest@;
        batches.push(rest);
        assert(batch_views(batches@) =~= done + seq![last]);
    } else {
        assert(batch_views(batches@) + batched(rest@, size as nat) =~= batch_views(batches@));
    }
    batches
}

/// Batching loses, repeats and reorders nothing: the batches joined are the items.
pub proof fn law_batches_join_to_the_whole<T>(items: Seq<T>, size: nat)
    requires
        size > 0,
    ensures
        batched(items, size).flatten() == items,
    decreases items.len(),
{
    let batches = batched(items, size);
    if items.len() == 0 {
    } else if items.len() <= size {
        assert(batches.drop_first().flatten() =~= Seq::<T>::empty());
        assert(batches.flatten() =~= items);
    } else {
        let head = items.take(size as int);
        let tail = items.skip(size as int);
        law_batches_join_to_the_whole(tail, size);
        assert(batches.drop_first() =~= batched(tail, size));
        assert(batches.flatten() == head.add(tail));
        assert(head.add(tail) =~= items);
    }
}

/// Every batch holds between one item and `size`, and every batch but the last is full.
pub proof fn law_batches_are_bounded<T>(items: Seq<T>, size: nat)
    requires
        size > 0,
    ensures
        forall|i: int|
            0 <= i < batched(items, size).len() ==> 0 < (#[trigger] batched(items, size)[i]).len()
                <= size,
        forall|i: int|
            0 <= i < batched(items, size).len() - 1 ==> (#[trigger] batched(items, size)[i]).len()
                == size,
    decreases items.len(),
{
    if items.len() > size {
        let head = items.take(size as int);
        let tail = items.skip(size as int);
        law_batches_are_bounded(tail, size);
        let batches = batched(items, size);
        assert forall|i: int| 0 <= i < batches.len() implies 0 < (#[trigger] batches[i]).len()
            <= size && (i < batches.len() - 1 ==> batches[i].len() == size) by {
            if i == 0 {
                assert(batches[0] == head);
            } else {
                assert(batches[i] == batched(tail, size)[i - 1]);
            }
        }
    }
}

} // verus!
