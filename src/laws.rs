//! Properties that hold across the operations of the trainer, stated over
//! the contracts of `prune_points`, `clone_points`, `split_points`,
//! `densify_and_prune` and the recording of gradient statistics.
use vstd::prelude::*;

use crate::select::{
    all_rows, gathered, keep_list, lemma_gather_all, lemma_keep_mark_partition, lemma_select_all,
    lemma_select_list, lemma_select_none, mark_list, marked,
};
use crate::splats::Splats;
use crate::trainer::{avg_of, CycleInputs, SplatTrainer};

verus! {

/// Row `i` of `a` and row `j` of `b` hold the same parameters in every column.
pub open spec fn same_row<V, Q, C, O>(
    a: &Splats<V, Q, C, O>,
    i: int,
    b: &Splats<V, Q, C, O>,
    j: int,
) -> bool {
    &&& a.means@[i] == b.means@[j]
    &&& a.rotation@[i] == b.rotation@[j]
    &&& a.sh_coeffs@[i] == b.sh_coeffs@[j]
    &&& a.raw_opacity@[i] == b.raw_opacity@[j]
    &&& a.log_scales@[i] == b.log_scales@[j]
}

/// The parent of child `c` of a split by `mask` over `n` rows: children come
/// in two rounds over the marked rows, in row order.
pub open spec fn split_parent(mask: Seq<bool>, n: nat, c: int) -> int {
    mark_list(mask, n)[c % mark_list(mask, n).len() as int]
}

/// Pruning with a mask that marks no row changes nothing: the rows kept are
/// all rows in order, so every column and both statistics columns come out
/// as they went in.
pub proof fn prune_unmarked_is_identity<V: Copy, Q: Copy, C: Copy, O: Copy>(
    before: Splats<V, Q, C, O>,
    after: Splats<V, Q, C, O>,
    accum: Seq<u64>,
    counts: Seq<u32>,
    mask: Seq<bool>,
)
    requires
        before.wf(),
        accum.len() == before.len(),
        counts.len() == before.len(),
        mask.len() <= before.len(),
        forall|i: int| 0 <= i < mask.len() ==> !mask[i],
        after.is_gather_of(&before, keep_list(mask, before.len())),
    ensures
        keep_list(mask, before.len()) == all_rows(before.len()),
        after.means@ == before.means@,
        after.rotation@ == before.rotation@,
        after.sh_coeffs@ == before.sh_coeffs@,
        after.raw_opacity@ == before.raw_opacity@,
        after.log_scales@ == before.log_scales@,
        gathered(accum, keep_list(mask, before.len())) == accum,
        gathered(counts, keep_list(mask, before.len())) == counts,
{
    lemma_select_all(mask, before.len(), false);
    lemma_gather_all(before.means@);
    lemma_gather_all(before.rotation@);
    lemma_gather_all(before.sh_coeffs@);
    lemma_gather_all(before.raw_opacity@);
    lemma_gather_all(before.log_scales@);
    lemma_gather_all(accum);
    lemma_gather_all(counts);
    assert(after.means@ =~= before.means@);
    assert(after.rotation@ =~= before.rotation@);
    assert(after.sh_coeffs@ =~= before.sh_coeffs@);
    assert(after.raw_opacity@ =~= before.raw_opacity@);
    assert(after.log_scales@ =~= before.log_scales@);
}

/// A mask that marks every row of a non-empty set keeps no row, which is
/// exactly when `prune_points` refuses the deletion.
pub proof fn prune_all_marked_keeps_none(mask: Seq<bool>, n: nat)
    requires
        mask.len() == n,
        forall|i: int| 0 <= i < n ==> mask[i],
    ensures
        keep_list(mask, n).len() == 0,
{
    lemma_select_none(mask, n, false);
}

/// After a clone, every earlier row is still in place, unchanged, and every
/// marked row has an exact copy among the new rows; the new rows are copies
/// of marked rows only.
pub proof fn clone_keeps_every_row<V: Copy, Q: Copy, C: Copy, O: Copy>(
    before: Splats<V, Q, C, O>,
    after: Splats<V, Q, C, O>,
    mask: Seq<bool>,
)
    requires
        before.wf(),
        mask.len() <= before.len(),
        after.is_extended_by(&before, mark_list(mask, before.len())),
    ensures
        after.wf(),
        after.len() == before.len() + mark_list(mask, before.len()).len(),
        forall|i: int| 0 <= i < before.len() ==> #[trigger] same_row(&after, i, &before, i),
        forall|i: int|
            0 <= i < before.len() && marked(mask, i) ==> exists|j: int|
                before.len() <= j < after.len() && #[trigger] same_row(&after, j, &before, i),
        forall|k: int|
            0 <= k < mark_list(mask, before.len()).len() ==> marked(
                mask,
                #[trigger] mark_list(mask, before.len())[k],
            ) && same_row(&after, before.len() + k, &before, mark_list(mask, before.len())[k]),
{
    let n = before.len();
    let cl = mark_list(mask, n);
    lemma_select_list(mask, n, true);
    assert forall|i: int| 0 <= i < n && marked(mask, i) implies exists|j: int|
        n <= j < after.len() && #[trigger] same_row(&after, j, &before, i) by {
        assert(cl.contains(i));
        let k = choose|k: int| 0 <= k < cl.len() && cl[k] == i;
        assert(same_row(&after, n + k, &before, i));
    }
}

/// A split of the `s` marked rows appends `2 * s` children and deletes the
/// `s` parents: the set grows by exactly `s`. No surviving earlier row is a
/// parent, and each child carries its parent's rotation, colour and opacity.
pub proof fn split_grows_by_marked_count<V: Copy, Q: Copy, C: Copy, O: Copy>(
    before: Splats<V, Q, C, O>,
    after: Splats<V, Q, C, O>,
    mask: Seq<bool>,
    child_means: Seq<V>,
    child_scales: Seq<V>,
)
    requires
        before.wf(),
        mask.len() <= before.len(),
        child_means.len() == 2 * mark_list(mask, before.len()).len(),
        child_scales.len() == child_means.len(),
        after.means@ == gathered(before.means@, keep_list(mask, before.len())) + child_means,
        after.log_scales@ == gathered(before.log_scales@, keep_list(mask, before.len()))
            + child_scales,
        after.rotation@ == gathered(before.rotation@, keep_list(mask, before.len())) + gathered(
            before.rotation@,
            mark_list(mask, before.len()),
        ) + gathered(before.rotation@, mark_list(mask, before.len())),
        after.sh_coeffs@ == gathered(before.sh_coeffs@, keep_list(mask, before.len())) + gathered(
            before.sh_coeffs@,
            mark_list(mask, before.len()),
        ) + gathered(before.sh_coeffs@, mark_list(mask, before.len())),
        after.raw_opacity@ == gathered(before.raw_opacity@, keep_list(mask, before.len()))
            + gathered(before.raw_opacity@, mark_list(mask, before.len())) + gathered(
            before.raw_opacity@,
            mark_list(mask, before.len()),
        ),
    ensures
        after.wf(),
        after.len() == before.len() + mark_list(mask, before.len()).len(),
        forall|k: int|
            0 <= k < keep_list(mask, before.len()).len() ==> !marked(
                mask,
                #[trigger] keep_list(mask, before.len())[k],
            ),
        forall|c: int|
            0 <= c < child_means.len() ==> {
                &&& marked(mask, #[trigger] split_parent(mask, before.len(), c))
                &&& after.rotation@[keep_list(mask, before.len()).len() + c]
                    == before.rotation@[split_parent(mask, before.len(), c)]
                &&& after.sh_coeffs@[keep_list(mask, before.len()).len() + c]
                    == before.sh_coeffs@[split_parent(mask, before.len(), c)]
                &&& after.raw_opacity@[keep_list(mask, before.len()).len() + c]
                    == before.raw_opacity@[split_parent(mask, before.len(), c)]
            },
{
    let n = before.len();
    lemma_keep_mark_partition(mask, n);
    lemma_select_list(mask, n, false);
    lemma_select_list(mask, n, true);
    let first = keep_list(mask, n).len();
    let s = mark_list(mask, n).len();
    assert forall|c: int| 0 <= c < child_means.len() implies {
        &&& marked(mask, #[trigger] split_parent(mask, n, c))
        &&& after.rotation@[first + c] == before.rotation@[split_parent(mask, n, c)]
        &&& after.sh_coeffs@[first + c] == before.sh_coeffs@[split_parent(mask, n, c)]
        &&& after.raw_opacity@[first + c] == before.raw_opacity@[split_parent(mask, n, c)]
    } by {
        if c < s {
            assert(c % s as int == c) by (nonlinear_arith)
                requires
                    0 <= c < s,
            ;
        } else {
            assert(c % s as int == c - s) by (nonlinear_arith)
                requires
                    s <= c < 2 * s,
            ;
        }
    }
}

/// A step that records a zero magnitude for a point changes neither its sum
/// nor its count, so its average stays what it was: steps without gradient
/// do not dilute the average.
pub proof fn zero_gradient_keeps_average(
    before: SplatTrainer,
    after: SplatTrainer,
    ids: Seq<usize>,
    mags: Seq<u64>,
    k: int,
)
    requires
        before.grad_2d_accum@.len() == before.xy_grad_counts@.len(),
        0 <= k < ids.len(),
        ids.len() == mags.len(),
        ids[k] < before.grad_2d_accum@.len(),
        mags[k] == 0,
        after.recorded(&before, ids, mags),
    ensures
        after.grad_2d_accum@[ids[k] as int] == before.grad_2d_accum@[ids[k] as int],
        after.xy_grad_counts@[ids[k] as int] == before.xy_grad_counts@[ids[k] as int],
        after.avg_grad(ids[k] as int) == before.avg_grad(ids[k] as int),
{
    assert(before.grad_2d_accum@[ids[k] as int] + 0 == before.grad_2d_accum@[ids[k] as int]);
}

/// A point observed with the same magnitude `m` on each of its `c` counted
/// steps averages exactly `m`.
pub proof fn repeated_magnitude_averages_to_it(m: u64, c: u32)
    requires
        c >= 1,
        c as int * m as int <= u64::MAX,
    ensures
        avg_of((c as int * m as int) as u64, c) == m,
{
    assert((c as int * m as int) / c as int == m as int) by (nonlinear_arith)
        requires
            c >= 1,
    ;
}

/// A refinement cycle keeps every unsplit survivor, appends one copy per
/// cloned point and two children per split point, and deletes the split
/// parents: over the survivors of the cull it grows by exactly the clones
/// plus the splits, and no surviving row of the set before is a split parent.
pub proof fn cycle_grows_by_clones_and_splits<V: Copy, Q: Copy, C: Copy, O: Copy>(
    stats: SplatTrainer,
    after: Splats<V, Q, C, O>,
    after_stats: SplatTrainer,
    before: Splats<V, Q, C, O>,
    cy: CycleInputs<V, O>,
    reset: bool,
)
    requires
        before.wf(),
        cy.fits(before.len()),
        stats.cycle_done(&after, &after_stats, &before, &cy, reset),
    ensures
        ({
            let keep = SplatTrainer::cycle_kept(&cy, before.len());
            let m = keep.len();
            let split = mark_list(stats.split_mask_of(cy.small@, keep), m);
            let unsplit = keep_list(stats.split_mask_of(cy.small@, keep), m);
            let cloned = mark_list(stats.clone_mask_of(cy.small@, keep), m);
            &&& unsplit.len() + split.len() == m
            &&& after.len() == unsplit.len() + cloned.len() + 2 * split.len()
            &&& forall|j: int|
                0 <= j < unsplit.len() ==> !marked(
                    stats.split_mask_of(cy.small@, keep),
                    #[trigger] unsplit[j],
                )
        }),
{
    let keep = SplatTrainer::cycle_kept(&cy, before.len());
    let m = keep.len();
    lemma_keep_mark_partition(stats.split_mask_of(cy.small@, keep), m);
    lemma_select_list(stats.split_mask_of(cy.small@, keep), m, false);
}

} // verus!
