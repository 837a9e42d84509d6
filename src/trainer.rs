//! The trainer's own state between steps: the iteration counter, the
//! refinement settings, and the per-point screen-space gradient statistics
//! that decide which points are cloned and split. Gradient magnitudes are
//! fixed-point integers in a unit the caller picks; the densification
//! threshold is given in the same unit.
use vstd::prelude::*;

use crate::select::{
    lemma_gather_prefix, lemma_keep_mark_partition, lemma_mark_extended,
    gather, gathered, keep_list, lemma_gather_all, lemma_gather_append, lemma_gather_split_idx,
    lemma_keep_extended, lemma_select_all, lemma_select_full, lemma_select_list, lemma_select_none,
    mark_list, repeat_twice, select_indices,
};
use crate::splats::Splats;

verus! {

/// Settings of the refinement schedule and of the densification threshold.
#[derive(Clone, Copy, Debug, PartialEq, Eq, Structural)]
pub struct RefineConfig {
    /// Steps up to and including this one neither record statistics nor refine.
    pub warmup_steps: u32,
    /// Refinement runs on every step that is a multiple of this.
    pub refine_every: u32,
    /// Every this many refinements, the opacities are reset.
    pub reset_alpha_every: u32,
    /// Average gradient magnitude from which a point is densified.
    pub densify_grad_thresh: u64,
}

impl RefineConfig {
    /// Both periods are positive.
    pub open spec fn wf(&self) -> bool {
        self.refine_every > 0 && self.reset_alpha_every > 0
    }
}

/// Why a structural change was refused.
#[derive(Clone, Copy, Debug, PartialEq, Eq, Structural)]
pub enum PruneError {
    /// The deletion would leave no point at all.
    WouldRemoveAll,
}

/// What a step did beyond its bookkeeping; after a refinement the caller
/// re-initialises its optimizer.
#[derive(Clone, Copy, Debug, PartialEq, Eq, Structural)]
pub enum StepAction {
    /// Nothing structural this step.
    Continue,
    /// A refinement cycle ran, with an opacity reset or not.
    Refine { reset_opacity: bool },
}

/// `a + b`, held at the largest `u64`.
pub open spec fn sat_add64(a: u64, b: u64) -> u64 {
    if a + b > u64::MAX {
        u64::MAX
    } else {
        (a + b) as u64
    }
}

/// `a + 1`, held at the largest `u32`.
pub open spec fn sat_inc32(a: u32) -> u32 {
    if a == u32::MAX {
        u32::MAX
    } else {
        (a + 1) as u32
    }
}

/// `k` zeros.
pub open spec fn zeros64(k: nat) -> Seq<u64> {
    Seq::new(k, |i: int| 0u64)
}

/// `k` zeros.
pub open spec fn zeros32(k: nat) -> Seq<u32> {
    Seq::new(k, |i: int| 0u32)
}

/// Average of an accumulated magnitude over its number of observations,
/// where a point never observed counts as observed once.
pub open spec fn avg_of(accum: u64, count: u32) -> int {
    if count == 0 {
        accum as int
    } else {
        accum as int / count as int
    }
}

/// The deletion mask of a refinement cycle: rows marked in either mask.
pub open spec fn cull_mask(low: Seq<bool>, over: Seq<bool>) -> Seq<bool> {
    Seq::new(low.len(), |i: int| low[i] || over[i])
}

/// What a refinement cycle needs that only the floating-point parameters
/// can tell, one entry per current row: the three tests of the point, and
/// the two children it would get if it were split (positions on either side,
/// and the shared log-scale). The cycle reads the children of split points
/// only. `opacity_reset` is the logit that an opacity reset writes.
pub struct CycleInputs<V, O> {
    pub low_opacity: Vec<bool>,
    pub oversized: Vec<bool>,
    pub small: Vec<bool>,
    pub child_means_a: Vec<V>,
    pub child_means_b: Vec<V>,
    pub child_scales: Vec<V>,
    pub opacity_reset: O,
}

impl<V, O> CycleInputs<V, O> {
    /// One entry per row of an `n`-row set.
    pub open spec fn fits(&self, n: nat) -> bool {
        &&& self.low_opacity@.len() == n
        &&& self.oversized@.len() == n
        &&& self.small@.len() == n
        &&& self.child_means_a@.len() == n
        &&& self.child_means_b@.len() == n
        &&& self.child_scales@.len() == n
    }
}

/// A column after a refinement cycle, from its rows `kept` that survived
/// the cull: the rows not split, in order, then copies of the cloned rows,
/// then the first children of the split rows, then their second children.
pub open spec fn refined_col<T>(
    kept: Seq<T>,
    unsplit: Seq<int>,
    cloned: Seq<int>,
    first: Seq<T>,
    second: Seq<T>,
) -> Seq<T> {
    gathered(kept, unsplit) + gathered(kept, cloned) + first + second
}

/// The refinement state that lives across training steps. Its statistics
/// columns run parallel to the point set it `tracks`.
pub struct SplatTrainer {
    /// Number of steps taken so far.
    pub iter: u32,
    pub config: RefineConfig,
    /// Per point: the sum of the gradient magnitudes recorded.
    pub grad_2d_accum: Vec<u64>,
    /// Per point: the number of recorded steps with a nonzero gradient.
    pub xy_grad_counts: Vec<u32>,
}

impl SplatTrainer {
    /// Statistics are held for exactly the rows of `splats`, whose columns
    /// agree in length.
    pub open spec fn tracks<V: Copy, Q: Copy, C: Copy, O: Copy>(
        &self,
        splats: &Splats<V, Q, C, O>,
    ) -> bool {
        &&& splats.wf()
        &&& self.grad_2d_accum@.len() == splats.len()
        &&& self.xy_grad_counts@.len() == splats.len()
    }

    /// Both statistics columns have length `n`.
    pub open spec fn stats_len(&self, n: nat) -> bool {
        self.grad_2d_accum@.len() == n && self.xy_grad_counts@.len() == n
    }

    /// Statistics are recorded on step `iter`.
    pub open spec fn records_at(&self, iter: u32) -> bool {
        iter > self.config.warmup_steps
    }

    /// A refinement cycle runs on step `iter`.
    pub open spec fn refines_at(&self, iter: u32) -> bool {
        iter > self.config.warmup_steps && iter as int % self.config.refine_every as int == 0
    }

    /// The opacities are reset on step `iter`, if it refines.
    pub open spec fn resets_opacity_at(&self, iter: u32) -> bool {
        iter as int % (self.config.refine_every as int * self.config.reset_alpha_every as int)
            == 0
    }

    /// What step `iter` asks of the caller.
    pub open spec fn action_at(&self, iter: u32) -> StepAction {
        if self.refines_at(iter) {
            StepAction::Refine { reset_opacity: self.resets_opacity_at(iter) }
        } else {
            StepAction::Continue
        }
    }

    /// Average recorded gradient magnitude of row `i`.
    pub open spec fn avg_grad(&self, i: int) -> int {
        avg_of(self.grad_2d_accum@[i], self.xy_grad_counts@[i])
    }

    /// The statistics after recording magnitude `mags[k]` for row `ids[k]`:
    /// the magnitude is added, and the count goes up where it is nonzero.
    pub open spec fn recorded(&self, prev: &Self, ids: Seq<usize>, mags: Seq<u64>) -> bool {
        &&& self.stats_len(prev.grad_2d_accum@.len())
        &&& forall|k: int|
            0 <= k < ids.len() ==> self.grad_2d_accum@[ids[k] as int] == sat_add64(
                #[trigger] prev.grad_2d_accum@[ids[k] as int],
                mags[k],
            ) && self.xy_grad_counts@[ids[k] as int] == (if mags[k] > 0 {
                sat_inc32(prev.xy_grad_counts@[ids[k] as int])
            } else {
                prev.xy_grad_counts@[ids[k] as int]
            })
        &&& forall|i: int|
            0 <= i < prev.grad_2d_accum@.len() && !ids.contains(i as usize) ==> (
            #[trigger] self.grad_2d_accum@[i] == prev.grad_2d_accum@[i]
                && self.xy_grad_counts@[i] == prev.xy_grad_counts@[i])
    }

    /// Rows surviving the cull of cycle `cy` over an `n`-row set.
    pub open spec fn cycle_kept<V, O>(cy: &CycleInputs<V, O>, n: nat) -> Seq<int> {
        keep_list(cull_mask(cy.low_opacity@, cy.oversized@), n)
    }

    /// `after` and `after_stats` are what a refinement cycle makes of
    /// `before`, deciding with the statistics of `self`: the cull, then the
    /// clones, then the split (children appended, parents deleted), the
    /// opacity reset when `reset`, and zeroed statistics at the new length.
    pub open spec fn cycle_done<V: Copy, Q: Copy, C: Copy, O: Copy>(
        &self,
        after: &Splats<V, Q, C, O>,
        after_stats: &Self,
        before: &Splats<V, Q, C, O>,
        cy: &CycleInputs<V, O>,
        reset: bool,
    ) -> bool {
        let keep = Self::cycle_kept(cy, before.len());
        let m = keep.len();
        let cloned = mark_list(self.clone_mask_of(cy.small@, keep), m);
        let split = mark_list(self.split_mask_of(cy.small@, keep), m);
        let unsplit = keep_list(self.split_mask_of(cy.small@, keep), m);
        let rot = gathered(before.rotation@, keep);
        let coe = gathered(before.sh_coeffs@, keep);
        let opa = gathered(before.raw_opacity@, keep);
        let sca = gathered(cy.child_scales@, keep);
        &&& after.wf()
        &&& after.len() == m + cloned.len() + split.len()
        &&& after.means@ == refined_col(
            gathered(before.means@, keep),
            unsplit,
            cloned,
            gathered(gathered(cy.child_means_a@, keep), split),
            gathered(gathered(cy.child_means_b@, keep), split),
        )
        &&& after.log_scales@ == refined_col(
            gathered(before.log_scales@, keep),
            unsplit,
            cloned,
            gathered(sca, split),
            gathered(sca, split),
        )
        &&& after.rotation@ == refined_col(rot, unsplit, cloned, gathered(rot, split), gathered(rot, split))
        &&& after.sh_coeffs@ == refined_col(coe, unsplit, cloned, gathered(coe, split), gathered(coe, split))
        &&& after.raw_opacity@ == (if reset {
            Seq::new(after.len(), |i: int| cy.opacity_reset)
        } else {
            refined_col(opa, unsplit, cloned, gathered(opa, split), gathered(opa, split))
        })
        &&& after_stats.grad_2d_accum@ == zeros64(after.len())
        &&& after_stats.xy_grad_counts@ == zeros32(after.len())
    }

    /// Whether the current step runs a refinement cycle.
    pub fn refines_now(&self) -> (r: bool)
        requires
            self.config.wf(),
        ensures
            r == self.refines_at(self.iter),
    {
        self.iter > self.config.warmup_steps && self.iter % self.config.refine_every == 0
    }

    /// A trainer for `num_points` points, at step zero, with empty statistics.
    pub fn new(num_points: usize, config: RefineConfig) -> (r: Self)
        ensures
            r.iter == 0,
            r.config == config,
            r.grad_2d_accum@ == zeros64(num_points as nat),
            r.xy_grad_counts@ == zeros32(num_points as nat),
    {
        let mut r = SplatTrainer {
            iter: 0,
            config,
            grad_2d_accum: Vec::new(),
            xy_grad_counts: Vec::new(),
        };
        r.reset_stats(num_points);
        r
    }

    /// Drops the statistics and starts afresh with `num_points` zeroed rows.
    pub fn reset_stats(&mut self, num_points: usize)
        ensures
            final(self).iter == old(self).iter,
            final(self).config == old(self).config,
            final(self).grad_2d_accum@ == zeros64(num_points as nat),
            final(self).xy_grad_counts@ == zeros32(num_points as nat),
    {
        self.grad_2d_accum = Vec::new();
        self.xy_grad_counts = Vec::new();
        self.push_zeros(num_points);
        assert(self.grad_2d_accum@ =~= zeros64(num_points as nat));
        assert(self.xy_grad_counts@ =~= zeros32(num_points as nat));
    }

    /// Appends `k` zeroed rows to both statistics columns.
    fn push_zeros(&mut self, k: usize)
        ensures
            final(self).iter == old(self).iter,
            final(self).config == old(self).config,
            final(self).grad_2d_accum@ == old(self).grad_2d_accum@ + zeros64(k as nat),
            final(self).xy_grad_counts@ == old(self).xy_grad_counts@ + zeros32(k as nat),
    {
        let mut j: usize = 0;
        while j < k
            invariant
                j <= k,
                self.iter == old(self).iter,
                self.config == old(self).config,
                self.grad_2d_accum@ == old(self).grad_2d_accum@ + zeros64(j as nat),
                self.xy_grad_counts@ == old(self).xy_grad_counts@ + zeros32(j as nat),
            decreases k - j,
        {
            self.grad_2d_accum.push(0);
            self.xy_grad_counts.push(0);
            j = j + 1;
            assert(self.grad_2d_accum@ =~= old(self).grad_2d_accum@ + zeros64(j as nat));
            assert(self.xy_grad_counts@ =~= old(self).xy_grad_counts@ + zeros32(j as nat));
        }
    }

    /// Records one render's screen-space gradients: `grad_mags[k]` belongs to
    /// row `global_from_compact[k]`, which maps the renderer's compacted
    /// visible points back to rows of the point set.
    pub fn update_stats(&mut self, global_from_compact: &Vec<usize>, grad_mags: &Vec<u64>)
        requires
            old(self).grad_2d_accum@.len() == old(self).xy_grad_counts@.len(),
            global_from_compact@.len() == grad_mags@.len(),
            forall|k: int|
                0 <= k < global_from_compact@.len() ==> global_from_compact@[k]
                    < old(self).grad_2d_accum@.len(),
            forall|a: int, b: int|
                0 <= a < b < global_from_compact@.len() ==> global_from_compact@[a]
                    != global_from_compact@[b],
        ensures
            final(self).iter == old(self).iter,
            final(self).config == old(self).config,
            final(self).recorded(old(self), global_from_compact@, grad_mags@),
    {
        let ghost ids = global_from_compact@;
        let mut k: usize = 0;
        while k < global_from_compact.len()
            invariant
                k <= ids.len(),
                ids == global_from_compact@,
                ids.len() == grad_mags@.len(),
                self.iter == old(self).iter,
                self.config == old(self).config,
                self.stats_len(old(self).grad_2d_accum@.len()),
                forall|k: int| 0 <= k < ids.len() ==> ids[k] < old(self).grad_2d_accum@.len(),
                forall|a: int, b: int| 0 <= a < b < ids.len() ==> ids[a] != ids[b],
                forall|j: int|
                    0 <= j < k ==> self.grad_2d_accum@[ids[j] as int] == sat_add64(
                        #[trigger] old(self).grad_2d_accum@[ids[j] as int],
                        grad_mags@[j],
                    ) && self.xy_grad_counts@[ids[j] as int] == (if grad_mags@[j] > 0 {
                        sat_inc32(old(self).xy_grad_counts@[ids[j] as int])
                    } else {
                        old(self).xy_grad_counts@[ids[j] as int]
                    }),
                forall|j: int|
                    k <= j < ids.len() ==> #[trigger] self.grad_2d_accum@[ids[j] as int]
                        == old(self).grad_2d_accum@[ids[j] as int] && self.xy_grad_counts@[ids[j] as int]
                        == old(self).xy_grad_counts@[ids[j] as int],
                forall|i: int|
                    0 <= i < old(self).grad_2d_accum@.len() && !ids.contains(i as usize) ==> (
                    #[trigger] self.grad_2d_accum@[i] == old(self).grad_2d_accum@[i]
                        && self.xy_grad_counts@[i] == old(self).xy_grad_counts@[i]),
            decreases ids.len() - k,
        {
            let i = global_from_compact[k];
            let m = grad_mags[k];
            assert(forall|j: int| 0 <= j < k ==> ids[j] != i);
            let ghost before = *self;
            let a = self.grad_2d_accum[i].saturating_add(m);
            self.grad_2d_accum[i] = a;
            if m > 0 {
                let c = self.xy_grad_counts[i].saturating_add(1);
                self.xy_grad_counts[i] = c;
            }
            proof {
                assert(ids[k as int] == i);
                assert forall|j: int| k + 1 <= j < ids.len() implies #[trigger] self.grad_2d_accum@[ids[j] as int]
                    == old(self).grad_2d_accum@[ids[j] as int] && self.xy_grad_counts@[ids[j] as int]
                    == old(self).xy_grad_counts@[ids[j] as int] by {
                    assert(ids[j] != i);
                    assert(before.grad_2d_accum@[ids[j] as int] == old(self).grad_2d_accum@[ids[j] as int]);
                }
                assert forall|i2: int|
                    0 <= i2 < old(self).grad_2d_accum@.len() && !ids.contains(i2 as usize) implies
                    #[trigger] self.grad_2d_accum@[i2] == old(self).grad_2d_accum@[i2]
                        && self.xy_grad_counts@[i2] == old(self).xy_grad_counts@[i2] by {
                    assert(i2 != i as int);
                    assert(before.grad_2d_accum@[i2] == old(self).grad_2d_accum@[i2]);
                }
            }
            k = k + 1;
        }
    }

    /// Average recorded gradient magnitude of row `i`: the accumulated
    /// magnitude over the number of steps that observed it (at least one).
    pub fn average_grad(&self, i: usize) -> (r: u64)
        requires
            i < self.grad_2d_accum@.len(),
            i < self.xy_grad_counts@.len(),
        ensures
            r as int == self.avg_grad(i as int),
    {
        let c = self.xy_grad_counts[i];
        let a = self.grad_2d_accum[i];
        if c == 0 {
            a
        } else {
            a / (c as u64)
        }
    }

    /// Bookkeeping after the optimizer update of one step. Once warmup is
    /// over, records the step's gradients (`grad_mags[k]` for row
    /// `global_from_compact[k]`). On a refinement step it then runs the
    /// refinement cycle on `splats` with `cy`, resetting the opacities every
    /// `reset_alpha_every` cycles; on other steps `cy` is not read. Moves on
    /// to the next step either way. A cycle that would delete every point is
    /// refused and leaves `splats` as it was.
    pub fn step<V: Copy, Q: Copy, C: Copy, O: Copy>(
        &mut self,
        splats: &mut Splats<V, Q, C, O>,
        global_from_compact: &Vec<usize>,
        grad_mags: &Vec<u64>,
        cy: &CycleInputs<V, O>,
    ) -> (r: Result<StepAction, PruneError>)
        requires
            old(self).config.wf(),
            old(self).iter < u32::MAX,
            old(self).tracks(old(splats)),
            global_from_compact@.len() == grad_mags@.len(),
            forall|k: int|
                0 <= k < global_from_compact@.len() ==> global_from_compact@[k]
                    < old(splats).len(),
            forall|a: int, b: int|
                0 <= a < b < global_from_compact@.len() ==> global_from_compact@[a]
                    != global_from_compact@[b],
            old(self).refines_at(old(self).iter) ==> cy.fits(old(splats).len()),
        ensures
            final(self).iter == old(self).iter + 1,
            final(self).config == old(self).config,
            final(self).tracks(final(splats)),
            r is Ok && old(splats).len() > 0 ==> final(splats).len() > 0,
            !old(self).refines_at(old(self).iter) ==> {
                &&& r == Ok::<StepAction, PruneError>(StepAction::Continue)
                &&& *final(splats) == *old(splats)
                &&& old(self).records_at(old(self).iter) ==> final(self).recorded(
                    old(self),
                    global_from_compact@,
                    grad_mags@,
                )
                &&& !old(self).records_at(old(self).iter) ==> final(self).grad_2d_accum@ == old(
                    self,
                ).grad_2d_accum@ && final(self).xy_grad_counts@ == old(self).xy_grad_counts@
            },
            old(self).refines_at(old(self).iter) ==> {
                &&& r is Err <==> old(splats).len() > 0 && Self::cycle_kept(
                    cy,
                    old(splats).len(),
                ).len() == 0
                &&& r is Err ==> r == Err::<StepAction, PruneError>(PruneError::WouldRemoveAll)
                    && *final(splats) == *old(splats) && final(self).recorded(
                    old(self),
                    global_from_compact@,
                    grad_mags@,
                )
                &&& r is Ok ==> r == Ok::<StepAction, PruneError>(old(self).action_at(old(self).iter))
                    && exists|mid: Self|
                    #[trigger] mid.recorded(old(self), global_from_compact@, grad_mags@)
                        && mid.config == old(self).config && mid.cycle_done(
                        final(splats),
                        final(self),
                        old(splats),
                        cy,
                        old(self).resets_opacity_at(old(self).iter),
                    )
            },
    {
        let iter = self.iter;
        if iter > self.config.warmup_steps {
            self.update_stats(global_from_compact, grad_mags);
        }
        let ghost mid = *self;
        let refine_every = self.config.refine_every;
        let reset_alpha_every = self.config.reset_alpha_every;
        proof {
            let (a, b) = (refine_every as int, reset_alpha_every as int);
            assert(0 < a * b <= u32::MAX as int * u32::MAX as int) by (nonlinear_arith)
                requires
                    0 < a <= u32::MAX,
                    0 < b <= u32::MAX,
            ;
        }
        let reset_every = refine_every as u64 * reset_alpha_every as u64;
        let r = if iter > self.config.warmup_steps && iter % refine_every == 0 {
            let reset = iter as u64 % reset_every == 0;
            match self.densify_and_prune(splats, cy, reset) {
                Ok(()) => Ok(StepAction::Refine { reset_opacity: reset }),
                Err(e) => Err(e),
            }
        } else {
            Ok(StepAction::Continue)
        };
        self.iter = iter + 1;
        proof {
            if self.config.warmup_steps < iter && iter as int % refine_every as int == 0 && r is Ok {
                assert(mid.recorded(old(self), global_from_compact@, grad_mags@));
            }
        }
        r
    }

    /// Average gradient of row `i` reaches the densification threshold.
    pub open spec fn big_grad(&self, i: int) -> bool {
        self.avg_grad(i) >= self.config.densify_grad_thresh
    }

    /// Over the rows `keep` of the current set: small points with a large
    /// gradient, which are cloned.
    pub open spec fn clone_mask_of(&self, small: Seq<bool>, keep: Seq<int>) -> Seq<bool> {
        Seq::new(keep.len(), |j: int| small[keep[j]] && self.big_grad(keep[j]))
    }

    /// Over the rows `keep` of the current set: large points with a large
    /// gradient, which are split.
    pub open spec fn split_mask_of(&self, small: Seq<bool>, keep: Seq<int>) -> Seq<bool> {
        Seq::new(keep.len(), |j: int| !small[keep[j]] && self.big_grad(keep[j]))
    }

    /// Both statistics columns are those of `prev` re-selected by `idx`.
    pub open spec fn stats_gathered(&self, prev: &Self, idx: Seq<int>) -> bool {
        &&& self.grad_2d_accum@ == gathered(prev.grad_2d_accum@, idx)
        &&& self.xy_grad_counts@ == gathered(prev.xy_grad_counts@, idx)
    }

    /// Keeps the rows `keep` of the point set and of the statistics.
    fn retain_rows<V: Copy, Q: Copy, C: Copy, O: Copy>(
        &mut self,
        splats: &mut Splats<V, Q, C, O>,
        keep: &Vec<usize>,
    )
        requires
            old(self).tracks(old(splats)),
            forall|k: int| 0 <= k < keep@.len() ==> keep@[k] < old(splats).len(),
        ensures
            final(self).tracks(final(splats)),
            final(self).iter == old(self).iter,
            final(self).config == old(self).config,
            final(splats).len() == keep@.len(),
            final(splats).is_gather_of(old(splats), keep@.map_values(|j: usize| j as int)),
            final(self).stats_gathered(old(self), keep@.map_values(|j: usize| j as int)),
    {
        let ghost ix = keep@.map_values(|j: usize| j as int);
        *splats = splats.select_rows(keep);
        self.grad_2d_accum = gather(&self.grad_2d_accum, keep);
        self.xy_grad_counts = gather(&self.xy_grad_counts, keep);
        assert(self.grad_2d_accum@ =~= gathered(old(self).grad_2d_accum@, ix));
        assert(self.xy_grad_counts@ =~= gathered(old(self).xy_grad_counts@, ix));
    }

    /// Deletes the rows marked in `prune` (a shorter mask leaves the rows
    /// past its end unmarked) from the point set and from the statistics,
    /// keeping the order of the rest. A deletion that would leave no point is
    /// refused before anything changes.
    pub fn prune_points<V: Copy, Q: Copy, C: Copy, O: Copy>(
        &mut self,
        splats: &mut Splats<V, Q, C, O>,
        prune: &Vec<bool>,
    ) -> (r: Result<(), PruneError>)
        requires
            old(self).tracks(old(splats)),
            prune@.len() <= old(splats).len(),
        ensures
            final(self).tracks(final(splats)),
            final(self).iter == old(self).iter,
            final(self).config == old(self).config,
            r is Err <==> old(splats).len() > 0 && keep_list(prune@, old(splats).len()).len() == 0,
            r is Err ==> r == Err::<(), PruneError>(PruneError::WouldRemoveAll) && *final(splats)
                == *old(splats) && *final(self) == *old(self),
            r is Ok ==> final(splats).is_gather_of(old(splats), keep_list(prune@, old(splats).len()))
                && final(self).stats_gathered(old(self), keep_list(prune@, old(splats).len())),
    {
        let n = splats.num_splats();
        let keep = select_indices(prune, n, false);
        let ghost kl = keep_list(prune@, n as nat);
        proof {
            lemma_select_list(prune@, n as nat, false);
            assert(keep@.map_values(|j: usize| j as int) =~= kl);
        }
        if keep.len() == n {
            proof {
                lemma_select_full(prune@, n as nat, false);
                lemma_select_all(prune@, n as nat, false);
                lemma_gather_all(splats.means@);
                lemma_gather_all(splats.rotation@);
                lemma_gather_all(splats.sh_coeffs@);
                lemma_gather_all(splats.raw_opacity@);
                lemma_gather_all(splats.log_scales@);
                lemma_gather_all(self.grad_2d_accum@);
                lemma_gather_all(self.xy_grad_counts@);
            }
            return Ok(());
        }
        if keep.len() == 0 {
            return Err(PruneError::WouldRemoveAll);
        }
        self.retain_rows(splats, &keep);
        Ok(())
    }

    /// Appends a verbatim copy of every row marked in `clone_mask`, in row
    /// order. The new rows start with empty statistics.
    pub fn clone_points<V: Copy, Q: Copy, C: Copy, O: Copy>(
        &mut self,
        splats: &mut Splats<V, Q, C, O>,
        clone_mask: &Vec<bool>,
    )
        requires
            old(self).tracks(old(splats)),
            clone_mask@.len() <= old(splats).len(),
        ensures
            final(self).tracks(final(splats)),
            final(self).iter == old(self).iter,
            final(self).config == old(self).config,
            final(splats).is_extended_by(old(splats), mark_list(clone_mask@, old(splats).len())),
            final(self).grad_2d_accum@ == old(self).grad_2d_accum@ + zeros64(
                mark_list(clone_mask@, old(splats).len()).len(),
            ),
            final(self).xy_grad_counts@ == old(self).xy_grad_counts@ + zeros32(
                mark_list(clone_mask@, old(splats).len()).len(),
            ),
    {
        let n = splats.num_splats();
        let idx = select_indices(clone_mask, n, true);
        proof {
            lemma_select_list(clone_mask@, n as nat, true);
            assert(idx@.map_values(|j: usize| j as int) =~= mark_list(clone_mask@, n as nat));
        }
        let copies = splats.select_rows(&idx);
        splats.concat_splats(copies);
        self.push_zeros(idx.len());
    }

    /// Replaces every row marked in `split_mask` by two children. The
    /// children come after all other rows: first one child of each marked
    /// row, in row order, then the second child of each. Their positions and
    /// log-scales are `child_means` and `child_scales`; rotation, colour and
    /// opacity are the parent's. Children are appended before the parents are
    /// deleted, so the set is never empty on the way; they start with empty
    /// statistics.
    pub fn split_points<V: Copy, Q: Copy, C: Copy, O: Copy>(
        &mut self,
        splats: &mut Splats<V, Q, C, O>,
        split_mask: &Vec<bool>,
        child_means: Vec<V>,
        child_scales: Vec<V>,
    )
        requires
            old(self).tracks(old(splats)),
            split_mask@.len() <= old(splats).len(),
            child_means@.len() == 2 * mark_list(split_mask@, old(splats).len()).len(),
            child_scales@.len() == child_means@.len(),
        ensures
            final(self).tracks(final(splats)),
            final(self).iter == old(self).iter,
            final(self).config == old(self).config,
            ({
                let n = old(splats).len();
                let keep = keep_list(split_mask@, n);
                let parents = mark_list(split_mask@, n);
                &&& final(splats).means@ == gathered(old(splats).means@, keep) + child_means@
                &&& final(splats).log_scales@ == gathered(old(splats).log_scales@, keep)
                    + child_scales@
                &&& final(splats).rotation@ == gathered(old(splats).rotation@, keep) + gathered(
                    old(splats).rotation@,
                    parents,
                ) + gathered(old(splats).rotation@, parents)
                &&& final(splats).sh_coeffs@ == gathered(old(splats).sh_coeffs@, keep) + gathered(
                    old(splats).sh_coeffs@,
                    parents,
                ) + gathered(old(splats).sh_coeffs@, parents)
                &&& final(splats).raw_opacity@ == gathered(old(splats).raw_opacity@, keep)
                    + gathered(old(splats).raw_opacity@, parents) + gathered(
                    old(splats).raw_opacity@,
                    parents,
                )
                &&& final(self).grad_2d_accum@ == gathered(old(self).grad_2d_accum@, keep)
                    + zeros64(child_means@.len())
                &&& final(self).xy_grad_counts@ == gathered(old(self).xy_grad_counts@, keep)
                    + zeros32(child_means@.len())
            }),
    {
        let n = splats.num_splats();
        let ghost keep = keep_list(split_mask@, n as nat);
        let ghost parents = mark_list(split_mask@, n as nat);
        let ghost s0 = *splats;
        let ghost t0 = *self;
        let idx = select_indices(split_mask, n, true);
        proof {
            lemma_select_list(split_mask@, n as nat, true);
            lemma_select_list(split_mask@, n as nat, false);
            assert(idx@.map_values(|j: usize| j as int) =~= parents);
        }
        if idx.len() == 0 {
            proof {
                lemma_select_none(split_mask@, n as nat, true);
                lemma_select_all(split_mask@, n as nat, false);
                lemma_gather_all(s0.means@);
                lemma_gather_all(s0.rotation@);
                lemma_gather_all(s0.sh_coeffs@);
                lemma_gather_all(s0.raw_opacity@);
                lemma_gather_all(s0.log_scales@);
                lemma_gather_all(t0.grad_2d_accum@);
                lemma_gather_all(t0.xy_grad_counts@);
                assert(child_means@ =~= seq![]);
                assert(child_scales@ =~= seq![]);
                assert(gathered(s0.rotation@, parents) =~= seq![]);
                assert(gathered(s0.sh_coeffs@, parents) =~= seq![]);
                assert(gathered(s0.raw_opacity@, parents) =~= seq![]);
                assert(zeros64(0) =~= seq![]);
                assert(zeros32(0) =~= seq![]);
            }
            return;
        }
        let twice = repeat_twice(&idx);
        let inherited = splats.select_rows(&twice);
        let n_children = child_means.len();
        let children = Splats {
            means: child_means,
            rotation: inherited.rotation,
            sh_coeffs: inherited.sh_coeffs,
            raw_opacity: inherited.raw_opacity,
            log_scales: child_scales,
        };
        proof {
            assert(twice@.map_values(|j: usize| j as int) =~= parents + parents);
            lemma_gather_split_idx(s0.rotation@, parents, parents);
            lemma_gather_split_idx(s0.sh_coeffs@, parents, parents);
            lemma_gather_split_idx(s0.raw_opacity@, parents, parents);
        }
        splats.concat_splats(children);
        self.push_zeros(n_children);
        let ghost s1 = *splats;
        let ghost t1 = *self;
        proof {
            lemma_keep_extended(split_mask@, n as nat, n_children as nat);
            let tail = Seq::new(n_children as nat, |k: int| n + k);
            assert(keep_list(split_mask@, (n + n_children) as nat) == keep + tail);
            lemma_gather_append(s0.means@, child_means@, keep);
            lemma_gather_append(s0.log_scales@, child_scales@, keep);
            lemma_gather_append(
                s0.rotation@,
                gathered(s0.rotation@, parents) + gathered(s0.rotation@, parents),
                keep,
            );
            lemma_gather_append(
                s0.sh_coeffs@,
                gathered(s0.sh_coeffs@, parents) + gathered(s0.sh_coeffs@, parents),
                keep,
            );
            lemma_gather_append(
                s0.raw_opacity@,
                gathered(s0.raw_opacity@, parents) + gathered(s0.raw_opacity@, parents),
                keep,
            );
            lemma_gather_append(t0.grad_2d_accum@, zeros64(n_children as nat), keep);
            lemma_gather_append(t0.xy_grad_counts@, zeros32(n_children as nat), keep);
            assert((keep + tail).len() > 0);
        }
        let r = self.prune_points(splats, split_mask);
        proof {
            assert(r is Ok);
            assert((keep + Seq::new(n_children as nat, |k: int| n + k)).len() > 0);
        }
    }
    /// The first half of a refinement cycle. Deletes every row that is
    /// `low_opacity` or `oversized`, refusing (before any change) to delete
    /// them all; then, among the rows left, clones those that are `small`
    /// with a large average gradient. Returns the mask, over the rows left
    /// after deletion, of the rows to split: not `small`, large gradient.
    fn cull_and_clone<V: Copy, Q: Copy, C: Copy, O: Copy>(
        &mut self,
        splats: &mut Splats<V, Q, C, O>,
        low_opacity: &Vec<bool>,
        oversized: &Vec<bool>,
        small: &Vec<bool>,
    ) -> (r: Result<Vec<bool>, PruneError>)
        requires
            old(self).tracks(old(splats)),
            low_opacity@.len() == old(splats).len(),
            oversized@.len() == old(splats).len(),
            small@.len() == old(splats).len(),
        ensures
            final(self).tracks(final(splats)),
            final(self).iter == old(self).iter,
            final(self).config == old(self).config,
            ({
                let n = old(splats).len();
                let keep = keep_list(cull_mask(low_opacity@, oversized@), n);
                let cloned = mark_list(old(self).clone_mask_of(small@, keep), keep.len());
                &&& r is Err <==> n > 0 && keep.len() == 0
                &&& r is Err ==> r == Err::<Vec<bool>, PruneError>(PruneError::WouldRemoveAll)
                    && *final(splats) == *old(splats) && *final(self) == *old(self)
                &&& r is Ok ==> {
                    &&& r->Ok_0@ == old(self).split_mask_of(small@, keep)
                    &&& final(splats).is_pruned_and_extended(old(splats), keep, cloned)
                    &&& final(self).grad_2d_accum@ == gathered(old(self).grad_2d_accum@, keep)
                        + zeros64(cloned.len())
                    &&& final(self).xy_grad_counts@ == gathered(old(self).xy_grad_counts@, keep)
                        + zeros32(cloned.len())
                }
            }),
    {
        let n = splats.num_splats();
        let mut cull: Vec<bool> = Vec::new();
        let mut i: usize = 0;
        while i < n
            invariant
                i <= n,
                n == old(splats).len(),
                low_opacity@.len() == n,
                oversized@.len() == n,
                cull@ == Seq::new(i as nat, |k: int| low_opacity@[k] || oversized@[k]),
            decreases n - i,
        {
            cull.push(low_opacity[i] || oversized[i]);
            i = i + 1;
            assert(cull@ =~= Seq::new(i as nat, |k: int| low_opacity@[k] || oversized@[k]));
        }
        assert(cull@ =~= cull_mask(low_opacity@, oversized@));
        let ghost keep = keep_list(cull@, n as nat);
        let ghost t0 = *self;
        let pruned = self.prune_points(splats, &cull);
        if pruned.is_err() {
            return Err(PruneError::WouldRemoveAll);
        }
        let keep_idx = select_indices(&cull, n, false);
        proof {
            lemma_select_list(cull@, n as nat, false);
        }
        let small_kept = gather(small, &keep_idx);
        let m = splats.num_splats();
        let mut clone_mask: Vec<bool> = Vec::new();
        let mut split_mask: Vec<bool> = Vec::new();
        let mut j: usize = 0;
        while j < m
            invariant
                j <= m,
                m == keep.len(),
                self.tracks(splats),
                splats.len() == m,
                self.stats_gathered(&t0, keep),
                self.config == t0.config,
                small_kept@.len() == m,
                forall|k: int| 0 <= k < m ==> small_kept@[k] == small@[keep[k]],
                clone_mask@ == Seq::new(
                    j as nat,
                    |k: int| small@[keep[k]] && t0.big_grad(keep[k]),
                ),
                split_mask@ == Seq::new(
                    j as nat,
                    |k: int| !small@[keep[k]] && t0.big_grad(keep[k]),
                ),
            decreases m - j,
        {
            let big = self.average_grad(j) >= self.config.densify_grad_thresh;
            assert(big == t0.big_grad(keep[j as int]));
            clone_mask.push(small_kept[j] && big);
            split_mask.push(!small_kept[j] && big);
            j = j + 1;
            assert(clone_mask@ =~= Seq::new(
                j as nat,
                |k: int| small@[keep[k]] && t0.big_grad(keep[k]),
            ));
            assert(split_mask@ =~= Seq::new(
                j as nat,
                |k: int| !small@[keep[k]] && t0.big_grad(keep[k]),
            ));
        }
        assert(clone_mask@ =~= t0.clone_mask_of(small@, keep));
        assert(split_mask@ =~= t0.split_mask_of(small@, keep));
        self.clone_points(splats, &clone_mask);
        Ok(split_mask)
    }
    /// One refinement cycle. Deletes every row that is `low_opacity` or
    /// `oversized`, refusing (before any change) to delete them all. Among
    /// the rows left, those with a large average gradient are cloned when
    /// `small` and split otherwise: each split row gets its two children,
    /// appended after the clones, and is then deleted. When `reset`, every
    /// opacity logit becomes `cy.opacity_reset`. The statistics restart at
    /// zero for the new row count.
    pub fn densify_and_prune<V: Copy, Q: Copy, C: Copy, O: Copy>(
        &mut self,
        splats: &mut Splats<V, Q, C, O>,
        cy: &CycleInputs<V, O>,
        reset: bool,
    ) -> (r: Result<(), PruneError>)
        requires
            old(self).tracks(old(splats)),
            cy.fits(old(splats).len()),
        ensures
            final(self).tracks(final(splats)),
            final(self).iter == old(self).iter,
            final(self).config == old(self).config,
            r is Err <==> old(splats).len() > 0 && Self::cycle_kept(cy, old(splats).len()).len()
                == 0,
            r is Err ==> r == Err::<(), PruneError>(PruneError::WouldRemoveAll) && *final(splats)
                == *old(splats) && *final(self) == *old(self),
            r is Ok ==> old(self).cycle_done(final(splats), final(self), old(splats), cy, reset),
            r is Ok && old(splats).len() > 0 ==> final(splats).len() > 0,
    {
        let ghost s0 = *splats;
        let ghost t0 = *self;
        let n = splats.num_splats();
        let ghost keep = Self::cycle_kept(cy, n as nat);
        let split_mask = match self.cull_and_clone(splats, &cy.low_opacity, &cy.oversized, &cy.small) {
            Ok(m) => m,
            Err(e) => {
                return Err(e);
            },
        };
        let ghost s1 = *splats;
        let ghost m = keep.len();
        let ghost cloned = mark_list(t0.clone_mask_of(cy.small@, keep), m);
        let ghost split = mark_list(t0.split_mask_of(cy.small@, keep), m);
        let ghost unsplit = keep_list(t0.split_mask_of(cy.small@, keep), m);
        let mut cull: Vec<bool> = Vec::new();
        let mut i: usize = 0;
        while i < n
            invariant
                i <= n,
                cy.fits(n as nat),
                cull@ == Seq::new(i as nat, |k: int| cy.low_opacity@[k] || cy.oversized@[k]),
            decreases n - i,
        {
            cull.push(cy.low_opacity[i] || cy.oversized[i]);
            i = i + 1;
            assert(cull@ =~= Seq::new(i as nat, |k: int| cy.low_opacity@[k] || cy.oversized@[k]));
        }
        assert(cull@ =~= cull_mask(cy.low_opacity@, cy.oversized@));
        let keep_idx = select_indices(&cull, n, false);
        proof {
            lemma_select_list(cull@, n as nat, false);
        }
        let kept_a = gather(&cy.child_means_a, &keep_idx);
        let kept_b = gather(&cy.child_means_b, &keep_idx);
        let kept_s = gather(&cy.child_scales, &keep_idx);
        proof {
            let ki = keep_idx@.map_values(|j: usize| j as int);
            assert(ki =~= keep);
            assert(kept_a@ =~= gathered(cy.child_means_a@, keep));
            assert(kept_b@ =~= gathered(cy.child_means_b@, keep));
            assert(kept_s@ =~= gathered(cy.child_scales@, keep));
        }
        let mlen = split_mask.len();
        let sidx = select_indices(&split_mask, mlen, true);
        proof {
            lemma_select_list(split_mask@, m, true);
            lemma_select_list(split_mask@, m, false);
            assert(sidx@.map_values(|j: usize| j as int) =~= split);
        }
        let mut child_means = gather(&kept_a, &sidx);
        let mut second = gather(&kept_b, &sidx);
        child_means.append(&mut second);
        let mut child_scales = gather(&kept_s, &sidx);
        let mut second_s = gather(&kept_s, &sidx);
        child_scales.append(&mut second_s);
        let ghost ca = gathered(gathered(cy.child_means_a@, keep), split);
        let ghost cb = gathered(gathered(cy.child_means_b@, keep), split);
        let ghost cs = gathered(gathered(cy.child_scales@, keep), split);
        proof {
            assert(child_means@ =~= ca + cb);
            assert(child_scales@ =~= cs + cs);
            lemma_mark_extended(split_mask@, m, cloned.len());
        }
        let ghost t1 = *self;
        self.split_points(splats, &split_mask, child_means, child_scales);
        let ghost s2 = *splats;
        proof {
            let c = cloned.len();
            lemma_keep_extended(split_mask@, m, c);
            lemma_keep_mark_partition(split_mask@, m);
            assert(keep_list(split_mask@, m + c) == unsplit + Seq::new(c, |k: int| m + k));
            lemma_gather_append(gathered(s0.means@, keep), gathered(gathered(s0.means@, keep), cloned), unsplit);
            lemma_gather_append(gathered(s0.log_scales@, keep), gathered(gathered(s0.log_scales@, keep), cloned), unsplit);
            lemma_gather_append(gathered(s0.rotation@, keep), gathered(gathered(s0.rotation@, keep), cloned), unsplit);
            lemma_gather_append(gathered(s0.sh_coeffs@, keep), gathered(gathered(s0.sh_coeffs@, keep), cloned), unsplit);
            lemma_gather_append(gathered(s0.raw_opacity@, keep), gathered(gathered(s0.raw_opacity@, keep), cloned), unsplit);
            lemma_gather_prefix(gathered(s0.rotation@, keep), gathered(gathered(s0.rotation@, keep), cloned), split);
            lemma_gather_prefix(gathered(s0.sh_coeffs@, keep), gathered(gathered(s0.sh_coeffs@, keep), cloned), split);
            lemma_gather_prefix(gathered(s0.raw_opacity@, keep), gathered(gathered(s0.raw_opacity@, keep), cloned), split);
            assert(s2.means@ =~= refined_col(gathered(s0.means@, keep), unsplit, cloned, ca, cb));
            assert(s2.log_scales@ =~= refined_col(gathered(s0.log_scales@, keep), unsplit, cloned, cs, cs));
        }
        if reset {
            splats.reset_opacity(cy.opacity_reset);
        }
        let len = splats.num_splats();
        self.reset_stats(len);
        Ok(())
    }
}

} // verus!
