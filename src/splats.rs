//! The point set: one row per Gaussian primitive, held as parallel columns.
//! A row's values are opaque here (`V` a 3-vector, `Q` a quaternion, `C` the
//! colour coefficients, `O` the opacity logit); only their row structure is
//! managed.
use vstd::prelude::*;

use crate::select::{gather, gathered};

verus! {

/// A compute backend, seen from the point set: the types of one row's
/// parameters as that backend stores them.
pub trait Backend {
    /// A 3-vector: a position or a per-axis log-scale.
    type Vector: Copy;
    /// An orientation quaternion.
    type Rotation: Copy;
    /// The colour coefficients of one point.
    type Coeffs: Copy;
    /// One scalar: an opacity logit.
    type Scalar: Copy;
}

/// A backend that can also differentiate through rendering, as training needs.
pub trait AutodiffBackend: Backend {
}

/// Parallel columns of per-point parameters; row `i` of every column
/// describes the same primitive.
pub struct Splats<V, Q, C, O> {
    pub means: Vec<V>,
    pub rotation: Vec<Q>,
    pub sh_coeffs: Vec<C>,
    pub raw_opacity: Vec<O>,
    pub log_scales: Vec<V>,
}

/// The point set with the parameter types of backend `B`.
pub type BackendSplats<B> = Splats<
    <B as Backend>::Vector,
    <B as Backend>::Rotation,
    <B as Backend>::Coeffs,
    <B as Backend>::Scalar,
>;

impl<V: Copy, Q: Copy, C: Copy, O: Copy> Splats<V, Q, C, O> {
    /// Number of rows.
    pub open spec fn len(&self) -> nat {
        self.means@.len()
    }

    /// Every column has one entry per row.
    pub open spec fn wf(&self) -> bool {
        &&& self.rotation@.len() == self.len()
        &&& self.sh_coeffs@.len() == self.len()
        &&& self.raw_opacity@.len() == self.len()
        &&& self.log_scales@.len() == self.len()
    }

    /// Every column of `self` is the same column of `src` re-selected by `idx`.
    pub open spec fn is_gather_of(&self, src: &Self, idx: Seq<int>) -> bool {
        &&& self.means@ == gathered(src.means@, idx)
        &&& self.rotation@ == gathered(src.rotation@, idx)
        &&& self.sh_coeffs@ == gathered(src.sh_coeffs@, idx)
        &&& self.raw_opacity@ == gathered(src.raw_opacity@, idx)
        &&& self.log_scales@ == gathered(src.log_scales@, idx)
    }

    /// Every column of `self` is the same column of `a` followed by that of `b`.
    pub open spec fn is_concat_of(&self, a: &Self, b: &Self) -> bool {
        &&& self.means@ == a.means@ + b.means@
        &&& self.rotation@ == a.rotation@ + b.rotation@
        &&& self.sh_coeffs@ == a.sh_coeffs@ + b.sh_coeffs@
        &&& self.raw_opacity@ == a.raw_opacity@ + b.raw_opacity@
        &&& self.log_scales@ == a.log_scales@ + b.log_scales@
    }

    /// Every column of `self` is the same column of `src` followed by its
    /// rows `idx` once more.
    pub open spec fn is_extended_by(&self, src: &Self, idx: Seq<int>) -> bool {
        &&& self.means@ == src.means@ + gathered(src.means@, idx)
        &&& self.rotation@ == src.rotation@ + gathered(src.rotation@, idx)
        &&& self.sh_coeffs@ == src.sh_coeffs@ + gathered(src.sh_coeffs@, idx)
        &&& self.raw_opacity@ == src.raw_opacity@ + gathered(src.raw_opacity@, idx)
        &&& self.log_scales@ == src.log_scales@ + gathered(src.log_scales@, idx)
    }

    /// Every column of `self` holds the rows `keep` of `src`'s column, then
    /// the rows `extra` of that shortened column once more.
    pub open spec fn is_pruned_and_extended(&self, src: &Self, keep: Seq<int>, extra: Seq<int>) -> bool {
        &&& self.means@ == gathered(src.means@, keep) + gathered(gathered(src.means@, keep), extra)
        &&& self.rotation@ == gathered(src.rotation@, keep) + gathered(
            gathered(src.rotation@, keep),
            extra,
        )
        &&& self.sh_coeffs@ == gathered(src.sh_coeffs@, keep) + gathered(
            gathered(src.sh_coeffs@, keep),
            extra,
        )
        &&& self.raw_opacity@ == gathered(src.raw_opacity@, keep) + gathered(
            gathered(src.raw_opacity@, keep),
            extra,
        )
        &&& self.log_scales@ == gathered(src.log_scales@, keep) + gathered(
            gathered(src.log_scales@, keep),
            extra,
        )
    }

    /// Whether every column has one entry per row.
    pub fn is_consistent(&self) -> (r: bool)
        ensures
            r == self.wf(),
    {
        let n = self.means.len();
        self.rotation.len() == n && self.sh_coeffs.len() == n && self.raw_opacity.len() == n
            && self.log_scales.len() == n
    }

    /// Number of rows.
    pub fn num_splats(&self) -> (r: usize)
        ensures
            r == self.len(),
    {
        self.means.len()
    }

    /// A new point set holding the rows `idx` of this one, in that order.
    pub fn select_rows(&self, idx: &Vec<usize>) -> (r: Self)
        requires
            self.wf(),
            forall|k: int| 0 <= k < idx@.len() ==> idx@[k] < self.len(),
        ensures
            r.wf(),
            r.len() == idx@.len(),
            r.is_gather_of(self, idx@.map_values(|j: usize| j as int)),
    {
        let r = Splats {
            means: gather(&self.means, idx),
            rotation: gather(&self.rotation, idx),
            sh_coeffs: gather(&self.sh_coeffs, idx),
            raw_opacity: gather(&self.raw_opacity, idx),
            log_scales: gather(&self.log_scales, idx),
        };
        let ghost ix = idx@.map_values(|j: usize| j as int);
        assert(r.means@ =~= gathered(self.means@, ix));
        assert(r.rotation@ =~= gathered(self.rotation@, ix));
        assert(r.sh_coeffs@ =~= gathered(self.sh_coeffs@, ix));
        assert(r.raw_opacity@ =~= gathered(self.raw_opacity@, ix));
        assert(r.log_scales@ =~= gathered(self.log_scales@, ix));
        r
    }

    /// Appends the rows of `other` after the rows of this set.
    pub fn concat_splats(&mut self, other: Self)
        requires
            old(self).wf(),
            other.wf(),
        ensures
            final(self).wf(),
            final(self).len() == old(self).len() + other.len(),
            final(self).is_concat_of(old(self), &other),
    {
        let mut other = other;
        self.means.append(&mut other.means);
        self.rotation.append(&mut other.rotation);
        self.sh_coeffs.append(&mut other.sh_coeffs);
        self.raw_opacity.append(&mut other.raw_opacity);
        self.log_scales.append(&mut other.log_scales);
    }

    /// Overwrites the opacity logit of every row with `value`.
    pub fn reset_opacity(&mut self, value: O)
        requires
            old(self).wf(),
        ensures
            final(self).wf(),
            final(self).means@ == old(self).means@,
            final(self).rotation@ == old(self).rotation@,
            final(self).sh_coeffs@ == old(self).sh_coeffs@,
            final(self).log_scales@ == old(self).log_scales@,
            final(self).raw_opacity@ == Seq::new(old(self).len(), |i: int| value),
    {
        let n = self.raw_opacity.len();
        let mut fresh: Vec<O> = Vec::new();
        let mut i: usize = 0;
        while i < n
            invariant
                i <= n,
                fresh@ == Seq::new(i as nat, |k: int| value),
            decreases n - i,
        {
            fresh.push(value);
            i = i + 1;
            assert(fresh@ =~= Seq::new(i as nat, |k: int| value));
        }
        self.raw_opacity = fresh;
    }
}

} // verus!
