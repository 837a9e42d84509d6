//! Gathering rows of a column by an index list, and turning a row mask into
//! the list of rows it selects. Every column of the point set is rewritten
//! through these two operations, so all columns move in lockstep.
use vstd::prelude::*;

verus! {

/// Row `i` is marked by `mask`; rows past the end of a short mask are unmarked.
pub open spec fn marked(mask: Seq<bool>, i: int) -> bool {
    0 <= i < mask.len() && mask[i]
}

/// The rows `i < n`, in increasing order, whose mark equals `want`.
pub open spec fn select_list(mask: Seq<bool>, n: nat, want: bool) -> Seq<int>
    decreases n,
{
    if n == 0 {
        seq![]
    } else {
        let r = select_list(mask, (n - 1) as nat, want);
        if marked(mask, n - 1) == want {
            r.push(n - 1)
        } else {
            r
        }
    }
}

/// The rows that a deletion mask keeps.
pub open spec fn keep_list(mask: Seq<bool>, n: nat) -> Seq<int> {
    select_list(mask, n, false)
}

/// The rows that a mask marks.
pub open spec fn mark_list(mask: Seq<bool>, n: nat) -> Seq<int> {
    select_list(mask, n, true)
}

/// The column `s` re-selected by the row list `idx`.
pub open spec fn gathered<T>(s: Seq<T>, idx: Seq<int>) -> Seq<T> {
    idx.map_values(|j: int| s[j])
}

/// The rows of `0..n`.
pub open spec fn all_rows(n: nat) -> Seq<int> {
    Seq::new(n, |i: int| i)
}

/// The selected rows lie below `n`, increase strictly, and are exactly the
/// rows whose mark equals `want`.
pub proof fn lemma_select_list(mask: Seq<bool>, n: nat, want: bool)
    ensures
        select_list(mask, n, want).len() <= n,
        forall|k: int|
            0 <= k < select_list(mask, n, want).len() ==> 0 <= #[trigger] select_list(
                mask,
                n,
                want,
            )[k] < n && marked(mask, select_list(mask, n, want)[k]) == want,
        forall|k1: int, k2: int|
            0 <= k1 < k2 < select_list(mask, n, want).len() ==> #[trigger] select_list(
                mask,
                n,
                want,
            )[k1] < #[trigger] select_list(mask, n, want)[k2],
        forall|i: int|
            0 <= i < n && marked(mask, i) == want ==> #[trigger] select_list(
                mask,
                n,
                want,
            ).contains(i),
    decreases n,
{
    if n > 0 {
        lemma_select_list(mask, (n - 1) as nat, want);
        let r = select_list(mask, (n - 1) as nat, want);
        assert forall|i: int|
            0 <= i < n && marked(mask, i) == want implies #[trigger] select_list(
                mask,
                n,
                want,
            ).contains(i) by {
            if i < n - 1 {
                assert(r.contains(i));
                let k = choose|k: int| 0 <= k < r.len() && r[k] == i;
                assert(select_list(mask, n, want)[k] == i);
            } else {
                assert(select_list(mask, n, want).last() == i);
            }
        }
    }
}

/// When no row has the mark `!want`, every row is selected, in order.
pub proof fn lemma_select_all(mask: Seq<bool>, n: nat, want: bool)
    requires
        forall|i: int| 0 <= i < n ==> marked(mask, i) == want,
    ensures
        select_list(mask, n, want) == all_rows(n),
    decreases n,
{
    if n > 0 {
        lemma_select_all(mask, (n - 1) as nat, want);
        assert(select_list(mask, n, want) =~= all_rows(n));
    }
}

/// No row is selected exactly when every row has the other mark.
pub proof fn lemma_select_none(mask: Seq<bool>, n: nat, want: bool)
    ensures
        select_list(mask, n, want).len() == 0 <==> forall|i: int|
            0 <= i < n ==> marked(mask, i) != want,
    decreases n,
{
    if n > 0 {
        lemma_select_none(mask, (n - 1) as nat, want);
    }
}

/// Rows past the end of the mask are all kept, after the rows the mask keeps.
pub proof fn lemma_keep_extended(mask: Seq<bool>, n: nat, m: nat)
    requires
        mask.len() <= n,
    ensures
        keep_list(mask, n + m) == keep_list(mask, n) + Seq::new(m, |k: int| n + k),
    decreases m,
{
    if m > 0 {
        lemma_keep_extended(mask, n, (m - 1) as nat);
        assert(keep_list(mask, n + m) =~= keep_list(mask, n) + Seq::new(m, |k: int| n + k));
    }
}

/// Gathering the whole of a column in order gives the column back.
pub proof fn lemma_gather_all<T>(s: Seq<T>)
    ensures
        gathered(s, all_rows(s.len())) == s,
{
    assert(gathered(s, all_rows(s.len())) =~= s);
}

/// Every row is selected exactly when every row has the mark `want`.
pub proof fn lemma_select_full(mask: Seq<bool>, n: nat, want: bool)
    ensures
        select_list(mask, n, want).len() == n <==> forall|i: int|
            0 <= i < n ==> marked(mask, i) == want,
    decreases n,
{
    if n > 0 {
        lemma_select_full(mask, (n - 1) as nat, want);
        lemma_select_list(mask, (n - 1) as nat, want);
    }
}

/// Gathering from `a + c` the rows `idx` of `a` and then every row of `c`
/// gives the rows `idx` of `a` followed by `c`.
pub proof fn lemma_gather_append<T>(a: Seq<T>, c: Seq<T>, idx: Seq<int>)
    requires
        forall|k: int| 0 <= k < idx.len() ==> 0 <= #[trigger] idx[k] < a.len(),
    ensures
        gathered(a + c, idx + Seq::new(c.len(), |k: int| a.len() + k)) == gathered(a, idx) + c,
{
    assert(gathered(a + c, idx + Seq::new(c.len(), |k: int| a.len() + k)) =~= gathered(a, idx)
        + c);
}

/// Gathering by two row lists in turn is gathering by the first followed by the second.
pub proof fn lemma_gather_split_idx<T>(s: Seq<T>, i1: Seq<int>, i2: Seq<int>)
    ensures
        gathered(s, i1 + i2) == gathered(s, i1) + gathered(s, i2),
{
    assert(gathered(s, i1 + i2) =~= gathered(s, i1) + gathered(s, i2));
}

/// Each row is either kept or marked, never both.
pub proof fn lemma_keep_mark_partition(mask: Seq<bool>, n: nat)
    ensures
        keep_list(mask, n).len() + mark_list(mask, n).len() == n,
    decreases n,
{
    if n > 0 {
        lemma_keep_mark_partition(mask, (n - 1) as nat);
    }
}

/// Rows past the end of the mask are never marked.
pub proof fn lemma_mark_extended(mask: Seq<bool>, n: nat, m: nat)
    requires
        mask.len() <= n,
    ensures
        mark_list(mask, n + m) == mark_list(mask, n),
    decreases m,
{
    if m > 0 {
        lemma_mark_extended(mask, n, (m - 1) as nat);
    }
}

/// Gathering rows of `a` from `a + c` only reads `a`.
pub proof fn lemma_gather_prefix<T>(a: Seq<T>, c: Seq<T>, idx: Seq<int>)
    requires
        forall|k: int| 0 <= k < idx.len() ==> 0 <= #[trigger] idx[k] < a.len(),
    ensures
        gathered(a + c, idx) == gathered(a, idx),
{
    assert(gathered(a + c, idx) =~= gathered(a, idx));
}

/// The indices `v` doubled: `v` followed by `v` again.
pub fn repeat_twice(v: &Vec<usize>) -> (r: Vec<usize>)
    ensures
        r@ == v@ + v@,
{
    let mut r: Vec<usize> = Vec::new();
    let mut pass: usize = 0;
    while pass < 2
        invariant
            pass <= 2,
            r@ == (if pass == 0 {
                seq![]
            } else if pass == 1 {
                v@
            } else {
                v@ + v@
            }),
        decreases 2 - pass,
    {
        let ghost start = r@;
        let mut k: usize = 0;
        while k < v.len()
            invariant
                k <= v@.len(),
                r@ == start + v@.subrange(0, k as int),
            decreases v@.len() - k,
        {
            r.push(v[k]);
            k = k + 1;
            assert(r@ =~= start + v@.subrange(0, k as int));
        }
        assert(v@.subrange(0, v@.len() as int) =~= v@);
        pass = pass + 1;
        assert(pass == 1 ==> start =~= seq![]);
    }
    r
}

/// The indices of the rows of `0..n` whose mark is `want`.
pub fn select_indices(mask: &Vec<bool>, n: usize, want: bool) -> (r: Vec<usize>)
    ensures
        r@.len() == select_list(mask@, n as nat, want).len(),
        forall|k: int| 0 <= k < r@.len() ==> r@[k] as int == select_list(mask@, n as nat, want)[k],
{
    let mut r: Vec<usize> = Vec::new();
    let mut i: usize = 0;
    while i < n
        invariant
            i <= n,
            r@.len() == select_list(mask@, i as nat, want).len(),
            forall|k: int|
                0 <= k < r@.len() ==> r@[k] as int == select_list(mask@, i as nat, want)[k],
        decreases n - i,
    {
        let m = i < mask.len() && mask[i];
        if m == want {
            r.push(i);
        }
        i = i + 1;
    }
    r
}

/// The column `v` re-selected by the row list `idx`.
pub fn gather<T: Copy>(v: &Vec<T>, idx: &Vec<usize>) -> (r: Vec<T>)
    requires
        forall|k: int| 0 <= k < idx@.len() ==> idx@[k] < v@.len(),
    ensures
        r@.len() == idx@.len(),
        forall|k: int| 0 <= k < idx@.len() ==> r@[k] == v@[idx@[k] as int],
{
    let mut r: Vec<T> = Vec::new();
    let mut k: usize = 0;
    while k < idx.len()
        invariant
            k <= idx@.len(),
            r@.len() == k,
            forall|k: int| 0 <= k < idx@.len() ==> idx@[k] < v@.len(),
            forall|j: int| 0 <= j < k ==> r@[j] == v@[idx@[j] as int],
        decreases idx@.len() - k,
    {
        let x: T = v[idx[k]];
        r.push(x);
        k = k + 1;
    }
    r
}

} // verus!
