//! Arrays given entry by entry, for use in specifications.

use vstd::prelude::*;
use vstd::array::spec_array_update;
use vstd::pervasive::arbitrary;

verus! {

/// The array of two entries `a` and `b`.
pub open spec fn pair_of<T>(a: T, b: T) -> [T; 2] {
    spec_array_update(spec_array_update(arbitrary::<[T; 2]>(), 0, a), 1, b)
}

/// The row whose entry `k` is `f(k)`.
pub open spec fn row_of(f: spec_fn(int) -> usize) -> [usize; 6] {
    let r0 = spec_array_update(arbitrary::<[usize; 6]>(), 0, f(0));
    let r1 = spec_array_update(r0, 1, f(1));
    let r2 = spec_array_update(r1, 2, f(2));
    let r3 = spec_array_update(r2, 3, f(3));
    let r4 = spec_array_update(r3, 4, f(4));
    spec_array_update(r4, 5, f(5))
}

/// The two rows whose entry `k` of row `side` is `f(side, k)`.
pub open spec fn grid_of(f: spec_fn(int, int) -> usize) -> [[usize; 6]; 2] {
    pair_of(row_of(|k: int| f(0, k)), row_of(|k: int| f(1, k)))
}

/// `pair_of` holds what it was given.
pub proof fn lemma_pair_of<T>(a: T, b: T)
    ensures
        pair_of(a, b)[0] == a,
        pair_of(a, b)[1] == b,
{
}

/// `row_of` holds what it was given.
pub proof fn lemma_row_of(f: spec_fn(int) -> usize)
    ensures
        forall|k: int| 0 <= k < 6 ==> #[trigger] row_of(f)[k] == f(k),
{
}

/// `grid_of` holds what it was given.
pub proof fn lemma_grid_of(f: spec_fn(int, int) -> usize)
    ensures
        forall|side: int, k: int|
            0 <= side < 2 && 0 <= k < 6 ==> #[trigger] grid_of(f)[side][k] == f(side, k),
{
    lemma_pair_of(row_of(|k: int| f(0, k)), row_of(|k: int| f(1, k)));
    lemma_row_of(|k: int| f(0, k));
    lemma_row_of(|k: int| f(1, k));
}

/// Two grids with the same entries are the same grid.
pub proof fn lemma_grid_equal(a: [[usize; 6]; 2], b: [[usize; 6]; 2])
    requires
        forall|side: int, k: int| 0 <= side < 2 && 0 <= k < 6 ==> a[side][k] == b[side][k],
    ensures
        a == b,
{
    assert(a[0] =~= b[0]);
    assert(a[1] =~= b[1]);
    assert(a =~= b);
}

/// Two pairs with the same entries are the same pair.
pub proof fn lemma_pair_equal(a: [usize; 2], b: [usize; 2])
    requires
        a[0] == b[0],
        a[1] == b[1],
    ensures
        a == b,
{
    assert(a =~= b);
}

} // verus!
