//! Every way to pick one entry from each of several lists.

use vstd::prelude::*;
use crate::model::Duplicate;

verus! {

/// The number of combinations of lists of lengths `lens`.
pub open spec fn product_len(lens: Seq<nat>) -> nat
    decreases lens.len(),
{
    if lens.len() == 0 {
        1
    } else {
        product_len(lens.drop_last()) * lens.last()
    }
}

/// The number of combinations of the first `j` lists of lengths `lens`.
pub open spec fn prefix_product(lens: Seq<nat>, j: int) -> nat {
    product_len(lens.take(j))
}

/// Lengths as natural numbers.
pub open spec fn nat_lens(v: Seq<usize>) -> Seq<nat> {
    v.map_values(|x: usize| x as nat)
}

/// The lengths of the lists.
pub open spec fn lens_of<T>(lists: Seq<Vec<T>>) -> Seq<nat> {
    lists.map_values(|l: Vec<T>| l@.len())
}

/// Which entry of each list the `k`-th combination picks: `k` read in mixed radix,
/// the last list changing fastest.
pub open spec fn combo_digits(lens: Seq<nat>, k: int) -> Seq<int>
    decreases lens.len(),
{
    if lens.len() == 0 {
        Seq::empty()
    } else {
        combo_digits(lens.drop_last(), k / (lens.last() as int)).push(k % (lens.last() as int))
    }
}

proof fn lemma_digits_len(lens: Seq<nat>, k: int)
    ensures
        combo_digits(lens, k).len() == lens.len(),
    decreases lens.len(),
{
    if lens.len() > 0 {
        lemma_digits_len(lens.drop_last(), k / (lens.last() as int));
    }
}

proof fn lemma_digit_step(lens: Seq<nat>, j: int, ri: int, ii: int)
    requires
        0 <= j < lens.len(),
        lens[j] > 0,
        0 <= ii < lens[j],
        0 <= ri,
    ensures
        combo_digits(lens.take(j + 1), ri * (lens[j] as int) + ii) == combo_digits(
            lens.take(j),
            ri,
        ).push(ii),
{
    let m = lens[j] as int;
    let k = ri * m + ii;
    vstd::arithmetic::div_mod::lemma_fundamental_div_mod_converse(k, m, ri, ii);
    assert(lens.take(j + 1).drop_last() =~= lens.take(j));
    assert(lens.take(j + 1).last() == lens[j]);
}

/// The index combinations for lists of lengths `lens`, in order.
fn index_combinations(lens: &Vec<usize>) -> (r: Vec<Vec<usize>>)
    requires
        forall|j: int| 0 <= j <= lens@.len() ==> #[trigger] prefix_product(nat_lens(lens@), j) <= usize::MAX,
    ensures
        r@.len() == product_len(nat_lens(lens@)),
        forall|k: int|
            #![trigger r@[k]]
            0 <= k < r@.len() ==> r@[k]@.len() == lens@.len() && forall|t: int|
                0 <= t < lens@.len() ==> r@[k]@[t] == combo_digits(
                    nat_lens(lens@),
                    k,
                )[t] && r@[k]@[t] < lens@[t],
{
    let ghost ls = nat_lens(lens@);
    let mut combos: Vec<Vec<usize>> = Vec::new();
    combos.push(Vec::new());
    let mut j: usize = 0;
    proof {
        assert(ls.take(0) =~= Seq::<nat>::empty());
    }
    while j < lens.len()
        invariant
            ls == nat_lens(lens@),
            forall|q: int| 0 <= q <= lens@.len() ==> #[trigger] prefix_product(ls, q) <= usize::MAX,
            0 <= j <= lens@.len(),
            combos@.len() == product_len(ls.take(j as int)),
            forall|k: int|
                #![trigger combos@[k]]
                0 <= k < combos@.len() ==> combos@[k]@.len() == j && forall|t: int|
                    0 <= t < j ==> combos@[k]@[t] == combo_digits(ls.take(j as int), k)[t]
                        && combos@[k]@[t] < lens@[t],
        decreases lens@.len() - j,
    {
        let m = lens[j];
        let mut next: Vec<Vec<usize>> = Vec::new();
        let mut ri: usize = 0;
        proof {
            assert(ls.take(j + 1).drop_last() =~= ls.take(j as int));
            assert(ls.take(j + 1).last() == m as nat);
            assert(product_len(ls.take(j + 1)) == combos@.len() * (m as nat));
            assert(prefix_product(ls, j + 1) <= usize::MAX);
        }
        while ri < combos.len()
            invariant
                ls == nat_lens(lens@),
                0 <= j < lens@.len(),
                m == lens@[j as int],
                combos@.len() * (m as nat) <= usize::MAX,
                0 <= ri <= combos@.len(),
                next@.len() == ri * m,
                forall|k: int|
                    #![trigger combos@[k]]
                    0 <= k < combos@.len() ==> combos@[k]@.len() == j && forall|t: int|
                        0 <= t < j ==> combos@[k]@[t] == combo_digits(ls.take(j as int), k)[t]
                            && combos@[k]@[t] < lens@[t],
                forall|k: int|
                    #![trigger next@[k]]
                    0 <= k < next@.len() ==> next@[k]@.len() == j + 1 && forall|t: int|
                        0 <= t < j + 1 ==> next@[k]@[t] == combo_digits(ls.take(j + 1), k)[t]
                            && next@[k]@[t] < lens@[t],
            decreases combos@.len() - ri,
        {
            let mut ii: usize = 0;
            proof {
                assert((ri + 1) * m <= combos@.len() * m) by (nonlinear_arith)
                    requires
                        ri + 1 <= combos@.len(),
                ;
                assert((ri + 1) * m == ri * m + m) by (nonlinear_arith);
            }
            while ii < m
                invariant
                    ls == nat_lens(lens@),
                    0 <= j < lens@.len(),
                    m == lens@[j as int],
                    0 <= ri < combos@.len(),
                    ri * m + m <= usize::MAX,
                    0 <= ii <= m,
                    next@.len() == ri * m + ii,
                    forall|k: int|
                        #![trigger combos@[k]]
                        0 <= k < combos@.len() ==> combos@[k]@.len() == j && forall|t: int|
                            0 <= t < j ==> combos@[k]@[t] == combo_digits(ls.take(j as int), k)[t]
                                && combos@[k]@[t] < lens@[t],
                    forall|k: int|
                        #![trigger next@[k]]
                        0 <= k < next@.len() ==> next@[k]@.len() == j + 1 && forall|t: int|
                            0 <= t < j + 1 ==> next@[k]@[t] == combo_digits(ls.take(j + 1), k)[t]
                                && next@[k]@[t] < lens@[t],
                decreases m - ii,
            {
                let src = &combos[ri];
                let mut row: Vec<usize> = Vec::new();
                let mut t: usize = 0;
                while t < j
                    invariant
                        0 <= j < lens@.len(),
                        src@.len() == j,
                        0 <= t <= j,
                        row@ == src@.take(t as int),
                    decreases j - t,
                {
                    row.push(src[t]);
                    t += 1;
                    assert(row@ =~= src@.take(t as int));
                }
                assert(src@.take(j as int) =~= src@);
                row.push(ii);
                proof {
                    lemma_digit_step(ls, j as int, ri as int, ii as int);
                    lemma_digits_len(ls.take(j as int), ri as int);
                    let k = next@.len() as int;
                    assert(k == ri * m + ii);
                    assert forall|t: int| 0 <= t < j + 1 implies row@[t] == combo_digits(
                        ls.take(j + 1),
                        k,
                    )[t] && row@[t] < lens@[t] by {
                        if t < j {
                            assert(combos@[ri as int]@[t] == combo_digits(
                                ls.take(j as int),
                                ri as int,
                            )[t]);
                        }
                    }
                }
                next.push(row);
                ii += 1;
            }
            ri += 1;
            assert(next@.len() == ri * m) by (nonlinear_arith)
                requires
                    next@.len() == (ri - 1) * m + m,
            ;
        }
        combos = next;
        j += 1;
    }
    proof {
        assert(ls.take(lens@.len() as int) =~= ls);
    }
    combos
}

/// `row` is the `k`-th combination of `lists`: from each list `j` it takes the entry
/// `combo_digits(..., k)[j]` (a value with the same view).
pub open spec fn is_combination<T: View>(lists: Seq<Vec<T>>, k: int, row: Seq<T>) -> bool {
    &&& row.len() == lists.len()
    &&& forall|j: int|
        #![trigger row[j]]
        0 <= j < lists.len() ==> 0 <= combo_digits(lens_of(lists), k)[j] < lists[j]@.len()
            && row[j]@ == lists[j]@[combo_digits(lens_of(lists), k)[j]]@
}

/// Every combination that takes one entry from each list, in order (the last list
/// changing fastest).
pub fn cartesian_product<T: Duplicate>(lists: &[Vec<T>]) -> (r: Vec<Vec<T>>)
    requires
        forall|j: int| 0 <= j <= lists@.len() ==> #[trigger] prefix_product(lens_of(lists@), j) <= usize::MAX,
    ensures
        r@.len() == product_len(lens_of(lists@)),
        forall|k: int| 0 <= k < r@.len() ==> is_combination(lists@, k, #[trigger] r@[k]@),
{
    let mut lens: Vec<usize> = Vec::new();
    let mut q: usize = 0;
    while q < lists.len()
        invariant
            0 <= q <= lists@.len(),
            lens@.len() == q,
            forall|t: int| 0 <= t < q ==> lens@[t] == lists@[t]@.len(),
        decreases lists@.len() - q,
    {
        lens.push(lists[q].len());
        q += 1;
    }
    proof {
        assert(nat_lens(lens@) =~= lens_of(lists@));
    }
    let combos = index_combinations(&lens);
    let ghost ls = lens_of(lists@);
    let mut r: Vec<Vec<T>> = Vec::new();
    let mut k: usize = 0;
    while k < combos.len()
        invariant
            nat_lens(lens@) == lens_of(lists@),
            ls == lens_of(lists@),
            lens@.len() == lists@.len(),
            forall|t: int| 0 <= t < lists@.len() ==> lens@[t] == lists@[t]@.len(),
            forall|k: int|
                #![trigger combos@[k]]
                0 <= k < combos@.len() ==> combos@[k]@.len() == lens@.len() && forall|t: int|
                    0 <= t < lens@.len() ==> combos@[k]@[t] == combo_digits(ls, k)[t]
                        && combos@[k]@[t] < lens@[t],
            0 <= k <= combos@.len(),
            r@.len() == k,
            forall|k2: int| 0 <= k2 < k ==> is_combination(lists@, k2, #[trigger] r@[k2]@),
        decreases combos@.len() - k,
    {
        let idx = &combos[k];
        let ghost kk = k as int;
        let mut row: Vec<T> = Vec::new();
        let mut j: usize = 0;
        while j < lists.len()
            invariant
                lens@.len() == lists@.len(),
                forall|t: int| 0 <= t < lists@.len() ==> lens@[t] == lists@[t]@.len(),
                idx@.len() == lens@.len(),
                forall|t: int|
                    0 <= t < lens@.len() ==> idx@[t] == combo_digits(ls, kk)[t]
                        && idx@[t] < lens@[t],
                0 <= j <= lists@.len(),
                row@.len() == j,
                forall|t: int|
                    #![trigger row@[t]]
                    0 <= t < j ==> row@[t]@ == lists@[t]@[idx@[t] as int]@,
            decreases lists@.len() - j,
        {
            let item = lists[j][idx[j]].duplicate();
            let ghost row0 = row@;
            row.push(item);
            proof {
                assert(forall|t: int| 0 <= t < j ==> row@[t] == row0[t]);
            }
            j += 1;
        }
        proof {
            assert forall|t: int| #![trigger row@[t]] 0 <= t < lists@.len() implies 0
                <= combo_digits(ls, kk)[t] < lists@[t]@.len() && row@[t]@ == lists@[t]@[combo_digits(
                ls,
                kk,
            )[t]]@ by {
                assert(idx@[t] == combo_digits(ls, kk)[t]);
            }
            assert(is_combination(lists@, kk, row@));
        }
        let ghost r0 = r@;
        r.push(row);
        proof {
            assert forall|k2: int| 0 <= k2 < k + 1 implies is_combination(
                lists@,
                k2,
                #[trigger] r@[k2]@,
            ) by {
                if k2 < k {
                    assert(r@[k2] == r0[k2]);
                }
            }
        }
        k += 1;
    }
    r
}

} // verus!
