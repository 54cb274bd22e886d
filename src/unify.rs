//! Merging several per-domain event logs into one log, deduplicated by event id.

use vstd::prelude::*;
use crate::error::StoreError;

verus! {

/// Row `i` of domain `d` exists.
pub open spec fn occurs(ds: Seq<Seq<u128>>, d: int, i: int) -> bool {
    0 <= d < ds.len() && 0 <= i < ds[d].len()
}

/// Row `(d2, i2)` comes after row `(d1, i1)` in iteration order.
pub open spec fn after(d1: int, i1: int, d2: int, i2: int) -> bool {
    d1 < d2 || (d1 == d2 && i1 < i2)
}

/// Row `(d, i)` is the last one with its id: the row that a merge keeps.
pub open spec fn is_last(ds: Seq<Seq<u128>>, d: int, i: int) -> bool {
    &&& occurs(ds, d, i)
    &&& forall|d2: int, i2: int|
        occurs(ds, d2, i2) && after(d, i, d2, i2) ==> #[trigger] ds[d2][i2] != ds[d][i]
}

/// No id occurs twice within one domain.
pub open spec fn domains_unique(ds: Seq<Seq<u128>>) -> bool {
    forall|d: int, i: int, j: int|
        0 <= d < ds.len() && 0 <= i < j < ds[d].len() ==> #[trigger] ds[d][i] != #[trigger] ds[d][j]
}

pub open spec fn ids_view(ds: Seq<Vec<u128>>) -> Seq<Seq<u128>> {
    ds.map_values(|v: Vec<u128>| v@)
}

/// `plan` lists exactly the rows that are last with their id, each once, in iteration order.
pub open spec fn keeps_last_rows(ds: Seq<Seq<u128>>, plan: Seq<(usize, usize)>) -> bool {
    &&& forall|k: int| 0 <= k < plan.len() ==> is_last(ds, #[trigger] plan[k].0 as int, plan[k].1 as int)
    &&& forall|d: int, i: int|
        is_last(ds, d, i) ==> exists|k: int| 0 <= k < plan.len() && #[trigger] plan[k] == (d as usize, i as usize)
    &&& forall|k1: int, k2: int|
        0 <= k1 < k2 < plan.len() ==> after(
            #[trigger] plan[k1].0 as int,
            plan[k1].1 as int,
            #[trigger] plan[k2].0 as int,
            plan[k2].1 as int,
        )
}

/// Whether row `(d, i)` is the last with its id.
fn row_is_last(ds: &Vec<Vec<u128>>, d: usize, i: usize) -> (r: bool)
    requires
        occurs(ids_view(ds@), d as int, i as int),
    ensures
        r == is_last(ids_view(ds@), d as int, i as int),
{
    let ghost v = ids_view(ds@);
    let id = ds[d][i];
    let len_d = ds[d].len();
    proof {
        assert(v[d as int][i as int] == id);
        assert(v[d as int] == ds@[d as int]@);
        assert(i < len_d);
    }
    let mut d2: usize = d;
    while d2 < ds.len()
        invariant
            d <= d2 <= ds@.len(),
            v == ids_view(ds@),
            occurs(v, d as int, i as int),
            i < len_d,
            id == v[d as int][i as int],
            forall|a: int, b: int| occurs(v, a, b) && after(d as int, i as int, a, b) && a < d2 ==> #[trigger] v[a][b] != id,
        decreases ds@.len() - d2,
    {
        let row = &ds[d2];
        proof { assert(row@ == v[d2 as int]); }
        let mut i2: usize = if d2 == d {
            i + 1
        } else {
            0
        };
        while i2 < row.len()
            invariant
                d <= d2 < ds@.len(),
                v == ids_view(ds@),
                row@ == v[d2 as int],
                occurs(v, d as int, i as int),
                id == v[d as int][i as int],
                d2 == d ==> i + 1 <= i2,
                i2 <= row@.len() || (d2 == d && i2 == i + 1),
                forall|a: int, b: int| occurs(v, a, b) && after(d as int, i as int, a, b) && a < d2 ==> #[trigger] v[a][b] != id,
                forall|b: int| 0 <= b < i2 && b < row@.len() && after(d as int, i as int, d2 as int, b) ==> #[trigger] v[d2 as int][b] != id,
            decreases row@.len() - i2,
        {
            if row[i2] == id {
                proof {
                    assert(occurs(v, d2 as int, i2 as int));
                    assert(after(d as int, i as int, d2 as int, i2 as int));
                }
                return false;
            }
            i2 = i2 + 1;
        }
        d2 = d2 + 1;
    }
    true
}

/// The rows a merge keeps, in iteration order: for each id, its last row.
pub fn last_rows(ds: &Vec<Vec<u128>>) -> (r: Vec<(usize, usize)>)
    ensures
        keeps_last_rows(ids_view(ds@), r@),
{
    let ghost v = ids_view(ds@);
    let mut out: Vec<(usize, usize)> = Vec::new();
    let mut d: usize = 0;
    while d < ds.len()
        invariant
            d <= ds@.len(),
            v == ids_view(ds@),
            forall|k: int| 0 <= k < out@.len() ==> is_last(v, #[trigger] out@[k].0 as int, out@[k].1 as int),
            forall|k: int| 0 <= k < out@.len() ==> (#[trigger] out@[k]).0 < d,
            forall|a: int, b: int| a < d && is_last(v, a, b) ==> exists|k: int| 0 <= k < out@.len() && #[trigger] out@[k] == (a as usize, b as usize),
            forall|k1: int, k2: int| 0 <= k1 < k2 < out@.len() ==> after(#[trigger] out@[k1].0 as int, out@[k1].1 as int, #[trigger] out@[k2].0 as int, out@[k2].1 as int),
        decreases ds@.len() - d,
    {
        let n = ds[d].len();
        proof { assert(n == v[d as int].len()); }
        let mut i: usize = 0;
        while i < n
            invariant
                d < ds@.len(),
                i <= n,
                n == v[d as int].len(),
                v == ids_view(ds@),
                forall|k: int| 0 <= k < out@.len() ==> is_last(v, #[trigger] out@[k].0 as int, out@[k].1 as int),
                forall|k: int| 0 <= k < out@.len() ==> (#[trigger] out@[k]).0 < d || (out@[k].0 == d && out@[k].1 < i),
                forall|a: int, b: int| (a < d || (a == d && b < i)) && is_last(v, a, b) ==> exists|k: int| 0 <= k < out@.len() && #[trigger] out@[k] == (a as usize, b as usize),
                forall|k1: int, k2: int| 0 <= k1 < k2 < out@.len() ==> after(#[trigger] out@[k1].0 as int, out@[k1].1 as int, #[trigger] out@[k2].0 as int, out@[k2].1 as int),
            decreases n - i,
        {
            if row_is_last(ds, d, i) {
                let ghost before = out@;
                out.push((d, i));
                proof {
                    assert forall|a: int, b: int| (a < d || (a == d && b < i + 1)) && is_last(v, a, b) implies exists|k: int| 0 <= k < out@.len() && #[trigger] out@[k] == (a as usize, b as usize) by {
                        if a == d && b == i {
                            assert(out@[before.len() as int] == (a as usize, b as usize));
                        } else {
                            let k = choose|k: int| 0 <= k < before.len() && #[trigger] before[k] == (a as usize, b as usize);
                            assert(out@[k] == before[k]);
                        }
                    }
                }
            }
            i = i + 1;
        }
        d = d + 1;
    }
    out
}

/// Two kept rows never share an id: the merged log holds each id at most once.
pub proof fn lemma_kept_rows_unique(ds: Seq<Seq<u128>>, d1: int, i1: int, d2: int, i2: int)
    requires
        is_last(ds, d1, i1),
        is_last(ds, d2, i2),
        (d1, i1) != (d2, i2),
    ensures
        ds[d1][i1] != ds[d2][i2],
{
    if after(d1, i1, d2, i2) {
        assert(ds[d2][i2] != ds[d1][i1]);
    } else {
        assert(after(d2, i2, d1, i1));
        assert(ds[d1][i1] != ds[d2][i2]);
    }
}

/// Plans the merge of several domains' logs, given each domain's event ids in the order read:
/// the rows to write, in iteration order, keeping for each id its last row. An id repeated
/// within one domain fails the merge with `DuplicateIds`.
pub fn merge_plan(ds: &Vec<Vec<u128>>) -> (r: Result<Vec<(usize, usize)>, StoreError>)
    ensures
        !domains_unique(ids_view(ds@)) ==> r == Err::<Vec<(usize, usize)>, StoreError>(
            StoreError::DuplicateIds,
        ),
        domains_unique(ids_view(ds@)) ==> (r matches Ok(plan) && keeps_last_rows(
            ids_view(ds@),
            plan@,
        )),
{
    let ghost v = ids_view(ds@);
    let mut d: usize = 0;
    while d < ds.len()
        invariant
            d <= ds@.len(),
            v == ids_view(ds@),
            forall|a: int, i: int, j: int| 0 <= a < d && 0 <= i < j < v[a].len() ==> #[trigger] v[a][i] != #[trigger] v[a][j],
        decreases ds@.len() - d,
    {
        let row = &ds[d];
        proof { assert(row@ == v[d as int]); }
        let mut i: usize = 0;
        while i < row.len()
            invariant
                d < ds@.len(),
                v == ids_view(ds@),
                row@ == v[d as int],
                i <= row@.len(),
                forall|a: int, x: int, y: int| 0 <= a < d && 0 <= x < y < v[a].len() ==> #[trigger] v[a][x] != #[trigger] v[a][y],
                forall|x: int, y: int| 0 <= x < y < row@.len() && x < i ==> #[trigger] row@[x] != #[trigger] row@[y],
            decreases row@.len() - i,
        {
            let mut j: usize = i + 1;
            while j < row.len()
                invariant
                    d < ds@.len(),
                    v == ids_view(ds@),
                    row@ == v[d as int],
                    i < row@.len(),
                    i + 1 <= j <= row@.len(),
                    forall|a: int, x: int, y: int| 0 <= a < d && 0 <= x < y < v[a].len() ==> #[trigger] v[a][x] != #[trigger] v[a][y],
                    forall|x: int, y: int| 0 <= x < y < row@.len() && x < i ==> #[trigger] row@[x] != #[trigger] row@[y],
                    forall|y: int| i < y < j ==> row@[i as int] != #[trigger] row@[y],
                decreases row@.len() - j,
            {
                if row[i] == row[j] {
                    proof {
                        assert(v[d as int][i as int] == v[d as int][j as int]);
                        assert(!domains_unique(v));
                    }
                    return Err(StoreError::DuplicateIds);
                }
                j = j + 1;
            }
            i = i + 1;
        }
        d = d + 1;
    }
    let plan = last_rows(ds);
    proof {
        assert(domains_unique(v));
    }
    Ok(plan)
}

} // verus!
