//! Orderings of trajectory records for listing: sort keys built on the order
//! of finite values, a stable ordering by key, and the cost breakdown of one
//! record, largest contribution first.
use vstd::prelude::*;
use crate::finite::{
    bits_are_finite32, bits_are_finite64, is_finite32, is_finite64, magnitude32, signed_magnitude32,
    signed_magnitude64, Finite, INFINITY64, MAX32, SIGN32,
};
use crate::record::TrajectoryRecord;
use crate::row::copy_bytes;

verus! {

/// What a trajectory list is ordered by.
#[derive(Clone, Copy, Debug, PartialEq, Eq, Structural)]
pub enum TrajectorySortKey {
    Id,
    MaxCurvilinearDeviation,
    FinalVelocity,
    Cost,
}

/// The direction of a trajectory list's order.
#[derive(Clone, Copy, Debug, PartialEq, Eq, Structural)]
pub enum SortDirection {
    Ascending,
    Descending,
}

impl SortDirection {
    /// The other direction.
    pub fn reverse(&self) -> (r: SortDirection)
        ensures
            (*self is Ascending) == (r is Descending),
    {
        match self {
            SortDirection::Ascending => SortDirection::Descending,
            SortDirection::Descending => SortDirection::Ascending,
        }
    }

    /// Turns to the other direction.
    pub fn toggle(&mut self)
        ensures
            (*old(self) is Ascending) == (*final(self) is Descending),
    {
        *self = self.reverse();
    }

    /// The arrow shown beside the sorted column.
    pub fn symbol(&self) -> (r: char)
        ensures
            r == (if *self is Ascending {
                '\u{2B06}'
            } else {
                '\u{2B07}'
            }),
    {
        match self {
            SortDirection::Ascending => '\u{2B06}',
            SortDirection::Descending => '\u{2B07}',
        }
    }
}

/// The largest magnitude of a list of binary32 patterns, 0 for none.
pub open spec fn max_magnitude(s: Seq<u32>) -> int
    decreases s.len(),
{
    if s.len() == 0 {
        0
    } else if magnitude32(s.last()) > max_magnitude(s.drop_last()) {
        magnitude32(s.last())
    } else {
        max_magnitude(s.drop_last())
    }
}

/// The binary32 pattern of the absolute value.
pub open spec fn abs_bits32(b: u32) -> u32 {
    magnitude32(b) as u32
}

/// The largest curvilinear deviation of a record: the largest absolute
/// curvilinear orientation. `None` when there is none, or one is not finite.
pub fn max_deviation(rec: &TrajectoryRecord) -> (r: Option<Finite>)
    ensures
        r is Some <==> rec.kinematic_data.curvilinear_orientations_rad@.len() > 0 && forall|i: int|
            0 <= i < rec.kinematic_data.curvilinear_orientations_rad@.len() ==> is_finite32(
                #[trigger] rec.kinematic_data.curvilinear_orientations_rad@[i],
            ),
        r matches Some(f) ==> (exists|i: int|
            0 <= i < rec.kinematic_data.curvilinear_orientations_rad@.len() && f.spec_bits()
                == abs_bits32(#[trigger] rec.kinematic_data.curvilinear_orientations_rad@[i]))
            && forall|i: int|
            0 <= i < rec.kinematic_data.curvilinear_orientations_rad@.len() ==> magnitude32(
                #[trigger] rec.kinematic_data.curvilinear_orientations_rad@[i],
            ) <= f.rank(),
        r matches Some(f) ==> f.rank() == max_magnitude(rec.kinematic_data.curvilinear_orientations_rad@),
{
    let v = &rec.kinematic_data.curvilinear_orientations_rad;
    if v.len() == 0 {
        return None;
    }
    let mut best: u32 = 0;
    let mut i: usize = 0;
    while i < v.len()
        invariant
            i <= v@.len(),
            v@ == rec.kinematic_data.curvilinear_orientations_rad@,
            v@.len() > 0,
            forall|k: int| 0 <= k < i ==> is_finite32(#[trigger] v@[k]),
            forall|k: int| 0 <= k < i ==> magnitude32(#[trigger] v@[k]) <= best,
            i == 0 ==> best == 0,
            i > 0 ==> exists|k: int| 0 <= k < i && best == abs_bits32(#[trigger] v@[k]),
            best < SIGN32,
            best == max_magnitude(v@.take(i as int)),
        decreases v@.len() - i,
    {
        proof {
            assert(v@.take(i + 1).drop_last() =~= v@.take(i as int));
        }
        let x = v[i];
        if !bits_are_finite32(x) {
            proof {
                assert(v@[i as int] == x);
                assert(!is_finite32(rec.kinematic_data.curvilinear_orientations_rad@[i as int]));
            }
            return None;
        }
        let a = if x >= SIGN32 {
            x - SIGN32
        } else {
            x
        };
        if i == 0 || a > best {
            best = a;
        }
        i += 1;
    }
    assert(v@.take(v@.len() as int) =~= v@);
    Some(Finite::value(best))
}

/// The last velocity of a record, `None` when there is none or it is not
/// finite.
pub fn final_velocity(rec: &TrajectoryRecord) -> (r: Option<Finite>)
    ensures
        r is Some <==> rec.kinematic_data.velocities_mps@.len() > 0 && is_finite32(
            rec.kinematic_data.velocities_mps@.last(),
        ),
        r matches Some(f) ==> f.spec_bits() == rec.kinematic_data.velocities_mps@.last(),
{
    let v = &rec.kinematic_data.velocities_mps;
    if v.len() == 0 {
        return None;
    }
    Finite::try_value(v[v.len() - 1])
}

/// The order of the largest finite binary32 value: where a key has no finite
/// value, the record sorts as if it had this one.
pub open spec fn fallback_rank() -> int {
    signed_magnitude32(MAX32)
}

/// The order of a record's total weighted cost, the largest finite binary64
/// order where the cost is not finite.
pub open spec fn cost_rank(c: u64) -> int {
    if is_finite64(c) {
        signed_magnitude64(c)
    } else {
        INFINITY64 - 1
    }
}

/// The ascending position of a record under a key.
pub open spec fn key_rank(rec: TrajectoryRecord, key: TrajectorySortKey) -> int {
    let curv = rec.kinematic_data.curvilinear_orientations_rad@;
    let vel = rec.kinematic_data.velocities_mps@;
    match key {
        TrajectorySortKey::Id => rec.unique_id as int,
        TrajectorySortKey::MaxCurvilinearDeviation => if curv.len() > 0 && forall|i: int|
            0 <= i < curv.len() ==> is_finite32(#[trigger] curv[i]) {
            max_magnitude(curv)
        } else {
            fallback_rank()
        },
        TrajectorySortKey::FinalVelocity => if vel.len() > 0 && is_finite32(vel.last()) {
            signed_magnitude32(vel.last())
        } else {
            fallback_rank()
        },
        TrajectorySortKey::Cost => cost_rank(rec.costs_cumulative_weighted),
    }
}

/// The sort position of a record: its key, negated for a descending order.
pub open spec fn spec_sort_rank(rec: TrajectoryRecord, key: TrajectorySortKey, dir: SortDirection) -> int {
    if dir is Ascending {
        key_rank(rec, key)
    } else {
        -key_rank(rec, key)
    }
}

/// The sort position of a record under a key and a direction. Keys without a
/// finite value take the position of the largest finite value.
pub fn sort_rank(rec: &TrajectoryRecord, key: TrajectorySortKey, dir: SortDirection) -> (r: i128)
    ensures
        r == spec_sort_rank(*rec, key, dir),
{
    let ascending: i128 = match key {
        TrajectorySortKey::Id => rec.unique_id as i128,
        TrajectorySortKey::MaxCurvilinearDeviation => match max_deviation(rec) {
            Some(f) => f.signed_magnitude() as i128,
            None => Finite::maximum().signed_magnitude() as i128,
        },
        TrajectorySortKey::FinalVelocity => match final_velocity(rec) {
            Some(f) => f.signed_magnitude() as i128,
            None => Finite::maximum().signed_magnitude() as i128,
        },
        TrajectorySortKey::Cost => {
            let c = rec.costs_cumulative_weighted;
            if bits_are_finite64(c) {
                if c >= 0x8000_0000_0000_0000u64 {
                    -((c - 0x8000_0000_0000_0000u64) as i128)
                } else {
                    c as i128
                }
            } else {
                (INFINITY64 - 1) as i128
            }
        },
    };
    match dir {
        SortDirection::Ascending => ascending,
        SortDirection::Descending => -ascending,
    }
}

/// `order` lists each position below `n` exactly once.
pub open spec fn is_permutation(order: Seq<usize>, n: int) -> bool {
    &&& order.len() == n
    &&& forall|a: int, b: int| 0 <= a < b < n ==> order[a] != order[b]
    &&& forall|a: int| 0 <= a < n ==> order[a] < n
    &&& forall|j: int| 0 <= j < n ==> #[trigger] order.contains(j as usize)
}

/// `order` lists positions by nondecreasing key, equal keys in their input
/// order.
pub open spec fn is_stable_order(order: Seq<usize>, keys: Seq<i128>) -> bool {
    forall|a: int, b: int|
        0 <= a < b < order.len() ==> keys[order[a] as int] < keys[order[b] as int] || (
        keys[order[a] as int] == keys[order[b] as int] && order[a] < order[b])
}

/// The positions of `keys` in nondecreasing key order, equal keys keeping
/// their input order.
pub fn stable_order(keys: &Vec<i128>) -> (r: Vec<usize>)
    ensures
        is_permutation(r@, keys@.len() as int),
        is_stable_order(r@, keys@),
{
    let n = keys.len();
    let mut order: Vec<usize> = Vec::with_capacity(n);
    let mut i: usize = 0;
    while i < n
        invariant
            i <= n,
            n == keys@.len(),
            is_permutation(order@, i as int),
            is_stable_order(order@, keys@),
        decreases n - i,
    {
        let k = keys[i];
        // entries after `p` have a larger key
        let mut p: usize = order.len();
        while p > 0 && keys[order[p - 1]] > k
            invariant
                p <= order@.len(),
                order@.len() == i,
                i < n,
                n == keys@.len(),
                is_permutation(order@, i as int),
                forall|a: int| p <= a < order@.len() ==> keys@[#[trigger] order@[a] as int] > k,
            decreases p,
        {
            p -= 1;
        }
        let ghost before = order@;
        order.insert(p, i);
        proof {
            assert(order@ =~= before.insert(p as int, i));
            assert forall|a: int, b: int| 0 <= a < b < i + 1 implies order@[a] != order@[b] by {
                if a != p && b != p {
                    let oa = if a < p { a } else { a - 1 };
                    let ob = if b < p { b } else { b - 1 };
                    assert(order@[a] == before[oa]);
                    assert(order@[b] == before[ob]);
                } else if a == p {
                    assert(order@[b] == before[b - 1]);
                } else {
                    assert(order@[a] == before[a]);
                }
            }
            assert forall|j: int| 0 <= j < i + 1 implies #[trigger] order@.contains(j as usize) by {
                if j == i {
                    assert(order@[p as int] == i);
                } else {
                    assert(before.contains(j as usize));
                    let w = choose|w: int| 0 <= w < before.len() && before[w] == j as usize;
                    if w < p {
                        assert(order@[w] == j as usize);
                    } else {
                        assert(order@[w + 1] == j as usize);
                    }
                }
            }
            assert forall|a: int, b: int| 0 <= a < b < order@.len() implies keys@[order@[a] as int]
                < keys@[order@[b] as int] || (keys@[order@[a] as int] == keys@[order@[b] as int]
                && order@[a] < order@[b]) by {
                if a != p && b != p {
                    let oa = if a < p { a } else { a - 1 };
                    let ob = if b < p { b } else { b - 1 };
                    assert(order@[a] == before[oa]);
                    assert(order@[b] == before[ob]);
                } else if a == p {
                    assert(order@[b] == before[b - 1]);
                    assert(keys@[before[b - 1] as int] > k);
                } else {
                    assert(order@[a] == before[a]);
                    assert(before[a] < i);
                    if p > 0 {
                        assert(keys@[before[p - 1] as int] <= k);
                        if a < p - 1 {
                            assert(keys@[before[a] as int] <= keys@[before[p - 1] as int]);
                        }
                    }
                }
            }
        }
        i += 1;
    }
    order
}

/// The positions of `records` ordered by key and direction, ties in their
/// input order.
pub fn sort_records(records: &Vec<TrajectoryRecord>, key: TrajectorySortKey, dir: SortDirection) -> (r: Vec<usize>)
    ensures
        is_permutation(r@, records@.len() as int),
        forall|a: int, b: int|
            0 <= a < b < r@.len() ==> spec_sort_rank(records@[r@[a] as int], key, dir)
                < spec_sort_rank(records@[r@[b] as int], key, dir) || (spec_sort_rank(
                records@[r@[a] as int],
                key,
                dir,
            ) == spec_sort_rank(records@[r@[b] as int], key, dir) && r@[a] < r@[b]),
{
    let mut keys: Vec<i128> = Vec::with_capacity(records.len());
    let mut i: usize = 0;
    while i < records.len()
        invariant
            i <= records@.len(),
            keys@.len() == i,
            forall|k: int| 0 <= k < i ==> keys@[k] == spec_sort_rank(#[trigger] records@[k], key, dir),
        decreases records@.len() - i,
    {
        keys.push(sort_rank(&records[i], key, dir));
        i += 1;
    }
    stable_order(&keys)
}

/// A cost contribution passes the threshold: it is greater than it, or there
/// is none. NaN thresholds let nothing pass.
pub open spec fn above_threshold(v: u64, threshold: Option<u64>) -> bool {
    match threshold {
        Some(t) => not_nan64(t) && signed_magnitude64(v) > signed_magnitude64(t),
        None => true,
    }
}

/// A binary64 pattern that is not NaN.
pub open spec fn not_nan64(t: u64) -> bool {
    is_finite64(t) || crate::finite::magnitude64(t) == INFINITY64
}

/// The cost contributions of a record that are listed: finite ones above the
/// threshold, and every one that is not finite.
pub open spec fn listed(c: (Vec<u8>, u64), threshold: Option<u64>) -> bool {
    !is_finite64(c.1) || above_threshold(c.1, threshold)
}

/// `r` lists `costs` as `sorted_nonzero_costs` does: first the entries at
/// `valid` (the finite ones above the threshold, largest first), then those at
/// `invalid` (the ones that are not finite, in column order).
pub open spec fn lists_costs(
    costs: Seq<(Vec<u8>, u64)>,
    threshold: Option<u64>,
    valid: Seq<usize>,
    invalid: Seq<usize>,
    r: Seq<(Vec<u8>, u64)>,
) -> bool {

                &&& r.len() == valid.len() + invalid.len()
                &&& forall|a: int|
                    0 <= a < valid.len() ==> #[trigger] valid[a] < costs.len() && is_finite64(
                        costs[valid[a] as int].1,
                    ) && above_threshold(costs[valid[a] as int].1, threshold)
                &&& forall|j: int|
                    0 <= j < costs.len() && is_finite64(costs[j].1) && above_threshold(
                        costs[j].1,
                        threshold,
                    ) ==> #[trigger] valid.contains(j as usize)
                &&& forall|a: int, b: int| 0 <= a < b < valid.len() ==> valid[a] != valid[b]
                &&& forall|a: int, b: int|
                    0 <= a < b < valid.len() ==> signed_magnitude64(costs[valid[a] as int].1)
                        >= signed_magnitude64(costs[valid[b] as int].1)
                &&& forall|a: int, b: int|
                    0 <= a < b < valid.len() && signed_magnitude64(costs[valid[a] as int].1)
                        == signed_magnitude64(costs[valid[b] as int].1) ==> valid[a] < valid[b]
                &&& forall|a: int|
                    0 <= a < invalid.len() ==> #[trigger] invalid[a] < costs.len()
                        && !is_finite64(costs[invalid[a] as int].1)
                &&& forall|j: int|
                    0 <= j < costs.len() && !is_finite64(costs[j].1)
                        ==> #[trigger] invalid.contains(j as usize)
                &&& forall|a: int, b: int| 0 <= a < b < invalid.len() ==> invalid[a] < invalid[b]
                &&& forall|a: int|
                    0 <= a < valid.len() ==> (#[trigger] r[a]).0@ == costs[valid[a] as int].0@
                        && r[a].1 == costs[valid[a] as int].1
                &&& forall|a: int|
                    0 <= a < invalid.len() ==> (#[trigger] r[valid.len() + a]).0@
                        == costs[invalid[a] as int].0@ && r[valid.len() + a].1
                        == costs[invalid[a] as int].1
}

/// A record's cost contributions for display: the finite ones above the
/// threshold (all of them without one), largest first, equal ones in column
/// order; then every one that is not finite, in column order.
pub fn sorted_nonzero_costs(rec: &TrajectoryRecord, threshold: Option<u64>) -> (r: Vec<(Vec<u8>, u64)>)
    ensures
        exists|valid: Seq<usize>, invalid: Seq<usize>| #[trigger] lists_costs(
            rec.costs@,
            threshold,
            valid,
            invalid,
            r@,
        ),
{
    let costs = &rec.costs;
    let threshold_rank: Option<i128> = match threshold {
        Some(t) => {
            if bits_are_finite64(t) || t == INFINITY64 || t == 0xfff0_0000_0000_0000u64 {
                Some(
                    if t >= 0x8000_0000_0000_0000u64 {
                        -((t - 0x8000_0000_0000_0000u64) as i128)
                    } else {
                        t as i128
                    },
                )
            } else {
                None
            }
        },
        None => None,
    };
    // the finite contributions that pass, keyed by their negated order
    let mut positions: Vec<usize> = Vec::new();
    let mut keys: Vec<i128> = Vec::new();
    let mut invalid: Vec<usize> = Vec::new();
    let mut j: usize = 0;
    while j < costs.len()
        invariant
            j <= costs@.len(),
            positions@.len() == keys@.len(),
            threshold is None ==> threshold_rank is None,
            threshold matches Some(t) ==> (threshold_rank is Some <==> not_nan64(t)),
            threshold is Some && threshold_rank is Some ==> threshold_rank->Some_0
                == signed_magnitude64(threshold->Some_0),
            forall|a: int|
                0 <= a < positions@.len() ==> #[trigger] positions@[a] < j && is_finite64(
                    costs@[positions@[a] as int].1,
                ) && above_threshold(costs@[positions@[a] as int].1, threshold) && keys@[a]
                    == -signed_magnitude64(costs@[positions@[a] as int].1),
            forall|a: int, b: int| 0 <= a < b < positions@.len() ==> positions@[a] < positions@[b],
            forall|x: int|
                0 <= x < j && is_finite64(costs@[x].1) && above_threshold(costs@[x].1, threshold)
                    ==> #[trigger] positions@.contains(x as usize),
            forall|a: int|
                0 <= a < invalid@.len() ==> #[trigger] invalid@[a] < j && !is_finite64(
                    costs@[invalid@[a] as int].1,
                ),
            forall|a: int, b: int| 0 <= a < b < invalid@.len() ==> invalid@[a] < invalid@[b],
            forall|x: int|
                0 <= x < j && !is_finite64(costs@[x].1) ==> #[trigger] invalid@.contains(x as usize),
        decreases costs@.len() - j,
    {
        let v = costs[j].1;
        let ghost pos_before = positions@;
        let ghost inv_before = invalid@;
        if bits_are_finite64(v) {
            let rank: i128 = if v >= 0x8000_0000_0000_0000u64 {
                -((v - 0x8000_0000_0000_0000u64) as i128)
            } else {
                v as i128
            };
            let passes = match threshold_rank {
                Some(t) => rank > t,
                None => threshold.is_none(),
            };
            if passes {
                positions.push(j);
                keys.push(-rank);
                proof {
                    assert forall|x: int|
                        0 <= x < j + 1 && is_finite64(costs@[x].1) && above_threshold(
                            costs@[x].1,
                            threshold,
                        ) implies #[trigger] positions@.contains(x as usize) by {
                        if x < j {
                            assert(pos_before.contains(x as usize));
                            let w = choose|w: int| 0 <= w < pos_before.len() && pos_before[w] == x as usize;
                            assert(positions@[w] == x as usize);
                        } else {
                            assert(positions@[positions@.len() - 1] == j);
                        }
                    }
                }
            }
        } else {
            invalid.push(j);
            proof {
                assert forall|x: int| 0 <= x < j + 1 && !is_finite64(costs@[x].1) implies #[trigger] invalid@.contains(
                    x as usize,
                ) by {
                    if x < j {
                        assert(inv_before.contains(x as usize));
                        let w = choose|w: int| 0 <= w < inv_before.len() && inv_before[w] == x as usize;
                        assert(invalid@[w] == x as usize);
                    } else {
                        assert(invalid@[invalid@.len() - 1] == j);
                    }
                }
            }
        }
        j += 1;
    }
    let order = stable_order(&keys);
    let ghost valid = order@.map_values(|o: usize| positions@[o as int]);
    let mut r: Vec<(Vec<u8>, u64)> = Vec::new();
    let mut a: usize = 0;
    while a < order.len()
        invariant
            a <= order@.len(),
            is_permutation(order@, keys@.len() as int),
            positions@.len() == keys@.len(),
            valid == order@.map_values(|o: usize| positions@[o as int]),
            valid.len() == order@.len(),
            r@.len() == a,
            forall|x: int| 0 <= x < positions@.len() ==> #[trigger] positions@[x] < costs@.len(),
            forall|b: int|
                0 <= b < a ==> (#[trigger] r@[b]).0@ == costs@[valid[b] as int].0@ && r@[b].1
                    == costs@[valid[b] as int].1,
        decreases order@.len() - a,
    {
        let p = positions[order[a]];
        assert(valid[a as int] == p);
        r.push((copy_bytes(&costs[p].0), costs[p].1));
        a += 1;
    }
    proof {
        assert forall|c: int| 0 <= c < valid.len() implies #[trigger] valid[c] < costs@.len() by {
            assert(order@[c] < keys@.len());
        }
    }
    let mut b: usize = 0;
    while b < invalid.len()
        invariant
            b <= invalid@.len(),
            r@.len() == valid.len() + b,
            valid.len() == order@.len(),
            forall|c: int| 0 <= c < valid.len() ==> #[trigger] valid[c] < costs@.len(),
            forall|x: int| 0 <= x < invalid@.len() ==> #[trigger] invalid@[x] < costs@.len(),
            forall|c: int|
                0 <= c < valid.len() ==> (#[trigger] r@[c]).0@ == costs@[valid[c] as int].0@ && r@[c].1
                    == costs@[valid[c] as int].1,
            forall|c: int|
                0 <= c < b ==> (#[trigger] r@[valid.len() + c]).0@ == costs@[invalid@[c] as int].0@
                    && r@[valid.len() + c].1 == costs@[invalid@[c] as int].1,
        decreases invalid@.len() - b,
    {
        let p = invalid[b];
        r.push((copy_bytes(&costs[p].0), costs[p].1));
        b += 1;
    }
    proof {
        assert forall|x: int, y: int| 0 <= x < y < valid.len() implies valid[x] != valid[y] by {
            assert(order@[x] != order@[y]);
        }
        assert forall|x: int, y: int| 0 <= x < y < valid.len() implies signed_magnitude64(
            costs@[valid[x] as int].1,
        ) >= signed_magnitude64(costs@[valid[y] as int].1) by {
            assert(keys@[order@[x] as int] <= keys@[order@[y] as int]);
        }
        assert forall|x: int, y: int|
            0 <= x < y < valid.len() && signed_magnitude64(costs@[valid[x] as int].1)
                == signed_magnitude64(costs@[valid[y] as int].1) implies valid[x] < valid[y] by {
            assert(keys@[order@[x] as int] == keys@[order@[y] as int]);
            assert(order@[x] < order@[y]);
        }
        assert forall|x: int|
            0 <= x < costs@.len() && is_finite64(costs@[x].1) && above_threshold(costs@[x].1, threshold)
                implies #[trigger] valid.contains(x as usize) by {
            assert(positions@.contains(x as usize));
            let w = choose|w: int| 0 <= w < positions@.len() && positions@[w] == x as usize;
            assert(order@.contains(w as usize));
            let q = choose|q: int| 0 <= q < order@.len() && order@[q] == w as usize;
            assert(valid[q] == x as usize);
        }
        assert(lists_costs(rec.costs@, threshold, valid, invalid@, r@));
    }
    r
}

} // verus!
