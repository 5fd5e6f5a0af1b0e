//! Grouping of accepted records by time step, with the running maximum of
//! their total weighted cost.
use vstd::prelude::*;
use vstd::multiset::Multiset;
use crate::finite::{bits_are_finite64, is_finite64, signed_magnitude64, Finite64, MIN_POSITIVE64};
use crate::record::TrajectoryRecord;
use crate::row::RowError;

verus! {

broadcast use vstd::seq_lib::group_to_multiset_ensures;

/// The records of one time step.
#[derive(Debug)]
pub struct TimeStepGroup {
    pub time_step: i32,
    pub records: Vec<TrajectoryRecord>,
}

/// The records of `s` at time step `k`, in their order in `s`.
pub open spec fn with_key(s: Seq<TrajectoryRecord>, k: i32) -> Seq<TrajectoryRecord>
    decreases s.len(),
{
    if s.len() == 0 {
        s
    } else {
        let before = with_key(s.drop_last(), k);
        if s.last().time_step == k {
            before.push(s.last())
        } else {
            before
        }
    }
}

/// Some record of `s` has time step `k`.
pub open spec fn has_key(s: Seq<TrajectoryRecord>, k: i32) -> bool {
    exists|i: int| 0 <= i < s.len() && #[trigger] s[i].time_step == k
}

/// The order of the statistic's starting value, kept while no finite cost has
/// been seen: the smallest positive normal binary64 value.
pub open spec fn initial_cost_rank() -> int {
    signed_magnitude64(MIN_POSITIVE64)
}

/// Some record of `s` has a finite total weighted cost.
pub open spec fn some_finite_cost(s: Seq<TrajectoryRecord>) -> bool
    decreases s.len(),
{
    s.len() > 0 && (some_finite_cost(s.drop_last()) || is_finite64(
        s.last().costs_cumulative_weighted,
    ))
}

/// The order of the largest finite total weighted cost of `s`; the starting
/// value where no cost is finite.
pub open spec fn max_cost(s: Seq<TrajectoryRecord>) -> int
    decreases s.len(),
{
    if s.len() == 0 {
        initial_cost_rank()
    } else {
        let before = max_cost(s.drop_last());
        let c = s.last().costs_cumulative_weighted;
        if is_finite64(c) && (!some_finite_cost(s.drop_last()) || signed_magnitude64(c) > before) {
            signed_magnitude64(c)
        } else {
            before
        }
    }
}

/// The accepted records among row outcomes, in order.
pub open spec fn accepted_of(s: Seq<Result<TrajectoryRecord, RowError>>) -> Seq<TrajectoryRecord>
    decreases s.len(),
{
    if s.len() == 0 {
        Seq::empty()
    } else {
        let before = accepted_of(s.drop_last());
        match s.last() {
            Ok(r) => before.push(r),
            Err(_) => before,
        }
    }
}

/// The number of row outcomes that dropped a row for a NaN or infinite
/// position.
pub open spec fn dropped_of(s: Seq<Result<TrajectoryRecord, RowError>>) -> nat
    decreases s.len(),
{
    if s.len() == 0 {
        0
    } else {
        dropped_of(s.drop_last()) + if s.last() == Err::<TrajectoryRecord, RowError>(
            RowError::NonFinitePosition,
        ) {
            1nat
        } else {
            0nat
        }
    }
}

/// The number of row outcomes that skipped a row for a field that did not
/// decode.
pub open spec fn skipped_of(s: Seq<Result<TrajectoryRecord, RowError>>) -> nat
    decreases s.len(),
{
    if s.len() == 0 {
        0
    } else {
        skipped_of(s.drop_last()) + if s.last() is Err && s.last()
            != Err::<TrajectoryRecord, RowError>(RowError::NonFinitePosition) {
            1nat
        } else {
            0nat
        }
    }
}

/// Groups accepted records by time step, in increasing time step order, and
/// keeps the largest finite total weighted cost seen.
pub struct Aggregation {
    groups: Vec<TimeStepGroup>,
    max_cumulative_cost: Finite64,
    seen_finite: bool,
    accepted: Ghost<Seq<TrajectoryRecord>>,
    offered: Ghost<Seq<Result<TrajectoryRecord, RowError>>>,
    rows: usize,
    dropped: usize,
    skipped: usize,
}

impl Aggregation {
    /// The groups, in increasing time step order.
    pub closed spec fn spec_groups(self) -> Seq<TimeStepGroup> {
        self.groups@
    }

    /// Every record accepted so far, in arrival order.
    pub closed spec fn accepted(self) -> Seq<TrajectoryRecord> {
        self.accepted@
    }

    /// Every row outcome offered so far, in arrival order.
    pub closed spec fn offered(self) -> Seq<Result<TrajectoryRecord, RowError>> {
        self.offered@
    }

    /// Whether some accepted cost was finite.
    pub closed spec fn spec_seen_finite(self) -> bool {
        self.seen_finite
    }

    /// The order of the running maximum.
    pub closed spec fn max_rank(self) -> int {
        self.max_cumulative_cost.rank()
    }

    /// The number of rows offered.
    pub closed spec fn spec_rows(self) -> nat {
        self.rows as nat
    }

    /// The number of rows dropped for a NaN or infinite position.
    pub closed spec fn spec_dropped(self) -> nat {
        self.dropped as nat
    }

    /// The number of rows skipped because a field did not decode.
    pub closed spec fn spec_skipped(self) -> nat {
        self.skipped as nat
    }

    /// The time step of the `i`-th group.
    pub open spec fn key(self, i: int) -> i32 {
        self.spec_groups()[i].time_step
    }

    /// The records of the `i`-th group.
    pub open spec fn records(self, i: int) -> Seq<TrajectoryRecord> {
        self.spec_groups()[i].records@
    }

    /// Some group has time step `k`.
    pub open spec fn has_group(self, k: i32) -> bool {
        exists|i: int| 0 <= i < self.spec_groups().len() && #[trigger] self.key(i) == k
    }

    /// The groups are in strictly increasing time step order; each holds
    /// exactly the accepted records of its time step; every accepted record's
    /// time step has a group; and the maximum is that of the accepted costs.
    pub open spec fn groups_wf(self) -> bool {
        let acc = self.accepted();
        let n = self.spec_groups().len();
        &&& forall|i: int, j: int| 0 <= i < j < n ==> self.key(i) < self.key(j)
        &&& forall|i: int|
            0 <= i < n ==> (#[trigger] self.records(i)).to_multiset() == with_key(
                acc,
                self.key(i),
            ).to_multiset()
        &&& forall|i: int| 0 <= i < n ==> #[trigger] has_key(acc, self.key(i))
        &&& forall|k: i32| has_key(acc, k) ==> #[trigger] self.has_group(k)
        &&& self.max_rank() == max_cost(acc)
        &&& self.spec_seen_finite() == some_finite_cost(acc)
    }

    /// The groups are well formed, the accepted records are those of the
    /// offered outcomes, and every offered row is counted once.
    pub open spec fn wf(self) -> bool {
        &&& self.groups_wf()
        &&& self.accepted() == accepted_of(self.offered())
        &&& self.spec_rows() == self.offered().len()
        &&& self.spec_dropped() == dropped_of(self.offered())
        &&& self.spec_skipped() == skipped_of(self.offered())
    }

    /// An aggregation that has seen no row.
    pub fn new() -> (r: Aggregation)
        ensures
            r.wf(),
            r.accepted() == Seq::<TrajectoryRecord>::empty(),
            r.offered() == Seq::<Result<TrajectoryRecord, RowError>>::empty(),
            r.spec_groups().len() == 0,
            r.spec_rows() == 0,
            r.spec_dropped() == 0,
            r.spec_skipped() == 0,
    {
        Aggregation {
            groups: Vec::new(),
            max_cumulative_cost: Finite64::value(MIN_POSITIVE64),
            seen_finite: false,
            accepted: Ghost(Seq::empty()),
            offered: Ghost(Seq::empty()),
            rows: 0,
            dropped: 0,
            skipped: 0,
        }
    }

    /// Adds an accepted record to the group of its time step, making the group
    /// if it is the first of its time step, and raises the maximum if its cost
    /// is finite and the first finite one or larger.
    fn add(&mut self, rec: TrajectoryRecord)
        requires
            old(self).groups_wf(),
        ensures
            final(self).groups_wf(),
            final(self).accepted() == old(self).accepted().push(rec),
            final(self).offered() == old(self).offered(),
            final(self).spec_rows() == old(self).spec_rows(),
            final(self).spec_dropped() == old(self).spec_dropped(),
            final(self).spec_skipped() == old(self).spec_skipped(),
    {
        let ghost old_acc = self.accepted@;
        let ghost new_acc = old_acc.push(rec);
        let ghost old_groups = self.groups@;
        proof {
            assert(new_acc.drop_last() =~= old_acc);
        }
        // the running maximum
        let cost = rec.costs_cumulative_weighted;
        if bits_are_finite64(cost) {
            let f = Finite64::value(cost);
            if !self.seen_finite || f.signed_magnitude() > self.max_cumulative_cost.signed_magnitude() {
                self.max_cumulative_cost = f;
                self.seen_finite = true;
            }
        }
        assert(self.max_cumulative_cost.rank() == max_cost(new_acc));
        assert(self.seen_finite == some_finite_cost(new_acc));
        // the group
        let key = rec.time_step;
        let mut i: usize = 0;
        while i < self.groups.len() && self.groups[i].time_step < key
            invariant
                i <= self.groups@.len(),
                self.groups@ == old_groups,
                forall|j: int| 0 <= j < i ==> (#[trigger] self.groups@[j]).time_step < key,
            decreases self.groups@.len() - i,
        {
            i += 1;
        }
        let found = i < self.groups.len() && self.groups[i].time_step == key;
        proof {
            // the keys at and after `i` are at least `key`
            if i < old_groups.len() {
                assert(old_groups[i as int].time_step >= key);
            }
        }
        self.accepted = Ghost(new_acc);
        let ghost new_group;
        if found {
            let mut g = self.groups.remove(i);
            g.records.push(rec);
            proof {
                new_group = g;
            }
            self.groups.insert(i, g);
            proof {
                assert(self.groups@ =~= old_groups.update(i as int, new_group));
            }
        } else {
            let mut records: Vec<TrajectoryRecord> = Vec::new();
            records.push(rec);
            let g = TimeStepGroup { time_step: key, records };
            proof {
                new_group = g;
            }
            self.groups.insert(i, g);
            proof {
                assert(self.groups@ =~= old_groups.insert(i as int, new_group));
            }
        }
        proof {
            let n = self.groups@.len();
            // where each new group was before
            let old_index = |j: int|
                if found || j < i {
                    j
                } else {
                    j - 1
                };
            assert(new_group.time_step == key);
            assert forall|j: int| 0 <= j < n && j != i implies self.groups@[j] == old_groups[old_index(j)]
                && self.key(j) != key by {
                let oj = old_index(j);
                assert(old(self).key(oj) == old_groups[oj].time_step);
                if found {
                    assert(old(self).key(i as int) == key);
                } else if i < old_groups.len() && oj >= i {
                    assert(old(self).key(i as int) >= key);
                    assert(old(self).key(i as int) != key);
                }
            }
            assert forall|a: int, b: int| 0 <= a < b < n implies self.key(a) < self.key(b) by {
                let oa = old_index(a);
                let ob = old_index(b);
                if a != i && b != i {
                    assert(old(self).key(oa) < old(self).key(ob));
                } else if a == i && !found && b < n {
                    if i < old_groups.len() {
                        assert(old(self).key(i as int) >= key);
                        assert(old(self).key(i as int) != key);
                        assert(old(self).key(ob) >= old(self).key(i as int));
                    }
                } else if a == i {
                    assert(old(self).key(i as int) < old(self).key(ob));
                } else {
                    assert(old_groups[oa].time_step < key);
                }
            }
            assert forall|j: int| 0 <= j < n implies (#[trigger] self.records(j)).to_multiset()
                == with_key(new_acc, self.key(j)).to_multiset() by {
                let k = self.key(j);
                if j == i {
                    if found {
                        assert(old(self).records(i as int).to_multiset() == with_key(old_acc, key).to_multiset());
                    } else {
                        assert forall|w: int| 0 <= w < old_acc.len() implies #[trigger] old_acc[w].time_step != key by {
                            if old_acc[w].time_step == key {
                                assert(has_key(old_acc, key));
                                assert(old(self).has_group(key));
                                let oj = choose|oj: int| 0 <= oj < old_groups.len() && old(self).key(oj) == key;
                                if oj < i {
                                    assert(old_groups[oj].time_step < key);
                                } else {
                                    assert(old(self).key(i as int) >= key);
                                    assert(old(self).key(oj) >= old(self).key(i as int));
                                }
                            }
                        }
                        lemma_with_key_absent(old_acc, key);
                        assert(with_key(old_acc, k) =~= Seq::<TrajectoryRecord>::empty());
                        assert(self.records(j) =~= seq![rec]);
                        assert(seq![rec] =~= Seq::<TrajectoryRecord>::empty().push(rec));
                    }
                } else {
                    let oj = old_index(j);
                    assert(old(self).records(oj).to_multiset() == with_key(old_acc, k).to_multiset());
                }
            }
            assert forall|j: int| 0 <= j < n implies #[trigger] has_key(new_acc, self.key(j)) by {
                if j == i {
                    assert(new_acc[new_acc.len() - 1].time_step == key);
                } else {
                    let oj = old_index(j);
                    assert(has_key(old_acc, old(self).key(oj)));
                    let w = choose|w: int| 0 <= w < old_acc.len() && #[trigger] old_acc[w].time_step == old(self).key(oj);
                    assert(new_acc[w] == old_acc[w]);
                }
            }
            assert forall|k: i32| has_key(new_acc, k) implies #[trigger] self.has_group(k) by {
                if k == key {
                    assert(self.key(i as int) == key);
                } else {
                    let w = choose|w: int| 0 <= w < new_acc.len() && #[trigger] new_acc[w].time_step == k;
                    assert(old_acc[w] == new_acc[w]);
                    assert(has_key(old_acc, k));
                    assert(old(self).has_group(k));
                    let oj = choose|oj: int| 0 <= oj < old_groups.len() && old(self).key(oj) == k;
                    let j = if found || oj < i {
                        oj
                    } else {
                        oj + 1
                    };
                    assert(self.groups@[j] == old_groups[oj]);
                    assert(self.key(j) == k);
                }
            }
        }
    }

    /// Takes the outcome of one row: an accepted record joins its group; a
    /// rejected row is counted, as dropped where a position was NaN or
    /// infinite and as skipped otherwise.
    pub fn offer(&mut self, outcome: Result<TrajectoryRecord, RowError>)
        requires
            old(self).wf(),
            old(self).spec_rows() < usize::MAX,
        ensures
            final(self).wf(),
            final(self).offered() == old(self).offered().push(outcome),
            final(self).spec_rows() == old(self).spec_rows() + 1,
            match outcome {
                Ok(rec) => final(self).accepted() == old(self).accepted().push(rec)
                    && final(self).spec_dropped() == old(self).spec_dropped()
                    && final(self).spec_skipped() == old(self).spec_skipped(),
                Err(RowError::NonFinitePosition) => final(self).accepted() == old(self).accepted()
                    && final(self).spec_groups() == old(self).spec_groups()
                    && final(self).spec_dropped() == old(self).spec_dropped() + 1
                    && final(self).spec_skipped() == old(self).spec_skipped(),
                Err(_) => final(self).accepted() == old(self).accepted()
                    && final(self).spec_groups() == old(self).spec_groups()
                    && final(self).spec_dropped() == old(self).spec_dropped()
                    && final(self).spec_skipped() == old(self).spec_skipped() + 1,
            },
    {
        let ghost old_off = self.offered@;
        let ghost new_off = old_off.push(outcome);
        proof {
            assert(new_off.drop_last() =~= old_off);
            lemma_outcome_counts(old_off);
        }
        match outcome {
            Ok(rec) => {
                self.add(rec);
            },
            Err(RowError::NonFinitePosition) => {
                self.dropped = self.dropped + 1;
            },
            Err(_) => {
                self.skipped = self.skipped + 1;
            },
        }
        let ghost mid = *self;
        proof {
            if !(outcome is Ok) {
                assert(mid.spec_groups() == old(self).spec_groups());
                assert(forall|i: int| #[trigger] mid.key(i) == old(self).key(i));
                assert(forall|i: int| #[trigger] mid.records(i) == old(self).records(i));
                assert forall|k: i32| old(self).has_group(k) implies #[trigger] mid.has_group(k) by {
                    let j = choose|j: int| 0 <= j < old(self).spec_groups().len() && #[trigger] old(self).key(j) == k;
                    assert(mid.key(j) == k);
                }
                assert(mid.groups_wf());
            }
        }
        self.rows = self.rows + 1;
        self.offered = Ghost(new_off);
        proof {
            assert(self.spec_groups() == mid.spec_groups());
            assert(self.accepted() == mid.accepted());
            assert(forall|i: int| #[trigger] self.key(i) == mid.key(i));
            assert(forall|i: int| #[trigger] self.records(i) == mid.records(i));
            assert forall|k: i32| mid.has_group(k) implies #[trigger] self.has_group(k) by {
                let j = choose|j: int| 0 <= j < mid.spec_groups().len() && #[trigger] mid.key(j) == k;
                assert(self.key(j) == k);
            }
            assert(new_off.last() == outcome);
            assert(self.offered() == new_off);
            assert(self.groups_wf());
            assert(self.accepted() == accepted_of(self.offered()));
            assert(self.spec_dropped() == dropped_of(self.offered()));
            assert(self.spec_skipped() == skipped_of(self.offered()));
        }
    }

    /// The groups, in increasing time step order.
    pub fn groups(&self) -> (r: &Vec<TimeStepGroup>)
        ensures
            r@ == self.spec_groups(),
    {
        &self.groups
    }

    /// The largest finite total weighted cost accepted; the starting value
    /// where no accepted cost is finite.
    pub fn max_cumulative_cost(&self) -> (r: Finite64)
        ensures
            r.rank() == self.max_rank(),
    {
        self.max_cumulative_cost
    }

    /// The number of rows offered.
    pub fn rows(&self) -> (r: usize)
        ensures
            r == self.spec_rows(),
    {
        self.rows
    }

    /// The number of rows dropped for a NaN or infinite position.
    pub fn dropped(&self) -> (r: usize)
        ensures
            r == self.spec_dropped(),
    {
        self.dropped
    }

    /// The number of rows skipped because a field did not decode.
    pub fn skipped(&self) -> (r: usize)
        ensures
            r == self.spec_skipped(),
    {
        self.skipped
    }

    /// Hands out the groups and the maximum.
    pub fn finish(self) -> (r: (Vec<TimeStepGroup>, Finite64))
        ensures
            r.0@ == self.spec_groups(),
            r.1.rank() == self.max_rank(),
    {
        (self.groups, self.max_cumulative_cost)
    }
}

/// Without a record at time step `k`, `with_key` is empty.
proof fn lemma_with_key_absent(s: Seq<TrajectoryRecord>, k: i32)
    requires
        !has_key(s, k),
    ensures
        with_key(s, k).len() == 0,
    decreases s.len(),
{
    if s.len() > 0 {
        assert forall|i: int| 0 <= i < s.drop_last().len() implies #[trigger] s.drop_last()[i].time_step != k by {
            assert(s[i] == s.drop_last()[i]);
        }
        lemma_with_key_absent(s.drop_last(), k);
        assert(s[s.len() - 1].time_step != k);
    }
}

/// How often `with_key` holds a record: as often as the whole sequence does
/// when the record has time step `k`, never otherwise.
proof fn lemma_with_key_count(s: Seq<TrajectoryRecord>, k: i32, r: TrajectoryRecord)
    ensures
        with_key(s, k).to_multiset().count(r) == (if r.time_step == k {
            s.to_multiset().count(r)
        } else {
            0
        }),
    decreases s.len(),
{
    if s.len() == 0 {
        assert(with_key(s, k).to_multiset() =~= Multiset::empty());
        assert(s.to_multiset() =~= Multiset::empty());
    } else {
        let before = s.drop_last();
        lemma_with_key_count(before, k, r);
        assert(before.push(s.last()) =~= s);
    }
}

/// A record is in a sequence exactly when the sequence's multiset counts it.
proof fn lemma_contains_count(s: Seq<TrajectoryRecord>, r: TrajectoryRecord)
    ensures
        s.contains(r) <==> s.to_multiset().count(r) > 0,
{
}

/// Some cost of `s` is finite exactly when `some_finite_cost` says so; the
/// maximum is at least every finite cost, is one of them where there is one,
/// and is the starting value where there is none.
proof fn lemma_max_cost(s: Seq<TrajectoryRecord>)
    ensures
        some_finite_cost(s) <==> exists|i: int|
            0 <= i < s.len() && is_finite64(#[trigger] s[i].costs_cumulative_weighted),
        forall|i: int|
            0 <= i < s.len() && is_finite64(#[trigger] s[i].costs_cumulative_weighted)
                ==> signed_magnitude64(s[i].costs_cumulative_weighted) <= max_cost(s),
        some_finite_cost(s) ==> exists|i: int|
            0 <= i < s.len() && is_finite64(#[trigger] s[i].costs_cumulative_weighted)
                && signed_magnitude64(s[i].costs_cumulative_weighted) == max_cost(s),
        !some_finite_cost(s) ==> max_cost(s) == initial_cost_rank(),
    decreases s.len(),
{
    if s.len() > 0 {
        let before = s.drop_last();
        let last = s.len() - 1;
        lemma_max_cost(before);
        assert forall|i: int| 0 <= i < before.len() implies #[trigger] before[i] == s[i] by {}
        if some_finite_cost(s) {
            if is_finite64(s[last].costs_cumulative_weighted) {
                assert(is_finite64(s[last].costs_cumulative_weighted));
            } else {
                let i = choose|i: int|
                    0 <= i < before.len() && is_finite64(#[trigger] before[i].costs_cumulative_weighted);
                assert(is_finite64(s[i].costs_cumulative_weighted));
            }
        }
        if exists|i: int| 0 <= i < s.len() && is_finite64(#[trigger] s[i].costs_cumulative_weighted) {
            let i = choose|i: int| 0 <= i < s.len() && is_finite64(#[trigger] s[i].costs_cumulative_weighted);
            if i < last {
                assert(is_finite64(before[i].costs_cumulative_weighted));
            }
        }
        assert forall|i: int|
            0 <= i < s.len() && is_finite64(#[trigger] s[i].costs_cumulative_weighted)
                implies signed_magnitude64(s[i].costs_cumulative_weighted) <= max_cost(s) by {
            if i < last {
                assert(is_finite64(before[i].costs_cumulative_weighted));
            }
        }
        if some_finite_cost(s) {
            if max_cost(s) == max_cost(before) && some_finite_cost(before) {
                let i = choose|i: int|
                    0 <= i < before.len() && is_finite64(#[trigger] before[i].costs_cumulative_weighted)
                        && signed_magnitude64(before[i].costs_cumulative_weighted) == max_cost(before);
                assert(s[i] == before[i]);
            } else {
                assert(is_finite64(s[last].costs_cumulative_weighted));
            }
        }
    }
}

/// Every accepted record stands in exactly one group, the one of its own time
/// step; the groups together hold the accepted records, none lost and none
/// twice; and no two groups share a time step.
pub proof fn lemma_groups_partition(agg: Aggregation)
    requires
        agg.wf(),
    ensures
        forall|i: int, j: int|
            0 <= i < j < agg.spec_groups().len() ==> agg.key(i) != agg.key(j),
        forall|i: int, r: TrajectoryRecord|
            0 <= i < agg.spec_groups().len() && #[trigger] agg.records(i).contains(r)
                ==> r.time_step == agg.key(i),
        forall|i: int, r: TrajectoryRecord|
            0 <= i < agg.spec_groups().len() && r.time_step == agg.key(i)
                ==> #[trigger] agg.records(i).to_multiset().count(r)
                == agg.accepted().to_multiset().count(r),
        forall|r: TrajectoryRecord| #[trigger]
            agg.accepted().contains(r) ==> agg.has_group(r.time_step),
{
    let acc = agg.accepted();
    assert forall|i: int, r: TrajectoryRecord|
        0 <= i < agg.spec_groups().len() && #[trigger] agg.records(i).contains(r)
            implies r.time_step == agg.key(i) by {
        lemma_contains_count(agg.records(i), r);
        lemma_with_key_count(acc, agg.key(i), r);
    }
    assert forall|i: int, r: TrajectoryRecord|
        0 <= i < agg.spec_groups().len() && r.time_step == agg.key(i)
            implies #[trigger] agg.records(i).to_multiset().count(r)
            == acc.to_multiset().count(r) by {
        lemma_with_key_count(acc, agg.key(i), r);
    }
    assert forall|r: TrajectoryRecord| #[trigger] acc.contains(r) implies agg.has_group(r.time_step) by {
        let w = choose|w: int| 0 <= w < acc.len() && acc[w] == r;
        assert(acc[w].time_step == r.time_step);
        assert(has_key(acc, r.time_step));
    }
}

/// Where some accepted total weighted cost is finite, the running maximum is
/// the largest of them; where none is, it keeps its starting value.
pub proof fn lemma_max_cumulative_cost(agg: Aggregation)
    requires
        agg.wf(),
    ensures
        forall|i: int|
            0 <= i < agg.accepted().len() && is_finite64(
                #[trigger] agg.accepted()[i].costs_cumulative_weighted,
            ) ==> signed_magnitude64(agg.accepted()[i].costs_cumulative_weighted)
                <= agg.max_rank(),
        (exists|i: int|
            0 <= i < agg.accepted().len() && is_finite64(
                #[trigger] agg.accepted()[i].costs_cumulative_weighted,
            )) ==> exists|i: int|
            0 <= i < agg.accepted().len() && is_finite64(
                #[trigger] agg.accepted()[i].costs_cumulative_weighted,
            ) && signed_magnitude64(agg.accepted()[i].costs_cumulative_weighted)
                == agg.max_rank(),
        (forall|i: int|
            0 <= i < agg.accepted().len() ==> !is_finite64(
                #[trigger] agg.accepted()[i].costs_cumulative_weighted,
            )) ==> agg.max_rank() == initial_cost_rank(),
{
    lemma_max_cost(agg.accepted());
}

/// Each outcome is an accepted record, a dropped row or a skipped row.
proof fn lemma_outcome_counts(s: Seq<Result<TrajectoryRecord, RowError>>)
    ensures
        accepted_of(s).len() + dropped_of(s) + skipped_of(s) == s.len(),
    decreases s.len(),
{
    if s.len() > 0 {
        lemma_outcome_counts(s.drop_last());
    }
}

/// Every offered row is accepted, dropped for a NaN or infinite position, or
/// skipped for a field that did not decode: the accepted count is the rows
/// less the other two.
pub proof fn lemma_row_accounting(agg: Aggregation)
    requires
        agg.wf(),
    ensures
        agg.accepted().len() == agg.spec_rows() - agg.spec_dropped() - agg.spec_skipped(),
{
    lemma_outcome_counts(agg.offered());
}

/// The order in which accepted records arrive does not matter: two
/// aggregations of the same records, in any order, have the same time steps,
/// the same records at each time step, and the same maximum.
pub proof fn lemma_arrival_order_irrelevant(a: Aggregation, b: Aggregation)
    requires
        a.wf(),
        b.wf(),
        a.accepted().to_multiset() == b.accepted().to_multiset(),
    ensures
        forall|k: i32| #[trigger] a.has_group(k) == b.has_group(k),
        forall|i: int, j: int|
            0 <= i < a.spec_groups().len() && 0 <= j < b.spec_groups().len() && a.key(i)
                == b.key(j) ==> #[trigger] a.records(i).to_multiset() == #[trigger] b.records(
                j,
            ).to_multiset(),
        a.max_rank() == b.max_rank(),
{
    let sa = a.accepted();
    let sb = b.accepted();
    assert forall|k: i32| #[trigger] a.has_group(k) implies b.has_group(k) by {
        let i = choose|i: int| 0 <= i < a.spec_groups().len() && #[trigger] a.key(i) == k;
        assert(has_key(sa, k));
        let w = choose|w: int| 0 <= w < sa.len() && #[trigger] sa[w].time_step == k;
        lemma_contains_count(sa, sa[w]);
        lemma_contains_count(sb, sa[w]);
        let v = choose|v: int| 0 <= v < sb.len() && sb[v] == sa[w];
        assert(sb[v].time_step == k);
        assert(has_key(sb, k));
    }
    assert forall|k: i32| #[trigger] b.has_group(k) implies a.has_group(k) by {
        let i = choose|i: int| 0 <= i < b.spec_groups().len() && #[trigger] b.key(i) == k;
        assert(has_key(sb, k));
        let w = choose|w: int| 0 <= w < sb.len() && #[trigger] sb[w].time_step == k;
        lemma_contains_count(sb, sb[w]);
        lemma_contains_count(sa, sb[w]);
        let v = choose|v: int| 0 <= v < sa.len() && sa[v] == sb[w];
        assert(sa[v].time_step == k);
        assert(has_key(sa, k));
    }
    assert forall|i: int, j: int|
        0 <= i < a.spec_groups().len() && 0 <= j < b.spec_groups().len() && a.key(i) == b.key(j)
            implies #[trigger] a.records(i).to_multiset() == #[trigger] b.records(j).to_multiset() by {
        let k = a.key(i);
        assert forall|r: TrajectoryRecord| a.records(i).to_multiset().count(r) == b.records(
            j,
        ).to_multiset().count(r) by {
            lemma_with_key_count(sa, k, r);
            lemma_with_key_count(sb, k, r);
        }
        assert(a.records(i).to_multiset() =~= b.records(j).to_multiset());
    }
    lemma_max_cost(sa);
    lemma_max_cost(sb);
    if some_finite_cost(sa) {
        let i = choose|i: int| 0 <= i < sa.len() && is_finite64(#[trigger] sa[i].costs_cumulative_weighted);
        lemma_contains_count(sa, sa[i]);
        lemma_contains_count(sb, sa[i]);
        let v = choose|v: int| 0 <= v < sb.len() && sb[v] == sa[i];
        assert(is_finite64(sb[v].costs_cumulative_weighted));
    }
    if some_finite_cost(sb) {
        let i = choose|i: int| 0 <= i < sb.len() && is_finite64(#[trigger] sb[i].costs_cumulative_weighted);
        lemma_contains_count(sb, sb[i]);
        lemma_contains_count(sa, sb[i]);
        let v = choose|v: int| 0 <= v < sa.len() && sa[v] == sb[i];
        assert(is_finite64(sa[v].costs_cumulative_weighted));
    }
    if some_finite_cost(sa) {
        let i = choose|i: int|
            0 <= i < sa.len() && is_finite64(#[trigger] sa[i].costs_cumulative_weighted)
                && signed_magnitude64(sa[i].costs_cumulative_weighted) == max_cost(sa);
        lemma_contains_count(sa, sa[i]);
        lemma_contains_count(sb, sa[i]);
        let v = choose|v: int| 0 <= v < sb.len() && sb[v] == sa[i];
        assert(sb[v].costs_cumulative_weighted == sa[i].costs_cumulative_weighted);
    }
    if some_finite_cost(sb) {
        let i = choose|i: int|
            0 <= i < sb.len() && is_finite64(#[trigger] sb[i].costs_cumulative_weighted)
                && signed_magnitude64(sb[i].costs_cumulative_weighted) == max_cost(sb);
        lemma_contains_count(sb, sb[i]);
        lemma_contains_count(sa, sb[i]);
        let v = choose|v: int| 0 <= v < sa.len() && sa[v] == sb[i];
        assert(sa[v].costs_cumulative_weighted == sb[i].costs_cumulative_weighted);
    }
}

/// The accepted records of a sequence of outcomes hold each record as often
/// as the outcomes hold it accepted.
proof fn lemma_accepted_of_count(s: Seq<Result<TrajectoryRecord, RowError>>, r: TrajectoryRecord)
    ensures
        accepted_of(s).to_multiset().count(r) == s.to_multiset().count(
            Ok::<TrajectoryRecord, RowError>(r),
        ),
    decreases s.len(),
{
    if s.len() == 0 {
        assert(accepted_of(s).to_multiset() =~= Multiset::empty());
        assert(s.to_multiset() =~= Multiset::empty());
    } else {
        lemma_accepted_of_count(s.drop_last(), r);
        assert(s.drop_last().push(s.last()) =~= s);
    }
}

/// The dropped rows among outcomes are counted by the multiset of outcomes.
proof fn lemma_dropped_of_count(s: Seq<Result<TrajectoryRecord, RowError>>)
    ensures
        dropped_of(s) == s.to_multiset().count(
            Err::<TrajectoryRecord, RowError>(RowError::NonFinitePosition),
        ),
    decreases s.len(),
{
    if s.len() == 0 {
        assert(s.to_multiset() =~= Multiset::empty());
    } else {
        lemma_dropped_of_count(s.drop_last());
        assert(s.drop_last().push(s.last()) =~= s);
    }
}

/// What an aggregation holds depends only on which row outcomes it was
/// offered, not on their order: two ingestions whose rows gave the same
/// outcomes, in whatever order the workers delivered them (one worker or
/// many, a first run or a second), have the same time steps, the same records
/// at each time step, the same maximum and the same row counts.
pub proof fn lemma_same_outcomes_same_groups(a: Aggregation, b: Aggregation)
    requires
        a.wf(),
        b.wf(),
        a.offered().to_multiset() == b.offered().to_multiset(),
    ensures
        forall|k: i32| #[trigger] a.has_group(k) == b.has_group(k),
        forall|i: int, j: int|
            0 <= i < a.spec_groups().len() && 0 <= j < b.spec_groups().len() && a.key(i)
                == b.key(j) ==> #[trigger] a.records(i).to_multiset() == #[trigger] b.records(
                j,
            ).to_multiset(),
        a.max_rank() == b.max_rank(),
        a.spec_rows() == b.spec_rows(),
        a.spec_dropped() == b.spec_dropped(),
        a.spec_skipped() == b.spec_skipped(),
{
    let oa = a.offered();
    let ob = b.offered();
    assert forall|r: TrajectoryRecord| a.accepted().to_multiset().count(r) == b.accepted().to_multiset().count(r) by {
        lemma_accepted_of_count(oa, r);
        lemma_accepted_of_count(ob, r);
    }
    assert(a.accepted().to_multiset() =~= b.accepted().to_multiset());
    lemma_arrival_order_irrelevant(a, b);
    lemma_dropped_of_count(oa);
    lemma_dropped_of_count(ob);
    lemma_outcome_counts(oa);
    lemma_outcome_counts(ob);
    assert(oa.len() == oa.to_multiset().len());
    assert(ob.len() == ob.to_multiset().len());
    assert(a.accepted().len() == a.accepted().to_multiset().len());
    assert(b.accepted().len() == b.accepted().to_multiset().len());
}

} // verus!
