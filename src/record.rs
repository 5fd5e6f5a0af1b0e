//! Decoded trajectory records, and the checks that decide whether a row
//! becomes one.
use vstd::prelude::*;
use crate::finite::{bits_are_finite32, bits_are_finite64, is_finite32, is_finite64};
use crate::row::{RowError, RowNumbers};
use crate::row::copy_bytes;

verus! {

/// The kinematic lists of a trajectory, as binary32 bit patterns.
#[derive(Debug)]
pub struct KinematicData {
    pub x_positions_m: Vec<u32>,
    pub y_positions_m: Vec<u32>,
    pub theta_orientations_rad: Vec<u32>,
    pub kappa_rad: Vec<u32>,
    pub curvilinear_orientations_rad: Vec<u32>,
    pub velocities_mps: Vec<u32>,
    pub accelerations_mps2: Vec<u32>,
}

/// A decoded trajectory row. Scalars are binary64 bit patterns.
#[derive(Debug)]
pub struct TrajectoryRecord {
    pub time_step: i32,
    pub trajectory_number: i32,
    pub unique_id: i32,
    pub feasible: bool,
    pub horizon: u64,
    pub dt: u64,
    pub kinematic_data: KinematicData,
    pub s_position_m: u64,
    pub d_position_m: u64,
    pub ego_risk: Option<u64>,
    pub obst_risk: Option<u64>,
    pub costs_cumulative_weighted: u64,
    /// The contribution of each cost function, by column name.
    pub costs: Vec<(Vec<u8>, u64)>,
    pub inf_kin_yaw_rate: u64,
    pub inf_kin_acceleration: u64,
    pub inf_kin_max_curvature: u64,
    pub inf_kin_max_curvature_rate: u64,
    /// The total or a cost contribution is NaN or infinite.
    pub has_invalid_data: bool,
}

/// Every item of a list was read as a number.
pub open spec fn all_read32(v: Seq<Option<u32>>) -> bool {
    forall|i: int| 0 <= i < v.len() ==> (#[trigger] v[i]) is Some
}

/// The numbers of a list that was read in full.
pub open spec fn values32(v: Seq<Option<u32>>) -> Seq<u32> {
    v.map_values(|o: Option<u32>| o->Some_0)
}

/// Every cost of a row was read as a number.
pub open spec fn all_costs_read(v: Seq<(Vec<u8>, Option<u64>)>) -> bool {
    forall|i: int| 0 <= i < v.len() ==> (#[trigger] v[i]).1 is Some
}

/// An optional field that is either absent or a number.
pub open spec fn optional_read(o: Option<Option<u64>>) -> bool {
    !(o matches Some(None))
}

/// The number of an optional field.
pub open spec fn optional_value(o: Option<Option<u64>>) -> Option<u64> {
    match o {
        Some(Some(v)) => Some(v),
        _ => None,
    }
}

/// Every numeric field of a row was read as a number.
pub open spec fn all_read(row: RowNumbers) -> bool {
    &&& row.horizon is Some
    &&& row.dt is Some
    &&& all_read32(row.x_positions_m@)
    &&& all_read32(row.y_positions_m@)
    &&& all_read32(row.theta_orientations_rad@)
    &&& all_read32(row.kappa_rad@)
    &&& all_read32(row.curvilinear_orientations_rad@)
    &&& all_read32(row.velocities_mps@)
    &&& all_read32(row.accelerations_mps2@)
    &&& row.s_position_m is Some
    &&& row.d_position_m is Some
    &&& optional_read(row.ego_risk)
    &&& optional_read(row.obst_risk)
    &&& row.costs_cumulative_weighted is Some
    &&& all_costs_read(row.costs@)
    &&& row.inf_kin_yaw_rate is Some
    &&& row.inf_kin_acceleration is Some
    &&& row.inf_kin_max_curvature is Some
    &&& row.inf_kin_max_curvature_rate is Some
}

/// Every item of a list is finite.
pub open spec fn all_finite32(v: Seq<u32>) -> bool {
    forall|i: int| 0 <= i < v.len() ==> is_finite32(#[trigger] v[i])
}

/// Every position coordinate of a fully read row is finite.
pub open spec fn positions_finite(row: RowNumbers) -> bool {
    all_finite32(values32(row.x_positions_m@)) && all_finite32(values32(row.y_positions_m@))
}

/// The total and every cost contribution are finite.
pub open spec fn costs_finite(total: u64, costs: Seq<(Vec<u8>, u64)>) -> bool {
    is_finite64(total) && forall|i: int| 0 <= i < costs.len() ==> is_finite64(#[trigger] costs[i].1)
}

/// What becomes of a row once its numbers are read.
#[derive(Clone, Copy, Debug, PartialEq, Eq, Structural)]
pub enum Verdict {
    /// A number does not parse: the row is skipped.
    Unreadable,
    /// A position coordinate is NaN or infinite: the row is dropped.
    NonFinitePosition,
    /// The row becomes a record.
    Accepted,
}

/// The verdict on a row.
pub open spec fn verdict(row: RowNumbers) -> Verdict {
    if !all_read(row) {
        Verdict::Unreadable
    } else if !positions_finite(row) {
        Verdict::NonFinitePosition
    } else {
        Verdict::Accepted
    }
}

/// `rec` holds the numbers of `row`.
pub open spec fn holds_row(rec: TrajectoryRecord, row: RowNumbers) -> bool {
    &&& rec.time_step == row.time_step
    &&& rec.trajectory_number == row.trajectory_number
    &&& rec.unique_id == row.unique_id
    &&& rec.feasible == row.feasible
    &&& rec.horizon == row.horizon->Some_0
    &&& rec.dt == row.dt->Some_0
    &&& rec.kinematic_data.x_positions_m@ == values32(row.x_positions_m@)
    &&& rec.kinematic_data.y_positions_m@ == values32(row.y_positions_m@)
    &&& rec.kinematic_data.theta_orientations_rad@ == values32(row.theta_orientations_rad@)
    &&& rec.kinematic_data.kappa_rad@ == values32(row.kappa_rad@)
    &&& rec.kinematic_data.curvilinear_orientations_rad@ == values32(
        row.curvilinear_orientations_rad@,
    )
    &&& rec.kinematic_data.velocities_mps@ == values32(row.velocities_mps@)
    &&& rec.kinematic_data.accelerations_mps2@ == values32(row.accelerations_mps2@)
    &&& rec.s_position_m == row.s_position_m->Some_0
    &&& rec.d_position_m == row.d_position_m->Some_0
    &&& rec.ego_risk == optional_value(row.ego_risk)
    &&& rec.obst_risk == optional_value(row.obst_risk)
    &&& rec.costs_cumulative_weighted == row.costs_cumulative_weighted->Some_0
    &&& rec.costs@.len() == row.costs@.len()
    &&& forall|i: int|
        0 <= i < row.costs@.len() ==> (#[trigger] rec.costs@[i]).0@ == row.costs@[i].0@
            && rec.costs@[i].1 == row.costs@[i].1->Some_0
    &&& rec.inf_kin_yaw_rate == row.inf_kin_yaw_rate->Some_0
    &&& rec.inf_kin_acceleration == row.inf_kin_acceleration->Some_0
    &&& rec.inf_kin_max_curvature == row.inf_kin_max_curvature->Some_0
    &&& rec.inf_kin_max_curvature_rate == row.inf_kin_max_curvature_rate->Some_0
    &&& rec.has_invalid_data == !costs_finite(rec.costs_cumulative_weighted, rec.costs@)
}

/// Two records agree on every field, vectors compared by their contents.
pub open spec fn same_record(a: TrajectoryRecord, b: TrajectoryRecord) -> bool {
    &&& a.time_step == b.time_step
    &&& a.trajectory_number == b.trajectory_number
    &&& a.unique_id == b.unique_id
    &&& a.feasible == b.feasible
    &&& a.horizon == b.horizon
    &&& a.dt == b.dt
    &&& a.kinematic_data.x_positions_m@ == b.kinematic_data.x_positions_m@
    &&& a.kinematic_data.y_positions_m@ == b.kinematic_data.y_positions_m@
    &&& a.kinematic_data.theta_orientations_rad@ == b.kinematic_data.theta_orientations_rad@
    &&& a.kinematic_data.kappa_rad@ == b.kinematic_data.kappa_rad@
    &&& a.kinematic_data.curvilinear_orientations_rad@
        == b.kinematic_data.curvilinear_orientations_rad@
    &&& a.kinematic_data.velocities_mps@ == b.kinematic_data.velocities_mps@
    &&& a.kinematic_data.accelerations_mps2@ == b.kinematic_data.accelerations_mps2@
    &&& a.s_position_m == b.s_position_m
    &&& a.d_position_m == b.d_position_m
    &&& a.ego_risk == b.ego_risk
    &&& a.obst_risk == b.obst_risk
    &&& a.costs_cumulative_weighted == b.costs_cumulative_weighted
    &&& a.costs@.len() == b.costs@.len()
    &&& forall|i: int|
        0 <= i < a.costs@.len() ==> (#[trigger] a.costs@[i]).0@ == b.costs@[i].0@ && a.costs@[i].1
            == b.costs@[i].1
    &&& a.inf_kin_yaw_rate == b.inf_kin_yaw_rate
    &&& a.inf_kin_acceleration == b.inf_kin_acceleration
    &&& a.inf_kin_max_curvature == b.inf_kin_max_curvature
    &&& a.inf_kin_max_curvature_rate == b.inf_kin_max_curvature_rate
    &&& a.has_invalid_data == b.has_invalid_data
}

/// A row determines its record: any two records that hold the same row agree
/// on every field, so decoding a row again, in another run or by another
/// worker, gives the same record.
pub proof fn lemma_row_determines_record(row: RowNumbers, a: TrajectoryRecord, b: TrajectoryRecord)
    requires
        holds_row(a, row),
        holds_row(b, row),
    ensures
        same_record(a, b),
{
    assert forall|i: int| 0 <= i < a.costs@.len() implies (#[trigger] a.costs@[i]).0@ == b.costs@[i].0@
        && a.costs@[i].1 == b.costs@[i].1 by {
        assert(a.costs@[i].0@ == row.costs@[i].0@);
        assert(b.costs@[i].0@ == row.costs@[i].0@);
    }
    if costs_finite(a.costs_cumulative_weighted, a.costs@) {
        assert forall|i: int| 0 <= i < b.costs@.len() implies is_finite64(#[trigger] b.costs@[i].1) by {
            assert(a.costs@[i].1 == b.costs@[i].1);
        }
    }
    if costs_finite(b.costs_cumulative_weighted, b.costs@) {
        assert forall|i: int| 0 <= i < a.costs@.len() implies is_finite64(#[trigger] a.costs@[i].1) by {
            assert(a.costs@[i].1 == b.costs@[i].1);
        }
    }
}

/// The numbers of a list, if every item was read.
fn read_list(v: &Vec<Option<u32>>) -> (r: Option<Vec<u32>>)
    ensures
        r is Some == all_read32(v@),
        r matches Some(w) ==> w@ == values32(v@),
{
    let mut w: Vec<u32> = Vec::with_capacity(v.len());
    let mut i: usize = 0;
    while i < v.len()
        invariant
            i <= v@.len(),
            all_read32(v@.take(i as int)),
            w@ == values32(v@.take(i as int)),
        decreases v@.len() - i,
    {
        match v[i] {
            Some(x) => {
                w.push(x);
                proof {
                    assert(v@.take(i + 1) =~= v@.take(i as int).push(v@[i as int]));
                    assert(w@ =~= values32(v@.take(i + 1)));
                }
            },
            None => {
                return None;
            },
        }
        i += 1;
    }
    assert(v@.take(v@.len() as int) =~= v@);
    Some(w)
}

/// The costs of a row, if every one was read.
fn read_costs(v: &Vec<(Vec<u8>, Option<u64>)>) -> (r: Option<Vec<(Vec<u8>, u64)>>)
    ensures
        r is Some == all_costs_read(v@),
        r matches Some(w) ==> w@.len() == v@.len() && forall|i: int|
            0 <= i < v@.len() ==> (#[trigger] w@[i]).0@ == v@[i].0@ && w@[i].1 == v@[i].1->Some_0,
{
    let mut w: Vec<(Vec<u8>, u64)> = Vec::with_capacity(v.len());
    let mut i: usize = 0;
    while i < v.len()
        invariant
            i <= v@.len(),
            forall|k: int| 0 <= k < i ==> (#[trigger] v@[k]).1 is Some,
            w@.len() == i,
            forall|k: int|
                0 <= k < i ==> (#[trigger] w@[k]).0@ == v@[k].0@ && w@[k].1 == v@[k].1->Some_0,
        decreases v@.len() - i,
    {
        match v[i].1 {
            Some(x) => {
                w.push((copy_bytes(&v[i].0), x));
            },
            None => {
                return None;
            },
        }
        i += 1;
    }
    Some(w)
}

/// Whether every item of a list is finite.
pub fn list_finite(v: &Vec<u32>) -> (r: bool)
    ensures
        r == all_finite32(v@),
{
    let mut i: usize = 0;
    while i < v.len()
        invariant
            i <= v@.len(),
            forall|k: int| 0 <= k < i ==> is_finite32(#[trigger] v@[k]),
        decreases v@.len() - i,
    {
        if !bits_are_finite32(v[i]) {
            return false;
        }
        i += 1;
    }
    true
}

/// Whether the total and every cost contribution are finite.
fn all_costs_finite(total: u64, costs: &Vec<(Vec<u8>, u64)>) -> (r: bool)
    ensures
        r == costs_finite(total, costs@),
{
    if !bits_are_finite64(total) {
        return false;
    }
    let mut i: usize = 0;
    while i < costs.len()
        invariant
            i <= costs@.len(),
            forall|k: int| 0 <= k < i ==> is_finite64(#[trigger] costs@[k].1),
        decreases costs@.len() - i,
    {
        if !bits_are_finite64(costs[i].1) {
            return false;
        }
        i += 1;
    }
    true
}

/// The number of an optional field, or `Err` where it was present and not a
/// number.
fn read_optional(o: Option<Option<u64>>) -> (r: Result<Option<u64>, RowError>)
    ensures
        r is Ok == optional_read(o),
        r matches Ok(v) ==> v == optional_value(o),
{
    match o {
        Some(Some(v)) => Ok(Some(v)),
        Some(None) => Err(RowError::Number),
        None => Ok(None),
    }
}

/// Builds the record of a row whose numbers have been read. A number that did
/// not parse rejects the row; so does a NaN or infinite position coordinate.
/// A NaN or infinite total or cost contribution keeps the row and flags it.
pub fn assemble(row: &RowNumbers) -> (r: Result<TrajectoryRecord, RowError>)
    ensures
        r is Ok <==> verdict(*row) is Accepted,
        verdict(*row) is Unreadable ==> r == Err::<TrajectoryRecord, RowError>(RowError::Number),
        verdict(*row) is NonFinitePosition ==> r == Err::<TrajectoryRecord, RowError>(
            RowError::NonFinitePosition,
        ),
        r matches Ok(rec) ==> holds_row(rec, *row),
{
    let x = read_list(&row.x_positions_m);
    let y = read_list(&row.y_positions_m);
    let theta = read_list(&row.theta_orientations_rad);
    let kappa = read_list(&row.kappa_rad);
    let curvilinear = read_list(&row.curvilinear_orientations_rad);
    let velocities = read_list(&row.velocities_mps);
    let accelerations = read_list(&row.accelerations_mps2);
    let costs = read_costs(&row.costs);
    let ego_risk = read_optional(row.ego_risk);
    let obst_risk = read_optional(row.obst_risk);
    match (x, y, theta, kappa, curvilinear, velocities, accelerations, costs) {
        (
            Some(x),
            Some(y),
            Some(theta),
            Some(kappa),
            Some(curvilinear),
            Some(velocities),
            Some(accelerations),
            Some(costs),
        ) => {
            match (
                row.horizon,
                row.dt,
                row.s_position_m,
                row.d_position_m,
                row.costs_cumulative_weighted,
                row.inf_kin_yaw_rate,
                row.inf_kin_acceleration,
                row.inf_kin_max_curvature,
                row.inf_kin_max_curvature_rate,
                ego_risk,
                obst_risk,
            ) {
                (
                    Some(horizon),
                    Some(dt),
                    Some(s_position_m),
                    Some(d_position_m),
                    Some(total),
                    Some(yaw_rate),
                    Some(acceleration),
                    Some(max_curvature),
                    Some(max_curvature_rate),
                    Ok(ego_risk),
                    Ok(obst_risk),
                ) => {
                    if !list_finite(&x) || !list_finite(&y) {
                        return Err(RowError::NonFinitePosition);
                    }
                    let has_invalid_data = !all_costs_finite(total, &costs);
                    Ok(TrajectoryRecord {
                        time_step: row.time_step,
                        trajectory_number: row.trajectory_number,
                        unique_id: row.unique_id,
                        feasible: row.feasible,
                        horizon,
                        dt,
                        kinematic_data: KinematicData {
                            x_positions_m: x,
                            y_positions_m: y,
                            theta_orientations_rad: theta,
                            kappa_rad: kappa,
                            curvilinear_orientations_rad: curvilinear,
                            velocities_mps: velocities,
                            accelerations_mps2: accelerations,
                        },
                        s_position_m,
                        d_position_m,
                        ego_risk,
                        obst_risk,
                        costs_cumulative_weighted: total,
                        costs,
                        inf_kin_yaw_rate: yaw_rate,
                        inf_kin_acceleration: acceleration,
                        inf_kin_max_curvature: max_curvature,
                        inf_kin_max_curvature_rate: max_curvature_rate,
                        has_invalid_data,
                    })
                },
                _ => Err(RowError::Number),
            }
        },
        _ => Err(RowError::Number),
    }
}

} // verus!
