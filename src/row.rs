//! One trajectory row: its fields located by column name, integers and the
//! feasibility flag decoded, list fields split into their items.
//!
//! A row passes through two shapes of `RowFields`: first with each number
//! still as text (`RowText`), then with each number as a bit pattern, or
//! `None` where the text was not a number (`RowNumbers`).
use vstd::prelude::*;
use crate::schema::{Column, FieldSchema};
use crate::text::{boolean_of, decimal_i32, parse_bool, parse_i32, split_commas, split_list, views};

verus! {

/// The fields of a trajectory row. List items have type `L` (binary32
/// values), scalars type `S` (binary64 values).
#[derive(Debug)]
pub struct RowFields<L, S> {
    pub time_step: i32,
    pub trajectory_number: i32,
    pub unique_id: i32,
    pub feasible: bool,
    pub horizon: S,
    pub dt: S,
    pub x_positions_m: Vec<L>,
    pub y_positions_m: Vec<L>,
    pub theta_orientations_rad: Vec<L>,
    pub kappa_rad: Vec<L>,
    pub curvilinear_orientations_rad: Vec<L>,
    pub velocities_mps: Vec<L>,
    pub accelerations_mps2: Vec<L>,
    pub s_position_m: S,
    pub d_position_m: S,
    pub ego_risk: Option<S>,
    pub obst_risk: Option<S>,
    pub costs_cumulative_weighted: S,
    /// Every column that is not a fixed field, by header name.
    pub costs: Vec<(Vec<u8>, S)>,
    pub inf_kin_yaw_rate: S,
    pub inf_kin_acceleration: S,
    pub inf_kin_max_curvature: S,
    pub inf_kin_max_curvature_rate: S,
}

/// A row with its numbers still as text.
pub type RowText = RowFields<Vec<u8>, Vec<u8>>;

/// A row with its numbers read: bit patterns, `None` where the text was not a
/// number.
pub type RowNumbers = RowFields<Option<u32>, Option<u64>>;

/// Why a row is not taken.
#[derive(Clone, Copy, Debug, PartialEq, Eq, Structural)]
pub enum RowError {
    /// The row does not have one field per header column.
    FieldCount,
    /// An integer field does not hold an `i32`.
    Integer(Column),
    /// The feasibility field is neither `true` nor `false`.
    Boolean,
    /// A numeric field does not hold a number.
    Number,
    /// A position coordinate is NaN or infinite.
    NonFinitePosition,
}

/// The text in the field of a fixed column.
pub open spec fn cell(schema: FieldSchema, row: Seq<Seq<u8>>, c: Column) -> Seq<u8> {
    row[schema.position_of(c)->Some_0 as int]
}

/// The text of an optional column: `None` where the header lacks the column or
/// the field is empty.
pub open spec fn optional_cell(schema: FieldSchema, row: Seq<Seq<u8>>, c: Column) -> Option<Seq<u8>> {
    match schema.position_of(c) {
        Some(i) => if row[i as int].len() == 0 {
            None
        } else {
            Some(row[i as int])
        },
        None => None,
    }
}

/// The view of an optional text.
pub open spec fn optional_view(o: Option<Vec<u8>>) -> Option<Seq<u8>> {
    match o {
        Some(t) => Some(t@),
        None => None,
    }
}

/// The integer and boolean fields of a row all decode.
pub open spec fn header_fields_decode(schema: FieldSchema, row: Seq<Seq<u8>>) -> bool {
    &&& decimal_i32(cell(schema, row, Column::TimeStep)) is Some
    &&& decimal_i32(cell(schema, row, Column::TrajectoryNumber)) is Some
    &&& decimal_i32(cell(schema, row, Column::UniqueId)) is Some
    &&& boolean_of(cell(schema, row, Column::Feasible)) is Some
}

/// `t` holds what the fields of `row` write, located by `schema`.
pub open spec fn frames(schema: FieldSchema, row: Seq<Seq<u8>>, t: RowText) -> bool {
    let h = schema.header();
    let costs = schema.cost_positions();
    &&& t.time_step == decimal_i32(cell(schema, row, Column::TimeStep))->Some_0
    &&& t.trajectory_number == decimal_i32(cell(schema, row, Column::TrajectoryNumber))->Some_0
    &&& t.unique_id == decimal_i32(cell(schema, row, Column::UniqueId))->Some_0
    &&& t.feasible == boolean_of(cell(schema, row, Column::Feasible))->Some_0
    &&& t.horizon@ == cell(schema, row, Column::Horizon)
    &&& t.dt@ == cell(schema, row, Column::Dt)
    &&& views(t.x_positions_m@) == split_commas(cell(schema, row, Column::XPositions))
    &&& views(t.y_positions_m@) == split_commas(cell(schema, row, Column::YPositions))
    &&& views(t.theta_orientations_rad@) == split_commas(cell(schema, row, Column::Orientations))
    &&& views(t.kappa_rad@) == split_commas(cell(schema, row, Column::Curvatures))
    &&& views(t.curvilinear_orientations_rad@) == split_commas(
        cell(schema, row, Column::CurvilinearOrientations),
    )
    &&& views(t.velocities_mps@) == split_commas(cell(schema, row, Column::Velocities))
    &&& views(t.accelerations_mps2@) == split_commas(cell(schema, row, Column::Accelerations))
    &&& t.s_position_m@ == cell(schema, row, Column::SPosition)
    &&& t.d_position_m@ == cell(schema, row, Column::DPosition)
    &&& optional_view(t.ego_risk) == optional_cell(schema, row, Column::EgoRisk)
    &&& optional_view(t.obst_risk) == optional_cell(schema, row, Column::ObstacleRisk)
    &&& t.costs_cumulative_weighted@ == cell(schema, row, Column::TotalWeightedCost)
    &&& t.inf_kin_yaw_rate@ == cell(schema, row, Column::InfeasibleYawRate)
    &&& t.inf_kin_acceleration@ == cell(schema, row, Column::InfeasibleAcceleration)
    &&& t.inf_kin_max_curvature@ == cell(schema, row, Column::InfeasibleMaxCurvature)
    &&& t.inf_kin_max_curvature_rate@ == cell(schema, row, Column::InfeasibleMaxCurvatureRate)
    &&& t.costs@.len() == costs.len()
    &&& forall|k: int|
        0 <= k < costs.len() ==> (#[trigger] t.costs@[k]).0@ == h[costs[k] as int] && t.costs@[k].1@
            == row[costs[k] as int]
}

/// A copy of a byte vector.
pub fn copy_bytes(v: &Vec<u8>) -> (r: Vec<u8>)
    ensures
        r@ == v@,
{
    let mut r: Vec<u8> = Vec::with_capacity(v.len());
    let mut i: usize = 0;
    while i < v.len()
        invariant
            i <= v@.len(),
            r@ == v@.take(i as int),
        decreases v@.len() - i,
    {
        r.push(v[i]);
        proof {
            assert(v@.take(i + 1) =~= v@.take(i as int).push(v@[i as int]));
        }
        i += 1;
    }
    assert(v@.take(v@.len() as int) =~= v@);
    r
}

/// The field of a fixed column that the header has.
fn field_of<'a>(schema: &FieldSchema, fields: &'a Vec<Vec<u8>>, c: Column) -> (r: &'a Vec<u8>)
    requires
        schema.wf(),
        c.is_required(),
        fields@.len() == schema.header().len(),
    ensures
        r@ == cell(*schema, views(fields@), c),
{
    let i = schema.column(c).unwrap();
    &fields[i]
}

/// The field of an optional column, when the header has it and it is not empty.
fn optional_field(schema: &FieldSchema, fields: &Vec<Vec<u8>>, c: Column) -> (r: Option<Vec<u8>>)
    requires
        schema.wf(),
        fields@.len() == schema.header().len(),
    ensures
        optional_view(r) == optional_cell(*schema, views(fields@), c),
{
    match schema.column(c) {
        Some(i) => {
            if fields[i].len() == 0 {
                None
            } else {
                Some(copy_bytes(&fields[i]))
            }
        },
        None => None,
    }
}

/// Locates the fields of a row by the header and decodes its integers, its
/// feasibility flag and its lists. Fails when the row's width differs from the
/// header's, or an integer or the flag does not decode (the first of them in
/// column order).
pub fn frame_row(schema: &FieldSchema, fields: &Vec<Vec<u8>>) -> (r: Result<RowText, RowError>)
    requires
        schema.wf(),
    ensures
        fields@.len() != schema.header().len() ==> r == Err::<RowText, RowError>(
            RowError::FieldCount,
        ),
        fields@.len() == schema.header().len() ==> (r is Ok <==> header_fields_decode(
            *schema,
            views(fields@),
        )),
        r matches Ok(t) ==> frames(*schema, views(fields@), t),
        r matches Err(RowError::Integer(c)) ==> (c is TimeStep || c is TrajectoryNumber
            || c is UniqueId) && decimal_i32(cell(*schema, views(fields@), c)) is None,
        r matches Err(RowError::Boolean) ==> boolean_of(
            cell(*schema, views(fields@), Column::Feasible),
        ) is None,
        r matches Err(RowError::Integer(c)) ==> (c is TrajectoryNumber || c is UniqueId) ==> decimal_i32(
            cell(*schema, views(fields@), Column::TimeStep),
        ) is Some,
        r matches Err(RowError::Integer(c)) ==> c is UniqueId ==> decimal_i32(
            cell(*schema, views(fields@), Column::TrajectoryNumber),
        ) is Some,
        r == Err::<RowText, RowError>(RowError::Boolean) ==> decimal_i32(
            cell(*schema, views(fields@), Column::TimeStep),
        ) is Some && decimal_i32(cell(*schema, views(fields@), Column::TrajectoryNumber)) is Some
            && decimal_i32(cell(*schema, views(fields@), Column::UniqueId)) is Some,
        r is Err ==> (r->Err_0 is FieldCount || r->Err_0 is Integer || r->Err_0 is Boolean),
{
    if fields.len() != schema.width() {
        return Err(RowError::FieldCount);
    }
    let ghost row = views(fields@);
    let time_step = match parse_i32(field_of(schema, fields, Column::TimeStep).as_slice()) {
        Some(v) => v,
        None => {
            return Err(RowError::Integer(Column::TimeStep));
        },
    };
    let trajectory_number = match parse_i32(
        field_of(schema, fields, Column::TrajectoryNumber).as_slice(),
    ) {
        Some(v) => v,
        None => {
            return Err(RowError::Integer(Column::TrajectoryNumber));
        },
    };
    let unique_id = match parse_i32(field_of(schema, fields, Column::UniqueId).as_slice()) {
        Some(v) => v,
        None => {
            return Err(RowError::Integer(Column::UniqueId));
        },
    };
    let feasible = match parse_bool(field_of(schema, fields, Column::Feasible).as_slice()) {
        Some(v) => v,
        None => {
            return Err(RowError::Boolean);
        },
    };
    let mut costs: Vec<(Vec<u8>, Vec<u8>)> = Vec::new();
    let mut k: usize = 0;
    while k < schema.cost_count()
        invariant
            schema.wf(),
            fields@.len() == schema.header().len(),
            row == views(fields@),
            k <= schema.cost_positions().len(),
            costs@.len() == k,
            forall|l: int|
                0 <= l < k ==> (#[trigger] costs@[l]).0@ == schema.header()[schema.cost_positions()[l] as int]
                    && costs@[l].1@ == row[schema.cost_positions()[l] as int],
        decreases schema.cost_positions().len() - k,
    {
        let i = schema.cost_column(k);
        let name = copy_bytes(schema.name_at(i));
        let value = copy_bytes(&fields[i]);
        costs.push((name, value));
        k += 1;
    }
    let t = RowFields {
        time_step,
        trajectory_number,
        unique_id,
        feasible,
        horizon: copy_bytes(field_of(schema, fields, Column::Horizon)),
        dt: copy_bytes(field_of(schema, fields, Column::Dt)),
        x_positions_m: split_list(field_of(schema, fields, Column::XPositions).as_slice()),
        y_positions_m: split_list(field_of(schema, fields, Column::YPositions).as_slice()),
        theta_orientations_rad: split_list(
            field_of(schema, fields, Column::Orientations).as_slice(),
        ),
        kappa_rad: split_list(field_of(schema, fields, Column::Curvatures).as_slice()),
        curvilinear_orientations_rad: split_list(
            field_of(schema, fields, Column::CurvilinearOrientations).as_slice(),
        ),
        velocities_mps: split_list(field_of(schema, fields, Column::Velocities).as_slice()),
        accelerations_mps2: split_list(field_of(schema, fields, Column::Accelerations).as_slice()),
        s_position_m: copy_bytes(field_of(schema, fields, Column::SPosition)),
        d_position_m: copy_bytes(field_of(schema, fields, Column::DPosition)),
        ego_risk: optional_field(schema, fields, Column::EgoRisk),
        obst_risk: optional_field(schema, fields, Column::ObstacleRisk),
        costs_cumulative_weighted: copy_bytes(field_of(schema, fields, Column::TotalWeightedCost)),
        costs,
        inf_kin_yaw_rate: copy_bytes(field_of(schema, fields, Column::InfeasibleYawRate)),
        inf_kin_acceleration: copy_bytes(field_of(schema, fields, Column::InfeasibleAcceleration)),
        inf_kin_max_curvature: copy_bytes(field_of(schema, fields, Column::InfeasibleMaxCurvature)),
        inf_kin_max_curvature_rate: copy_bytes(
            field_of(schema, fields, Column::InfeasibleMaxCurvatureRate),
        ),
    };
    Ok(t)
}

} // verus!
