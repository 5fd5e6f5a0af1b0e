//! The column schema of a trajectory log: which header position holds each
//! fixed field, and which columns make up the sparse cost map.
use vstd::prelude::*;
use vstd::string::StringSliceAdditionalSpecFns;

verus! {

/// The number of fixed fields of a trajectory row.
pub const COLUMN_COUNT: usize = 22;

/// The fixed fields of a trajectory row, each read from the column of its name.
#[derive(Clone, Copy, Debug, PartialEq, Eq, Structural)]
pub enum Column {
    TimeStep,
    TrajectoryNumber,
    UniqueId,
    Feasible,
    Horizon,
    Dt,
    XPositions,
    YPositions,
    Orientations,
    Curvatures,
    CurvilinearOrientations,
    Velocities,
    Accelerations,
    SPosition,
    DPosition,
    EgoRisk,
    ObstacleRisk,
    TotalWeightedCost,
    InfeasibleYawRate,
    InfeasibleAcceleration,
    InfeasibleMaxCurvature,
    InfeasibleMaxCurvatureRate,
}

impl Column {
    /// The column's header name.
    pub open spec fn spec_name(self) -> &'static str {
        match self {
            Column::TimeStep => "time_step",
            Column::TrajectoryNumber => "trajectory_number",
            Column::UniqueId => "unique_id",
            Column::Feasible => "feasible",
            Column::Horizon => "horizon",
            Column::Dt => "dt",
            Column::XPositions => "x_positions_m",
            Column::YPositions => "y_positions_m",
            Column::Orientations => "theta_orientations_rad",
            Column::Curvatures => "kappa_rad",
            Column::CurvilinearOrientations => "curvilinear_orientations_rad",
            Column::Velocities => "velocities_mps",
            Column::Accelerations => "accelerations_mps2",
            Column::SPosition => "s_position_m",
            Column::DPosition => "d_position_m",
            Column::EgoRisk => "ego_risk",
            Column::ObstacleRisk => "obst_risk",
            Column::TotalWeightedCost => "costs_cumulative_weighted",
            Column::InfeasibleYawRate => "inf_kin_yaw_rate",
            Column::InfeasibleAcceleration => "inf_kin_acceleration",
            Column::InfeasibleMaxCurvature => "inf_kin_max_curvature",
            Column::InfeasibleMaxCurvatureRate => "inf_kin_max_curvature_rate",
        }
    }

    /// The bytes of the column's header name.
    pub open spec fn name_bytes(self) -> Seq<u8> {
        self.spec_name().spec_bytes()
    }

    /// The column's place in declaration order.
    pub open spec fn ordinal(self) -> int {
        match self {
            Column::TimeStep => 0,
            Column::TrajectoryNumber => 1,
            Column::UniqueId => 2,
            Column::Feasible => 3,
            Column::Horizon => 4,
            Column::Dt => 5,
            Column::XPositions => 6,
            Column::YPositions => 7,
            Column::Orientations => 8,
            Column::Curvatures => 9,
            Column::CurvilinearOrientations => 10,
            Column::Velocities => 11,
            Column::Accelerations => 12,
            Column::SPosition => 13,
            Column::DPosition => 14,
            Column::EgoRisk => 15,
            Column::ObstacleRisk => 16,
            Column::TotalWeightedCost => 17,
            Column::InfeasibleYawRate => 18,
            Column::InfeasibleAcceleration => 19,
            Column::InfeasibleMaxCurvature => 20,
            Column::InfeasibleMaxCurvatureRate => 21,
        }
    }

    /// Risk columns may be left out of the header; every other one is required.
    pub open spec fn is_required(self) -> bool {
        !(self is EgoRisk || self is ObstacleRisk)
    }

    /// The column's header name.
    pub fn name(&self) -> (r: &'static str)
        ensures
            r == self.spec_name(),
    {
        match self {
            Column::TimeStep => "time_step",
            Column::TrajectoryNumber => "trajectory_number",
            Column::UniqueId => "unique_id",
            Column::Feasible => "feasible",
            Column::Horizon => "horizon",
            Column::Dt => "dt",
            Column::XPositions => "x_positions_m",
            Column::YPositions => "y_positions_m",
            Column::Orientations => "theta_orientations_rad",
            Column::Curvatures => "kappa_rad",
            Column::CurvilinearOrientations => "curvilinear_orientations_rad",
            Column::Velocities => "velocities_mps",
            Column::Accelerations => "accelerations_mps2",
            Column::SPosition => "s_position_m",
            Column::DPosition => "d_position_m",
            Column::EgoRisk => "ego_risk",
            Column::ObstacleRisk => "obst_risk",
            Column::TotalWeightedCost => "costs_cumulative_weighted",
            Column::InfeasibleYawRate => "inf_kin_yaw_rate",
            Column::InfeasibleAcceleration => "inf_kin_acceleration",
            Column::InfeasibleMaxCurvature => "inf_kin_max_curvature",
            Column::InfeasibleMaxCurvatureRate => "inf_kin_max_curvature_rate",
        }
    }

    /// Whether the column must appear in the header.
    pub fn required(&self) -> (r: bool)
        ensures
            r == self.is_required(),
    {
        match self {
            Column::EgoRisk | Column::ObstacleRisk => false,
            _ => true,
        }
    }

    /// The column in the given place of declaration order.
    pub fn from_ordinal(i: usize) -> (r: Column)
        requires
            i < COLUMN_COUNT,
        ensures
            r.ordinal() == i,
    {
        match i {
            0 => Column::TimeStep,
            1 => Column::TrajectoryNumber,
            2 => Column::UniqueId,
            3 => Column::Feasible,
            4 => Column::Horizon,
            5 => Column::Dt,
            6 => Column::XPositions,
            7 => Column::YPositions,
            8 => Column::Orientations,
            9 => Column::Curvatures,
            10 => Column::CurvilinearOrientations,
            11 => Column::Velocities,
            12 => Column::Accelerations,
            13 => Column::SPosition,
            14 => Column::DPosition,
            15 => Column::EgoRisk,
            16 => Column::ObstacleRisk,
            17 => Column::TotalWeightedCost,
            18 => Column::InfeasibleYawRate,
            19 => Column::InfeasibleAcceleration,
            20 => Column::InfeasibleMaxCurvature,
            _ => Column::InfeasibleMaxCurvatureRate,
        }
    }

    /// The column's place in declaration order.
    pub fn index(&self) -> (r: usize)
        ensures
            r == self.ordinal(),
            r < COLUMN_COUNT,
    {
        match self {
            Column::TimeStep => 0,
            Column::TrajectoryNumber => 1,
            Column::UniqueId => 2,
            Column::Feasible => 3,
            Column::Horizon => 4,
            Column::Dt => 5,
            Column::XPositions => 6,
            Column::YPositions => 7,
            Column::Orientations => 8,
            Column::Curvatures => 9,
            Column::CurvilinearOrientations => 10,
            Column::Velocities => 11,
            Column::Accelerations => 12,
            Column::SPosition => 13,
            Column::DPosition => 14,
            Column::EgoRisk => 15,
            Column::ObstacleRisk => 16,
            Column::TotalWeightedCost => 17,
            Column::InfeasibleYawRate => 18,
            Column::InfeasibleAcceleration => 19,
            Column::InfeasibleMaxCurvature => 20,
            Column::InfeasibleMaxCurvatureRate => 21,
        }
    }
}

/// Every column has its place below `COLUMN_COUNT`, and two columns with the
/// same place are the same column.
pub proof fn lemma_ordinal(c: Column, d: Column)
    ensures
        0 <= c.ordinal() < COLUMN_COUNT,
        c.ordinal() == d.ordinal() ==> c == d,
{
}

/// A header name that belongs to one of the fixed fields.
pub open spec fn is_fixed_name(n: Seq<u8>) -> bool {
    exists|c: Column| #[trigger] c.name_bytes() == n
}

/// No name occurs twice in the header.
pub open spec fn distinct_names(h: Seq<Seq<u8>>) -> bool {
    forall|i: int, j: int| 0 <= i < j < h.len() ==> h[i] != h[j]
}

/// Why a header cannot describe trajectory rows.
#[derive(Clone, Copy, Debug, PartialEq, Eq, Structural)]
pub enum HeaderError {
    /// A required column is absent.
    MissingColumn(Column),
    /// The name at this position occurred before.
    DuplicateColumn(usize),
}

/// Where each field of a trajectory row stands.
#[derive(Debug)]
pub struct FieldSchema {
    names: Vec<Vec<u8>>,
    fixed: Vec<Option<usize>>,
    costs: Vec<usize>,
}

impl FieldSchema {
    /// The header's names, in column order.
    pub closed spec fn header(self) -> Seq<Seq<u8>> {
        self.names@.map_values(|n: Vec<u8>| n@)
    }

    /// The position of each fixed column, by its place in declaration order.
    pub closed spec fn fixed_positions(self) -> Seq<Option<usize>> {
        self.fixed@
    }

    /// The positions of the cost columns, in header order.
    pub closed spec fn cost_positions(self) -> Seq<usize> {
        self.costs@
    }

    /// The position of a fixed column, if the header has it.
    pub open spec fn position_of(self, c: Column) -> Option<usize> {
        self.fixed_positions()[c.ordinal()]
    }

    /// The schema describes its header: names are distinct, each fixed column
    /// stands where its name does, required ones are present, and the cost
    /// columns are exactly the others, in increasing order.
    pub open spec fn wf(self) -> bool {
        let h = self.header();
        let costs = self.cost_positions();
        &&& distinct_names(h)
        &&& self.fixed_positions().len() == COLUMN_COUNT
        &&& forall|c: Column|
            #![trigger self.position_of(c)]
            match self.position_of(c) {
                Some(i) => i < h.len() && h[i as int] == c.name_bytes(),
                None => !c.is_required() && forall|i: int|
                    0 <= i < h.len() ==> h[i] != c.name_bytes(),
            }
        &&& forall|k: int| 0 <= k < costs.len() ==> costs[k] < h.len()
        &&& forall|k: int| 0 <= k < costs.len() ==> !is_fixed_name(h[costs[k] as int])
        &&& forall|k: int, l: int| 0 <= k < l < costs.len() ==> costs[k] < costs[l]
        &&& forall|i: int|
            0 <= i < h.len() && !is_fixed_name(#[trigger] h[i]) ==> costs.contains(i as usize)
    }

    /// Reads a header row. Fails when a name occurs twice (naming the position
    /// of a second occurrence) or a required column is absent.
    pub fn from_header(names: Vec<Vec<u8>>) -> (r: Result<FieldSchema, HeaderError>)
        ensures
            r is Ok <==> distinct_names(names@.map_values(|n: Vec<u8>| n@)) && forall|c: Column|
                c.is_required() ==> exists|i: int|
                    0 <= i < names@.len() && #[trigger] names@[i]@ == c.name_bytes(),
            r matches Ok(s) ==> s.wf() && s.header() == names@.map_values(|n: Vec<u8>| n@),
            r matches Err(HeaderError::DuplicateColumn(j)) ==> exists|i: int|
                0 <= i < j < names@.len() && names@[i]@ == names@[j as int]@,
            r matches Err(HeaderError::MissingColumn(c)) ==> c.is_required() && forall|i: int|
                0 <= i < names@.len() ==> names@[i]@ != c.name_bytes(),
    {
        let ghost h = names@.map_values(|n: Vec<u8>| n@);
        let n = names.len();
        // every name against the ones before it
        let mut j: usize = 0;
        while j < n
            invariant
                j <= n,
                n == names@.len(),
                h == names@.map_values(|n: Vec<u8>| n@),
                forall|a: int, b: int| 0 <= a < b < j ==> h[a] != h[b],
            decreases n - j,
        {
            let mut i: usize = 0;
            while i < j
                invariant
                    i <= j < n,
                    n == names@.len(),
                    h == names@.map_values(|n: Vec<u8>| n@),
                    forall|a: int| 0 <= a < i ==> h[a] != h[j as int],
                decreases j - i,
            {
                if bytes_equal(names[i].as_slice(), names[j].as_slice()) {
                    proof {
                        assert(h[i as int] == h[j as int]);
                    }
                    return Err(HeaderError::DuplicateColumn(j));
                }
                i += 1;
            }
            j += 1;
        }
        assert(distinct_names(h));
        // the fixed columns
        let mut fixed: Vec<Option<usize>> = Vec::new();
        let mut k: usize = 0;
        while k < COLUMN_COUNT
            invariant
                k <= COLUMN_COUNT,
                n == names@.len(),
                h == names@.map_values(|n: Vec<u8>| n@),
                distinct_names(h),
                fixed@.len() == k,
                forall|c: Column|
                    #![trigger c.ordinal()]
                    c.ordinal() < k ==> match fixed@[c.ordinal()] {
                        Some(i) => i < h.len() && h[i as int] == c.name_bytes(),
                        None => !c.is_required() && forall|i: int|
                            0 <= i < h.len() ==> h[i] != c.name_bytes(),
                    },
            decreases COLUMN_COUNT - k,
        {
            let col = Column::from_ordinal(k);
            let found = find_name(&names, col.name().as_bytes());
            match found {
                None => {
                    if col.required() {
                        proof {
                            assert forall|i: int| 0 <= i < names@.len() implies names@[i]@ != col.name_bytes() by {
                                assert(h[i] == names@[i]@);
                            }
                        }
                        return Err(HeaderError::MissingColumn(col));
                    }
                },
                Some(_) => {},
            }
            fixed.push(found);
            proof {
                assert forall|c: Column| #![trigger c.ordinal()] c.ordinal() < k + 1 implies match fixed@[c.ordinal()] {
                    Some(i) => i < h.len() && h[i as int] == c.name_bytes(),
                    None => !c.is_required() && forall|i: int|
                        0 <= i < h.len() ==> h[i] != c.name_bytes(),
                } by {
                    lemma_ordinal(c, col);
                }
            }
            k += 1;
        }
        // the cost columns
        let mut costs: Vec<usize> = Vec::new();
        let mut i: usize = 0;
        while i < n
            invariant
                i <= n,
                n == names@.len(),
                h == names@.map_values(|n: Vec<u8>| n@),
                forall|k: int| 0 <= k < costs@.len() ==> costs@[k] < i,
                forall|k: int| 0 <= k < costs@.len() ==> !is_fixed_name(h[costs@[k] as int]),
                forall|k: int, l: int| 0 <= k < l < costs@.len() ==> costs@[k] < costs@[l],
                forall|a: int|
                    0 <= a < i && !is_fixed_name(#[trigger] h[a]) ==> costs@.contains(a as usize),
            decreases n - i,
        {
            let ghost before = costs@;
            proof {
                assert(h[i as int] == names@[i as int]@);
            }
            if !names_fixed_column(names[i].as_slice()) {
                costs.push(i);
                proof {
                    assert(costs@[costs@.len() - 1] == i);
                    assert forall|a: int|
                        0 <= a <= i && !is_fixed_name(#[trigger] h[a]) implies costs@.contains(a as usize) by {
                        if a < i {
                            let k = choose|k: int| 0 <= k < before.len() && before[k] == a as usize;
                            assert(costs@[k] == a as usize);
                        } else {
                            assert(costs@[costs@.len() - 1] == a as usize);
                        }
                    }
                }
            }
            i += 1;
        }
        let s = FieldSchema { names, fixed, costs };
        proof {
            assert(s.header() == h);
            assert forall|c: Column| #![trigger s.position_of(c)] match s.position_of(c) {
                Some(i) => i < h.len() && h[i as int] == c.name_bytes(),
                None => !c.is_required() && forall|i: int|
                    0 <= i < h.len() ==> h[i] != c.name_bytes(),
            } by {
                lemma_ordinal(c, c);
            }
            assert forall|c: Column| c.is_required() implies exists|i: int|
                0 <= i < names@.len() && #[trigger] names@[i]@ == c.name_bytes() by {
                lemma_ordinal(c, c);
                if let Some(i) = s.position_of(c) {
                    assert(names@[i as int]@ == h[i as int]);
                }
            }
        }
        Ok(s)
    }

    /// The number of columns.
    pub fn width(&self) -> (r: usize)
        ensures
            r == self.header().len(),
    {
        self.names.len()
    }

    /// The position of a fixed column, if the header has it.
    pub fn column(&self, c: Column) -> (r: Option<usize>)
        requires
            self.wf(),
        ensures
            r == self.position_of(c),
    {
        self.fixed[c.index()]
    }

    /// The number of cost columns.
    pub fn cost_count(&self) -> (r: usize)
        ensures
            r == self.cost_positions().len(),
    {
        self.costs.len()
    }

    /// The position of the `k`-th cost column.
    pub fn cost_column(&self, k: usize) -> (r: usize)
        requires
            k < self.cost_positions().len(),
        ensures
            r == self.cost_positions()[k as int],
    {
        self.costs[k]
    }

    /// The header name at a position.
    pub fn name_at(&self, i: usize) -> (r: &Vec<u8>)
        requires
            i < self.header().len(),
        ensures
            r@ == self.header()[i as int],
    {
        &self.names[i]
    }
}

/// Byte-wise equality.
pub fn bytes_equal(a: &[u8], b: &[u8]) -> (r: bool)
    ensures
        r == (a@ == b@),
{
    if a.len() != b.len() {
        return false;
    }
    let mut i: usize = 0;
    while i < a.len()
        invariant
            i <= a@.len(),
            a@.len() == b@.len(),
            forall|k: int| 0 <= k < i ==> a@[k] == b@[k],
        decreases a@.len() - i,
    {
        if a[i] != b[i] {
            return false;
        }
        i += 1;
    }
    assert(a@ == b@);
    true
}

/// The position of `name` among `names`, if it occurs.
fn find_name(names: &Vec<Vec<u8>>, name: &[u8]) -> (r: Option<usize>)
    requires
        distinct_names(names@.map_values(|n: Vec<u8>| n@)),
    ensures
        match r {
            Some(i) => i < names@.len() && names@[i as int]@ == name@,
            None => forall|i: int| 0 <= i < names@.len() ==> names@[i]@ != name@,
        },
{
    let mut i: usize = 0;
    while i < names.len()
        invariant
            i <= names@.len(),
            forall|k: int| 0 <= k < i ==> names@[k]@ != name@,
        decreases names@.len() - i,
    {
        if bytes_equal(names[i].as_slice(), name) {
            return Some(i);
        }
        i += 1;
    }
    None
}

/// Whether a header name belongs to one of the fixed fields.
fn names_fixed_column(name: &[u8]) -> (r: bool)
    ensures
        r == is_fixed_name(name@),
{
    let mut k: usize = 0;
    while k < COLUMN_COUNT
        invariant
            k <= COLUMN_COUNT,
            forall|c: Column| #![trigger c.name_bytes()] c.ordinal() < k ==> c.name_bytes() != name@,
        decreases COLUMN_COUNT - k,
    {
        let col = Column::from_ordinal(k);
        if bytes_equal(col.name().as_bytes(), name) {
            proof {
                assert(col.name_bytes() == name@);
            }
            return true;
        }
        proof {
            assert forall|c: Column| #![trigger c.name_bytes()] c.ordinal() < k + 1 implies c.name_bytes() != name@ by {
                lemma_ordinal(c, col);
            }
        }
        k += 1;
    }
    proof {
        assert forall|c: Column| #[trigger] c.name_bytes() != name@ by {
            lemma_ordinal(c, c);
        }
    }
    false
}

} // verus!
