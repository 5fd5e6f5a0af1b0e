use trajlog::aggregate::Aggregation;
use trajlog::finite::{Finite, Finite64};
use trajlog::record::{assemble, TrajectoryRecord};
use trajlog::row::{frame_row, RowError, RowFields, RowNumbers, RowText};
use trajlog::schema::{Column, FieldSchema, HeaderError};
use trajlog::text::{parse_bool, parse_i32, split_list};

const HEADER: &str = "time_step;trajectory_number;unique_id;feasible;horizon;dt;\
x_positions_m;y_positions_m;theta_orientations_rad;kappa_rad;curvilinear_orientations_rad;\
velocities_mps;accelerations_mps2;s_position_m;d_position_m;ego_risk;obst_risk;\
costs_cumulative_weighted;velocity_cost;jerk_cost;inf_kin_yaw_rate;inf_kin_acceleration;\
inf_kin_max_curvature;inf_kin_max_curvature_rate";

fn fields(line: &str) -> Vec<Vec<u8>> {
    line.split(';').map(|f| f.as_bytes().to_vec()).collect()
}

fn schema() -> FieldSchema {
    FieldSchema::from_header(fields(HEADER)).unwrap()
}

fn row(ts: i32, id: i32, ys: &str, total: &str, velocity_cost: &str) -> String {
    format!(
        "{ts};{id};{id};True;3.0;0.1;0.0,1.0,2.0;{ys};0.0,0.0,0.0;0.0,0.0,0.0;0.0,0.1,-0.3;\
5.0,5.5,6.0;0.5,0.5,0.5;1.0;0.2;;0.01;{total};{velocity_cost};0.25;0;0;0;0"
    )
}

fn f32_bits(t: &[u8]) -> Option<u32> {
    std::str::from_utf8(t).ok()?.parse::<f32>().ok().map(f32::to_bits)
}

fn f64_bits(t: &[u8]) -> Option<u64> {
    std::str::from_utf8(t).ok()?.parse::<f64>().ok().map(f64::to_bits)
}

fn list(v: Vec<Vec<u8>>) -> Vec<Option<u32>> {
    v.iter().map(|t| f32_bits(t)).collect()
}

fn numbers(t: RowText) -> RowNumbers {
    RowFields {
        time_step: t.time_step,
        trajectory_number: t.trajectory_number,
        unique_id: t.unique_id,
        feasible: t.feasible,
        horizon: f64_bits(&t.horizon),
        dt: f64_bits(&t.dt),
        x_positions_m: list(t.x_positions_m),
        y_positions_m: list(t.y_positions_m),
        theta_orientations_rad: list(t.theta_orientations_rad),
        kappa_rad: list(t.kappa_rad),
        curvilinear_orientations_rad: list(t.curvilinear_orientations_rad),
        velocities_mps: list(t.velocities_mps),
        accelerations_mps2: list(t.accelerations_mps2),
        s_position_m: f64_bits(&t.s_position_m),
        d_position_m: f64_bits(&t.d_position_m),
        ego_risk: t.ego_risk.map(|v| f64_bits(&v)),
        obst_risk: t.obst_risk.map(|v| f64_bits(&v)),
        costs_cumulative_weighted: f64_bits(&t.costs_cumulative_weighted),
        costs: t.costs.into_iter().map(|(n, v)| (n, f64_bits(&v))).collect(),
        inf_kin_yaw_rate: f64_bits(&t.inf_kin_yaw_rate),
        inf_kin_acceleration: f64_bits(&t.inf_kin_acceleration),
        inf_kin_max_curvature: f64_bits(&t.inf_kin_max_curvature),
        inf_kin_max_curvature_rate: f64_bits(&t.inf_kin_max_curvature_rate),
    }
}

fn decode(s: &FieldSchema, line: &str) -> Result<TrajectoryRecord, RowError> {
    let text = frame_row(s, &fields(line))?;
    assemble(&numbers(text))
}

fn ingest(lines: &[String]) -> Aggregation {
    let s = schema();
    let mut agg = Aggregation::new();
    for line in lines {
        agg.offer(decode(&s, line));
    }
    agg
}

fn summary(agg: &Aggregation) -> Vec<(i32, Vec<i32>)> {
    agg.groups()
        .iter()
        .map(|g| {
            let mut ids: Vec<i32> = g.records.iter().map(|r| r.unique_id).collect();
            ids.sort();
            (g.time_step, ids)
        })
        .collect()
}

fn fin(x: f32) -> Finite {
    Finite::try_value(x.to_bits()).unwrap()
}

#[test]
fn finite_rejects_nan_and_infinities() {
    assert!(Finite::try_value(f32::NAN.to_bits()).is_none());
    assert!(Finite::try_value(f32::INFINITY.to_bits()).is_none());
    assert!(Finite::try_value(f32::NEG_INFINITY.to_bits()).is_none());
    assert!(Finite64::try_value(f64::NAN.to_bits()).is_none());
    assert!(Finite64::try_value(f64::INFINITY.to_bits()).is_none());
    assert!(Finite64::try_value(f64::NEG_INFINITY.to_bits()).is_none());
    assert_eq!(Finite::try_value(1.5f32.to_bits()).unwrap().to_bits(), 1.5f32.to_bits());
    assert!(Finite::try_value(f32::MAX.to_bits()).is_some());
}

#[test]
fn finite_order_is_total() {
    let values = [-3.5f32, -1.0, -0.0, 0.0, 1e-30, 2.0, 7.25];
    for a in values {
        for b in values {
            let expected = a.partial_cmp(&b).unwrap();
            assert_eq!(fin(a).cmp(&fin(b)), expected, "{a} vs {b}");
            assert_eq!(fin(a) < fin(b), a < b);
            assert_eq!(fin(a) == fin(b), a == b);
        }
    }
    assert_eq!(fin(-0.0).cmp(&fin(0.0)), std::cmp::Ordering::Equal);
}

#[test]
fn finite_negation_reverses_order() {
    assert_eq!(fin(2.0).neg().to_bits(), (-2.0f32).to_bits());
    assert_eq!(fin(-7.5).neg().to_bits(), 7.5f32.to_bits());
    assert!(fin(1.0).neg() < fin(0.5).neg());
}

#[test]
fn finite_extremes() {
    assert_eq!(Finite::maximum().to_bits(), f32::MAX.to_bits());
    assert_eq!(Finite::minimum().to_bits(), f32::MIN.to_bits());
    assert!(fin(1e38) < Finite::maximum());
    assert!(Finite::minimum() < fin(-1e38));
}

#[test]
fn integers_decode() {
    assert_eq!(parse_i32(b"42"), Some(42));
    assert_eq!(parse_i32(b"-7"), Some(-7));
    assert_eq!(parse_i32(b"+3"), Some(3));
    assert_eq!(parse_i32(b"2147483647"), Some(i32::MAX));
    assert_eq!(parse_i32(b"-2147483648"), Some(i32::MIN));
    assert_eq!(parse_i32(b"2147483648"), None);
    assert_eq!(parse_i32(b"99999999999"), None);
    assert_eq!(parse_i32(b""), None);
    assert_eq!(parse_i32(b"-"), None);
    assert_eq!(parse_i32(b"1a"), None);
    assert_eq!(parse_i32(b" 1"), None);
}

#[test]
fn booleans_decode_in_any_case() {
    assert_eq!(parse_bool(b"true"), Some(true));
    assert_eq!(parse_bool(b"TRUE"), Some(true));
    assert_eq!(parse_bool(b"False"), Some(false));
    assert_eq!(parse_bool(b"fAlSe"), Some(false));
    assert_eq!(parse_bool(b"yes"), None);
    assert_eq!(parse_bool(b"tru"), None);
    assert_eq!(parse_bool(b""), None);
}

#[test]
fn lists_split_at_commas() {
    assert_eq!(
        split_list(b"1.0,2.5,,3"),
        vec![b"1.0".to_vec(), b"2.5".to_vec(), vec![], b"3".to_vec()]
    );
    assert_eq!(split_list(b""), vec![Vec::<u8>::new()]);
    assert_eq!(split_list(b"7"), vec![b"7".to_vec()]);
}

#[test]
fn header_finds_columns_and_costs() {
    let s = schema();
    assert_eq!(s.width(), 24);
    assert_eq!(s.column(Column::TimeStep), Some(0));
    assert_eq!(s.column(Column::TotalWeightedCost), Some(17));
    assert_eq!(s.cost_count(), 2);
    assert_eq!(s.name_at(s.cost_column(0)), &b"velocity_cost".to_vec());
    assert_eq!(s.name_at(s.cost_column(1)), &b"jerk_cost".to_vec());
}

#[test]
fn header_without_required_column_is_refused() {
    let h = HEADER.replace("y_positions_m;", "");
    assert_eq!(
        FieldSchema::from_header(fields(&h)).unwrap_err(),
        HeaderError::MissingColumn(Column::YPositions)
    );
}

#[test]
fn header_with_repeated_column_is_refused() {
    let h = format!("{HEADER};jerk_cost");
    assert_eq!(
        FieldSchema::from_header(fields(&h)).unwrap_err(),
        HeaderError::DuplicateColumn(24)
    );
}

#[test]
fn risk_columns_are_optional() {
    let h = HEADER.replace("ego_risk;obst_risk;", "");
    let s = FieldSchema::from_header(fields(&h)).unwrap();
    assert_eq!(s.column(Column::EgoRisk), None);
    assert_eq!(s.column(Column::ObstacleRisk), None);
}

#[test]
fn row_of_wrong_width_is_rejected() {
    let s = schema();
    let line = format!("{};extra", row(0, 1, "0.0,0.0,0.0", "10.0", "1.0"));
    assert_eq!(decode(&s, &line).unwrap_err(), RowError::FieldCount);
}

#[test]
fn row_with_bad_integer_or_flag_is_rejected() {
    let s = schema();
    let line = row(0, 1, "0.0,0.0,0.0", "10.0", "1.0").replacen("0;1;1;", "x;1;1;", 1);
    assert_eq!(decode(&s, &line).unwrap_err(), RowError::Integer(Column::TimeStep));
    let line = row(0, 1, "0.0,0.0,0.0", "10.0", "1.0").replace("True", "maybe");
    assert_eq!(decode(&s, &line).unwrap_err(), RowError::Boolean);
}

#[test]
fn row_with_unparsable_number_is_rejected() {
    let s = schema();
    let line = row(0, 1, "0.0,abc,0.0", "10.0", "1.0");
    assert_eq!(decode(&s, &line).unwrap_err(), RowError::Number);
}

#[test]
fn row_decodes_fields() {
    let s = schema();
    let rec = decode(&s, &row(4, 9, "0.5,1.5,2.5", "12.5", "1.0")).unwrap();
    assert_eq!(rec.time_step, 4);
    assert_eq!(rec.unique_id, 9);
    assert!(rec.feasible);
    assert_eq!(rec.kinematic_data.y_positions_m, vec![0.5f32.to_bits(), 1.5f32.to_bits(), 2.5f32.to_bits()]);
    assert_eq!(rec.costs_cumulative_weighted, 12.5f64.to_bits());
    assert_eq!(rec.ego_risk, None);
    assert_eq!(rec.obst_risk, Some(0.01f64.to_bits()));
    assert_eq!(rec.costs.len(), 2);
    assert_eq!(rec.costs[0], (b"velocity_cost".to_vec(), 1.0f64.to_bits()));
    assert!(!rec.has_invalid_data);
}

#[test]
fn nan_position_drops_row() {
    let agg = ingest(&[
        row(0, 1, "0.0,NaN,0.0", "10.0", "1.0"),
        row(0, 2, "0.0,0.0,0.0", "10.0", "1.0"),
    ]);
    assert_eq!(summary(&agg), vec![(0, vec![2])]);
    assert_eq!(agg.dropped(), 1);
}

#[test]
fn infinite_cost_row_is_kept_and_flagged() {
    let agg = ingest(&[
        row(0, 1, "0.0,0.0,0.0", "50", "1.0"),
        row(0, 2, "0.0,0.0,0.0", "Infinity", "1.0"),
    ]);
    assert_eq!(summary(&agg), vec![(0, vec![1, 2])]);
    assert_eq!(agg.max_cumulative_cost().to_bits(), 50f64.to_bits());
    let records = &agg.groups()[0].records;
    let flagged: Vec<bool> = records.iter().map(|r| r.has_invalid_data).collect();
    let ids: Vec<i32> = records.iter().map(|r| r.unique_id).collect();
    assert_eq!(flagged[ids.iter().position(|&i| i == 2).unwrap()], true);
    assert_eq!(flagged[ids.iter().position(|&i| i == 1).unwrap()], false);
}

#[test]
fn non_finite_cost_contribution_flags_row() {
    let s = schema();
    let rec = decode(&s, &row(0, 1, "0.0,0.0,0.0", "10.0", "NaN")).unwrap();
    assert!(rec.has_invalid_data);
}

#[test]
fn three_rows_make_two_groups() {
    let agg = ingest(&[
        row(0, 1, "0.0,0.0,0.0", "10.0", "1.0"),
        row(1, 2, "0.0,0.0,0.0", "20.0", "1.0"),
        row(0, 3, "0.0,0.0,0.0", "30.0", "1.0"),
    ]);
    assert_eq!(agg.groups().len(), 2);
    assert_eq!(summary(&agg), vec![(0, vec![1, 3]), (1, vec![2])]);
    assert_eq!(agg.max_cumulative_cost().to_bits(), 30f64.to_bits());
}

#[test]
fn groups_come_in_time_step_order() {
    let agg = ingest(&[
        row(5, 1, "0.0,0.0,0.0", "1.0", "1.0"),
        row(-2, 2, "0.0,0.0,0.0", "1.0", "1.0"),
        row(3, 3, "0.0,0.0,0.0", "1.0", "1.0"),
        row(5, 4, "0.0,0.0,0.0", "1.0", "1.0"),
    ]);
    assert_eq!(summary(&agg), vec![(-2, vec![2]), (3, vec![3]), (5, vec![1, 4])]);
}

#[test]
fn maximum_stays_initial_without_finite_cost() {
    let agg = ingest(&[
        row(0, 1, "0.0,0.0,0.0", "NaN", "1.0"),
        row(0, 2, "0.0,0.0,0.0", "-Infinity", "1.0"),
    ]);
    assert_eq!(agg.groups()[0].records.len(), 2);
    assert_eq!(agg.max_cumulative_cost().to_bits(), f64::MIN_POSITIVE.to_bits());
}

#[test]
fn empty_input_has_no_groups() {
    let agg = ingest(&[]);
    assert!(agg.groups().is_empty());
    assert_eq!(agg.rows(), 0);
    assert_eq!(agg.max_cumulative_cost().to_bits(), f64::MIN_POSITIVE.to_bits());
}

#[test]
fn accepted_rows_are_rows_less_rejections() {
    let lines = vec![
        row(0, 1, "0.0,0.0,0.0", "10.0", "1.0"),
        row(0, 2, "Infinity,0.0,0.0", "10.0", "1.0"),
        row(1, 3, "0.0,oops,0.0", "10.0", "1.0"),
        row(1, 4, "0.0,0.0,0.0", "10.0", "1.0"),
        row(2, 5, "NaN,0.0,0.0", "10.0", "1.0"),
    ];
    let agg = ingest(&lines);
    let accepted: usize = agg.groups().iter().map(|g| g.records.len()).sum();
    assert_eq!(agg.rows(), 5);
    assert_eq!(agg.dropped(), 2);
    assert_eq!(agg.skipped(), 1);
    assert_eq!(accepted, 5 - 2 - 1);
}

#[test]
fn arrival_order_does_not_change_groups() {
    let lines: Vec<String> = (0..12)
        .map(|i| row(i % 3, i, "0.0,0.0,0.0", &format!("{}.5", i * 7 % 11), "1.0"))
        .collect();
    let mut reversed = lines.clone();
    reversed.reverse();
    let mut interleaved: Vec<String> = lines.iter().step_by(2).cloned().collect();
    interleaved.extend(lines.iter().skip(1).step_by(2).cloned());
    let a = ingest(&lines);
    let b = ingest(&reversed);
    let c = ingest(&interleaved);
    assert_eq!(summary(&a), summary(&b));
    assert_eq!(summary(&a), summary(&c));
    assert_eq!(a.max_cumulative_cost().to_bits(), b.max_cumulative_cost().to_bits());
    assert_eq!(a.max_cumulative_cost().to_bits(), 10.5f64.to_bits());
}

#[test]
fn ingesting_twice_gives_same_groups() {
    let lines: Vec<String> = (0..6)
        .map(|i| row(i / 2, i, "0.0,0.0,0.0", "2.0", "1.0"))
        .collect();
    assert_eq!(summary(&ingest(&lines)), summary(&ingest(&lines)));
}

#[test]
fn maximum_of_small_costs_is_reported() {
    let agg = ingest(&[row(0, 1, "0.0,0.0,0.0", "0", "1.0")]);
    assert_eq!(agg.max_cumulative_cost().to_bits(), 0f64.to_bits());
    let agg = ingest(&[
        row(0, 1, "0.0,0.0,0.0", "-5.0", "1.0"),
        row(0, 2, "0.0,0.0,0.0", "NaN", "1.0"),
        row(1, 3, "0.0,0.0,0.0", "-2.5", "1.0"),
    ]);
    assert_eq!(agg.max_cumulative_cost().to_bits(), (-2.5f64).to_bits());
}

#[test]
fn wrong_width_rows_are_counted_as_skipped() {
    let lines = vec![
        row(0, 1, "0.0,0.0,0.0", "10.0", "1.0"),
        format!("{};extra", row(0, 2, "0.0,0.0,0.0", "10.0", "1.0")),
    ];
    let agg = ingest(&lines);
    assert_eq!(agg.rows(), 2);
    assert_eq!(agg.skipped(), 1);
    assert_eq!(summary(&agg), vec![(0, vec![1])]);
}
