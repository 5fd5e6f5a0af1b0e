use trajlog::record::{KinematicData, TrajectoryRecord};
use trajlog::sorting::{
    final_velocity, max_deviation, sort_rank, sort_records, sorted_nonzero_costs, stable_order,
    SortDirection, TrajectorySortKey,
};

fn bits32(v: &[f32]) -> Vec<u32> {
    v.iter().map(|x| x.to_bits()).collect()
}

fn record(id: i32, curvilinear: &[f32], velocities: &[f32], cost: f64, costs: &[(&str, f64)]) -> TrajectoryRecord {
    TrajectoryRecord {
        time_step: 0,
        trajectory_number: id,
        unique_id: id,
        feasible: true,
        horizon: 3.0f64.to_bits(),
        dt: 0.1f64.to_bits(),
        kinematic_data: KinematicData {
            x_positions_m: bits32(&[0.0, 1.0]),
            y_positions_m: bits32(&[0.0, 0.0]),
            theta_orientations_rad: bits32(&[0.0, 0.0]),
            kappa_rad: bits32(&[0.0, 0.0]),
            curvilinear_orientations_rad: bits32(curvilinear),
            velocities_mps: bits32(velocities),
            accelerations_mps2: bits32(&[0.0, 0.0]),
        },
        s_position_m: 0,
        d_position_m: 0,
        ego_risk: None,
        obst_risk: None,
        costs_cumulative_weighted: cost.to_bits(),
        costs: costs.iter().map(|(n, v)| (n.as_bytes().to_vec(), v.to_bits())).collect(),
        inf_kin_yaw_rate: 0,
        inf_kin_acceleration: 0,
        inf_kin_max_curvature: 0,
        inf_kin_max_curvature_rate: 0,
        has_invalid_data: false,
    }
}

#[test]
fn direction_reverses_and_toggles() {
    assert_eq!(SortDirection::Ascending.reverse(), SortDirection::Descending);
    assert_eq!(SortDirection::Descending.reverse(), SortDirection::Ascending);
    let mut d = SortDirection::Ascending;
    d.toggle();
    assert_eq!(d, SortDirection::Descending);
    d.toggle();
    assert_eq!(d, SortDirection::Ascending);
    assert_eq!(SortDirection::Ascending.symbol(), '\u{2B06}');
    assert_eq!(SortDirection::Descending.symbol(), '\u{2B07}');
}

#[test]
fn deviation_is_largest_absolute_orientation() {
    let r = record(1, &[0.1, -0.7, 0.3], &[1.0], 1.0, &[]);
    assert_eq!(max_deviation(&r).unwrap().to_bits(), 0.7f32.to_bits());
    let empty = record(1, &[], &[1.0], 1.0, &[]);
    assert!(max_deviation(&empty).is_none());
    let nan = record(1, &[0.1, f32::NAN], &[1.0], 1.0, &[]);
    assert!(max_deviation(&nan).is_none());
}

#[test]
fn final_velocity_is_last() {
    let r = record(1, &[0.0], &[1.0, 2.0, 3.5], 1.0, &[]);
    assert_eq!(final_velocity(&r).unwrap().to_bits(), 3.5f32.to_bits());
    assert!(final_velocity(&record(1, &[0.0], &[], 1.0, &[])).is_none());
    assert!(final_velocity(&record(1, &[0.0], &[1.0, f32::INFINITY], 1.0, &[])).is_none());
}

#[test]
fn stable_order_keeps_ties() {
    assert_eq!(stable_order(&vec![3, 1, 2, 1, 0]), vec![4, 1, 3, 2, 0]);
    assert_eq!(stable_order(&vec![]), Vec::<usize>::new());
    assert_eq!(stable_order(&vec![5, 5, 5]), vec![0, 1, 2]);
}

#[test]
fn records_sort_by_key_and_direction() {
    let records = vec![
        record(3, &[0.2], &[4.0], 30.0, &[]),
        record(1, &[-0.9], &[2.0], f64::NAN, &[]),
        record(2, &[0.5], &[6.0], 10.0, &[]),
    ];
    assert_eq!(sort_records(&records, TrajectorySortKey::Id, SortDirection::Ascending), vec![1, 2, 0]);
    assert_eq!(sort_records(&records, TrajectorySortKey::Id, SortDirection::Descending), vec![0, 2, 1]);
    assert_eq!(
        sort_records(&records, TrajectorySortKey::MaxCurvilinearDeviation, SortDirection::Ascending),
        vec![0, 2, 1]
    );
    assert_eq!(
        sort_records(&records, TrajectorySortKey::FinalVelocity, SortDirection::Descending),
        vec![2, 0, 1]
    );
    // a NaN cost sorts after every finite one
    assert_eq!(sort_records(&records, TrajectorySortKey::Cost, SortDirection::Ascending), vec![2, 0, 1]);
    assert!(
        sort_rank(&records[1], TrajectorySortKey::Cost, SortDirection::Ascending)
            > sort_rank(&records[0], TrajectorySortKey::Cost, SortDirection::Ascending)
    );
}

#[test]
fn missing_key_value_sorts_last() {
    let records = vec![record(1, &[], &[], 1.0, &[]), record(2, &[0.1], &[1.0], 1.0, &[])];
    assert_eq!(
        sort_records(&records, TrajectorySortKey::MaxCurvilinearDeviation, SortDirection::Ascending),
        vec![1, 0]
    );
    assert_eq!(
        sort_records(&records, TrajectorySortKey::FinalVelocity, SortDirection::Ascending),
        vec![1, 0]
    );
}

#[test]
fn costs_listed_largest_first_then_invalid() {
    let r = record(
        1,
        &[0.0],
        &[1.0],
        1.0,
        &[("a", 0.5), ("b", f64::INFINITY), ("c", 3.0), ("d", 0.0), ("e", f64::NAN), ("f", 3.0)],
    );
    let names = |v: Vec<(Vec<u8>, u64)>| -> Vec<String> {
        v.into_iter().map(|(n, _)| String::from_utf8(n).unwrap()).collect()
    };
    assert_eq!(names(sorted_nonzero_costs(&r, None)), vec!["c", "f", "a", "d", "b", "e"]);
    assert_eq!(names(sorted_nonzero_costs(&r, Some(0.0f64.to_bits()))), vec!["c", "f", "a", "b", "e"]);
    assert_eq!(names(sorted_nonzero_costs(&r, Some(1.0f64.to_bits()))), vec!["c", "f", "b", "e"]);
    assert_eq!(names(sorted_nonzero_costs(&r, Some(f64::NAN.to_bits()))), vec!["b", "e"]);
    let listed = sorted_nonzero_costs(&r, Some(1.0f64.to_bits()));
    assert_eq!(listed[0].1, 3.0f64.to_bits());
}
