use oco_lite_matchup::config::{min_delta_time, MAX_DELTA_TIME_MS, MIN_SELF_CROSS_DELTA_TIME_MS};
use oco_lite_matchup::oco::geo::OcoGeo;
use oco_lite_matchup::oco::groups::identify_groups_from_matched_soundings;
use oco_lite_matchup::oco::matcher::{
    covers, is_coincident, make_one_oco_match_vec, match_oco3_to_oco2_parallel, parallel_helper,
    time_difference,
};

/// Great-circle distance in metres between two points given in millionths of
/// a degree, on a sphere of radius 6378.137 km.
fn distance_m(lon1: i64, lat1: i64, lon2: i64, lat2: i64) -> u32 {
    let rad = |x: i64| (x as f64 / 1.0e6).to_radians();
    let (lon1, lat1, lon2, lat2) = (rad(lon1), rad(lat1), rad(lon2), rad(lat2));
    let dlon = (lon2 - lon1).abs();
    let dlat = (lat2 - lat1).abs();
    let inner = (dlat / 2.0).sin().powi(2)
        + (1.0 - (dlat / 2.0).sin().powi(2) - ((lat1 + lat2) / 2.0).sin().powi(2))
            * (dlon / 2.0).sin().powi(2);
    (2.0 * inner.sqrt().asin() * 6378.137 * 1000.0).round() as u32
}

fn geo(file: &str, ids: &[u64], ts: &[i64], lon: &[i64], lat: &[i64]) -> OcoGeo {
    OcoGeo::load_lite_file(
        file.to_string(),
        ids.to_vec(),
        ts.to_vec(),
        lon.to_vec(),
        lat.to_vec(),
        vec![0; ids.len()],
        false,
    )
    .unwrap()
}

fn distance_table(a: &OcoGeo, b: &OcoGeo) -> Vec<Vec<u32>> {
    let mut table = Vec::new();
    for i in 0..a.num_soundings() as usize {
        let mut row = Vec::new();
        for j in 0..b.num_soundings() as usize {
            row.push(distance_m(
                a.longitude_at(i),
                a.latitude_at(i),
                b.longitude_at(j),
                b.latitude_at(j),
            ));
        }
        table.push(row);
    }
    table
}

#[test]
fn two_soundings_each_match_their_neighbour() {
    let a = geo("a.nc4", &[100, 200], &[0, 1_000_000], &[0, 10_000_000], &[0, 10_000_000]);
    let b = geo("b.nc4", &[900, 901], &[1_000, 999_000], &[1_000, 10_001_000], &[1_000, 10_001_000]);
    let table = distance_table(&a, &b);
    assert!(table[0][0] <= 50_000 && table[1][1] <= 50_000);
    assert!(table[0][1] > 50_000 && table[1][0] > 50_000);

    let matches = match_oco3_to_oco2_parallel(&a, &b, &table, 50_000, -1_000, 100_000);
    assert_eq!(matches.oco2_files, vec!["a.nc4".to_string()]);
    assert_eq!(matches.oco3_files, vec!["b.nc4".to_string()]);
    assert_eq!(matches.matches.len(), 2);
    assert_eq!(matches.matches[0].oco2_sounding_id, 100);
    assert_eq!(matches.matches[0].oco2_sounding_index, 0);
    assert_eq!(matches.matches[0].oco3_sounding_ids, vec![900]);
    assert_eq!(matches.matches[0].oco3_sounding_indices, vec![0]);
    assert_eq!(matches.matches[0].distance_m, vec![table[0][0]]);
    assert_eq!(matches.matches[0].time_diff_ms, vec![-1_000]);
    assert_eq!(matches.matches[1].oco2_sounding_id, 200);
    assert_eq!(matches.matches[1].oco3_sounding_ids, vec![901]);
    assert_eq!(matches.matches[1].oco3_sounding_indices, vec![1]);
    assert_eq!(matches.matches[1].time_diff_ms, vec![1_000]);

    let groups = identify_groups_from_matched_soundings(matches);
    assert_eq!(groups.num_groups(), 2);
    assert_eq!(groups.oco2_ids(0), &vec![100]);
    assert_eq!(groups.oco3_ids(0), &vec![900]);
    assert_eq!(groups.oco2_ids(1), &vec![200]);
    assert_eq!(groups.oco3_ids(1), &vec![901]);
}

#[test]
fn one_degree_at_the_equator_is_about_111_km() {
    let along = distance_m(0, 0, 1_000_000, 0);
    let across = distance_m(0, 0, 0, 1_000_000);
    assert!((111_300..=111_340).contains(&along));
    assert!((111_300..=111_340).contains(&across));
    assert_eq!(distance_m(5_000_000, 7_000_000, 5_000_000, 7_000_000), 0);
}

#[test]
fn time_difference_is_first_minus_second() {
    assert_eq!(time_difference(5, 7), -2);
    assert_eq!(time_difference(7, 5), 2);
    assert_eq!(time_difference(i64::MAX, i64::MIN), (1i128 << 64) - 1);
}

#[test]
fn coincidence_thresholds_are_exact() {
    // distance: at most the threshold
    assert!(is_coincident(100, 0, 10, 100, -1, 50));
    assert!(!is_coincident(101, 0, 10, 100, -1, 50));
    // time: strictly below the maximum
    assert!(is_coincident(0, 0, 49, 100, -1, 50));
    assert!(!is_coincident(0, 0, 50, 100, -1, 50));
    assert!(!is_coincident(0, 50, 0, 100, -1, 50));
    // time: strictly above the minimum
    assert!(!is_coincident(0, 0, 20, 100, 20, 50));
    assert!(is_coincident(0, 0, 21, 100, 20, 50));
    assert!(is_coincident(0, 21, 0, 100, 20, 50));
    // a negative minimum excludes nothing, not even equal times
    assert!(is_coincident(0, 7, 7, 100, -1, 50));
    // times far apart do not wrap around
    assert!(!is_coincident(0, i64::MAX, i64::MIN, 100, -1, i64::MAX));
}

#[test]
fn a_record_lists_exactly_the_coincident_soundings() {
    let b = geo("b.nc4", &[10, 11, 12, 13], &[0, 100, 200, 300], &[0; 4], &[0; 4]);
    let distances = vec![5, 50, 7, 8];
    let m = make_one_oco_match_vec(3, 42, 777, 150, &b, &distances, 10, -1, 151);
    assert_eq!(m.oco2_file_index, 3);
    assert_eq!(m.oco2_sounding_index, 42);
    assert_eq!(m.oco2_sounding_id, 777);
    // row 1 is too far away; rows 0, 2 and 3 are within 150 ms
    assert_eq!(m.oco3_sounding_indices, vec![0, 2, 3]);
    assert_eq!(m.oco3_sounding_ids, vec![10, 12, 13]);
    assert_eq!(m.oco3_file_indices, vec![0, 0, 0]);
    assert_eq!(m.distance_m, vec![5, 7, 8]);
    assert_eq!(m.time_diff_ms, vec![150, -50, -150]);
}

#[test]
fn a_sounding_without_match_yields_no_record() {
    let b = geo("b.nc4", &[10, 11], &[0, 100], &[0; 2], &[0; 2]);
    assert!(parallel_helper(0, 0, 1, 50, &b, &vec![500, 600], 10, -1, 1000).is_none());
    let some = parallel_helper(0, 0, 1, 50, &b, &vec![500, 6], 10, -1, 1000).unwrap();
    assert_eq!(some.oco3_sounding_ids, vec![11]);
}

#[test]
fn records_come_in_ascending_order_of_sounding_id() {
    // The OCO-2 rows are not in order of their identifiers.
    let a = geo("a.nc4", &[30, 10, 20], &[0, 0, 0], &[0; 3], &[0; 3]);
    let b = geo("b.nc4", &[1, 2], &[0, 0], &[0; 2], &[0; 2]);
    let table = vec![vec![1, 99], vec![99, 99], vec![1, 1]];
    let matches = match_oco3_to_oco2_parallel(&a, &b, &table, 10, -1, 1000);
    assert_eq!(matches.matches.len(), 2);
    assert_eq!(matches.matches[0].oco2_sounding_id, 20);
    assert_eq!(matches.matches[0].oco2_sounding_index, 2);
    assert_eq!(matches.matches[0].oco3_sounding_ids, vec![1, 2]);
    assert_eq!(matches.matches[1].oco2_sounding_id, 30);
    assert_eq!(matches.matches[1].oco2_sounding_index, 0);
    assert_eq!(matches.matches[1].oco3_sounding_ids, vec![1]);
}

#[test]
fn self_crossing_never_matches_a_sounding_with_itself() {
    let min_dt = min_delta_time(true);
    assert_eq!(min_dt, MIN_SELF_CROSS_DELTA_TIME_MS);
    assert_eq!(min_dt, 2_787_000);
    let ts = [0, 1_000_000, 2_787_000, 2_787_001, 6_000_000];
    let a = geo("a.nc4", &[1, 2, 3, 4, 5], &ts, &[0; 5], &[0; 5]);
    // every pair is at distance zero
    let table = vec![vec![0u32; 5]; 5];
    let matches = match_oco3_to_oco2_parallel(&a, &a, &table, 100_000, min_dt, MAX_DELTA_TIME_MS);
    for m in &matches.matches {
        for (k, &other) in m.oco3_sounding_ids.iter().enumerate() {
            assert_ne!(other, m.oco2_sounding_id);
            assert!(m.time_diff_ms[k].abs() > min_dt);
        }
    }
    // sounding 1 is more than 2787 s away from soundings 4 and 5 only
    assert_eq!(matches.matches[0].oco2_sounding_id, 1);
    assert_eq!(matches.matches[0].oco3_sounding_ids, vec![4, 5]);
    // sounding 3 at exactly 2787 s from sounding 1 does not match it
    let third = matches.matches.iter().find(|m| m.oco2_sounding_id == 3).unwrap();
    assert_eq!(third.oco3_sounding_ids, vec![5]);
}

#[test]
fn without_self_crossing_the_minimum_excludes_nothing() {
    let min_dt = min_delta_time(false);
    assert!(min_dt < 0);
    assert!(is_coincident(0, 5, 5, 100_000, min_dt, MAX_DELTA_TIME_MS));
    assert_eq!(MAX_DELTA_TIME_MS, 43_200_000);
}

#[test]
fn a_distance_table_must_cover_every_pair() {
    let a = geo("a.nc4", &[1, 2], &[0, 0], &[0; 2], &[0; 2]);
    let b = geo("b.nc4", &[1, 2, 3], &[0, 0, 0], &[0; 3], &[0; 3]);
    assert!(covers(&vec![vec![0; 3], vec![0; 3]], &a, &b));
    assert!(!covers(&vec![vec![0; 3]], &a, &b));
    assert!(!covers(&vec![vec![0; 3], vec![0; 2]], &a, &b));
    assert!(covers(&vec![], &OcoGeo::default(), &b));
}
