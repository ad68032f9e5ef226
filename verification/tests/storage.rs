use oco_lite_matchup::error::MatchupError;
use oco_lite_matchup::oco::matches::{clone_paths, MatchesGroup, OcoMatches};
use oco_lite_matchup::oco::padding::{has_no_data, pad_row, unpad_row};
use oco_lite_matchup::oco::record::Match2to3;

fn sample() -> OcoMatches {
    let mut first = Match2to3::new(0, 3, 100);
    first.add_oco3_match(1, 20, 900, 1500, -40);
    first.add_oco3_match(2, 21, 901, 2500, 60);
    first.add_oco3_match(2, 22, 902, 3500, 0);
    let mut second = Match2to3::new(0, 4, 200);
    second.add_oco3_match(1, 20, 900, 77, i64::MIN);
    OcoMatches::from_matches(
        vec![second, first],
        vec!["oco2.nc4".to_string()],
        vec!["oco3_a.nc4".to_string(), "oco3_b.nc4".to_string()],
    )
}

fn assert_same(a: &Match2to3, b: &Match2to3) {
    assert_eq!(a.oco2_file_index, b.oco2_file_index);
    assert_eq!(a.oco2_sounding_index, b.oco2_sounding_index);
    assert_eq!(a.oco2_sounding_id, b.oco2_sounding_id);
    assert_eq!(a.oco3_file_indices, b.oco3_file_indices);
    assert_eq!(a.oco3_sounding_indices, b.oco3_sounding_indices);
    assert_eq!(a.oco3_sounding_ids, b.oco3_sounding_ids);
    assert_eq!(a.distance_m, b.distance_m);
    assert_eq!(a.time_diff_ms, b.time_diff_ms);
}

#[test]
fn stored_tables_are_padded_to_the_widest_record() {
    let matches = sample();
    assert_eq!(matches.calc_match_dim().unwrap(), 3);
    let g = matches.to_nc_group().unwrap();
    assert_eq!(g.oco2_file, vec!["oco2.nc4".to_string()]);
    assert_eq!(g.oco3_file, vec!["oco3_a.nc4".to_string(), "oco3_b.nc4".to_string()]);
    assert_eq!(g.oco2_file_index, vec![0, 0]);
    assert_eq!(g.oco2_index, vec![3, 4]);
    assert_eq!(g.oco2_sounding_id, vec![100, 200]);
    assert_eq!(g.oco3_file_index, vec![vec![1, 2, 2], vec![1, u8::MAX, u8::MAX]]);
    assert_eq!(g.oco3_index, vec![vec![20, 21, 22], vec![20, u64::MAX, u64::MAX]]);
    assert_eq!(g.oco3_sounding_id, vec![vec![900, 901, 902], vec![900, u64::MAX, u64::MAX]]);
    assert_eq!(g.distance, vec![vec![1500, 2500, 3500], vec![77, u32::MAX, u32::MAX]]);
    assert_eq!(g.time_difference, vec![vec![-40, 60, 0], vec![i64::MIN, i64::MAX, i64::MAX]]);
}

#[test]
fn storing_then_reading_gives_the_same_matches() {
    let matches = sample();
    let back = OcoMatches::from_nc_group(&matches.to_nc_group().unwrap()).unwrap();
    assert_eq!(back.oco2_files, matches.oco2_files);
    assert_eq!(back.oco3_files, matches.oco3_files);
    assert_eq!(back.matches.len(), matches.matches.len());
    for (a, b) in back.matches.iter().zip(matches.matches.iter()) {
        assert_same(a, b);
    }
}

#[test]
fn no_matches_store_as_empty_tables() {
    let matches = OcoMatches::from_matches(vec![], vec![], vec![]);
    assert_eq!(matches.calc_match_dim().unwrap(), 0);
    let g = matches.to_nc_group().unwrap();
    assert!(g.oco2_sounding_id.is_empty() && g.distance.is_empty());
    assert!(OcoMatches::from_nc_group(&g).unwrap().matches.is_empty());
}

#[test]
fn an_inconsistent_record_cannot_be_stored() {
    let mut m = Match2to3::new(0, 1, 1);
    m.add_oco3_match(0, 1, 2, 3, 4);
    m.time_diff_ms.push(9);
    let matches = OcoMatches::from_matches(vec![m], vec![], vec![]);
    assert!(matches!(matches.calc_match_dim(), Err(MatchupError::InternalError(_))));
    assert!(matches!(matches.to_nc_group(), Err(MatchupError::InternalError(_))));
}

fn stored() -> MatchesGroup {
    sample().to_nc_group().unwrap()
}

#[test]
fn a_fill_value_in_a_column_is_an_error() {
    let mut g = stored();
    g.oco2_index[1] = u64::MAX;
    assert!(matches!(OcoMatches::from_nc_group(&g), Err(MatchupError::InternalError(_))));
    let mut g = stored();
    g.oco2_file_index[0] = u8::MAX;
    assert!(matches!(OcoMatches::from_nc_group(&g), Err(MatchupError::InternalError(_))));
    let mut g = stored();
    g.oco2_sounding_id[0] = u64::MAX;
    assert!(matches!(OcoMatches::from_nc_group(&g), Err(MatchupError::InternalError(_))));
}

#[test]
fn rows_of_different_data_length_are_an_error() {
    let mut g = stored();
    g.distance[0][2] = u32::MAX;
    assert!(matches!(OcoMatches::from_nc_group(&g), Err(MatchupError::InternalError(_))));
}

#[test]
fn columns_of_different_length_are_an_error() {
    let mut g = stored();
    g.oco3_index.pop();
    assert!(matches!(OcoMatches::from_nc_group(&g), Err(MatchupError::InternalError(_))));
}

#[test]
fn a_row_is_cut_at_its_first_fill_value() {
    let mut g = stored();
    // Cut every table of the first record after one entry.
    g.oco3_file_index[0][1] = u8::MAX;
    g.oco3_index[0][1] = u64::MAX;
    g.oco3_sounding_id[0][1] = u64::MAX;
    g.distance[0][1] = u32::MAX;
    g.time_difference[0][1] = i64::MAX;
    let back = OcoMatches::from_nc_group(&g).unwrap();
    assert_eq!(back.matches[0].oco3_sounding_ids, vec![900]);
    assert_eq!(back.matches[0].distance_m, vec![1500]);
    assert_eq!(back.matches[1].oco3_sounding_ids, vec![900]);
}

#[test]
fn reading_keeps_the_stored_order() {
    let mut g = stored();
    g.oco2_sounding_id = vec![200, 100];
    let back = OcoMatches::from_nc_group(&g).unwrap();
    assert_eq!(back.matches[0].oco2_sounding_id, 200);
    assert_eq!(back.matches[1].oco2_sounding_id, 100);
}

#[test]
fn from_matches_sorts_and_keeps_equal_ids_in_order() {
    let make = |id: u64, idx: u64| Match2to3::new(0, idx, id);
    let matches = OcoMatches::from_matches(
        vec![make(5, 0), make(3, 1), make(5, 2), make(1, 3), make(3, 4), make(5, 5)],
        vec![],
        vec![],
    );
    let order: Vec<(u64, u64)> =
        matches.matches.iter().map(|m| (m.oco2_sounding_id, m.oco2_sounding_index)).collect();
    assert_eq!(order, vec![(1, 3), (3, 1), (3, 4), (5, 0), (5, 2), (5, 5)]);
}

#[test]
fn padding_and_cutting_rows() {
    assert_eq!(pad_row(&vec![1u8, 2], 4), vec![1, 2, 255, 255]);
    assert_eq!(pad_row(&Vec::<i64>::new(), 2), vec![i64::MAX, i64::MAX]);
    assert_eq!(pad_row(&vec![7u32], 1), vec![7]);
    assert_eq!(unpad_row(&vec![1u64, 2, u64::MAX, 4]), vec![1, 2]);
    assert_eq!(unpad_row(&vec![u32::MAX, 1]), Vec::<u32>::new());
    assert_eq!(unpad_row(&vec![3u8, 4]), vec![3, 4]);
    assert!(has_no_data(&vec![0i64, i64::MAX]));
    assert!(!has_no_data(&vec![0u8, 254]));
}

#[test]
fn a_new_record_is_empty() {
    let mut m = Match2to3::new(1, 2, 3);
    assert!(m.is_empty());
    m.add_oco3_match(4, 5, 6, 7, -8);
    assert!(!m.is_empty());
    assert_eq!(m.oco3_file_indices, vec![4]);
    assert_eq!(m.oco3_sounding_indices, vec![5]);
    assert_eq!(m.oco3_sounding_ids, vec![6]);
    assert_eq!(m.distance_m, vec![7]);
    assert_eq!(m.time_diff_ms, vec![-8]);
}

#[test]
fn paths_are_copied() {
    let paths = vec!["x".to_string(), "y".to_string()];
    assert_eq!(clone_paths(&paths), paths);
}
