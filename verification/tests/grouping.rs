use oco_lite_matchup::error::MatchupError;
use oco_lite_matchup::oco::groups::identify_groups_from_matched_soundings;
use oco_lite_matchup::oco::matches::OcoMatches;
use oco_lite_matchup::oco::record::Match2to3;

fn record(a: u64, bs: &[u64]) -> Match2to3 {
    let mut m = Match2to3::new(0, a, a);
    for &b in bs {
        m.add_oco3_match(1, b + 1000, b, 10, 5);
    }
    m
}

fn unsorted(records: Vec<Match2to3>) -> OcoMatches {
    OcoMatches { oco2_files: vec!["a.nc4".to_string()], oco3_files: vec!["b.nc4".to_string()], matches: records }
}

fn sorted(records: Vec<Match2to3>) -> OcoMatches {
    OcoMatches::from_matches(records, vec!["a.nc4".to_string()], vec!["b.nc4".to_string()])
}

#[test]
fn chained_records_in_order_form_one_group() {
    let matches = sorted(vec![record(1, &[11]), record(2, &[11, 12]), record(3, &[12])]);
    let groups = identify_groups_from_matched_soundings(matches);
    assert_eq!(groups.num_groups(), 1);
    assert_eq!(groups.oco2_ids(0), &vec![1, 2, 3]);
    assert_eq!(groups.oco3_ids(0), &vec![11, 12]);
    assert_eq!(groups.oco2_lite_files(), &vec!["a.nc4".to_string()]);
    assert_eq!(groups.oco3_lite_files(), &vec!["b.nc4".to_string()]);
}

#[test]
fn chained_records_out_of_order_form_two_groups() {
    let matches = unsorted(vec![record(1, &[11]), record(3, &[12]), record(2, &[11, 12])]);
    let groups = identify_groups_from_matched_soundings(matches);
    assert_eq!(groups.num_groups(), 2);
    assert_eq!(groups.oco2_ids(0), &vec![1, 2]);
    assert_eq!(groups.oco3_ids(0), &vec![11, 12]);
    assert_eq!(groups.oco2_ids(1), &vec![3]);
    assert_eq!(groups.oco3_ids(1), &vec![12]);
}

#[test]
fn sorting_first_restores_the_single_group() {
    let matches = sorted(vec![record(1, &[11]), record(3, &[12]), record(2, &[11, 12])]);
    assert_eq!(matches.matches[1].oco2_sounding_id, 2);
    let groups = identify_groups_from_matched_soundings(matches);
    assert_eq!(groups.num_groups(), 1);
}

#[test]
fn a_linking_record_joins_the_first_group_only() {
    // Record 3 shares a sounding with both groups: it joins the first, and
    // OCO-3 sounding 12 is then in both groups.
    let matches = sorted(vec![record(1, &[11]), record(2, &[12]), record(3, &[12, 11])]);
    let groups = identify_groups_from_matched_soundings(matches);
    assert_eq!(groups.num_groups(), 2);
    assert_eq!(groups.oco2_ids(0), &vec![1, 3]);
    assert_eq!(groups.oco3_ids(0), &vec![11, 12]);
    assert_eq!(groups.oco2_ids(1), &vec![2]);
    assert_eq!(groups.oco3_ids(1), &vec![12]);
}

#[test]
fn grouping_twice_gives_the_same_groups() {
    let make = || sorted(vec![record(5, &[1, 2]), record(6, &[3]), record(7, &[2, 4]), record(8, &[9])]);
    let first = identify_groups_from_matched_soundings(make());
    let second = identify_groups_from_matched_soundings(make());
    assert_eq!(first.num_groups(), second.num_groups());
    for k in 0..first.num_groups() {
        assert_eq!(first.oco2_ids(k), second.oco2_ids(k));
        assert_eq!(first.oco3_ids(k), second.oco3_ids(k));
    }
}

#[test]
fn groups_hold_every_sounding_once() {
    let matches = sorted(vec![
        record(5, &[1, 2]),
        record(6, &[3]),
        record(7, &[2, 4]),
        record(8, &[9]),
        record(9, &[3, 3]),
    ]);
    let groups = identify_groups_from_matched_soundings(matches);
    assert_eq!(groups.num_groups(), 3);
    let mut oco2: Vec<u64> = Vec::new();
    let mut oco3: Vec<u64> = Vec::new();
    for k in 0..groups.num_groups() {
        assert!(!groups.oco2_ids(k).is_empty());
        assert!(!groups.oco3_ids(k).is_empty());
        oco2.extend(groups.oco2_ids(k));
        oco3.extend(groups.oco3_ids(k));
    }
    oco2.sort();
    oco3.sort();
    assert_eq!(oco2, vec![5, 6, 7, 8, 9]);
    assert_eq!(oco3, vec![1, 2, 3, 4, 9]);
}

#[test]
fn no_records_no_groups() {
    let groups = identify_groups_from_matched_soundings(sorted(vec![]));
    assert_eq!(groups.num_groups(), 0);
    assert_eq!(groups.to_nc_group().unwrap().len(), 0);
}

#[test]
fn summary_gives_range_locations_and_mean_of_means() {
    let mut first = Match2to3::new(2, 40, 500);
    first.add_oco3_match(0, 7, 70, 100, -30);
    first.add_oco3_match(1, 8, 60, 200, -50);
    first.add_oco3_match(1, 9, 80, 600, -10);
    let mut second = Match2to3::new(3, 41, 400);
    second.add_oco3_match(1, 8, 60, 1000, 7);
    let groups = identify_groups_from_matched_soundings(unsorted(vec![first, second]));
    assert_eq!(groups.num_groups(), 1);
    let summaries = groups.to_nc_group().unwrap();
    assert_eq!(summaries.len(), 1);
    let s = summaries[0];
    assert_eq!(s.oco2_sounding_id, (400, 500));
    assert_eq!(s.oco2_file_index, (3, 2));
    assert_eq!(s.oco2_sounding_index, (41, 40));
    assert_eq!(s.oco3_sounding_id, (60, 80));
    assert_eq!(s.oco3_file_index, (1, 1));
    assert_eq!(s.oco3_sounding_index, (8, 9));
    // the means of the records are 300 and 1000; the pooled mean would be 475
    assert_eq!(s.mean_distance_m, Some(650));
    // the means of the records are -30 and 7; -23 / 2 rounds towards zero
    assert_eq!(s.mean_time_diff_ms, Some(-11));
}

#[test]
fn a_group_without_oco3_soundings_cannot_be_summarised() {
    let groups = identify_groups_from_matched_soundings(unsorted(vec![record(1, &[])]));
    assert_eq!(groups.num_groups(), 1);
    assert!(matches!(groups.to_nc_group(), Err(MatchupError::InternalError(_))));
}

#[test]
fn a_sounding_without_location_cannot_be_summarised() {
    // The record names an OCO-3 sounding but gives no file index for it.
    let mut m = Match2to3::new(0, 1, 1);
    m.oco3_sounding_ids.push(9);
    let groups = identify_groups_from_matched_soundings(unsorted(vec![m]));
    assert!(matches!(groups.to_nc_group(), Err(MatchupError::InternalError(_))));
}

#[test]
fn a_repeated_oco2_sounding_is_listed_once() {
    let groups =
        identify_groups_from_matched_soundings(unsorted(vec![record(1, &[5]), record(1, &[5, 6])]));
    assert_eq!(groups.num_groups(), 1);
    assert_eq!(groups.oco2_ids(0), &vec![1]);
    assert_eq!(groups.oco3_ids(0), &vec![5, 6]);
}
