use oco_lite_matchup::error::MatchupError;
use oco_lite_matchup::oco::geo::OcoGeo;
use oco_lite_matchup::utils::{filter_by_quality, leading_date, sid_to_date, RunningMean};

fn load(file: &str, flag0_only: bool) -> OcoGeo {
    OcoGeo::load_lite_file(
        file.to_string(),
        vec![11, 12, 13, 14],
        vec![100, 200, 300, 400],
        vec![-1, -2, -3, -4],
        vec![5, 6, 7, 8],
        vec![0, 1, 0, 2],
        flag0_only,
    )
    .unwrap()
}

fn column<T>(geo: &OcoGeo, at: impl Fn(&OcoGeo, usize) -> T) -> Vec<T> {
    (0..geo.num_soundings() as usize).map(|i| at(geo, i)).collect()
}

#[test]
fn loading_keeps_every_row() {
    let geo = load("a.nc4", false);
    assert_eq!(geo.num_soundings(), 4);
    assert_eq!(geo.lite_files(), &vec!["a.nc4".to_string()]);
    assert_eq!(column(&geo, OcoGeo::file_index_at), vec![0, 0, 0, 0]);
    assert_eq!(column(&geo, OcoGeo::sounding_id_at), vec![11, 12, 13, 14]);
    assert_eq!(column(&geo, OcoGeo::timestamp_at), vec![100, 200, 300, 400]);
    assert_eq!(column(&geo, OcoGeo::longitude_at), vec![-1, -2, -3, -4]);
    assert_eq!(column(&geo, OcoGeo::latitude_at), vec![5, 6, 7, 8]);
    assert_eq!(column(&geo, OcoGeo::quality_at), vec![0, 1, 0, 2]);
}

#[test]
fn the_quality_filter_drops_rows_from_every_column() {
    let geo = load("a.nc4", true);
    assert_eq!(geo.num_soundings(), 2);
    assert_eq!(column(&geo, OcoGeo::file_index_at), vec![0, 0]);
    assert_eq!(column(&geo, OcoGeo::sounding_id_at), vec![11, 13]);
    assert_eq!(column(&geo, OcoGeo::timestamp_at), vec![100, 300]);
    assert_eq!(column(&geo, OcoGeo::longitude_at), vec![-1, -3]);
    assert_eq!(column(&geo, OcoGeo::latitude_at), vec![5, 7]);
    assert_eq!(column(&geo, OcoGeo::quality_at), vec![0, 0]);
}

#[test]
fn columns_of_different_length_cannot_be_loaded() {
    let r = OcoGeo::load_lite_file("a.nc4".to_string(), vec![1, 2], vec![1], vec![1, 2], vec![1, 2], vec![0, 0], false);
    match r {
        Err(MatchupError::NetcdfShapeError { file, .. }) => assert_eq!(file, Some("a.nc4".to_string())),
        _ => panic!("expected a shape error"),
    }
}

#[test]
fn extending_appends_rows_and_raises_file_indices() {
    let all = OcoGeo::default().extend(load("a.nc4", true)).extend(load("b.nc4", false)).extend(load("c.nc4", true));
    assert_eq!(all.lite_files(), &vec!["a.nc4".to_string(), "b.nc4".to_string(), "c.nc4".to_string()]);
    assert_eq!(all.num_soundings(), 8);
    assert_eq!(column(&all, OcoGeo::file_index_at), vec![0, 0, 1, 1, 1, 1, 2, 2]);
    assert_eq!(column(&all, OcoGeo::sounding_id_at), vec![11, 13, 11, 12, 13, 14, 11, 13]);
    assert_eq!(column(&all, OcoGeo::timestamp_at), vec![100, 300, 100, 200, 300, 400, 100, 300]);
    assert_eq!(column(&all, OcoGeo::longitude_at), vec![-1, -3, -1, -2, -3, -4, -1, -3]);
    assert_eq!(column(&all, OcoGeo::latitude_at), vec![5, 7, 5, 6, 7, 8, 5, 7]);
    assert_eq!(column(&all, OcoGeo::quality_at), vec![0, 0, 0, 1, 0, 2, 0, 0]);
}

#[test]
fn extending_a_joined_set_keeps_its_file_indices_apart() {
    let ab = load("a.nc4", false).extend(load("b.nc4", false));
    let cd = load("c.nc4", true).extend(load("d.nc4", true));
    let all = ab.extend(cd);
    assert_eq!(column(&all, OcoGeo::file_index_at), vec![0, 0, 0, 0, 1, 1, 1, 1, 2, 2, 3, 3]);
    assert_eq!(all.lite_files().len(), 4);
}

#[test]
fn the_empty_set_has_no_soundings() {
    let empty = OcoGeo::default();
    assert_eq!(empty.num_soundings(), 0);
    assert!(empty.lite_files().is_empty());
}

#[test]
fn filter_by_quality_keeps_rows_with_flag_zero() {
    assert_eq!(filter_by_quality(&vec![10, 20, 30, 40], &vec![0, 3, 0, 0]), vec![10, 30, 40]);
    assert_eq!(filter_by_quality(&vec!['a', 'b'], &vec![1, 1]), Vec::<char>::new());
    // only the rows that both have are looked at
    assert_eq!(filter_by_quality(&vec![1, 2, 3], &vec![0]), vec![1]);
    assert_eq!(filter_by_quality(&vec![1], &vec![0, 0, 0]), vec![1]);
}

#[test]
fn running_mean_of_values() {
    assert_eq!(RunningMean::new().mean(), None);
    assert_eq!(RunningMean::default().mean(), None);
    assert_eq!(RunningMean::from_slice(&[]).mean(), None);
    assert_eq!(RunningMean::from_slice(&[4]).mean(), Some(4));
    assert_eq!(RunningMean::from_slice(&[1, 2, 4]).mean(), Some(2));
    assert_eq!(RunningMean::from_slice(&[-1, -2, -4]).mean(), Some(-2));
    assert_eq!(RunningMean::from_slice(&[-7, 2]).mean(), Some(-2));
    assert_eq!(RunningMean::from_slice(&[i64::MAX, i64::MAX]).mean(), Some(i64::MAX));
    assert_eq!(RunningMean::from_slice(&[i64::MIN, i64::MIN, i64::MIN]).mean(), Some(i64::MIN));
}

#[test]
fn running_mean_grows_value_by_value() {
    let mut m = RunningMean::new();
    m.add_value(10);
    assert_eq!(m.mean(), Some(10));
    m.add_value(21);
    assert_eq!(m.mean(), Some(15));
    m.add_value_with_weight(9, 2);
    assert_eq!(m.mean(), Some(10));
}

#[test]
fn a_sounding_identifier_spells_its_date() {
    let d = sid_to_date(2020_03_14_12_30_45_67).unwrap();
    assert_eq!((d.year, d.month, d.day), (2020, 3, 14));
    let d = sid_to_date(19930101).unwrap();
    assert_eq!((d.year, d.month, d.day), (1993, 1, 1));
    let d = sid_to_date(2024_02_29_00_00_00_00_1).unwrap();
    assert_eq!((d.year, d.month, d.day), (2024, 2, 29));
    // no such days
    assert!(sid_to_date(2023_04_31_00_00_00_00).is_none());
    assert!(sid_to_date(2015_02_29_00_00_00_00).is_none());
    assert!(sid_to_date(2015_13_01_00_00_00_00).is_none());
    assert!(sid_to_date(2015_00_10_00_00_00_00).is_none());
    // the digits are read whether or not the day exists
    let d = leading_date(2015_13_41_99_99_99_99);
    assert_eq!((d.year, d.month, d.day), (2015, 13, 41));
    let d = leading_date(u64::MAX);
    assert_eq!((d.year, d.month, d.day), (1844, 67, 44));
}

fn one_file(name: String) -> OcoGeo {
    OcoGeo::load_lite_file(name, vec![1], vec![2], vec![3], vec![4], vec![0], false).unwrap()
}

#[test]
fn at_most_256_files_can_be_joined() {
    let mut all = OcoGeo::default();
    for i in 0..256 {
        all = all.try_extend(one_file(format!("f{i}.nc4"))).ok().unwrap();
    }
    assert_eq!(all.lite_files().len(), 256);
    assert_eq!(all.len(), 256);
    assert_eq!(all.file_index_at(255), 255);
    assert_eq!(all.file_index_at(0), 0);
    let r = all.try_extend(one_file("one_more.nc4".to_string()));
    assert!(matches!(r, Err(MatchupError::InternalError(_))));
}
