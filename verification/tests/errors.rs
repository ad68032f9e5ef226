use oco_lite_matchup::config::{MatchSource, RunMultiArgs, RunMultiConfig, RunOneArgs, MAX_DISTANCE_M};
use oco_lite_matchup::error::MatchupError;

fn p(s: &str) -> String {
    s.to_string()
}

#[test]
fn set_file_attaches_the_path_where_there_is_room_for_one() {
    let e = MatchupError::NetcdfError { nc_error: p("bad"), file: None }.set_file(p("f.nc4"));
    assert!(matches!(e, MatchupError::NetcdfError { nc_error, file: Some(f) } if nc_error == "bad" && f == "f.nc4"));
    let e = MatchupError::NetcdfMissingGroup { file: Some(p("old")), grpname: p("matches") }.set_file(p("new"));
    assert!(matches!(e, MatchupError::NetcdfMissingGroup { file: Some(f), grpname } if f == "new" && grpname == "matches"));
    let e = MatchupError::NetcdfMissingVar { file: None, varname: p("time") }.set_file(p("f"));
    assert!(matches!(e, MatchupError::NetcdfMissingVar { file: Some(f), varname } if f == "f" && varname == "time"));
    let e = MatchupError::NetcdfWrongAttrType { file: None, varname: p("v"), attname: p("a"), expected: p("String") }
        .set_file(p("f"));
    assert!(matches!(e, MatchupError::NetcdfWrongAttrType { file: Some(f), varname, attname, expected }
        if f == "f" && varname == "v" && attname == "a" && expected == "String"));
    let e = MatchupError::NetcdfShapeError { file: None, varname: p("v"), nd_error: p("rank") }.set_file(p("f"));
    assert!(matches!(e, MatchupError::NetcdfShapeError { file: Some(f), varname, nd_error }
        if f == "f" && varname == "v" && nd_error == "rank"));
}

#[test]
fn set_file_leaves_errors_without_path_alone() {
    assert!(matches!(MatchupError::IOError(p("io")).set_file(p("f")), MatchupError::IOError(s) if s == "io"));
    assert!(matches!(MatchupError::ConfigError(p("c")).set_file(p("f")), MatchupError::ConfigError(s) if s == "c"));
    assert!(matches!(MatchupError::ConfigWriteError(p("w")).set_file(p("f")), MatchupError::ConfigWriteError(s) if s == "w"));
    assert!(matches!(MatchupError::InternalError(p("i")).set_file(p("f")), MatchupError::InternalError(s) if s == "i"));
    let many = MatchupError::MultipleErrors(vec![MatchupError::NetcdfError { nc_error: p("x"), file: None }]);
    match many.set_file(p("f")) {
        MatchupError::MultipleErrors(errs) => {
            assert!(matches!(&errs[0], MatchupError::NetcdfError { file: None, .. }))
        }
        _ => panic!("expected the list of errors"),
    }
}

#[test]
fn errors_with_their_file() {
    let e = MatchupError::from_nc_error(p("cannot open"), p("f.nc4"));
    assert!(matches!(e, MatchupError::NetcdfError { nc_error, file: Some(f) } if nc_error == "cannot open" && f == "f.nc4"));
    let e = MatchupError::from_shape_error(p("rank 2"), p("f.nc4"), p("time"));
    assert!(matches!(e, MatchupError::NetcdfShapeError { file: Some(f), varname, nd_error }
        if f == "f.nc4" && varname == "time" && nd_error == "rank 2"));
    assert!(matches!(MatchupError::internal("broken"), MatchupError::InternalError(s) if s == "broken"));
}

#[test]
fn a_batch_fails_with_all_its_failures() {
    assert!(MatchupError::from_failures(vec![]).is_ok());
    let r = MatchupError::from_failures(vec![MatchupError::IOError(p("a")), MatchupError::InternalError(p("b"))]);
    match r {
        Err(MatchupError::MultipleErrors(errs)) => {
            assert_eq!(errs.len(), 2);
            assert!(matches!(&errs[0], MatchupError::IOError(s) if s == "a"));
            assert!(matches!(&errs[1], MatchupError::InternalError(s) if s == "b"));
        }
        _ => panic!("expected the list of errors"),
    }
}

fn run(read: Option<&str>, save: Option<&str>, self_cross: bool) -> RunOneArgs {
    RunOneArgs {
        output_file: p("out.nc4"),
        oco2_lite_file: p("oco2.nc4"),
        oco3_lite_files: vec![p("oco3.nc4")],
        flag0_only: true,
        oco3_self_cross: self_cross,
        save_full_matches_as: save.map(p),
        read_full_matches: read.map(p),
    }
}

#[test]
fn stored_matches_have_precedence() {
    assert!(matches!(run(Some("in.nc4"), Some("full.nc4"), false).match_source(), MatchSource::Stored(f) if f == "in.nc4"));
    assert!(matches!(run(None, Some("full.nc4"), false).match_source(),
        MatchSource::Computed { save_as: Some(f) } if f == "full.nc4"));
    assert!(matches!(run(None, None, false).match_source(), MatchSource::Computed { save_as: None }));
}

#[test]
fn thresholds_of_a_run() {
    assert_eq!(run(None, None, true).min_delta_time(), 2_787_000);
    assert_eq!(run(None, None, false).min_delta_time(), -100);
    assert_eq!(MAX_DISTANCE_M, 100_000);
}

#[test]
fn a_batch_lists_its_matchups() {
    let cfg = RunMultiConfig { matchups: vec![run(None, None, false), run(None, None, true)] };
    assert_eq!(cfg.matchups.len(), 2);
    assert!(cfg.matchups[1].oco3_self_cross);
    let args = RunMultiArgs { config_file: p("batch.toml") };
    assert_eq!(args.config_file, "batch.toml");
}
