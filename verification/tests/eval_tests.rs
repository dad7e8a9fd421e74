use terrashift::eval::baseline::{
    compare_against_baseline, decide_verdict, default_baseline_path, pct_change, Baseline, BaselineMode,
    FixtureBaseline, PctChange, RegressionVerdict,
};
use terrashift::eval::errors::{EvalError, IoFailure, IoKind};
use terrashift::eval::golden::{
    check_required_schemas, fixture_dirs, load_golden, schema_file_name, schema_id, FileRead, GoldenManifest,
    GoldenProbe, RequiredSchema, SuiteEntry, SuiteListing,
};
use terrashift::eval::runner::{wall_clock_ms, EvalResult, EvalRunner, SuiteReport};
use terrashift::eval::scorer::{compare_directories, filename_string, is_tf_name, render_unified_diff, unified_diff, ChangeKind, DirFile, DirListing};
use terrashift::mapper::MappingPlan;
use terrashift::strmap::StrMap;

fn pct(p: &PctChange) -> f64 {
    if p.base == 0 {
        0.0
    } else {
        (p.change as f64) / (p.base as f64) * 100.0
    }
}

fn make_report(per_fixture: &[(&str, u64)]) -> SuiteReport {
    let results: Vec<EvalResult> = per_fixture
        .iter()
        .map(|(name, cost)| EvalResult {
            name: (*name).to_string(),
            passed: true,
            token_cost_micros: *cost,
            wall_clock_ms: 1,
            diff: None,
        })
        .collect();
    let total: u64 = results.iter().map(|r| r.token_cost_micros).sum();
    let total_results = results.len();
    SuiteReport { results, total: total_results, passed: total_results, failed: 0, total_token_cost_micros: total }
}

fn make_baseline(per_fixture: &[(&str, u64)]) -> Baseline {
    let mut bl_map = StrMap::new();
    for (name, cost) in per_fixture {
        bl_map.insert((*name).to_string(), FixtureBaseline { token_cost_micros: *cost });
    }
    let total: u64 = per_fixture.iter().map(|(_, c)| c).sum();
    Baseline { total_token_cost_micros: total, per_fixture: bl_map, last_refreshed_iso: "2026-05-02T00:00:00Z".to_string() }
}

#[test]
fn us1_scenario1_40pct_regression_fails_strict() {
    let baseline = make_baseline(&[("a", 1_000_000)]);
    let report = make_report(&[("a", 1_400_000)]);
    let r = compare_against_baseline(&report, &baseline, BaselineMode::Strict);
    assert_eq!(r.verdict, RegressionVerdict::Fail);
    assert!((pct(&r.delta_pct) - 40.0).abs() < 0.001, "delta_pct ≈ 40, got {}", pct(&r.delta_pct));
    assert_eq!(r.per_fixture.len(), 1);
    assert_eq!(r.per_fixture[0].name, "a");
}

#[test]
fn us1_scenario2_20pct_within_threshold_passes() {
    let baseline = make_baseline(&[("a", 1_000_000)]);
    let report = make_report(&[("a", 1_200_000)]);
    let r = compare_against_baseline(&report, &baseline, BaselineMode::Strict);
    assert_eq!(r.verdict, RegressionVerdict::Pass);
    assert!((pct(&r.delta_pct) - 20.0).abs() < 0.001);
}

#[test]
fn us1_scenario3_zero_baseline_zero_actual_passes_in_any_mode() {
    let baseline = make_baseline(&[("a", 0)]);
    let report = make_report(&[("a", 0)]);
    for mode in [BaselineMode::Lenient, BaselineMode::Strict] {
        let r = compare_against_baseline(&report, &baseline, mode);
        assert_eq!(r.verdict, RegressionVerdict::Pass);
        assert!(!r.first_baseline_seed_recommended);
    }
}

#[test]
fn us1_scenario4_lenient_accepts_first_nonzero_seed() {
    let baseline = make_baseline(&[("a", 0)]);
    let report = make_report(&[("a", 5_000_000)]);
    let r = compare_against_baseline(&report, &baseline, BaselineMode::Lenient);
    assert_eq!(r.verdict, RegressionVerdict::Pass);
    assert!(r.first_baseline_seed_recommended);
}

#[test]
fn us1_scenario5_strict_refuses_first_nonzero_seed() {
    let baseline = make_baseline(&[("a", 0)]);
    let report = make_report(&[("a", 5_000_000)]);
    let r = compare_against_baseline(&report, &baseline, BaselineMode::Strict);
    assert_eq!(r.verdict, RegressionVerdict::Fail);
    assert!(!r.first_baseline_seed_recommended);
}

#[test]
fn us2_per_fixture_sorted_worst_first() {
    let baseline = make_baseline(&[("a", 100), ("b", 200), ("c", 300)]);
    let report = make_report(&[("a", 100), ("b", 200), ("c", 600)]);
    let r = compare_against_baseline(&report, &baseline, BaselineMode::Strict);
    assert_eq!(r.verdict, RegressionVerdict::Fail);
    assert_eq!(r.per_fixture[0].name, "c");
    assert!((pct(&r.per_fixture[0].delta_pct) - 100.0).abs() < 0.001);
}

#[test]
fn coverage_drift_flags_missing_fixtures() {
    let baseline = make_baseline(&[("a", 0), ("b", 0), ("c", 0)]);
    let report = make_report(&[("a", 0), ("z", 0)]);
    let r = compare_against_baseline(&report, &baseline, BaselineMode::Lenient);
    assert_eq!(r.verdict, RegressionVerdict::Pass);
    assert!(r.coverage_drift.iter().any(|s| s.contains("baseline-only: b")));
    assert!(r.coverage_drift.iter().any(|s| s.contains("baseline-only: c")));
    assert!(r.coverage_drift.iter().any(|s| s.contains("report-only: z")));
    assert_eq!(
        r.coverage_drift,
        vec!["baseline-only: b".to_string(), "baseline-only: c".to_string(), "report-only: z".to_string()]
    );
}

#[test]
fn baseline_from_report_round_trip() {
    let report = make_report(&[("a", 1_000), ("b", 2_000)]);
    let baseline = Baseline::from_report(&report, "2026-05-02T00:00:00Z");
    assert_eq!(baseline.total_token_cost_micros, 3_000);
    assert_eq!(baseline.per_fixture.len(), 2);
    assert_eq!(baseline.per_fixture.get("a").map(|f| f.token_cost_micros), Some(1_000));
    assert_eq!(baseline.last_refreshed_iso, "2026-05-02T00:00:00Z");
}

#[test]
fn baseline_taken_from_a_report_passes_against_it() {
    let report = make_report(&[("a", 1_000), ("b", 2_000)]);
    let baseline = Baseline::from_report(&report, "t");
    for mode in [BaselineMode::Lenient, BaselineMode::Strict] {
        let r = compare_against_baseline(&report, &baseline, mode);
        assert_eq!(r.verdict, RegressionVerdict::Pass);
        assert!(!r.first_baseline_seed_recommended);
        assert!(r.coverage_drift.is_empty());
    }
}

#[test]
fn threshold_is_exactly_thirty_percent() {
    assert_eq!(decide_verdict(100, 130, BaselineMode::Strict), (RegressionVerdict::Pass, false));
    assert_eq!(decide_verdict(100, 131, BaselineMode::Strict), (RegressionVerdict::Fail, false));
    assert_eq!(decide_verdict(100, 50, BaselineMode::Strict), (RegressionVerdict::Pass, false));
    assert_eq!(pct_change(0, 7), PctChange { change: 0, base: 0 });
    assert_eq!(pct_change(200, 150), PctChange { change: -50, base: 200 });
}

#[test]
fn default_baseline_path_joins_suite_root() {
    assert_eq!(default_baseline_path("terrashift-evals"), "terrashift-evals/eval-baseline.json");
}

#[test]
fn suite_report_counts_results() {
    let results = vec![
        EvalResult { name: "a".to_string(), passed: true, token_cost_micros: 5, wall_clock_ms: 1, diff: None },
        EvalResult { name: "b".to_string(), passed: false, token_cost_micros: 7, wall_clock_ms: 1, diff: Some("d".to_string()) },
    ];
    let report = SuiteReport::from_results(results);
    assert_eq!(report.total, 2);
    assert_eq!(report.passed, 1);
    assert_eq!(report.failed, 1);
    assert_eq!(report.total_token_cost_micros, 12);
    assert!(!report.all_passed());
    assert!(make_report(&[("a", 0)]).all_passed());
    assert_eq!(wall_clock_ms(5), 5);
    assert_eq!(wall_clock_ms(u64::MAX as u128), u32::MAX);
}

fn tf(name: &str, content: &str) -> DirFile {
    DirFile { name: name.to_string(), is_file: true, content: Ok(content.as_bytes().to_vec()) }
}

#[test]
fn mutated_expected_produces_diff() {
    let actual = DirListing::Entries(vec![tf("aws_vpc.tf", "resource \"aws_vpc\" \"mutated\" {\n  cidr_block = \"10.99.0.0/16\"\n}\n")]);
    let expected = DirListing::Entries(vec![tf("aws_vpc.tf", "this is wrong on purpose\n")]);
    let comparison = compare_directories("/out", &actual, "/fixture/expected", &expected).ok().expect("compares");
    let result = EvalRunner::result_of("999_mutated".to_string(), comparison, 3);
    assert!(!result.passed, "mutated expected must fail");
    assert!(result.diff.is_some(), "diff should be populated");
    assert!(result.diff.as_deref().unwrap().contains("aws_vpc.tf"), "diff names the differing file");
    assert_eq!(result.token_cost_micros, 0);
}

#[test]
fn identical_directories_pass() {
    let listing = || DirListing::Entries(vec![tf("a.tf", "x\n"), tf("b.tf", "y\n"), tf("notes.md", "z")]);
    let c = compare_directories("/a", &listing(), "/b", &listing()).ok().expect("compares");
    assert!(c.passed);
    assert!(c.diff.is_none());
}

#[test]
fn missing_and_extra_files_are_named_in_order() {
    let actual = DirListing::Entries(vec![tf("b.tf", "same"), tf("z.tf", "extra")]);
    let expected = DirListing::Entries(vec![tf("b.tf", "same"), tf("a.tf", "gone")]);
    let c = compare_directories("/a", &actual, "/e", &expected).ok().expect("compares");
    assert!(!c.passed);
    assert_eq!(c.diff.as_deref(), Some("- missing from actual: a.tf\n\n+ unexpected in actual: z.tf"));
}

#[test]
fn unreadable_common_file_is_an_io_error() {
    let actual = DirListing::Entries(vec![DirFile { name: "a.tf".to_string(), is_file: true, content: Err(IoFailure { kind: IoKind::PermissionDenied, message: "denied".to_string() }) }]);
    let expected = DirListing::Entries(vec![tf("a.tf", "x")]);
    match compare_directories("/a", &actual, "/e", &expected) {
        Err(EvalError::Io { path, kind, reason }) => {
            assert_eq!(path, "/a/a.tf");
            assert_eq!(kind, IoKind::PermissionDenied);
            assert_eq!(reason, "denied");
        }
        _ => panic!("expected an I/O error"),
    }
    match compare_directories("/missing", &DirListing::NotADirectory, "/e", &expected) {
        Err(EvalError::Io { path, kind, reason }) => {
            assert_eq!(path, "/missing");
            assert_eq!(kind, IoKind::NotFound);
            assert_eq!(reason, "directory not found");
        }
        _ => panic!("expected an I/O error"),
    }
}

#[test]
fn unified_diff_has_headers_and_signs() {
    let d = unified_diff("a\nb\n", "a\nc\n", "f.tf");
    assert!(d.starts_with("--- expected/f.tf\n+++ actual/f.tf\n"));
    assert!(d.contains(" a\n"));
    assert!(d.contains("-b\n"));
    assert!(d.contains("+c\n"));
}

#[test]
fn tf_extension_follows_path_rules() {
    assert!(is_tf_name("main.tf"));
    assert!(!is_tf_name(".tf"));
    assert!(!is_tf_name("main.tfvars"));
    assert!(is_tf_name("..tf"));
    assert_eq!(filename_string(None), "<no_name>");
    assert_eq!(filename_string(Some("x.tf")), "x.tf");
}

fn manifest(name: &str, required: Vec<RequiredSchema>) -> GoldenManifest {
    GoldenManifest {
        name: name.to_string(),
        description: String::new(),
        source_provider: "aws".to_string(),
        target_provider: "aws".to_string(),
        token_cost_ceiling_micros: 0,
        articles: vec![],
        required_schemas: required,
    }
}

fn empty_plan() -> MappingPlan {
    MappingPlan { run_id: 0, source_provider: "aws".to_string(), target_provider: "aws".to_string(), resources: vec![] }
}

#[test]
fn check_passes_when_required_schemas_is_empty() {
    assert!(check_required_schemas("/suite/001_test", &vec![], &vec![]).is_ok(), "empty required_schemas always passes");
}

#[test]
fn check_fails_loud_when_schema_missing_from_cache() {
    let required = vec![RequiredSchema { provider: "aws".to_string(), version: "5.30.0".to_string() }];
    match check_required_schemas("/suite/002_test", &required, &vec![false]) {
        Err(EvalError::MissingSchema { schema_id, .. }) => assert_eq!(schema_id, "aws@5.30.0"),
        _ => panic!("expected MissingSchema"),
    }
}

#[test]
fn check_passes_when_schema_file_present() {
    let required = vec![RequiredSchema { provider: "aws".to_string(), version: "5.30.0".to_string() }];
    assert_eq!(schema_file_name(&required[0]), "aws@5.30.0.json.zst");
    assert!(check_required_schemas("/suite/003_test", &required, &vec![true]).is_ok(), "present file must pass");
}

#[test]
fn check_aggregates_first_missing_first() {
    let required = vec![
        RequiredSchema { provider: "aws".to_string(), version: "5.30.0".to_string() },
        RequiredSchema { provider: "google".to_string(), version: "5.40.2".to_string() },
    ];
    assert_eq!(schema_id(&required[1]), "google@5.40.2");
    match check_required_schemas("/suite/004_test", &required, &vec![true, false]) {
        Err(EvalError::MissingSchema { schema_id, fixture }) => {
            assert_eq!(schema_id, "google@5.40.2");
            assert_eq!(fixture, "/suite/004_test");
        }
        _ => panic!("expected MissingSchema(google@5.40.2)"),
    }
}

fn probe() -> GoldenProbe {
    GoldenProbe {
        root_is_dir: true,
        manifest: FileRead::Parsed(manifest("999_mutated", vec![])),
        source_tf_is_file: true,
        mapping_plan: FileRead::Parsed(empty_plan()),
        expected_is_dir: true,
    }
}

#[test]
fn load_golden_checks_files_in_order() {
    let g = load_golden("/s/001", probe()).ok().expect("complete fixture loads");
    assert_eq!(g.source_tf, "/s/001/source.tf");
    assert_eq!(g.expected_target_dir, "/s/001/expected");
    assert_eq!(g.manifest.name, "999_mutated");

    let mut p = probe();
    p.manifest = FileRead::Absent;
    match load_golden("/s/001", p) {
        Err(EvalError::MissingFixtureFile { path, missing }) => {
            assert_eq!(path, "/s/001");
            assert_eq!(missing, "manifest.toml");
        }
        _ => panic!("manifest missing"),
    }
    let mut p = probe();
    p.manifest = FileRead::ParseFailed("bad toml".to_string());
    p.source_tf_is_file = false;
    match load_golden("/s/001", p) {
        Err(EvalError::ManifestParse { path, reason }) => {
            assert_eq!(path, "/s/001/manifest.toml");
            assert_eq!(reason, "bad toml");
        }
        _ => panic!("the manifest is checked before source.tf"),
    }
    let mut p = probe();
    p.expected_is_dir = false;
    match load_golden("/s/001", p) {
        Err(EvalError::MissingFixtureFile { missing, .. }) => assert_eq!(missing, "expected/"),
        _ => panic!("expected/ missing"),
    }
    let mut p = probe();
    p.root_is_dir = false;
    assert!(matches!(load_golden("/s/001", p), Err(EvalError::Io { kind: IoKind::NotFound, .. })));
    let mut p = probe();
    p.manifest = FileRead::ReadFailed(IoFailure { kind: IoKind::PermissionDenied, message: "denied".to_string() });
    match load_golden("/s/001", p) {
        Err(EvalError::Io { path, kind, reason }) => {
            assert_eq!(path, "/s/001/manifest.toml");
            assert_eq!(kind, IoKind::PermissionDenied);
            assert_eq!(reason, "denied");
        }
        _ => panic!("an unreadable manifest is an I/O error"),
    }
}

#[test]
fn discover_suite_finds_fixture_dirs_sorted() {
    let entry = |name: &str, is_dir: bool, has_manifest: bool| SuiteEntry { name: name.to_string(), is_dir, has_manifest };
    let listing = SuiteListing::Entries(vec![
        entry("002_aws_subnet_with_reference", true, true),
        entry(".schema-cache", true, true),
        entry("001_aws_vpc_minimal", true, true),
        entry("eval-baseline.json", false, false),
        entry("scratch", true, false),
    ]);
    let dirs = fixture_dirs("/suite", &listing).ok().expect("lists");
    assert_eq!(dirs, vec!["/suite/001_aws_vpc_minimal".to_string(), "/suite/002_aws_subnet_with_reference".to_string()]);
    match fixture_dirs("/nope", &SuiteListing::NotADirectory) {
        Err(EvalError::InvalidSuiteRoot(p)) => assert_eq!(p, "/nope"),
        _ => panic!("not a directory"),
    }
}

#[test]
fn eval_error_messages() {
    let e = EvalError::MissingSchema { fixture: "/f".to_string(), schema_id: "aws@1".to_string() };
    assert!(e.message().contains("aws@1"));
    assert!(e.message().contains("cargo xtask capture-eval-schemas"));
}

#[test]
fn invalid_utf8_is_decoded_lossily_in_the_diff() {
    let actual = DirListing::Entries(vec![DirFile {
        name: "a.tf".to_string(),
        is_file: true,
        content: Ok(vec![b'x', 0xff, b'y', b'\n']),
    }]);
    let expected = DirListing::Entries(vec![tf("a.tf", "xy\n")]);
    let c = compare_directories("/a", &actual, "/e", &expected).ok().expect("compares");
    assert!(!c.passed);
    let diff = c.diff.expect("a diff");
    assert!(diff.contains("-xy\n"), "{diff}");
    assert!(diff.contains("+x\u{FFFD}y\n"), "{diff}");
}

#[test]
fn diff_renders_each_change_with_its_sign() {
    let changes = vec![
        (ChangeKind::Equal, "a\n".to_string()),
        (ChangeKind::Delete, "b\n".to_string()),
        (ChangeKind::Insert, "c".to_string()),
    ];
    assert_eq!(render_unified_diff("f.tf", &changes), "--- expected/f.tf\n+++ actual/f.tf\n a\n-b\n+c\n\n");
    assert_eq!(render_unified_diff("g.tf", &vec![]), "--- expected/g.tf\n+++ actual/g.tf\n");
}
