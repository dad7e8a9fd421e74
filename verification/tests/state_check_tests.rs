use terrashift::mapper::{MappedResource, MappingPlan};
use terrashift::state_check::{
    canonical_provider_name, dominant_provider, flatten_resources, ChildModule, RootModule, StateResource,
    TerraformState, ValuesBlock, Verifier, VerifierError, VerifierIssue, VerifierReport, VerifierWarning,
};
use terrashift::strmap::StrMap;

const TEST_PROVIDER: &str = "aws";
const TEST_PROVIDER_URI: &str = "registry.terraform.io/hashicorp/aws";
const TYPES: [&str; 4] = ["aws_instance", "aws_s3_bucket", "aws_subnet", "aws_vpc"];

fn plan_with(types_and_names: &[(&str, &str)]) -> MappingPlan {
    MappingPlan {
        run_id: uuid::Uuid::new_v4().as_u128(),
        source_provider: "google".to_string(),
        target_provider: TEST_PROVIDER.to_string(),
        resources: types_and_names
            .iter()
            .map(|(rtype, name)| MappedResource {
                source_addr: format!("source.{name}"),
                target_addr: format!("{rtype}.{name}"),
                target_type: (*rtype).to_string(),
                target_name: (*name).to_string(),
                attributes: StrMap::new(),
                dependencies: vec![],
            })
            .collect(),
    }
}

fn resource(address: &str, mode: &str, rtype: &str, name: &str, provider: &str) -> StateResource {
    StateResource {
        address: address.to_string(),
        mode: mode.to_string(),
        resource_type: rtype.to_string(),
        name: name.to_string(),
        provider_name: provider.to_string(),
    }
}

fn state_with(resources: Vec<StateResource>) -> TerraformState {
    TerraformState {
        format_version: "1.0".to_string(),
        values: Some(ValuesBlock { root_module: RootModule { resources, child_modules: vec![] } }),
    }
}

fn managed(pairs: &[(&str, &str)]) -> Vec<StateResource> {
    pairs
        .iter()
        .map(|(t, n)| resource(&format!("{t}.{n}"), "managed", t, n, TEST_PROVIDER_URI))
        .collect()
}

#[test]
fn report_passed_iff_errors_empty() {
    let run_id = uuid::Uuid::new_v4().as_u128();
    let with_err = VerifierReport::new(
        run_id,
        1,
        0,
        vec![VerifierIssue::MissingResource { address: "aws_vpc.x".to_string(), resource_type: "aws_vpc".to_string() }],
        vec![],
    );
    assert!(!with_err.passed);
    let with_warn_only = VerifierReport::new(
        run_id,
        1,
        2,
        vec![],
        vec![VerifierWarning::ExtraResource { address: "aws_vpc.y".to_string(), resource_type: "aws_vpc".to_string() }],
    );
    assert!(with_warn_only.passed);
}

#[test]
fn issue_display_names_address_and_type() {
    let issue = VerifierIssue::MissingResource { address: "aws_vpc.main".to_string(), resource_type: "aws_vpc".to_string() };
    let s = issue.message();
    assert!(s.contains("aws_vpc.main"));
    assert!(s.contains("aws_vpc"));
    assert!(s.contains("Article IV"));
}

#[test]
fn type_mismatch_display_shows_both_types() {
    let issue = VerifierIssue::TypeMismatch {
        address: "aws_vpc.main".to_string(),
        expected_type: "aws_vpc".to_string(),
        actual_type: "aws_vpc_v2".to_string(),
    };
    let s = issue.message();
    assert!(s.contains("aws_vpc"));
    assert!(s.contains("aws_vpc_v2"));
}

#[test]
fn warning_display_distinguishes_from_error() {
    let warn = VerifierWarning::ExtraResource {
        address: "aws_s3_bucket.uploads".to_string(),
        resource_type: "aws_s3_bucket".to_string(),
    };
    let s = warn.message();
    assert!(s.contains("extra resource"));
    assert!(!s.contains("Article IV"));
}

#[test]
fn canonical_provider_name_handles_full_uri() {
    assert_eq!(canonical_provider_name("registry.terraform.io/hashicorp/aws"), "aws");
    assert_eq!(canonical_provider_name("hashicorp/google"), "google");
    assert_eq!(canonical_provider_name("azurerm"), "azurerm");
}

#[test]
fn parse_minimal_state() {
    let state = state_with(vec![resource("aws_vpc.main", "managed", "aws_vpc", "main", TEST_PROVIDER_URI)]);
    assert_eq!(state.format_version, "1.0");
    let flat = flatten_resources(&state);
    assert_eq!(flat.len(), 1);
    assert_eq!(flat[0].address, "aws_vpc.main");
    assert_eq!(flat[0].resource_type, "aws_vpc");
}

#[test]
fn parse_state_with_no_values() {
    let state = TerraformState { format_version: "1.0".to_string(), values: None };
    assert!(state.values.is_none());
    assert_eq!(flatten_resources(&state).len(), 0);
}

#[test]
fn parse_state_with_child_modules_recursive() {
    let state = TerraformState {
        format_version: "1.0".to_string(),
        values: Some(ValuesBlock {
            root_module: RootModule {
                resources: vec![resource("a", "managed", "t", "a", TEST_PROVIDER_URI)],
                child_modules: vec![ChildModule {
                    address: Some("module.foo".to_string()),
                    resources: vec![resource("module.foo.b", "managed", "t", "b", TEST_PROVIDER_URI)],
                    child_modules: vec![ChildModule {
                        address: Some("module.foo.module.bar".to_string()),
                        resources: vec![resource("module.foo.module.bar.c", "managed", "t", "c", TEST_PROVIDER_URI)],
                        child_modules: vec![],
                    }],
                }],
            },
        }),
    };
    let flat = flatten_resources(&state);
    assert_eq!(flat.len(), 3);
    let addrs: Vec<&str> = flat.iter().map(|r| r.address.as_str()).collect();
    assert!(addrs.contains(&"a"));
    assert!(addrs.contains(&"module.foo.b"));
    assert!(addrs.contains(&"module.foo.module.bar.c"));
}

#[test]
fn sc001_4_resources_matching_state_passes() {
    let pairs: Vec<(&str, &str)> = TYPES.iter().zip(["alpha", "bravo", "charlie", "delta"]).map(|(t, n)| (*t, n)).collect();
    let plan = plan_with(&pairs);
    let state = state_with(managed(&pairs));
    let report = Verifier::new().verify_state(&plan, &state).ok().expect("verify should succeed on matching plan/state");
    assert!(report.passed);
    assert_eq!(report.errors.len(), 0);
    assert_eq!(report.warnings.len(), 0);
    assert_eq!(report.expected_count, 4);
    assert_eq!(report.actual_count, 4);
}

#[test]
fn sc002_4_expected_3_actual_reports_one_missing() {
    let plan_pairs: Vec<(&str, &str)> = TYPES.iter().zip(["a", "b", "c", "d"]).map(|(t, n)| (*t, n)).collect();
    let plan = plan_with(&plan_pairs);
    let state = state_with(managed(&plan_pairs[..3]));
    let report = Verifier::new().verify_state(&plan, &state).ok().expect("verify");
    assert!(!report.passed);
    assert_eq!(report.errors.len(), 1);
    assert_eq!(report.warnings.len(), 0);
    match &report.errors[0] {
        VerifierIssue::MissingResource { address, resource_type } => {
            assert_eq!(address, &format!("{}.{}", TYPES[3], "d"));
            assert_eq!(resource_type, TYPES[3]);
        }
        _ => panic!("expected MissingResource"),
    }
}

#[test]
fn sc003_3_expected_4_actual_warns_one_extra() {
    let plan_pairs: Vec<(&str, &str)> = TYPES.iter().take(3).zip(["a", "b", "c"]).map(|(t, n)| (*t, n)).collect();
    let state_pairs: Vec<(&str, &str)> = TYPES.iter().zip(["a", "b", "c", "d"]).map(|(t, n)| (*t, n)).collect();
    let plan = plan_with(&plan_pairs);
    let state = state_with(managed(&state_pairs));
    let report = Verifier::new().verify_state(&plan, &state).ok().expect("verify");
    assert!(report.passed);
    assert_eq!(report.errors.len(), 0);
    assert_eq!(report.warnings.len(), 1);
    match &report.warnings[0] {
        VerifierWarning::ExtraResource { address, resource_type } => {
            assert_eq!(address, &format!("{}.{}", TYPES[3], "d"));
            assert_eq!(resource_type, TYPES[3]);
        }
    }
}

#[test]
fn sc004_same_address_different_type_reports_mismatch() {
    let plan = plan_with(&[(TYPES[0], "alpha")]);
    let state = state_with(vec![resource(&format!("{}.alpha", TYPES[0]), "managed", TYPES[1], "alpha", TEST_PROVIDER_URI)]);
    let report = Verifier::new().verify_state(&plan, &state).ok().expect("verify");
    assert!(!report.passed);
    assert_eq!(report.errors.len(), 1, "expected exactly one TypeMismatch error");
    match &report.errors[0] {
        VerifierIssue::TypeMismatch { address, expected_type, actual_type } => {
            assert_eq!(address, &format!("{}.alpha", TYPES[0]));
            assert_eq!(expected_type, TYPES[0]);
            assert_eq!(actual_type, TYPES[1]);
        }
        _ => panic!("expected TypeMismatch"),
    }
}

#[test]
fn q6_provider_mismatch_returns_typed_error() {
    let plan = plan_with(&[("azurerm_resource_group", "x")]);
    let state = state_with(vec![resource(
        "azurerm_resource_group.x",
        "managed",
        "azurerm_resource_group",
        "x",
        "registry.terraform.io/hashicorp/azurerm",
    )]);
    match Verifier::new().verify_state(&plan, &state) {
        Err(VerifierError::ProviderMismatch { expected, actual }) => {
            assert_eq!(expected, "aws");
            assert_eq!(actual, "azurerm");
        }
        _ => panic!("expected ProviderMismatch"),
    }
}

#[test]
fn q7_unsupported_format_version_returns_typed_error() {
    let plan = plan_with(&[]);
    let state = TerraformState {
        format_version: "0.12".to_string(),
        values: Some(ValuesBlock { root_module: RootModule { resources: vec![], child_modules: vec![] } }),
    };
    match Verifier::new().verify_state(&plan, &state) {
        Err(VerifierError::UnsupportedFormatVersion(v)) => assert_eq!(v, "0.12"),
        _ => panic!("expected UnsupportedFormatVersion"),
    }
}

#[test]
fn empty_state_after_init_reports_all_plan_resources_as_missing() {
    let plan = plan_with(&[(TYPES[0], "a"), (TYPES[1], "b")]);
    let state = TerraformState { format_version: "1.0".to_string(), values: None };
    let report = Verifier::new().verify_state(&plan, &state).ok().expect("verify");
    assert!(!report.passed);
    assert_eq!(report.errors.len(), 2);
    assert_eq!(report.warnings.len(), 0);
    assert_eq!(report.actual_count, 0);
    for err in &report.errors {
        assert!(matches!(err, VerifierIssue::MissingResource { .. }));
    }
}

#[test]
fn data_sources_in_state_dont_count_as_extras() {
    let plan = plan_with(&[(TYPES[0], "x")]);
    let state = state_with(vec![
        resource(&format!("{}.x", TYPES[0]), "managed", TYPES[0], "x", TEST_PROVIDER_URI),
        resource(&format!("data.{}.runtime", TYPES[0]), "data", TYPES[0], "runtime", TEST_PROVIDER_URI),
    ]);
    let report = Verifier::new().verify_state(&plan, &state).ok().expect("verify");
    assert!(report.passed);
    assert_eq!(report.errors.len(), 0);
    assert_eq!(report.warnings.len(), 0, "data sources must not count as extras");
}

#[test]
fn dominant_provider_picks_the_most_frequent() {
    let state = state_with(vec![
        resource("a.x", "managed", "a", "x", "registry.terraform.io/hashicorp/aws"),
        resource("b.x", "managed", "b", "x", "registry.terraform.io/hashicorp/google"),
        resource("c.x", "managed", "c", "x", "registry.terraform.io/hashicorp/google"),
    ]);
    let flat = flatten_resources(&state);
    assert_eq!(dominant_provider(&flat), Some("google".to_string()));
    let empty = TerraformState { format_version: "1.0".to_string(), values: None };
    assert_eq!(dominant_provider(&flatten_resources(&empty)), None);
}

#[test]
fn verifier_error_messages() {
    let e = VerifierError::UnsupportedFormatVersion("0.12".to_string());
    assert!(e.message().contains("0.12"));
}
