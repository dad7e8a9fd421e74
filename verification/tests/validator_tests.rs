use terrashift::mapper::{AttributeValue, MappedResource, MappingPlan};
use terrashift::strmap::StrMap;
use terrashift::validator::{
    validate_against_schema, AttributeSchema, ProviderSchema, ResourceSchema, ValidationError, ValidationWarning,
};

fn attribute(
    name: &str,
    attribute_type: &str,
    required: bool,
    optional: bool,
    computed: bool,
    deprecated: Option<&str>,
    description: Option<&str>,
) -> AttributeSchema {
    AttributeSchema {
        name: name.to_string(),
        attribute_type: attribute_type.to_string(),
        required,
        optional,
        computed,
        sensitive: false,
        deprecated: deprecated.map(|d| d.to_string()),
        description: description.map(|d| d.to_string()),
    }
}

fn make_aws_test_schema() -> ProviderSchema {
    let mut attrs = StrMap::new();
    attrs.insert("cidr_block".to_string(), attribute("cidr_block", "string", true, false, false, None, Some("IPv4 CIDR")));
    attrs.insert("instance_tenancy".to_string(), attribute("instance_tenancy", "string", false, true, false, None, None));
    attrs.insert("arn".to_string(), attribute("arn", "string", false, false, true, None, Some("Read-only ARN")));
    attrs.insert(
        "enable_classiclink".to_string(),
        attribute("enable_classiclink", "bool", false, true, false, Some("5.0.0"), Some("Removed by AWS in 2022")),
    );
    let mut resources = StrMap::new();
    resources.insert(
        "aws_vpc".to_string(),
        ResourceSchema {
            name: "aws_vpc".to_string(),
            description: Some("AWS Virtual Private Cloud".to_string()),
            attributes: attrs,
        },
    );
    ProviderSchema { provider: "aws".to_string(), version: "5.30.0".to_string(), resources }
}

fn vpc_resource(name: &str, attrs: StrMap<AttributeValue>) -> MappedResource {
    MappedResource {
        source_addr: format!("google_compute_network.{}", name),
        target_addr: format!("aws_vpc.{}", name),
        target_type: "aws_vpc".to_string(),
        target_name: name.to_string(),
        attributes: attrs,
        dependencies: vec![],
    }
}

fn make_plan(resources: Vec<MappedResource>) -> MappingPlan {
    MappingPlan {
        run_id: uuid::Uuid::new_v4().as_u128(),
        source_provider: "google".to_string(),
        target_provider: "aws".to_string(),
        resources,
    }
}

fn s(v: &str) -> AttributeValue {
    AttributeValue::String(v.to_string())
}

#[test]
fn valid_plan_passes() {
    let mut attrs = StrMap::new();
    attrs.insert("cidr_block".to_string(), s("10.0.0.0/16"));
    attrs.insert("instance_tenancy".to_string(), s("default"));
    let plan = make_plan(vec![vpc_resource("main", attrs)]);
    let report = validate_against_schema(&plan, &make_aws_test_schema());
    assert!(report.passed, "valid plan must pass");
    assert!(report.errors.is_empty());
    assert!(report.warnings.is_empty(), "no deprecated/computed attrs set; warnings should be empty");
}

#[test]
fn hallucinated_attribute_fails_with_article_iii_message() {
    let mut attrs = StrMap::new();
    attrs.insert("cidr_block".to_string(), s("10.0.0.0/16"));
    attrs.insert("cidr_blocks".to_string(), s("10.0.0.0/16"));
    let plan = make_plan(vec![vpc_resource("main", attrs)]);
    let report = validate_against_schema(&plan, &make_aws_test_schema());
    assert!(!report.passed, "hallucinated attr must block");
    assert!(report
        .errors
        .iter()
        .any(|e| matches!(e, ValidationError::UnknownAttribute { attr, .. } if attr == "cidr_blocks")));
    let msg = report.errors[0].message();
    assert!(msg.contains("Article III"), "error message cites Article III: {msg}");
}

#[test]
fn missing_required_attribute_fails() {
    let mut attrs = StrMap::new();
    attrs.insert("instance_tenancy".to_string(), s("default"));
    let plan = make_plan(vec![vpc_resource("main", attrs)]);
    let report = validate_against_schema(&plan, &make_aws_test_schema());
    assert!(!report.passed);
    assert!(report
        .errors
        .iter()
        .any(|e| matches!(e, ValidationError::MissingRequiredAttribute { attr, .. } if attr == "cidr_block")));
}

#[test]
fn unknown_resource_type_fails() {
    let mut attrs = StrMap::new();
    attrs.insert("foo".to_string(), s("bar"));
    let bogus = MappedResource {
        source_addr: "x.y".to_string(),
        target_addr: "aws_buckets.main".to_string(),
        target_type: "aws_buckets".to_string(),
        target_name: "main".to_string(),
        attributes: attrs,
        dependencies: vec![],
    };
    let plan = make_plan(vec![bogus]);
    let report = validate_against_schema(&plan, &make_aws_test_schema());
    assert!(!report.passed);
    assert!(report
        .errors
        .iter()
        .any(|e| matches!(e, ValidationError::UnknownResourceType { target_type, .. } if target_type == "aws_buckets")));
    assert!(!report.errors.iter().any(|e| matches!(e, ValidationError::UnknownAttribute { .. })));
}

#[test]
fn deprecated_attribute_warns_not_blocks() {
    let mut attrs = StrMap::new();
    attrs.insert("cidr_block".to_string(), s("10.0.0.0/16"));
    attrs.insert("enable_classiclink".to_string(), AttributeValue::Bool(true));
    let plan = make_plan(vec![vpc_resource("main", attrs)]);
    let report = validate_against_schema(&plan, &make_aws_test_schema());
    assert!(report.passed, "deprecated attr is non-blocking");
    assert!(report.errors.is_empty());
    assert!(report.warnings.iter().any(|w| matches!(
        w,
        ValidationWarning::DeprecatedAttribute { attr, since, .. } if attr == "enable_classiclink" && since == "5.0.0"
    )));
}

#[test]
fn multiple_errors_aggregate_not_fail_fast() {
    let mut a1 = StrMap::new();
    a1.insert("cidr_block".to_string(), s("10.0.0.0/16"));
    a1.insert("hallucinated_field_one".to_string(), s("x"));
    let mut a2 = StrMap::new();
    a2.insert("instance_tenancy".to_string(), s("default"));
    let bogus = MappedResource {
        source_addr: "x.z".to_string(),
        target_addr: "aws_widgets.foo".to_string(),
        target_type: "aws_widgets".to_string(),
        target_name: "foo".to_string(),
        attributes: StrMap::new(),
        dependencies: vec![],
    };
    let plan = make_plan(vec![vpc_resource("a", a1), vpc_resource("b", a2), bogus]);
    let report = validate_against_schema(&plan, &make_aws_test_schema());
    assert!(!report.passed);
    assert!(report.errors.len() >= 3, "aggregate at least 3 errors (one per resource): got {}", report.errors.len());
    let mut saw_unknown_type = false;
    let mut saw_unknown_attr = false;
    let mut saw_missing_required = false;
    for e in &report.errors {
        match e {
            ValidationError::UnknownResourceType { .. } => saw_unknown_type = true,
            ValidationError::UnknownAttribute { .. } => saw_unknown_attr = true,
            ValidationError::MissingRequiredAttribute { .. } => saw_missing_required = true,
        }
    }
    assert!(saw_unknown_type, "expect UnknownResourceType");
    assert!(saw_unknown_attr, "expect UnknownAttribute");
    assert!(saw_missing_required, "expect MissingRequiredAttribute");
}

#[test]
fn setting_computed_attribute_warns() {
    let mut attrs = StrMap::new();
    attrs.insert("cidr_block".to_string(), s("10.0.0.0/16"));
    attrs.insert("arn".to_string(), s("arn:aws:ec2:us-east-1::vpc/xxx"));
    let plan = make_plan(vec![vpc_resource("main", attrs)]);
    let report = validate_against_schema(&plan, &make_aws_test_schema());
    assert!(report.passed, "setting computed is non-blocking");
    assert!(report
        .warnings
        .iter()
        .any(|w| matches!(w, ValidationWarning::SetComputedAttribute { attr, .. } if attr == "arn")));
}
