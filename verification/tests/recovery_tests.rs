use terrashift::cost_optimizer::{finish_optimizer, CostFixApplier, OptimizerAction, OptimizerEnd, OptimizerError, OptimizerLoop};
use terrashift::mapper::{AttributeValue, MappedResource, MappingPlan};
use terrashift::recovery::{
    build_recovery_prompt, finish_recovery, json_value_to_attribute_value, AgentCycleEnd, FinalCheck, FixApplier,
    JsonValue, RecoveryAction, RecoveryConfig, RecoveryLoop, RecoveryOutcome,
};
use terrashift::strmap::StrMap;
use terrashift::validator::{ValidationError, ValidationReport};

fn one_resource_plan(target_type: &str, attr_key: &str, attr_val: &str) -> MappingPlan {
    let mut attrs = StrMap::new();
    attrs.insert(attr_key.to_string(), AttributeValue::String(attr_val.to_string()));
    MappingPlan {
        run_id: uuid::Uuid::new_v4().as_u128(),
        source_provider: "google".to_string(),
        target_provider: "aws".to_string(),
        resources: vec![MappedResource {
            source_addr: "google_compute_network.main".to_string(),
            target_addr: format!("{target_type}.main"),
            target_type: target_type.to_string(),
            target_name: "main".to_string(),
            attributes: attrs,
            dependencies: Vec::new(),
        }],
    }
}

fn s(v: &str) -> JsonValue {
    JsonValue::String(v.to_string())
}

fn object(members: &[(&str, JsonValue)]) -> JsonValue {
    JsonValue::Object(members.iter().map(|(k, v)| (k.to_string(), clone_json(v))).collect())
}

fn clone_json(v: &JsonValue) -> JsonValue {
    match v {
        JsonValue::Null => JsonValue::Null,
        JsonValue::Bool(b) => JsonValue::Bool(*b),
        JsonValue::Number { bits, text } => JsonValue::Number { bits: *bits, text: text.clone() },
        JsonValue::String(x) => JsonValue::String(x.clone()),
        JsonValue::Array(xs) => JsonValue::Array(xs.iter().map(clone_json).collect()),
        JsonValue::Object(ms) => JsonValue::Object(ms.iter().map(|(k, v)| (k.clone(), clone_json(v))).collect()),
    }
}

#[test]
fn fix_applier_set_attribute_updates_plan() {
    let mut plan = one_resource_plan("aws_vpc", "cidr_blocks", "10.0.0.0/16");
    let mut applier = FixApplier::new();
    let args = object(&[("attribute", s("cidr_block")), ("target_addr", s("aws_vpc.main")), ("value", s("10.0.0.0/16"))]);
    let result = applier.execute_tool_call(&mut plan, "set_attribute", &args).ok().expect("execute ok");
    assert!(!result.is_error);
    assert!(plan.resources[0].attributes.contains_key("cidr_block"));
    assert_eq!(applier.fix_count, 1);
}

#[test]
fn fix_applier_change_target_type_updates_addr() {
    let mut plan = one_resource_plan("aws_buckets", "name", "x");
    let mut applier = FixApplier::new();
    let args = object(&[("new_type", s("aws_s3_bucket")), ("target_addr", s("aws_buckets.main"))]);
    applier.execute_tool_call(&mut plan, "change_target_type", &args).ok().expect("execute ok");
    assert_eq!(plan.resources[0].target_type, "aws_s3_bucket");
    assert_eq!(plan.resources[0].target_addr, "aws_s3_bucket.main");
}

#[test]
fn fix_applier_remove_resource_drops_from_plan() {
    let mut plan = one_resource_plan("aws_invalid", "x", "y");
    let mut applier = FixApplier::new();
    let args = object(&[("target_addr", s("aws_invalid.main"))]);
    applier.execute_tool_call(&mut plan, "remove_resource", &args).ok().expect("execute ok");
    assert!(plan.resources.is_empty());
}

#[test]
fn fix_applier_unknown_target_addr_is_error() {
    let mut plan = one_resource_plan("aws_vpc", "cidr_block", "x");
    let mut applier = FixApplier::new();
    let args = object(&[("attribute", s("x")), ("target_addr", s("missing.thing")), ("value", s("y"))]);
    let result = applier.execute_tool_call(&mut plan, "set_attribute", &args).ok().expect("execute ok");
    assert!(result.is_error, "missing target should be an error");
    assert!(result.result.contains("not found"));
    assert_eq!(applier.fix_count, 0);
}

#[test]
fn fix_applier_unknown_tool_name_is_error_not_panic() {
    let mut plan = one_resource_plan("aws_vpc", "cidr_block", "x");
    let mut applier = FixApplier::new();
    let result = applier.execute_tool_call(&mut plan, "definitely_not_a_tool", &object(&[])).ok().expect("execute ok");
    assert!(result.is_error);
    assert!(result.result.contains("unknown recovery tool"));
}

#[test]
fn fix_applier_missing_argument_is_refused() {
    let mut plan = one_resource_plan("aws_vpc", "cidr_block", "x");
    let mut applier = FixApplier::new();
    let err = applier.execute_tool_call(&mut plan, "remove_resource", &object(&[])).err().expect("refused");
    assert!(err.message.contains("target_addr"));
    assert_eq!(plan.resources.len(), 1);
}

#[test]
fn recovery_prompt_lists_each_error() {
    let plan = one_resource_plan("aws_buckets", "x", "y");
    let report = ValidationReport::new(
        vec![
            ValidationError::UnknownResourceType { addr: "aws_buckets.main".to_string(), target_type: "aws_buckets".to_string() },
            ValidationError::MissingRequiredAttribute {
                addr: "aws_s3_bucket.x".to_string(),
                attr: "bucket".to_string(),
                target_type: "aws_s3_bucket".to_string(),
            },
        ],
        Vec::new(),
    );
    let prompt = build_recovery_prompt(&report, &plan);
    assert!(prompt.contains("aws_buckets"));
    assert!(prompt.contains("MissingRequiredAttribute") || prompt.contains("missing required"));
    assert!(prompt.contains("set_attribute"));
    assert!(prompt.contains("change_target_type"));
}

#[test]
fn json_null_is_not_an_attribute_value() {
    let err = json_value_to_attribute_value(&JsonValue::Null).err().expect("null refused");
    assert_eq!(err.message, "null is not a valid attribute value");
    let nested = JsonValue::Array(vec![s("a"), JsonValue::Bool(true)]);
    match json_value_to_attribute_value(&nested) {
        Ok(AttributeValue::List(items)) => assert_eq!(items.len(), 2),
        _ => panic!("an array converts to a list"),
    }
}

#[test]
fn recovery_loop_is_bounded_by_max_iterations() {
    assert!(RecoveryLoop::start(&RecoveryConfig { max_iterations: 0 }).is_err());
    let mut l = RecoveryLoop::start(&RecoveryConfig { max_iterations: 2 }).ok().expect("starts");
    let plan = one_resource_plan("aws_buckets", "x", "y");
    let failing = ValidationReport::new(
        vec![ValidationError::UnknownResourceType { addr: "aws_buckets.main".to_string(), target_type: "aws_buckets".to_string() }],
        vec![],
    );
    assert!(matches!(l.on_validated(&failing, &plan, 0), RecoveryAction::RunAgent { .. }));
    assert!(matches!(l.on_agent_done(AgentCycleEnd::Other, 1), RecoveryAction::Validate));
    assert!(matches!(l.on_validated(&failing, &plan, 1), RecoveryAction::RunAgent { .. }));
    match l.on_agent_done(AgentCycleEnd::Other, 2) {
        RecoveryAction::FinalValidate { check, iterations } => {
            assert_eq!(check, FinalCheck::OutOfIterations);
            assert_eq!(iterations, 2);
        }
        _ => panic!("the budget is spent after two rounds"),
    }
    match finish_recovery(FinalCheck::OutOfIterations, 2, 2, failing) {
        RecoveryOutcome::MaxIterationsReached { iterations, unresolved_errors } => {
            assert_eq!(iterations, 2);
            assert_eq!(unresolved_errors.len(), 1);
        }
        _ => panic!("out of iterations"),
    }
}

#[test]
fn last_round_that_fixes_the_plan_is_a_success() {
    let passing = ValidationReport::new(vec![], vec![]);
    match finish_recovery(FinalCheck::OutOfIterations, 2, 4, passing) {
        RecoveryOutcome::Success { iterations, fixes_applied } => {
            assert_eq!(iterations, 2);
            assert_eq!(fixes_applied, 4);
        }
        _ => panic!("a final check without errors is a success"),
    }
    let failing = ValidationReport::new(
        vec![ValidationError::UnknownResourceType { addr: "aws_buckets.main".to_string(), target_type: "aws_buckets".to_string() }],
        vec![],
    );
    match finish_recovery(FinalCheck::GaveUp, 1, 0, failing) {
        RecoveryOutcome::AgentGaveUp { iterations, unresolved_errors } => {
            assert_eq!(iterations, 1);
            assert_eq!(unresolved_errors.len(), 1);
        }
        _ => panic!("the agent gave up with errors left"),
    }
}

#[test]
fn recovery_agent_without_fixes_gives_up() {
    let mut l = RecoveryLoop::start(&RecoveryConfig::default_config()).ok().expect("starts");
    assert_eq!(l.max_iterations, 5);
    let plan = one_resource_plan("aws_buckets", "x", "y");
    let failing = ValidationReport::new(
        vec![ValidationError::UnknownResourceType { addr: "aws_buckets.main".to_string(), target_type: "aws_buckets".to_string() }],
        vec![],
    );
    let _ = l.on_validated(&failing, &plan, 3);
    match l.on_agent_done(AgentCycleEnd::FinalAnswerReached, 3) {
        RecoveryAction::FinalValidate { check, iterations } => {
            assert_eq!(check, FinalCheck::GaveUp);
            assert_eq!(iterations, 1);
        }
        _ => panic!("no fix this round: the agent gave up"),
    }
    let passing = ValidationReport::new(vec![], vec![]);
    match l.on_validated(&passing, &plan, 3) {
        RecoveryAction::Finish(RecoveryOutcome::Success { iterations, fixes_applied }) => {
            assert_eq!(iterations, 0);
            assert_eq!(fixes_applied, 3);
        }
        _ => panic!("a passing report finishes"),
    }
}

#[test]
fn cost_fix_applier_set_attribute_updates_plan() {
    let mut plan = one_resource_plan("aws_instance", "instance_type", "m5.large");
    let mut applier = CostFixApplier::new();
    let args = object(&[("attribute", s("instance_type")), ("target_addr", s("aws_instance.main")), ("value", s("m6g.large"))]);
    let r = applier.execute_tool_call(&mut plan, "set_attribute", &args).ok().expect("execute ok");
    assert!(!r.is_error);
    match plan.resources[0].attributes.get("instance_type") {
        Some(AttributeValue::String(v)) => assert_eq!(v, "m6g.large"),
        _ => panic!("instance_type updated"),
    }
    let r = applier.execute_tool_call(&mut plan, "change_target_type", &object(&[])).ok().expect("completes");
    assert!(r.is_error);
    assert!(r.result.contains("unknown optimizer tool"));
}

#[test]
fn optimizer_loop_validates_its_config() {
    assert!(matches!(OptimizerLoop::start(0, false), Err(OptimizerError::InvalidConfig(_))));
    assert!(matches!(OptimizerLoop::start(3, true), Err(OptimizerError::InvalidConfig(_))));
    let l = OptimizerLoop::start(3, false).ok().expect("starts");
    match l.on_starting_estimate(true) {
        OptimizerAction::Finish(OptimizerEnd::Success { iterations, fixes_applied }) => {
            assert_eq!((iterations, fixes_applied), (0, 0));
        }
        _ => panic!("a plan already under target needs no round"),
    }
}

#[test]
fn optimizer_last_round_ends_by_the_final_estimate() {
    let mut l = OptimizerLoop::start(1, false).ok().expect("starts");
    assert!(matches!(l.on_estimate(false, 0), OptimizerAction::RunAgent));
    let (check, iterations) = match l.on_agent_done(AgentCycleEnd::Other, 1) {
        OptimizerAction::FinalEstimate { check, iterations } => (check, iterations),
        _ => panic!("one round is the whole budget"),
    };
    assert_eq!(check, FinalCheck::OutOfIterations);
    assert_eq!(iterations, 1);
    match finish_optimizer(check, iterations, 1, true) {
        OptimizerEnd::Success { iterations, fixes_applied } => assert_eq!((iterations, fixes_applied), (1, 1)),
        _ => panic!("under target after the last round is a success"),
    }
    match finish_optimizer(check, iterations, 1, false) {
        OptimizerEnd::MaxIterationsReached { iterations } => assert_eq!(iterations, 1),
        _ => panic!("above target after the last round"),
    }
    match finish_optimizer(FinalCheck::GaveUp, 2, 0, false) {
        OptimizerEnd::AgentGaveUp { iterations } => assert_eq!(iterations, 2),
        _ => panic!("gave up above target"),
    }
}
