use terrashift::generator::{
    after_backup_rename, after_restore_rename, backup_path, backup_root, is_cross_device, parse_reference,
    plan_emission, rollback_action, rollback_emitted, to_expression, BackupError, EmittedFile, GeneratedArtifacts,
    Generator, GeneratorError, HclExpr, MoveNext, RenameOutcome, RollbackAction, TemplateRegistry,
};
use terrashift::mapper::{AttributeValue, MappedResource, MappingPlan};
use terrashift::strmap::StrMap;

fn make_attr_string(s: &str) -> AttributeValue {
    AttributeValue::String(s.to_string())
}

fn make_attr_ref(s: &str) -> AttributeValue {
    AttributeValue::Reference(s.to_string())
}

fn aws_vpc_resource(name: &str, cidr: &str) -> MappedResource {
    let mut attrs = StrMap::new();
    attrs.insert("cidr_block".to_string(), make_attr_string(cidr));
    attrs.insert("instance_tenancy".to_string(), make_attr_string("default"));
    MappedResource {
        source_addr: format!("aws_vpc.{}", name),
        target_addr: format!("aws_vpc.{}", name),
        target_type: "aws_vpc".to_string(),
        target_name: name.to_string(),
        attributes: attrs,
        dependencies: vec![],
    }
}

fn aws_subnet_resource(name: &str, cidr: &str, vpc_ref: &str) -> MappedResource {
    let mut attrs = StrMap::new();
    attrs.insert("cidr_block".to_string(), make_attr_string(cidr));
    attrs.insert("vpc_id".to_string(), make_attr_ref(vpc_ref));
    MappedResource {
        source_addr: format!("aws_subnet.{}", name),
        target_addr: format!("aws_subnet.{}", name),
        target_type: "aws_subnet".to_string(),
        target_name: name.to_string(),
        attributes: attrs,
        dependencies: vec![],
    }
}

fn plan_with(resources: Vec<MappedResource>) -> MappingPlan {
    MappingPlan {
        run_id: uuid::Uuid::new_v4().as_u128(),
        source_provider: "google".to_string(),
        target_provider: "aws".to_string(),
        resources,
    }
}

#[test]
fn template_count_is_21() {
    let g = Generator::new();
    assert_eq!(g.template_count(), 21, "21 hand-curated templates");
}

#[test]
fn multi_resource_plan_writes_one_file_per_type() {
    let plan = plan_with(vec![
        aws_vpc_resource("main", "10.0.0.0/16"),
        aws_vpc_resource("backup", "10.1.0.0/16"),
        aws_subnet_resource("a", "10.0.1.0/24", "aws_vpc.main.id"),
    ]);
    let files = match plan_emission(&plan) {
        Ok(files) => files,
        Err(e) => panic!("emission failed: {}", e.message()),
    };
    assert_eq!(files.len(), 2, "two target_types → two files");
    assert_eq!(files[0].file_name, "aws_subnet.tf");
    assert_eq!(files[1].file_name, "aws_vpc.tf");
    let total: usize = files.iter().map(|f| f.blocks.len()).sum();
    assert_eq!(total, 3, "all 3 resources land in the output");
    // Within a file, blocks come in address order.
    assert_eq!(files[1].blocks[0].name, "backup");
    assert_eq!(files[1].blocks[1].name, "main");
}

#[test]
fn template_miss_is_loud_error() {
    let mut attrs = StrMap::new();
    attrs.insert("foo".to_string(), make_attr_string("bar"));
    let unknown = MappedResource {
        source_addr: "unknown_type.x".to_string(),
        target_addr: "unknown_type.x".to_string(),
        target_type: "unknown_type".to_string(),
        target_name: "x".to_string(),
        attributes: attrs,
        dependencies: vec![],
    };
    let plan = plan_with(vec![unknown]);
    let err = plan_emission(&plan).err().expect("unknown target_type must error");
    let msg = err.message();
    assert!(msg.contains("unknown_type"), "error names the missing type: {msg}");
    assert!(msg.contains("template miss"), "error says 'template miss': {msg}");
}

#[test]
fn references_emit_as_raw_hcl_traversals() {
    match to_expression(&make_attr_ref("aws_vpc.main.id")) {
        Ok(HclExpr::Ref { head, attrs }) => {
            assert_eq!(head, "aws_vpc");
            assert_eq!(attrs, vec!["main".to_string(), "id".to_string()]);
        }
        _ => panic!("a reference emits as a traversal, not a quoted string"),
    }
    assert!(matches!(to_expression(&make_attr_string("aws_vpc.main.id")), Ok(HclExpr::Str(_))));
}

#[test]
fn empty_reference_is_loud_error() {
    let mut attrs = StrMap::new();
    attrs.insert("cidr_block".to_string(), make_attr_string("10.0.1.0/24"));
    attrs.insert("vpc_id".to_string(), make_attr_ref(""));
    let bad = MappedResource {
        source_addr: "aws_subnet.bad".to_string(),
        target_addr: "aws_subnet.bad".to_string(),
        target_type: "aws_subnet".to_string(),
        target_name: "bad".to_string(),
        attributes: attrs,
        dependencies: vec![],
    };
    let plan = plan_with(vec![bad]);
    let err = plan_emission(&plan).err().expect("empty reference must error");
    let msg = err.message();
    assert!(msg.contains("empty reference") || msg.contains("EmptyReference"), "empty reference is loud: {msg}");
    assert!(matches!(parse_reference(""), Err(GeneratorError::EmptyReference)));
    assert!(matches!(parse_reference(".x"), Err(GeneratorError::EmptyReference)));
}

#[test]
fn missing_required_attr_is_loud_error() {
    let mut r = aws_vpc_resource("main", "10.0.0.0/16");
    r.attributes = StrMap::new();
    let plan = plan_with(vec![r]);
    let err = plan_emission(&plan).err().expect("missing cidr_block must error");
    let msg = err.message();
    assert!(msg.contains("cidr_block") || msg.to_lowercase().contains("missing"), "got: {msg}");
}

#[test]
fn registry_lists_curated_types_in_order() {
    let reg = TemplateRegistry::stage1();
    let types = reg.registered_types();
    assert_eq!(types.len(), 21);
    assert_eq!(types[0], "aws_vpc");
    assert_eq!(types[20], "azurerm_resource_group");
    assert!(reg.template_for("aws_vpc").is_some());
    assert!(reg.template_for("azurerm_virtual_machine").is_none());
}

#[test]
fn greenfield_write_creates_no_backup() {
    let emitted = vec![EmittedFile { path: "/out/aws_vpc.tf".to_string(), backup_path: None, overwrote: false }];
    let artifacts = GeneratedArtifacts::from_emitted(emitted);
    assert_eq!(artifacts.backups_created, 0, "no overwrite, no backup");
    assert_eq!(artifacts.backups.len(), 0);
    assert_eq!(artifacts.emitted.len(), 1);
    assert!(artifacts.emitted[0].backup_path.is_none(), "EmittedFile.backup_path is None for greenfield");
    assert!(!artifacts.emitted[0].overwrote, "overwrote = false");
    assert_eq!(artifacts.files, vec!["/out/aws_vpc.tf".to_string()]);
}

#[test]
fn backup_first_preserves_original_content() {
    let run_id = uuid::Uuid::new_v4();
    let op_id = uuid::Uuid::new_v4();
    let p = backup_path("/cwd", run_id.as_u128(), op_id.as_u128(), Some("aws_vpc.tf"));
    assert!(p.contains(".terrashift") && p.contains("runs") && p.contains("backups"));
    assert!(p.contains(&run_id.to_string()), "backup path includes run_id");
    assert_eq!(p, format!("/cwd/.terrashift/runs/{run_id}/backups/{op_id}/aws_vpc.tf"));
    assert_eq!(backup_root("/cwd", run_id.as_u128()), format!("/cwd/.terrashift/runs/{run_id}/backups"));
    let unnamed = backup_path("/cwd", 0, 0, None);
    assert!(unnamed.ends_with("/unknown_item"));
    let emitted = vec![EmittedFile { path: "/out/aws_vpc.tf".to_string(), backup_path: Some(p.clone()), overwrote: true }];
    let artifacts = GeneratedArtifacts::from_emitted(emitted);
    assert_eq!(artifacts.backups_created, 1);
    assert_eq!(artifacts.backups, vec![p]);
}

#[test]
fn cross_device_rename_falls_back_to_copy() {
    assert!(is_cross_device(Some(18)));
    assert!(is_cross_device(Some(17)));
    assert!(!is_cross_device(Some(2)));
    assert!(!is_cross_device(None));
    let next = after_backup_rename("/a", "/b", RenameOutcome::Failed { raw_os_error: Some(18), message: "x".to_string() });
    assert!(matches!(next, MoveNext::CopyThenRemove));
    match after_backup_rename("/a", "/b", RenameOutcome::Failed { raw_os_error: Some(13), message: "denied".to_string() }) {
        MoveNext::Fail(BackupError::Move { src, dst, message }) => {
            assert_eq!((src.as_str(), dst.as_str(), message.as_str()), ("/a", "/b", "denied"));
        }
        _ => panic!("a plain rename failure is a Move error"),
    }
    match after_restore_rename("/bk", "/orig", RenameOutcome::Failed { raw_os_error: None, message: "gone".to_string() }) {
        MoveNext::Fail(BackupError::Restore { src, dst, .. }) => {
            assert_eq!(src, "/bk");
            assert_eq!(dst, "/orig");
        }
        _ => panic!("a restore failure is a Restore error"),
    }
    assert!(matches!(after_restore_rename("/bk", "/orig", RenameOutcome::Renamed), MoveNext::Done));
}

#[test]
fn rollback_restores_backed_up_file() {
    let f = EmittedFile { path: "/out/aws_vpc.tf".to_string(), backup_path: Some("/bk/aws_vpc.tf".to_string()), overwrote: true };
    match rollback_action(&f, true) {
        RollbackAction::Restore { backup, original } => {
            assert_eq!(backup, "/bk/aws_vpc.tf");
            assert_eq!(original, "/out/aws_vpc.tf");
        }
        _ => panic!("a backed-up file is restored"),
    }
}

#[test]
fn rollback_greenfield_deletes_created_file() {
    let f = EmittedFile { path: "/out/aws_vpc.tf".to_string(), backup_path: None, overwrote: false };
    assert!(matches!(rollback_action(&f, true), RollbackAction::Remove(p) if p == "/out/aws_vpc.tf"));
    assert!(matches!(rollback_action(&f, false), RollbackAction::Nothing));
    assert!(rollback_emitted(&vec![f], &vec![None]).is_ok());
}

#[test]
fn rollback_collects_every_failure() {
    let files = vec![
        EmittedFile { path: "/out/a.tf".to_string(), backup_path: None, overwrote: false },
        EmittedFile { path: "/out/b.tf".to_string(), backup_path: None, overwrote: false },
    ];
    let failures = vec![None, Some(GeneratorError::Io { path: "/out/b.tf".to_string(), message: "busy".to_string() })];
    match rollback_emitted(&files, &failures) {
        Err(GeneratorError::RollbackPartial { total, failures, details }) => {
            assert_eq!(total, 2);
            assert_eq!(failures, 1);
            assert_eq!(details, vec!["/out/b.tf: filesystem I/O at /out/b.tf: busy".to_string()]);
        }
        _ => panic!("one failure makes a partial rollback"),
    }
}

const ALL_TEMPLATES: &[&str] = &[
    "aws_vpc",
    "aws_subnet",
    "aws_security_group",
    "aws_instance",
    "aws_s3_bucket",
    "azurerm_virtual_network",
    "azurerm_subnet",
    "azurerm_network_security_group",
    "azurerm_linux_virtual_machine",
    "azurerm_storage_account",
    "aws_iam_role",
    "google_storage_bucket",
    "azurerm_route_table",
    "azurerm_public_ip",
    "azurerm_subnet_network_security_group_association",
    "azurerm_subnet_route_table_association",
    "azurerm_resource_group",
    "google_compute_network",
    "google_compute_subnetwork",
    "google_compute_firewall",
    "google_compute_instance",
];

/// The required keys of a type's template, each with a plain string value.
fn minimal_required_attrs(target_type: &str) -> Vec<(String, AttributeValue)> {
    let spec = TemplateRegistry::stage1()
        .template_for(target_type)
        .unwrap_or_else(|| panic!("no template for {target_type}"));
    spec.required
        .iter()
        .map(|k| (k.clone(), make_attr_string("value")))
        .collect()
}

fn single_resource(target_type: &str, attrs: Vec<(String, AttributeValue)>) -> MappedResource {
    let mut attributes = StrMap::new();
    for (k, v) in attrs {
        attributes.insert(k, v);
    }
    MappedResource {
        source_addr: format!("{target_type}.test"),
        target_addr: format!("{target_type}.test"),
        target_type: target_type.to_string(),
        target_name: "test".to_string(),
        attributes,
        dependencies: vec![],
    }
}

#[test]
fn every_registered_template_renders_with_minimal_required_attrs() {
    let g = Generator::new();
    assert_eq!(ALL_TEMPLATES.len(), g.template_count());
    let registered = TemplateRegistry::stage1().registered_types();
    assert_eq!(registered.len(), ALL_TEMPLATES.len());
    for target_type in ALL_TEMPLATES {
        assert!(registered.iter().any(|t| t == target_type), "{target_type} not registered");
        let plan = plan_with(vec![single_resource(target_type, minimal_required_attrs(target_type))]);
        let files = plan_emission(&plan)
            .unwrap_or_else(|e| panic!("template `{target_type}` failed: {}", e.message()));
        assert_eq!(files.len(), 1, "`{target_type}` should emit one file");
        assert_eq!(files[0].file_name, format!("{target_type}.tf"));
        assert_eq!(files[0].blocks.len(), 1);
        assert_eq!(files[0].blocks[0].target_type, *target_type);
        assert_eq!(files[0].blocks[0].name, "test");
    }
}

#[test]
fn every_template_loud_errors_on_missing_required_attr() {
    for target_type in ALL_TEMPLATES {
        let mut required = minimal_required_attrs(target_type);
        if required.is_empty() {
            continue;
        }
        let dropped_key = required.remove(0).0;
        let plan = plan_with(vec![single_resource(target_type, required)]);
        let result = plan_emission(&plan);
        assert!(result.is_err(), "`{target_type}` accepted a plan missing required attr `{dropped_key}`");
        let msg = result.err().unwrap().message();
        assert!(
            msg.contains(&dropped_key) || msg.to_lowercase().contains("missing"),
            "error for `{target_type}` should mention missing key `{dropped_key}`. Got: {msg}"
        );
    }
}

#[test]
fn emission_plan_is_identical_across_calls_and_input_orders() {
    let plan1 = plan_with(vec![
        aws_subnet_resource("c", "10.0.3.0/24", "aws_vpc.main.id"),
        aws_vpc_resource("main", "10.0.0.0/16"),
        aws_subnet_resource("a", "10.0.1.0/24", "aws_vpc.main.id"),
    ]);
    let plan2 = plan_with(vec![
        aws_vpc_resource("main", "10.0.0.0/16"),
        aws_subnet_resource("a", "10.0.1.0/24", "aws_vpc.main.id"),
        aws_subnet_resource("c", "10.0.3.0/24", "aws_vpc.main.id"),
    ]);
    let first = format!("{:?}", plan_emission(&plan1).unwrap());
    let second = format!("{:?}", plan_emission(&plan1).unwrap());
    let reordered = format!("{:?}", plan_emission(&plan2).unwrap());
    assert_eq!(first, second);
    assert_eq!(first, reordered);
    let files = plan_emission(&plan1).unwrap();
    let names: Vec<&str> = files.iter().map(|f| f.file_name.as_str()).collect();
    assert_eq!(names, vec!["aws_subnet.tf", "aws_vpc.tf"]);
    let subnet_names: Vec<&str> = files[0].blocks.iter().map(|b| b.name.as_str()).collect();
    assert_eq!(subnet_names, vec!["a", "c"]);
}

#[test]
fn references_split_into_traversals_and_reject_bad_segments() {
    match parse_reference("aws_vpc.main.id") {
        Ok(HclExpr::Ref { head, attrs }) => {
            assert_eq!(head, "aws_vpc");
            assert_eq!(attrs, vec!["main".to_string(), "id".to_string()]);
        }
        other => panic!("expected a traversal, got {other:?}"),
    }
    match parse_reference("var") {
        Ok(HclExpr::Ref { head, attrs }) => {
            assert_eq!(head, "var");
            assert!(attrs.is_empty());
        }
        other => panic!("expected a bare variable, got {other:?}"),
    }
    assert!(matches!(parse_reference("aws vpc.main"), Err(GeneratorError::Hcl(_))));
    assert!(matches!(parse_reference("aws_vpc..id"), Err(GeneratorError::Hcl(_))));
    assert!(matches!(parse_reference("aws_vpc.1main"), Err(GeneratorError::Hcl(_))));
}
