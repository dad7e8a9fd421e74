use terrashift::mapper::{
    estate_cache_key, strip_markdown_fences, supported_types_for, truncate_utf8, validate_plan, AttributeValue,
    MapStart, MappedResource, Mapper, MapperCache, MapperError, MappingPlan,
};
use terrashift::context::{combine_prompt, message, ContextReducer, PassthroughContextReducer, Role};
use terrashift::prompt::{build_system_prompt, build_user_prompt, SYSTEM_PROMPT_HEADER};
use terrashift::scanner::{EstateInventory, Resource, ScannedFile, SourceSpan};
use terrashift::strmap::StrMap;
use terrashift::validator::{AttributeSchema, ProviderSchema, ResourceSchema};

#[test]
fn crate_compiles() {}

fn synthetic_plan(resources: Vec<MappedResource>) -> MappingPlan {
    MappingPlan {
        run_id: uuid::Uuid::new_v4().as_u128(),
        source_provider: "aws".to_string(),
        target_provider: "azurerm".to_string(),
        resources,
    }
}

fn synthetic_resource(source_addr: &str, target_type: &str) -> MappedResource {
    MappedResource {
        source_addr: source_addr.to_string(),
        target_addr: format!("{target_type}.synthetic"),
        target_type: target_type.to_string(),
        target_name: "synthetic".to_string(),
        attributes: StrMap::new(),
        dependencies: Vec::new(),
    }
}

fn attr(name: &str, required: bool, ty: &str) -> AttributeSchema {
    AttributeSchema {
        name: name.to_string(),
        attribute_type: ty.to_string(),
        required,
        optional: !required,
        computed: false,
        sensitive: false,
        deprecated: None,
        description: None,
    }
}

fn schema_with_required(target_type: &str, required: &[&str]) -> ProviderSchema {
    let mut attrs = StrMap::new();
    for name in required {
        attrs.insert(name.to_string(), attr(name, true, "string"));
    }
    attrs.insert("tags".to_string(), attr("tags", false, "map(string)"));
    let mut resources = StrMap::new();
    resources.insert(
        target_type.to_string(),
        ResourceSchema { name: target_type.to_string(), description: None, attributes: attrs },
    );
    ProviderSchema { provider: "azurerm".to_string(), version: "test".to_string(), resources }
}

#[test]
fn header_carries_v2_version_string() {
    assert!(SYSTEM_PROMPT_HEADER.starts_with("Terrashift Mapper v2."));
}

#[test]
fn build_system_prompt_includes_valid_target_types_block() {
    let supported = vec!["azurerm_virtual_network".to_string(), "azurerm_subnet".to_string()];
    let prompt = build_system_prompt("azurerm", None, &supported);
    assert!(prompt.contains("=== VALID TARGET TYPES (azurerm) ==="));
    assert!(prompt.contains("- azurerm_virtual_network"));
    assert!(prompt.contains("- azurerm_subnet"));
}

#[test]
fn build_system_prompt_handles_empty_supported_types_loudly() {
    let prompt = build_system_prompt("tencentcloud", None, &vec![]);
    assert!(prompt.contains("no templates registered"));
}

#[test]
fn build_system_prompt_with_schema_includes_required_attributes() {
    let schema = schema_with_required(
        "azurerm_virtual_network",
        &["name", "resource_group_name", "address_space", "location"],
    );
    let supported = vec!["azurerm_virtual_network".to_string()];
    let prompt = build_system_prompt("azurerm", Some(&schema), &supported);
    assert!(prompt.contains("=== REQUIRED ATTRIBUTES (per target type) ==="));
    let must_line = prompt
        .lines()
        .find(|l| l.starts_with("azurerm_virtual_network: MUST set"))
        .expect("MUST set line for azurerm_virtual_network missing from prompt");
    for a in &["name", "resource_group_name", "address_space", "location"] {
        assert!(must_line.contains(a), "expected '{a}' in MUST set line, got: {must_line}");
    }
    assert!(!must_line.contains("tags"), "tags is optional, should not be on the MUST set line: {must_line}");
}

#[test]
fn build_system_prompt_without_schema_omits_required_block_with_explanation() {
    let supported = vec!["azurerm_virtual_network".to_string()];
    let prompt = build_system_prompt("azurerm", None, &supported);
    assert!(!prompt.contains("=== REQUIRED ATTRIBUTES"));
    assert!(prompt.contains("REQUIRED ATTRIBUTES block omitted"));
}

#[test]
fn supported_types_for_azurerm_includes_template_registry_keys() {
    let supported = supported_types_for("azurerm", None);
    assert!(supported.len() >= 5, "expected ≥5 azurerm templates, got {} ({:?})", supported.len(), supported);
    assert!(supported.iter().any(|t| t == "azurerm_virtual_network"));
    assert!(supported.iter().any(|t| t == "azurerm_subnet"));
    assert!(supported.iter().any(|t| t == "azurerm_linux_virtual_machine"));
    assert!(supported.iter().any(|t| t == "azurerm_storage_account"));
    assert!(
        !supported.iter().any(|t| t == "azurerm_virtual_machine"),
        "deprecated azurerm_virtual_machine should NOT be in the registry"
    );
}

#[test]
fn supported_types_for_aws_includes_template_registry_keys() {
    let supported = supported_types_for("aws", None);
    assert!(supported.iter().any(|t| t == "aws_vpc"));
    assert!(supported.iter().any(|t| t == "aws_s3_bucket"));
}

#[test]
fn supported_types_for_unknown_provider_is_empty() {
    let supported = supported_types_for("tencentcloud", None);
    assert!(supported.is_empty());
}

#[test]
fn supported_types_for_google_in_registration_order() {
    let supported = supported_types_for("google", None);
    assert_eq!(
        supported,
        vec![
            "google_storage_bucket".to_string(),
            "google_compute_network".to_string(),
            "google_compute_subnetwork".to_string(),
            "google_compute_firewall".to_string(),
            "google_compute_instance".to_string(),
        ]
    );
}

#[test]
fn validate_plan_rejects_empty_target_type() {
    let plan = synthetic_plan(vec![synthetic_resource("aws_vpc.main", "")]);
    let supported = vec!["azurerm_virtual_network".to_string()];
    match validate_plan(&plan, &supported) {
        Err(MapperError::EmptyTargetType { source_addr, .. }) => assert_eq!(source_addr, "aws_vpc.main"),
        _ => panic!("expected EmptyTargetType"),
    }
}

#[test]
fn validate_plan_rejects_unsupported_target_type() {
    let plan = synthetic_plan(vec![synthetic_resource("aws_instance.app", "azurerm_virtual_machine")]);
    let supported = vec!["azurerm_linux_virtual_machine".to_string()];
    match validate_plan(&plan, &supported) {
        Err(MapperError::UnsupportedTargetType { source_addr, target_type, supported: s }) => {
            assert_eq!(source_addr, "aws_instance.app");
            assert_eq!(target_type, "azurerm_virtual_machine");
            assert_eq!(s, vec!["azurerm_linux_virtual_machine".to_string()]);
        }
        _ => panic!("expected UnsupportedTargetType"),
    }
}

#[test]
fn validate_plan_accepts_supported_target_types() {
    let plan = synthetic_plan(vec![
        synthetic_resource("aws_vpc.main", "azurerm_virtual_network"),
        synthetic_resource("aws_subnet.public", "azurerm_subnet"),
    ]);
    let supported = vec!["azurerm_virtual_network".to_string(), "azurerm_subnet".to_string()];
    assert!(validate_plan(&plan, &supported).is_ok(), "supported plan must validate");
}

#[test]
fn validate_plan_short_circuits_on_first_failure() {
    let plan = synthetic_plan(vec![
        synthetic_resource("aws_vpc.first", ""),
        synthetic_resource("aws_subnet.second", "azurerm_virtual_machine"),
    ]);
    let supported = vec!["azurerm_virtual_network".to_string()];
    assert!(matches!(validate_plan(&plan, &supported), Err(MapperError::EmptyTargetType { .. })));
}

#[test]
fn estate_cache_key_is_stable_across_runs() {
    let estate = br#"{"root_dir":"test","files":[{"path":"test.tf"}]}"#;
    let key1 = estate_cache_key(estate);
    let key2 = estate_cache_key(estate);
    assert_eq!(key1, key2, "cache key byte-stable across runs");
    assert_eq!(key1.len(), 64, "sha256 hex digest is 64 hex chars");
}

#[test]
fn estate_cache_key_is_sha256_hex() {
    assert_eq!(estate_cache_key(b""), "e3b0c44298fc1c149afbf4c8996fb92427ae41e4649b934ca495991b7852b855");
    assert_eq!(estate_cache_key(b"abc"), "ba7816bf8f01cfea414140de5dae2223b00361a396177a9cb410ff61f20015ad");
}

#[test]
fn strip_markdown_fences_examples() {
    assert_eq!(strip_markdown_fences("```json\n{\"a\":1}\n```"), "{\"a\":1}");
    assert_eq!(strip_markdown_fences("  ```\n{}\n```  "), "{}");
    assert_eq!(strip_markdown_fences("{}"), "{}");
}

#[test]
fn truncate_utf8_keeps_char_boundaries() {
    assert_eq!(truncate_utf8("héllo", 2), "h");
    assert_eq!(truncate_utf8("héllo", 3), "hé");
    assert_eq!(truncate_utf8("abc", 10), "abc");
}

fn inventory(resources: &[(&str, &str)]) -> EstateInventory {
    let mut file = ScannedFile::new("test.tf".to_string());
    for (t, n) in resources {
        file.resources.push(Resource {
            resource_type: t.to_string(),
            name: n.to_string(),
            attributes: StrMap::new(),
            source_span: SourceSpan { file: "test.tf".to_string(), line: 1, col: 1 },
        });
    }
    EstateInventory { root_dir: "/estate".to_string(), files: vec![file] }
}

#[test]
fn empty_inventory_skips_llm_call() {
    let mapper = Mapper::new("google", "aws");
    match mapper.begin_map(&inventory(&[]), &MapperCache::new(), "k", 10) {
        Ok(MapStart::EmptyPlan) => {}
        _ => panic!("an inventory without resources maps to the empty plan"),
    }
    let plan = mapper.empty_plan(42);
    assert_eq!(plan.resources.len(), 0);
    assert_eq!(plan.target_provider, "aws");
}

#[test]
fn cache_hit_avoids_llm_and_reducer() {
    let mapper = Mapper::new("google", "aws");
    let estate = inventory(&[("google_compute_network", "main")]);
    let key = estate_cache_key(b"{\"estate\":1}");
    let mut cache = MapperCache::new();
    // First run: a miss, so the knowledge service and the LLM are asked.
    assert!(matches!(mapper.begin_map(&estate, &cache, &key, 10), Ok(MapStart::Query { .. })));
    let supported = vec!["aws_vpc".to_string()];
    let mut parsed = synthetic_plan(vec![]);
    parsed.run_id = 77;
    let plan = mapper.finish_map("{}", Ok(parsed), &supported).ok().expect("valid plan");
    assert_eq!(plan.run_id, 77);
    cache.insert(key.clone(), plan);
    // Second run: served from the cache, the same plan, no LLM step.
    assert!(matches!(mapper.begin_map(&estate, &cache, &key, 10), Ok(MapStart::UseCached)));
    assert_eq!(cache.get(&key).map(|p| p.run_id), Some(77));
    assert_eq!(cache.len(), 1);
}

#[test]
fn begin_map_queries_each_source_type_once_sorted() {
    let mapper = Mapper::new("google", "aws");
    let inv = inventory(&[("google_compute_subnetwork", "a"), ("google_compute_network", "main"), ("google_compute_subnetwork", "b")]);
    match mapper.begin_map(&inv, &MapperCache::new(), "k", 100) {
        Ok(MapStart::Query { source_types, queries }) => {
            assert_eq!(source_types, vec!["google_compute_network".to_string(), "google_compute_subnetwork".to_string()]);
            assert_eq!(queries[0], "google_compute_network aws equivalent");
        }
        _ => panic!("expected knowledge queries"),
    }
}

#[test]
fn oversized_inventory_is_refused() {
    let mapper = Mapper::new("google", "aws");
    match mapper.begin_map(&inventory(&[("google_compute_network", "main")]), &MapperCache::new(), "k", 100_001) {
        Err(MapperError::InventoryTooLarge { bytes, limit }) => {
            assert_eq!(bytes, 100_001);
            assert_eq!(limit, 100_000);
        }
        _ => panic!("expected InventoryTooLarge"),
    }
}

#[test]
fn malformed_json_is_loud_error() {
    let mapper = Mapper::new("google", "aws");
    let supported = vec!["aws_vpc".to_string()];
    match mapper.finish_map("this is not json", Err("expected value at line 1 column 1".to_string()), &supported) {
        Err(MapperError::MalformedResponse { reason, sample }) => {
            assert!(reason.contains("expected value"));
            assert_eq!(sample, "this is not json");
        }
        _ => panic!("expected MalformedResponse"),
    }
}

#[test]
fn mapper_cache_returns_what_was_inserted() {
    let mut cache = MapperCache::new();
    assert!(cache.get("k").is_none());
    let mut plan = synthetic_plan(vec![]);
    plan.run_id = 5;
    cache.insert("k".to_string(), plan);
    assert_eq!(cache.get("k").map(|p| p.run_id), Some(5));
    assert_eq!(cache.len(), 1);
}

#[test]
fn attribute_lookups_report_structured_errors() {
    let mut r = synthetic_resource("aws_vpc.main", "aws_vpc");
    r.attributes.insert("cidr_block".to_string(), AttributeValue::String("10.0.0.0/16".to_string()));
    r.attributes.insert("flag".to_string(), AttributeValue::Bool(true));
    assert_eq!(r.require_string("cidr_block").ok(), Some("10.0.0.0/16"));
    assert_eq!(r.optional_bool("flag"), Some(true));
    assert!(r.require_string("flag").is_err());
    assert!(r.require_string("missing").is_err());
}

#[test]
fn prompt_contains_inventory_resources() {
    let estate = inventory(&[("google_compute_network", "main"), ("google_storage_bucket", "assets")]);
    let mapper = Mapper::new("google", "aws");
    let supported = supported_types_for("aws", None);
    let system = build_system_prompt("aws", None, &supported);
    let hits = vec![
        ("google_compute_network".to_string(), vec![]),
        ("google_storage_bucket".to_string(), vec![]),
    ];
    let user = build_user_prompt("google", "aws", &estate, &hits, &vec![]);
    let reduced = PassthroughContextReducer.reduce(vec![message(Role::System, &system), message(Role::User, &user)]);
    let prompt = combine_prompt(&reduced);
    assert!(matches!(mapper.begin_map(&estate, &MapperCache::new(), "k", 100), Ok(MapStart::Query { .. })));
    assert!(prompt.contains("google_compute_network.main"), "prompt mentions first source resource: {prompt}");
    assert!(prompt.contains("google_storage_bucket.assets"), "prompt mentions second source resource: {prompt}");
    assert!(prompt.contains("[system]"), "prompt has system role tag");
    assert!(prompt.contains("[user]"), "prompt has user role tag");
    assert!(prompt.contains("MappingPlan"), "system prompt names the schema");
}
