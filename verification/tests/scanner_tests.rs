use terrashift::scanner::{is_hidden_or_skipped, scan_body, unquote, HclBlock, HclBody, HclStructure, Scanner, ScannerError};

fn parse(content: &str) -> terrashift::scanner::ScannedFile {
    match Scanner::parse_file("inline.tf", content) {
        Ok(f) => f,
        Err(e) => panic!("parse failed: {}", e.message()),
    }
}

#[test]
fn parses_single_resource() {
    let content = r#"
resource "aws_vpc" "default" {
  cidr_block           = "10.0.0.0/16"
  enable_dns_hostnames = true
}
"#;
    let scanned = parse(content);
    assert_eq!(scanned.resources.len(), 1);
    let r = &scanned.resources[0];
    assert_eq!(r.resource_type, "aws_vpc");
    assert_eq!(r.name, "default");
    assert!(r.attributes.contains_key("cidr_block"), "expected cidr_block attribute");
}

#[test]
fn parses_provider_block() {
    let content = r#"
provider "aws" {
  region = "us-east-1"
  profile = "prod"
}
"#;
    let scanned = parse(content);
    assert_eq!(scanned.providers.len(), 1);
    let p = &scanned.providers[0];
    assert_eq!(p.provider_type, "aws");
    assert!(p.attributes.contains_key("region"));
    assert!(p.attributes.contains_key("profile"));
}

#[test]
fn parses_module_block_captures_source() {
    let content = r#"
module "vpc" {
  source = "../../modules/vpc"
  env    = var.env
}
"#;
    let scanned = parse(content);
    assert_eq!(scanned.modules.len(), 1);
    let m = &scanned.modules[0];
    assert_eq!(m.name, "vpc");
    assert_eq!(m.source.as_deref(), Some("../../modules/vpc"));
}

#[test]
fn dynamic_block_is_loud_failure() {
    let content = r#"
resource "aws_security_group" "demo" {
  name = "demo"

  dynamic "ingress" {
    for_each = var.ingress_rules
    content {
      from_port = ingress.value.from
    }
  }
}
"#;
    let err = Scanner::parse_file("inline.tf", content).err().unwrap_or_else(|| panic!("expected Err, got Ok"));
    match err {
        ScannerError::UnsupportedFeature { feature, .. } => {
            assert!(feature.contains("dynamic"), "feature should mention dynamic, got {feature}");
        }
        other => panic!("expected UnsupportedFeature, got {}", other.message()),
    }
}

#[test]
fn broken_hcl_returns_parse_error_not_panic() {
    let content = r#"
resource "aws_vpc" "broken" {
  cidr_block = "10.0.0.0/16
  this_is_unterminated_string
"#;
    let err = Scanner::parse_file("broken.tf", content).err().unwrap_or_else(|| panic!("expected parse failure, got Ok"));
    match err {
        ScannerError::Parse { message, .. } => {
            assert!(!message.is_empty(), "parse error should carry a message, got empty");
        }
        other => panic!("expected Parse error, got {}", other.message()),
    }
}

#[test]
fn data_source_block_is_parsed() {
    let content = r#"
data "aws_caller_identity" "current" {}
"#;
    let scanned = parse(content);
    assert_eq!(scanned.data_sources.len(), 1);
    assert_eq!(scanned.data_sources[0].data_type, "aws_caller_identity");
    assert_eq!(scanned.data_sources[0].name, "current");
}

#[test]
fn walks_directory_and_aggregates() {
    let files = vec![
        ("/t/vpc.tf".to_string(), Ok(r#"resource "aws_vpc" "main" { cidr_block = "10.0.0.0/16" }"#.to_string())),
        (
            "/t/subnet.tf".to_string(),
            Ok(r#"
resource "aws_subnet" "a" { vpc_id = aws_vpc.main.id }
resource "aws_subnet" "b" { vpc_id = aws_vpc.main.id }
"#
            .to_string()),
        ),
    ];
    let inv = match Scanner::scan("/t", files) {
        Ok(inv) => inv,
        Err(e) => panic!("scan: {}", e.message()),
    };
    assert_eq!(inv.files.len(), 2);
    assert_eq!(inv.resource_count(), 3);
}

#[test]
fn empty_directory_yields_empty_inventory() {
    let inv = match Scanner::scan("/t", vec![]) {
        Ok(inv) => inv,
        Err(e) => panic!("scan empty: {}", e.message()),
    };
    assert_eq!(inv.files.len(), 0);
    assert_eq!(inv.resource_count(), 0);
}

#[test]
fn unreadable_file_stops_the_scan() {
    let files = vec![
        ("/t/a.tf".to_string(), Ok(r#"resource "aws_vpc" "main" {}"#.to_string())),
        ("/t/b.tf".to_string(), Err("permission denied".to_string())),
        ("/t/c.tf".to_string(), Ok("not hcl {".to_string())),
    ];
    match Scanner::scan("/t", files) {
        Err(ScannerError::Io { path, message }) => {
            assert_eq!(path, "/t/b.tf");
            assert_eq!(message, "permission denied");
        }
        _ => panic!("expected the read failure of b.tf"),
    }
}

#[test]
fn skips_dot_terraform_and_hidden_dirs() {
    assert!(is_hidden_or_skipped(".terraform", 1));
    assert!(is_hidden_or_skipped(".git", 1));
    assert!(is_hidden_or_skipped("target", 2));
    assert!(is_hidden_or_skipped("node_modules", 1));
    assert!(!is_hidden_or_skipped("main.tf", 1));
    assert!(!is_hidden_or_skipped(".hidden-root", 0));
}

#[test]
fn unquote_strips_surrounding_quotes() {
    assert_eq!(unquote("\"abc\"".to_string()), "abc");
    assert_eq!(unquote("  \"a b\"  ".to_string()), "a b");
    assert_eq!(unquote("var.env".to_string()), "var.env");
}

fn block(identifier: &str, labels: &[&str], attrs: &[(&str, &str)]) -> HclStructure {
    HclStructure::Block(HclBlock {
        identifier: identifier.to_string(),
        labels: labels.iter().map(|l| l.to_string()).collect(),
        body: HclBody {
            structures: attrs
                .iter()
                .map(|(k, v)| HclStructure::Attribute { key: k.to_string(), expr: v.to_string() })
                .collect(),
        },
    })
}

#[test]
fn scan_body_reads_a_parsed_tree() {
    let content = "resource \"aws_vpc\" \"main\" {\n  cidr_block = \"10.0.0.0/16\"\n}\n";
    let body = HclBody { structures: vec![block("resource", &["aws_vpc", "main"], &[("cidr_block", "\"10.0.0.0/16\"")])] };
    let f = scan_body("inline.tf", content, &body).ok().expect("scans");
    assert_eq!(f.resources.len(), 1);
    assert_eq!(f.resources[0].resource_type, "aws_vpc");
    assert_eq!(f.resources[0].name, "main");
    assert_eq!(f.resources[0].source_span.line, 1);

    let bad = HclBody { structures: vec![block("resource", &["aws_vpc"], &[])] };
    assert!(matches!(scan_body("inline.tf", "resource \"aws_vpc\" {}\n", &bad), Err(ScannerError::MalformedBlock { .. })));

    let note = HclBody { structures: vec![HclStructure::Attribute { key: "x".to_string(), expr: "1".to_string() }] };
    let f = scan_body("inline.tf", "x = 1\n", &note).ok().expect("scans");
    assert_eq!(f.scan_notes, vec!["top-level attribute outside block".to_string()]);
}
