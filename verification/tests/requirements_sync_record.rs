use cargo_resources::{
    check_required_sha, get_resource_requirement, needs_copy, render_resolved_record,
    resolve_requirement, target_path_for, verify_resource_is_in_root, BuildLogLevel,
    BuildRsReporter, CollationError, ContentHasher, DefaultReporter, JsonValue, PackageModel,
    Registry, ResourceEncoding, ResourceRequirement, ResourceSpecification,
};

fn consumer(metadata: JsonValue) -> PackageModel {
    PackageModel {
        id: "root".to_string(),
        name: "consumer".to_string(),
        version: "0.1.0".to_string(),
        manifest_dir: "/work/consumer".to_string(),
        metadata,
    }
}

fn sample_specification(name: &str) -> ResourceSpecification {
    ResourceSpecification {
        declaring_crate_name: "provider".to_string(),
        declaring_crate_version: "1.0.0".to_string(),
        encoding: ResourceEncoding::Txt,
        full_crate_path: format!("/work/provider/{}", name),
        output_path: name.to_string(),
        resource_name: name.to_string(),
    }
}

fn registry_with(names: Vec<&str>) -> Registry {
    let mut registry = Registry::new();
    for name in names {
        registry.insert(sample_specification(name));
    }
    registry
}

#[test]
fn an_absent_section_requires_every_registered_resource_unpinned() {
    let registry = registry_with(vec!["one", "two"]);
    let spec = get_resource_requirement(&consumer(JsonValue::Null), &registry).unwrap();
    assert_eq!(spec.resource_root, "target/resources");
    assert_eq!(spec.required_resources.len(), 2);
    assert_eq!(spec.required_resources[0].resource_name, "one");
    assert_eq!(spec.required_resources[1].resource_name, "two");
    assert!(spec.required_resources.iter().all(|r| r.required_sha.is_none()));
}

#[test]
fn an_empty_registry_and_no_requirements_short_circuits() {
    let registry = Registry::new();
    let spec = get_resource_requirement(&consumer(JsonValue::Null), &registry).unwrap();
    assert!(spec.required_resources.is_empty());
    let reporter = DefaultReporter {};
    assert_eq!(reporter.report_no_resources_found(), "No resources were found - finishing early.");
}

#[test]
fn an_explicit_list_is_taken_verbatim() {
    let registry = registry_with(vec!["one", "two"]);
    let metadata = JsonValue::Object(vec![(
        "cargo_resources".to_string(),
        JsonValue::Object(vec![
            ("resource_root".to_string(), JsonValue::Str("custom/root".to_string())),
            (
                "requires".to_string(),
                JsonValue::Array(vec![JsonValue::Object(vec![
                    ("resource_name".to_string(), JsonValue::Str("two".to_string())),
                    ("required_sha".to_string(), JsonValue::Str("abc123".to_string())),
                ])]),
            ),
        ]),
    )]);
    let spec = get_resource_requirement(&consumer(metadata), &registry).unwrap();
    assert_eq!(spec.resource_root, "custom/root");
    assert_eq!(spec.required_resources.len(), 1);
    assert_eq!(spec.required_resources[0].resource_name, "two");
    assert_eq!(spec.required_resources[0].required_sha, Some("abc123".to_string()));
}

#[test]
fn a_scalar_section_is_a_misconfiguration() {
    let registry = Registry::new();
    let metadata = JsonValue::Object(vec![(
        "cargo_resources".to_string(),
        JsonValue::Str("oops".to_string()),
    )]);
    let err = get_resource_requirement(&consumer(metadata), &registry).unwrap_err();
    match &err {
        CollationError::DeclarationError(m) => {
            assert_eq!(m, "Misconfigured [package.metadata.cargo_resources] in consuming package.");
        }
        other => panic!("wrong error variant: {:?}", other),
    }
}

#[test]
fn an_unmet_requirement_is_fatal() {
    let registry = registry_with(vec!["one"]);
    let requirement = ResourceRequirement {
        resource_name: "missing".to_string(),
        required_sha: None,
    };
    let err = resolve_requirement(&registry, &requirement).unwrap_err();
    match &err {
        CollationError::RequirementError(m) => {
            assert_eq!(m, "No resource found matching requirement missing");
        }
        other => panic!("wrong error variant: {:?}", other),
    }
}

#[test]
fn the_target_path_joins_root_and_output() {
    let spec = sample_specification("res.txt");
    assert_eq!(target_path_for("target/resources", &spec), "target/resources/res.txt");
}

#[test]
fn escape_outside_the_root_fails_closed() {
    let err = verify_resource_is_in_root("/work/outside", "/work/consumer/target/resources")
        .unwrap_err();
    match &err {
        CollationError::PathSecurityError(m) => {
            assert_eq!(
                m,
                "Can't copy to \"/work/outside\" as not in resource root \"/work/consumer/target/resources\""
            );
        }
        other => panic!("wrong error variant: {:?}", other),
    }
    assert!(verify_resource_is_in_root(
        "/work/consumer/target/resources/nested",
        "/work/consumer/target/resources"
    )
    .is_ok());
}

#[test]
fn a_mismatched_pinned_hash_is_fatal_and_nothing_is_copied() {
    let requirement = ResourceRequirement {
        resource_name: "config".to_string(),
        required_sha: Some("0000000000000000000000000000000000000000000000000000000000000000".to_string()),
    };
    let mut hasher = ContentHasher::new();
    assert!(hasher.update(b"hello"));
    let actual = hasher.finish_hex();
    let err = check_required_sha(&requirement, &actual).unwrap_err();
    match &err {
        CollationError::RequirementError(m) => {
            assert_eq!(
                m.as_str(),
                format!(
                    "Resource config with sha {} does not match required sha {}.",
                    actual,
                    "0000000000000000000000000000000000000000000000000000000000000000"
                )
            );
        }
        other => panic!("wrong error variant: {:?}", other),
    }
}

#[test]
fn a_matching_pinned_hash_is_accepted() {
    let mut hasher = ContentHasher::new();
    assert!(hasher.update(b"hello"));
    let actual = hasher.finish_hex();
    let requirement = ResourceRequirement {
        resource_name: "config".to_string(),
        required_sha: Some(actual.clone()),
    };
    assert!(check_required_sha(&requirement, &actual).is_ok());
}

#[test]
fn matching_hashes_skip_the_copy() {
    let sha = "2cf24dba5fb0a30e26e83b2ac5b9e29e1b161e5c1fa7425e73043362938b9824".to_string();
    assert!(needs_copy(&sha, &None));
    assert!(!needs_copy(&sha, &Some(sha.clone())));
    assert!(needs_copy(&sha, &Some("otherhash".to_string())));
}

#[test]
fn end_to_end_decisions_for_a_single_config_resource() {
    let mut hasher = ContentHasher::new();
    assert!(hasher.update(b"hello"));
    let new_sha = hasher.finish_hex();
    assert_eq!(new_sha, "2cf24dba5fb0a30e26e83b2ac5b9e29e1b161e5c1fa7425e73043362938b9824");

    let mut registry = Registry::new();
    let mut spec = sample_specification("config");
    spec.output_path = "config".to_string();
    registry.insert(spec);
    let requirement = ResourceRequirement { resource_name: "config".to_string(), required_sha: None };
    let resolved = resolve_requirement(&registry, &requirement).unwrap();
    assert!(check_required_sha(&requirement, &new_sha).is_ok());

    let reporter = DefaultReporter {};
    assert!(needs_copy(&new_sha, &None));
    let first = reporter.report_resource_collection(false, &new_sha, "target/resources/config");
    assert_eq!(first, format!("Resource  copied: {} target/resources/config", new_sha));

    assert!(!needs_copy(&new_sha, &Some(new_sha.clone())));
    let second = reporter.report_resource_collection(true, &new_sha, "target/resources/config");
    assert_eq!(second, format!("Resource existed: {} target/resources/config", new_sha));

    let record = render_resolved_record(&vec![resolved.clone()]);
    let text = String::from_utf8(record).unwrap();
    assert_eq!(
        text,
        "[{\"declaring_crate_name\":\"provider\",\"declaring_crate_version\":\"1.0.0\",\
         \"encoding\":\"Txt\",\"full_crate_path\":\"/work/provider/config\",\
         \"output_path\":\"config\",\"resource_name\":\"config\"}]"
    );
}

#[test]
fn the_record_escapes_string_content() {
    let mut spec = sample_specification("odd");
    spec.resource_name = "a\"b\\c\nd".to_string();
    let record = render_resolved_record(&vec![spec]);
    let text = String::from_utf8(record).unwrap();
    assert!(text.ends_with("\"resource_name\":\"a\\\"b\\\\c\\nd\"}]"));
}

#[test]
fn an_empty_record_is_an_empty_array() {
    let record = render_resolved_record(&vec![]);
    assert_eq!(String::from_utf8(record).unwrap(), "[]");
}

#[test]
fn reporters_render_the_same_text_at_their_own_levels() {
    let console = DefaultReporter {};
    let build = BuildRsReporter {};
    assert_eq!(
        console.report_missing_resource("logo"),
        "No resource found matching requirement logo"
    );
    let (level, line) = build.report_missing_resource("logo");
    assert_eq!(level, BuildLogLevel::Error);
    assert_eq!(line, "No resource found matching requirement logo");
    let (dup_level, dup_line) = build.report_duplicate_resource("logo", "/old/logo.png", "/new/logo.png");
    assert_eq!(dup_level, BuildLogLevel::Warn);
    assert_eq!(
        dup_line,
        "WARNING: Duplicate resource logo\nReplacing:\t\"/old/logo.png\"\nWith:\t\t\"/new/logo.png\"\n"
    );
    assert_eq!(
        console.report_duplicate_resource("logo", "/old/logo.png", "/new/logo.png"),
        dup_line
    );
    assert_eq!(
        console.report_malformed_resource_declaration("provider", "missing field"),
        "Malformed resource declaration in provider: missing field"
    );
    let (section_level, section_line) = build.report_malformed_resources_section();
    assert_eq!(section_level, BuildLogLevel::Error);
    assert_eq!(
        section_line,
        "Unexpected type for [package.metadata.cargo_resources].provides in the json-metadata"
    );
}
