use cargo_resources::{
    collect_declared_resources, get_package_details, get_package_resource_data, CollationError,
    DependencyNode, JsonValue, PackageDetails, PackageModel, Registry, ReportEvent,
    ResourceEncoding,
};

fn str_value(s: &str) -> JsonValue {
    JsonValue::Str(s.to_string())
}

fn declaration_entry(fields: Vec<(&str, JsonValue)>) -> JsonValue {
    JsonValue::Object(fields.into_iter().map(|(k, v)| (k.to_string(), v)).collect())
}

fn metadata_with_provides(entries: Vec<JsonValue>) -> JsonValue {
    JsonValue::Object(vec![(
        "cargo_resources".to_string(),
        JsonValue::Object(vec![("provides".to_string(), JsonValue::Array(entries))]),
    )])
}

fn package(id: &str, name: &str, manifest_dir: &str, metadata: JsonValue) -> PackageModel {
    PackageModel {
        id: id.to_string(),
        name: name.to_string(),
        version: "1.0.0".to_string(),
        manifest_dir: manifest_dir.to_string(),
        metadata,
    }
}

fn node(id: &str, deps: Vec<&str>) -> DependencyNode {
    DependencyNode {
        id: id.to_string(),
        dependencies: deps.into_iter().map(|d| d.to_string()).collect(),
    }
}

#[test]
fn declarations_are_normalized_with_defaults() {
    let pkg = package(
        "p",
        "provider",
        "/work/provider",
        metadata_with_provides(vec![declaration_entry(vec![(
            "crate_path",
            str_value("data/res.txt"),
        )])]),
    );
    let mut registry = Registry::new();
    let events = get_package_resource_data(&pkg, &mut registry).unwrap();
    assert!(events.is_empty());
    let entry = registry.get("res.txt").expect("registered under its file name");
    assert_eq!(entry.declaring_crate_name, "provider");
    assert_eq!(entry.declaring_crate_version, "1.0.0");
    assert_eq!(entry.encoding, ResourceEncoding::Txt);
    assert_eq!(entry.full_crate_path, "/work/provider/data/res.txt");
    assert_eq!(entry.output_path, "data/res.txt");
    assert_eq!(entry.resource_name, "res.txt");
}

#[test]
fn explicit_fields_override_the_defaults() {
    let pkg = package(
        "p",
        "provider",
        "/work/provider",
        metadata_with_provides(vec![declaration_entry(vec![
            ("crate_path", str_value("data/res.bin")),
            ("output_path", str_value("nested/out.bin")),
            ("resource_name", str_value("blob")),
            ("encoding", str_value("Bin")),
        ])]),
    );
    let mut registry = Registry::new();
    get_package_resource_data(&pkg, &mut registry).unwrap();
    let entry = registry.get("blob").expect("registered under its declared name");
    assert_eq!(entry.encoding, ResourceEncoding::Bin);
    assert_eq!(entry.output_path, "nested/out.bin");
    assert_eq!(entry.full_crate_path, "/work/provider/data/res.bin");
}

#[test]
fn an_absolute_source_path_is_a_hard_error() {
    let pkg = package(
        "p",
        "provider",
        "/work/provider",
        metadata_with_provides(vec![declaration_entry(vec![(
            "crate_path",
            str_value("/abs/res.txt"),
        )])]),
    );
    let mut registry = Registry::new();
    let err = get_package_resource_data(&pkg, &mut registry).unwrap_err();
    match &err {
        CollationError::DeclarationError(m) => {
            assert_eq!(m, "Crate provider declares an absolute resource path /abs/res.txt");
        }
        other => panic!("wrong error variant: {:?}", other),
    }
}

#[test]
fn an_absolute_output_path_is_a_hard_error() {
    let pkg = package(
        "p",
        "provider",
        "/work/provider",
        metadata_with_provides(vec![declaration_entry(vec![
            ("crate_path", str_value("res.txt")),
            ("output_path", str_value("/abs/out.txt")),
        ])]),
    );
    let mut registry = Registry::new();
    let err = get_package_resource_data(&pkg, &mut registry).unwrap_err();
    assert!(matches!(err, CollationError::DeclarationError(_)));
}

#[test]
fn a_malformed_entry_names_the_package() {
    let pkg = package(
        "p",
        "provider",
        "/work/provider",
        metadata_with_provides(vec![declaration_entry(vec![(
            "output_path",
            str_value("out.txt"),
        )])]),
    );
    let mut registry = Registry::new();
    let err = get_package_resource_data(&pkg, &mut registry).unwrap_err();
    match &err {
        CollationError::DeclarationError(m) => {
            assert!(m.starts_with("Malformed resource declaration in provider: "));
        }
        other => panic!("wrong error variant: {:?}", other),
    }
}

#[test]
fn a_non_list_provides_section_is_a_hard_error() {
    let pkg = package(
        "p",
        "provider",
        "/work/provider",
        JsonValue::Object(vec![(
            "cargo_resources".to_string(),
            JsonValue::Object(vec![("provides".to_string(), str_value("oops"))]),
        )]),
    );
    let mut registry = Registry::new();
    let err = get_package_resource_data(&pkg, &mut registry).unwrap_err();
    match &err {
        CollationError::DeclarationError(m) => {
            assert_eq!(
                m,
                "unexpected type for [package.metadata.cargo_resources].provides in the json-metadata"
            );
        }
        other => panic!("wrong error variant: {:?}", other),
    }
}

#[test]
fn a_package_without_the_section_contributes_nothing() {
    let pkg = package("p", "plain", "/work/plain", JsonValue::Null);
    let mut registry = Registry::new();
    let events = get_package_resource_data(&pkg, &mut registry).unwrap();
    assert!(events.is_empty());
    assert_eq!(registry.len(), 0);
}

#[test]
fn later_declarations_win_with_one_notification() {
    let package_b = package(
        "b",
        "pkg_b",
        "/work/b",
        metadata_with_provides(vec![declaration_entry(vec![
            ("crate_path", str_value("logo.png")),
            ("resource_name", str_value("logo")),
        ])]),
    );
    let package_c = package(
        "c",
        "pkg_c",
        "/work/c",
        metadata_with_provides(vec![declaration_entry(vec![
            ("crate_path", str_value("art/logo.png")),
            ("resource_name", str_value("logo")),
        ])]),
    );
    let details = vec![
        PackageDetails { is_dependency: true, package: package_b },
        PackageDetails { is_dependency: true, package: package_c },
    ];
    let (registry, events) = collect_declared_resources(&details).unwrap();
    let entry = registry.get("logo").expect("logo stays registered");
    assert_eq!(entry.full_crate_path, "/work/c/art/logo.png");
    assert_eq!(events.len(), 1);
    match &events[0] {
        ReportEvent::DuplicateResource { resolved_name, replaced, with_path } => {
            assert_eq!(resolved_name, "logo");
            assert_eq!(replaced, "/work/b/logo.png");
            assert_eq!(with_path, "/work/c/art/logo.png");
        }
        other => panic!("wrong event: {:?}", other),
    }
}

#[test]
fn closure_includes_root_and_transitive_dependencies_only() {
    let packages = vec![
        package("a", "pkg_a", "/work/a", JsonValue::Null),
        package("b", "pkg_b", "/work/b", JsonValue::Null),
        package("c", "pkg_c", "/work/c", JsonValue::Null),
        package("d", "pkg_d", "/work/d", JsonValue::Null),
    ];
    let nodes = vec![
        node("a", vec!["b"]),
        node("b", vec!["c"]),
        node("c", vec![]),
        node("d", vec![]),
    ];
    let details = get_package_details(packages, &nodes, &"a".to_string()).unwrap();
    let in_scope: Vec<&str> = details
        .iter()
        .filter(|d| d.is_dependency())
        .map(|d| d.package.name.as_str())
        .collect();
    assert_eq!(in_scope, vec!["pkg_a", "pkg_b", "pkg_c"]);
}

#[test]
fn unreachable_declarations_never_enter_the_registry() {
    let package_d = package(
        "d",
        "pkg_d",
        "/work/d",
        metadata_with_provides(vec![declaration_entry(vec![(
            "crate_path",
            str_value("secret.txt"),
        )])]),
    );
    let packages = vec![package("a", "pkg_a", "/work/a", JsonValue::Null), package_d];
    let nodes = vec![node("a", vec![]), node("d", vec![])];
    let details = get_package_details(packages, &nodes, &"a".to_string()).unwrap();
    let (registry, _events) = collect_declared_resources(&details).unwrap();
    assert_eq!(registry.len(), 0);
    assert!(registry.get("secret.txt").is_none());
}

#[test]
fn a_missing_dependency_node_is_fatal() {
    let packages = vec![package("a", "pkg_a", "/work/a", JsonValue::Null)];
    let nodes = vec![node("a", vec!["ghost"])];
    let err = get_package_details(packages, &nodes, &"a".to_string()).unwrap_err();
    assert!(matches!(err, CollationError::MetadataError(_)));
}

#[test]
fn a_missing_root_node_is_fatal() {
    let packages = vec![package("a", "pkg_a", "/work/a", JsonValue::Null)];
    let nodes: Vec<DependencyNode> = vec![];
    let err = get_package_details(packages, &nodes, &"a".to_string()).unwrap_err();
    match &err {
        CollationError::MetadataError(m) => assert_eq!(m, "Missing dependency node"),
        other => panic!("wrong error variant: {:?}", other),
    }
}

#[test]
fn shared_sub_dependencies_are_visited_once() {
    let packages = vec![
        package("a", "pkg_a", "/work/a", JsonValue::Null),
        package("b", "pkg_b", "/work/b", JsonValue::Null),
        package("c", "pkg_c", "/work/c", JsonValue::Null),
        package("s", "pkg_s", "/work/s", JsonValue::Null),
    ];
    let nodes = vec![
        node("a", vec!["b", "c"]),
        node("b", vec!["s"]),
        node("c", vec!["s"]),
        node("s", vec!["b"]),
    ];
    let details = get_package_details(packages, &nodes, &"a".to_string()).unwrap();
    assert!(details.iter().all(|d| d.is_dependency()));
}
