use forge_scarb::error::ScarbError;
use forge_scarb::metadata::{
    config_from_scarb_for_package, dependencies_for_package, is_core_component, select_unit,
    CompilationUnitInfo, ComponentInfo, ForgeConfigFromScarb, PackageInfo, ToolSection,
    UnitTarget, WorkspaceMetadata,
};

const PKG: &str = "simple_package 0.1.0 (path+file:///tmp/simple_package/Scarb.toml)";

fn component(name: &str, root: &str) -> ComponentInfo {
    ComponentInfo {
        name: name.to_string(),
        source_path: format!("{root}/lib.cairo"),
        source_root: root.to_string(),
    }
}

fn unit(package: &str, kind: &str, name: &str, components: Vec<ComponentInfo>) -> CompilationUnitInfo {
    CompilationUnitInfo {
        package: package.to_string(),
        target: UnitTarget {
            kind: kind.to_string(),
            name: name.to_string(),
            source_path: "/tmp/simple_package/src/lib.cairo".to_string(),
        },
        components,
    }
}

fn standard_components() -> Vec<ComponentInfo> {
    vec![
        component("simple_package", "/tmp/simple_package/src"),
        component("core", "/home/u/.cache/scarb/registry/std/core/src"),
        component("starknet", "/home/u/.cache/scarb/registry/std/starknet/src"),
    ]
}

fn section(tool: &str, forge_config: Result<ForgeConfigFromScarb, String>) -> ToolSection {
    ToolSection { tool: tool.to_string(), forge_config }
}

fn package(forge_config: Option<Result<ForgeConfigFromScarb, String>>) -> PackageInfo {
    PackageInfo {
        id: PKG.to_string(),
        root: "/tmp/simple_package".to_string(),
        tool_sections: forge_config.into_iter().map(|c| section("snforge", c)).collect(),
    }
}

fn simple_metadata() -> WorkspaceMetadata {
    WorkspaceMetadata {
        packages: vec![package(Some(Ok(ForgeConfigFromScarb { exit_first: false })))],
        compilation_units: vec![
            unit(PKG, "test", "simple_package_unittest", standard_components()),
            unit(PKG, "starknet-contract", "simple_package", standard_components()),
        ],
    }
}

#[test]
fn get_dependencies_for_package() {
    let metadata = simple_metadata();
    let (_, _, _, dependencies, _) = dependencies_for_package(&metadata, &PKG.to_string()).unwrap();
    assert!(!dependencies.is_empty());
    assert_eq!(dependencies.len(), 2);
    assert_eq!(dependencies[0].name, "simple_package");
    assert_eq!(dependencies[0].path, "/tmp/simple_package/src");
    assert_eq!(dependencies[1].name, "starknet");
    assert_eq!(dependencies[1].path, "/home/u/.cache/scarb/registry/std/starknet/src");
}

#[test]
fn get_paths_for_package() {
    let metadata = simple_metadata();
    let (package_path, lib_path, corelib_path, _, target_name) =
        dependencies_for_package(&metadata, &PKG.to_string()).unwrap();
    assert_eq!(package_path, "/tmp/simple_package");
    assert!(lib_path.ends_with("src/lib.cairo"));
    assert!(lib_path.starts_with(&package_path));
    assert_eq!(corelib_path, "/home/u/.cache/scarb/registry/std/core/src");
    assert_eq!(target_name, "simple_package");
}

#[test]
fn get_dependencies_for_package_err_on_invalid_package() {
    let metadata = simple_metadata();
    let result = dependencies_for_package(&metadata, &String::from("12345679"));
    let err = result.unwrap_err();
    assert!(err.message().contains("Failed to find metadata for package"));
    assert_eq!(err.message(), "Failed to find metadata for package = 12345679");
}

#[test]
fn get_forge_config_for_package() {
    let metadata = simple_metadata();
    let config = config_from_scarb_for_package(&metadata, &PKG.to_string()).unwrap();
    assert_eq!(config, ForgeConfigFromScarb { exit_first: false });
}

#[test]
fn get_forge_config_for_package_err_on_invalid_package() {
    let metadata = simple_metadata();
    let result = config_from_scarb_for_package(&metadata, &String::from("12345679"));
    let err = result.unwrap_err();
    assert!(err.message().contains("Failed to find metadata for package"));
}

#[test]
fn get_forge_config_for_package_default_on_missing_config() {
    let mut metadata = simple_metadata();
    metadata.packages = vec![package(None)];
    let config = config_from_scarb_for_package(&metadata, &PKG.to_string()).unwrap();
    assert_eq!(config, Default::default());
}

#[test]
fn forge_config_exit_first_set() {
    let mut metadata = simple_metadata();
    metadata.packages = vec![package(Some(Ok(ForgeConfigFromScarb { exit_first: true })))];
    let config = config_from_scarb_for_package(&metadata, &PKG.to_string()).unwrap();
    assert!(config.exit_first);
}

#[test]
fn forge_config_undecodable_section_is_an_error() {
    let mut metadata = simple_metadata();
    let msg = "invalid type: string \"yes\", expected a boolean".to_string();
    metadata.packages = vec![package(Some(Err(msg.clone())))];
    let err = config_from_scarb_for_package(&metadata, &PKG.to_string()).unwrap_err();
    assert!(matches!(err, ScarbError::ConfigInvalid { .. }));
    assert_eq!(err.message(), msg);
}

#[test]
fn single_unit_selected_whatever_its_kind() {
    let metadata = WorkspaceMetadata {
        packages: vec![package(None)],
        compilation_units: vec![
            unit("other", "starknet-contract", "other", standard_components()),
            unit(PKG, "cairo-plugin", "plugin", standard_components()),
        ],
    };
    assert_eq!(select_unit(&metadata, &PKG.to_string()), Some(1));
}

#[test]
fn contract_unit_preferred_over_lib() {
    let metadata = WorkspaceMetadata {
        packages: vec![package(None)],
        compilation_units: vec![
            unit(PKG, "lib", "as_lib", standard_components()),
            unit(PKG, "test", "as_test", standard_components()),
            unit(PKG, "starknet-contract", "as_contract", standard_components()),
        ],
    };
    assert_eq!(select_unit(&metadata, &PKG.to_string()), Some(2));
    let (_, _, _, _, target_name) = dependencies_for_package(&metadata, &PKG.to_string()).unwrap();
    assert_eq!(target_name, "as_contract");
}

#[test]
fn lib_unit_preferred_over_other_kinds() {
    let metadata = WorkspaceMetadata {
        packages: vec![package(None)],
        compilation_units: vec![
            unit(PKG, "test", "as_test", standard_components()),
            unit(PKG, "lib", "as_lib", standard_components()),
        ],
    };
    assert_eq!(select_unit(&metadata, &PKG.to_string()), Some(1));
}

#[test]
fn other_kinds_ordered_by_name_first_among_equals() {
    let metadata = WorkspaceMetadata {
        packages: vec![package(None)],
        compilation_units: vec![
            unit(PKG, "test", "t1", standard_components()),
            unit(PKG, "executable", "e1", standard_components()),
            unit(PKG, "executable", "e2", standard_components()),
        ],
    };
    assert_eq!(select_unit(&metadata, &PKG.to_string()), Some(1));
}

#[test]
fn no_unit_for_package() {
    let metadata = WorkspaceMetadata {
        packages: vec![package(None)],
        compilation_units: vec![unit("other", "lib", "other", standard_components())],
    };
    assert_eq!(select_unit(&metadata, &PKG.to_string()), None);
    let err = dependencies_for_package(&metadata, &PKG.to_string()).unwrap_err();
    assert!(matches!(err, ScarbError::PackageNotFound { .. }));
}

#[test]
fn unit_without_package_entry_is_not_found() {
    let mut metadata = simple_metadata();
    metadata.packages = vec![];
    let err = dependencies_for_package(&metadata, &PKG.to_string()).unwrap_err();
    assert!(matches!(err, ScarbError::PackageNotFound { .. }));
}

#[test]
fn corelib_missing_is_an_error() {
    let metadata = WorkspaceMetadata {
        packages: vec![package(None)],
        compilation_units: vec![unit(
            PKG,
            "lib",
            "simple_package",
            vec![component("simple_package", "/tmp/simple_package/src")],
        )],
    };
    let err = dependencies_for_package(&metadata, &PKG.to_string()).unwrap_err();
    assert!(matches!(err, ScarbError::CorelibNotFound));
    assert_eq!(err.message(), "corelib could not be found");
}

#[test]
fn first_core_component_is_the_corelib() {
    let metadata = WorkspaceMetadata {
        packages: vec![package(None)],
        compilation_units: vec![unit(
            PKG,
            "lib",
            "simple_package",
            vec![
                component("core", "/a/core/src"),
                component("mid", "/tmp/mid/src"),
                component("core2", "/b/core/src"),
            ],
        )],
    };
    let (_, _, corelib, deps, _) = dependencies_for_package(&metadata, &PKG.to_string()).unwrap();
    assert_eq!(corelib, "/a/core/src");
    assert_eq!(deps.len(), 1);
    assert_eq!(deps[0].name, "mid");
}

#[test]
fn core_marker_is_a_substring_test() {
    assert!(is_core_component(&component("core", "/x/core/src")));
    assert!(!is_core_component(&component("corex", "/x/core/sr")));
    assert!(!is_core_component(&component("c", "/x/corelib")));
}

#[test]
fn forge_config_reads_only_the_snforge_section() {
    let mut metadata = simple_metadata();
    metadata.packages = vec![PackageInfo {
        id: PKG.to_string(),
        root: "/tmp/simple_package".to_string(),
        tool_sections: vec![
            section("fmt", Err("unknown".to_string())),
            section("snforge", Ok(ForgeConfigFromScarb { exit_first: true })),
        ],
    }];
    let config = config_from_scarb_for_package(&metadata, &PKG.to_string()).unwrap();
    assert!(config.exit_first);

    metadata.packages[0].tool_sections.remove(1);
    let config = config_from_scarb_for_package(&metadata, &PKG.to_string()).unwrap();
    assert_eq!(config, ForgeConfigFromScarb { exit_first: false });
}
