use forge_scarb::artifacts::{
    artifacts_dir, artifacts_file_name, contract_artifact_files, get_contracts_map,
    index_base_dir, try_get_starknet_artifacts_path, ContractsMap, DirListing, StarknetArtifacts,
    StarknetContract, StarknetContractArtifactPaths, StarknetContractArtifacts,
};
use forge_scarb::error::ScarbError;

fn record(name: &str, sierra: &str, casm: Option<&str>) -> StarknetContract {
    StarknetContract {
        id: "1".to_string(),
        package_name: "p".to_string(),
        contract_name: name.to_string(),
        artifacts: StarknetContractArtifactPaths {
            sierra: sierra.to_string(),
            casm: casm.map(|c| c.to_string()),
        },
    }
}

fn contents(sierra: &str, casm: Option<&str>) -> StarknetContractArtifacts {
    StarknetContractArtifacts { sierra: sierra.to_string(), casm: casm.map(|c| c.to_string()) }
}

fn listing(names: &[&str]) -> DirListing {
    DirListing::Entries(names.iter().map(|n| n.to_string()).collect())
}

#[test]
fn get_starknet_artifacts_path() {
    let entries = listing(&[
        "simple_package.sierra.json",
        "simple_package.starknet_artifacts.json",
        "simple_package_ERC20.sierra.json",
    ]);
    let path = try_get_starknet_artifacts_path("/tmp/t", "simple_package", &entries).unwrap().unwrap();
    assert_eq!(path, "/tmp/t/target/dev/simple_package.starknet_artifacts.json");
}

#[test]
fn get_starknet_artifacts_path_for_project_with_different_package_and_target_name() {
    let entries = listing(&["essa.starknet_artifacts.json", "essa_HelloStarknet.sierra.json"]);
    let path = try_get_starknet_artifacts_path("/tmp/t", "essa", &entries).unwrap().unwrap();
    assert_eq!(path, "/tmp/t/target/dev/essa.starknet_artifacts.json");
}

#[test]
fn get_starknet_artifacts_path_for_project_without_contracts() {
    let entries = listing(&["print_test.sierra.json"]);
    let path = try_get_starknet_artifacts_path("/tmp/t", "print_test", &entries).unwrap();
    assert!(path.is_none());
}

#[test]
fn get_starknet_artifacts_path_for_project_without_scarb_build() {
    let path =
        try_get_starknet_artifacts_path("/tmp/t", "simple_package", &DirListing::Missing).unwrap();
    assert!(path.is_none());
}

#[test]
fn unreadable_artifacts_dir_is_an_error() {
    let err = try_get_starknet_artifacts_path("/tmp/t", "simple_package", &DirListing::Failed)
        .unwrap_err();
    assert!(matches!(err, ScarbError::ReadDirFailed { ref path } if path == "/tmp/t/target/dev"));
    assert_eq!(err.message(), "Failed to read directory \"/tmp/t/target/dev\"");
}

#[test]
fn index_base_dir_is_the_parent() {
    assert_eq!(index_base_dir("/w/target/dev/p.starknet_artifacts.json").unwrap(), "/w/target/dev");
    let err = index_base_dir("/").unwrap_err();
    assert!(matches!(err, ScarbError::ParentNotFound { ref path } if path == "/"));
    assert!(matches!(index_base_dir(""), Err(ScarbError::ParentNotFound { .. })));
}

#[test]
fn index_file_name_and_dir() {
    assert_eq!(artifacts_file_name("abc"), "abc.starknet_artifacts.json");
    assert_eq!(artifacts_dir("/r"), "/r/target/dev");
}

#[test]
fn parsing_starknet_artifacts_on_invalid_file() {
    let artifacts_path = "/tmp/t/wrong.json".to_string();
    let err = ScarbError::ParseFailed { path: artifacts_path.clone() };
    assert!(err.message().contains(&format!("Failed to parse {artifacts_path:?} contents. Make sure you have enabled sierra code generation in Scarb.toml")));
}

#[test]
fn parse_error_message_quotes_the_path() {
    let err = ScarbError::ParseFailed { path: "/a/b.json".to_string() };
    assert!(err.message().starts_with("Failed to parse \"/a/b.json\" contents."));
    let err = ScarbError::ReadFailed { path: "/a/b\"c.json".to_string() };
    assert_eq!(err.message(), "Failed to read \"/a/b\\\"c.json\" contents");
}

fn erc20_index(casm: Option<&str>) -> StarknetArtifacts {
    StarknetArtifacts { version: 1, contracts: vec![record("ERC20", "p_ERC20.sierra.json", casm)] }
}

#[test]
fn index_paths_resolved_against_its_directory() {
    let index = erc20_index(Some("p_ERC20.casm.json"));
    let files = contract_artifact_files("/w/target/dev/p.starknet_artifacts.json", &index).unwrap();
    assert_eq!(files.len(), 1);
    assert_eq!(files[0].contract_name, "ERC20");
    assert_eq!(files[0].sierra_path, "/w/target/dev/p_ERC20.sierra.json");
    assert_eq!(files[0].casm_path.as_deref(), Some("/w/target/dev/p_ERC20.casm.json"));
}

#[test]
fn index_path_without_parent() {
    let index = erc20_index(None);
    let err = contract_artifact_files("/", &index).unwrap_err();
    assert!(matches!(err, ScarbError::ParentNotFound { .. }));
    assert_eq!(err.message(), "Failed to get parent for path = /");
}

#[test]
fn contracts_map_with_casm() {
    let index = erc20_index(Some("p_ERC20.casm.json"));
    let files = contract_artifact_files("/w/target/dev/p.starknet_artifacts.json", &index).unwrap();
    assert!(files[0].casm_path.is_some());
    let map = get_contracts_map(&index, &vec![contents("SIERRA_BODY", Some("CASM_BODY"))]);
    assert_eq!(map.len(), 1);
    assert_eq!(map.get("ERC20"), Some(&contents("SIERRA_BODY", Some("CASM_BODY"))));
}

#[test]
fn contracts_map_without_casm() {
    let index = erc20_index(None);
    let files = contract_artifact_files("/w/target/dev/p.starknet_artifacts.json", &index).unwrap();
    assert!(files[0].casm_path.is_none());
    let map = get_contracts_map(&index, &vec![contents("SIERRA_BODY", None)]);
    assert_eq!(map.len(), 1);
    assert_eq!(map.get("ERC20"), Some(&contents("SIERRA_BODY", None)));
}

#[test]
fn get_contracts() {
    let index = StarknetArtifacts {
        version: 1,
        contracts: vec![
            record("ERC20", "simple_package_ERC20.sierra.json", Some("simple_package_ERC20.casm.json")),
            record(
                "HelloStarknet",
                "simple_package_HelloStarknet.sierra.json",
                Some("simple_package_HelloStarknet.casm.json"),
            ),
        ],
    };
    let read = vec![contents("erc20 sierra", Some("erc20 casm")), contents("hello sierra", Some("hello casm"))];
    let contracts = get_contracts_map(&index, &read);
    assert!(contracts.contains_key("ERC20"));
    assert!(contracts.contains_key("HelloStarknet"));
    let contract = contracts.get("ERC20").unwrap();
    assert_eq!(&"erc20 sierra".to_string(), &contract.sierra);
    assert_eq!(&"erc20 casm".to_string(), &contract.casm.clone().unwrap());
    let contract = contracts.get("HelloStarknet").unwrap();
    assert_eq!(&"hello sierra".to_string(), &contract.sierra);
    assert_eq!(&"hello casm".to_string(), &contract.casm.clone().unwrap());
}

#[test]
fn duplicate_contract_names_keep_the_last() {
    let index = StarknetArtifacts {
        version: 1,
        contracts: vec![record("A", "a1", None), record("B", "b", None), record("A", "a2", None)],
    };
    let read = vec![contents("first", None), contents("b", None), contents("second", None)];
    let map = get_contracts_map(&index, &read);
    assert_eq!(map.len(), 2);
    assert_eq!(map.get("A").unwrap().sierra, "second");
    assert!(map.get("C").is_none());
    assert!(!map.contains_key("C"));
}

#[test]
fn contracts_map_insert_replaces() {
    let mut map = ContractsMap::new();
    assert_eq!(map.len(), 0);
    map.insert("X".to_string(), contents("1", None));
    map.insert("X".to_string(), contents("2", Some("c")));
    assert_eq!(map.len(), 1);
    assert_eq!(map.get("X"), Some(&contents("2", Some("c"))));
}

#[test]
fn empty_index_gives_empty_map() {
    let index = StarknetArtifacts { version: 1, contracts: vec![] };
    let files = contract_artifact_files("/w/i.json", &index).unwrap();
    assert!(files.is_empty());
    assert_eq!(get_contracts_map(&index, &vec![]).len(), 0);
}
