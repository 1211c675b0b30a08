use dojo_lang::aggregate::{aggregate, run_build, BuildOutput};
use dojo_lang::classify::{ModelDecl, ModuleAnnotation, ModuleScan};
use dojo_lang::error::{BuildError, Diagnostic};
use dojo_lang::manifest::{
    merge_class_manifest, merge_contract_manifest, plan_manifest_write, ClassManifest,
    ContractManifest, ManifestKind, Member,
};
use dojo_lang::registry::{artifact_file_name, build_registry, ArtifactInput};
use dojo_lang::rw::{normalize_reads, reads_for, writes_for, RwRecord};
use dojo_lang::selector::{
    filter_external_paths, unique_packages, ContractSelector, DojoCompiler, Props,
};

fn sierra_json() -> String {
    String::from(
        "{\"sierra_program\":[],\"sierra_program_debug_info\":{\"type_names\":[],\"libfunc_names\":[],\"user_func_names\":[]},\"contract_class_version\":\"0.1.0\",\"entry_points_by_type\":{\"EXTERNAL\":[],\"L1_HANDLER\":[],\"CONSTRUCTOR\":[]},\"abi\":[]}",
    )
}

fn artifact(path: &str) -> ArtifactInput {
    ArtifactInput {
        qualified_path: String::from(path),
        class_json: sierra_json(),
        abi: Some(String::from("[]")),
    }
}

fn system_artifacts() -> Vec<ArtifactInput> {
    vec![
        artifact("dojo::world::world"),
        artifact("dojo::executor::executor"),
        artifact("dojo::base::base"),
    ]
}

fn empty_rw() -> RwRecord {
    RwRecord { reads: vec![], writes: vec![] }
}

fn contract_module(path: &str, name: &str) -> ModuleScan {
    ModuleScan {
        qualified_path: String::from(path),
        is_submodule: false,
        struct_names: vec![],
        annotations: vec![ModuleAnnotation::ContractTag {
            declared_names: vec![String::from(name)],
        }],
    }
}

fn find_contract<'a>(
    out: &'a BuildOutput,
    key: &str,
) -> Option<&'a (String, (ContractManifest, Option<String>))> {
    out.contracts.iter().find(|e| e.0 == key)
}

#[test]
fn class_hash_deterministic_and_not_echo() {
    let items = vec![artifact("a::b")];
    let r1 = build_registry(&items).unwrap();
    let r2 = build_registry(&items).unwrap();
    assert_eq!(r1.entries[0].1.class_hash, r2.entries[0].1.class_hash);
    assert!(r1.entries[0].1.class_hash.starts_with("0x"));
    assert_ne!(r1.entries[0].1.class_hash, sierra_json());
}

#[test]
fn registry_parse_failure_reported_with_path() {
    let items = vec![ArtifactInput {
        qualified_path: String::from("bad::artifact"),
        class_json: String::from("this is not a sierra class"),
        abi: None,
    }];
    match build_registry(&items) {
        Err(BuildError::ArtifactParse { qualified_path }) => {
            assert_eq!(qualified_path, "bad::artifact");
        }
        _ => panic!("expected a parse failure"),
    }
}

#[test]
fn error_messages_name_the_entity() {
    let e = BuildError::MissingSystemContract {
        name: String::from("dojo::executor::executor"),
    };
    assert_eq!(
        e.message(),
        "contract not found in compiled artifacts: dojo::executor::executor"
    );
    let e = BuildError::ArtifactParse { qualified_path: String::from("a::b") };
    assert_eq!(e.message(), "error parsing Sierra class: a::b");
    let e = BuildError::ComputedValueOwnerMissing { contract: String::from("c::d") };
    assert_eq!(e.message(), "computed value contract doesn't exist: c::d");
}

#[test]
fn reads_normalization() {
    let reads = vec![String::from("B"), String::from("A"), String::from("A")];
    let out = normalize_reads(&reads);
    assert_eq!(out, vec![String::from("A"), String::from("B")]);
}

#[test]
fn absent_rw_record_yields_empty_access_sets() {
    let rw = empty_rw();
    assert!(reads_for(&rw, "nope").is_empty());
    assert!(writes_for(&rw, "nope").is_empty());
}

#[test]
fn writes_kept_in_order_without_dedup() {
    let rw = RwRecord {
        reads: vec![],
        writes: vec![(
            String::from("c"),
            vec![String::from("W2"), String::from("W1"), String::from("W2")],
        )],
    };
    assert_eq!(
        writes_for(&rw, "c"),
        vec![String::from("W2"), String::from("W1"), String::from("W2")]
    );
}

#[test]
fn merge_preserves_operator_address() {
    let fresh = ContractManifest {
        name: String::from("ns::c"),
        class_hash: String::from("0x2"),
        abi: None,
        reads: vec![String::from("A")],
        writes: vec![String::from("W")],
        computed: vec![],
        address: None,
    };
    let prior = ContractManifest {
        name: String::from("ns::c"),
        class_hash: String::from("0x1"),
        abi: Some(String::from("abis/c.json")),
        reads: vec![],
        writes: vec![],
        computed: vec![],
        address: Some(String::from("0x00fee")),
    };
    let merged = merge_contract_manifest(&fresh, &prior);
    assert_eq!(merged.class_hash, "0x2");
    assert_eq!(merged.address, Some(String::from("0x00fee")));
    assert_eq!(merged.reads, vec![String::from("A")]);
    assert_eq!(merged.writes, vec![String::from("W")]);
    assert_eq!(merged.abi, None);
}

#[test]
fn class_merge_preserves_operator_address() {
    let fresh = ClassManifest {
        name: String::from("dojo::world::world"),
        class_hash: String::from("0x2"),
        abi: None,
        address: None,
    };
    let prior = ClassManifest {
        name: String::from("dojo::world::world"),
        class_hash: String::from("0x1"),
        abi: None,
        address: Some(String::from("0xabc")),
    };
    let merged = merge_class_manifest(&fresh, &prior);
    assert_eq!(merged.class_hash, "0x2");
    assert_eq!(merged.address, Some(String::from("0xabc")));
}

#[test]
fn write_plan_paths_are_deterministic() {
    let plan = plan_manifest_write(ManifestKind::Contract, "ns::mycontract");
    assert_eq!(plan.manifest_rel, "manifests/base/contracts/mycontract.toml");
    assert_eq!(plan.abi_rel, "abis/contracts/mycontract.json");
    assert_eq!(plan.abi_ref, "abis/mycontract.json");
    let plan = plan_manifest_write(ManifestKind::Base, "dojo::world::world");
    assert_eq!(plan.manifest_rel, "manifests/base/world.toml");
    let plan = plan_manifest_write(ManifestKind::Model, "ns::position");
    assert_eq!(plan.manifest_rel, "manifests/base/models/position.toml");
}

#[test]
fn missing_system_contract_is_fatal() {
    let items = vec![artifact("dojo::world::world"), artifact("dojo::base::base")];
    let reg = build_registry(&items).unwrap();
    let modules: Vec<ModuleScan> = vec![];
    match aggregate(&reg, &modules, &empty_rw()) {
        Err(BuildError::MissingSystemContract { name }) => {
            assert_eq!(name, "dojo::executor::executor");
        }
        _ => panic!("expected a fatal missing-system-contract error"),
    }
}

#[test]
fn model_precedence_over_contract() {
    let mut items = system_artifacts();
    items.push(artifact("ns::position"));
    let reg = build_registry(&items).unwrap();
    let modules = vec![
        contract_module("ns::position", "position_contract"),
        ModuleScan {
            qualified_path: String::from("ns"),
            is_submodule: false,
            struct_names: vec![String::from("Position")],
            annotations: vec![ModuleAnnotation::ModelTag {
                models: vec![ModelDecl {
                    name: String::from("Position"),
                    members: vec![Member {
                        name: String::from("x"),
                        ty: String::from("u32"),
                        key: false,
                    }],
                }],
            }],
        },
    ];
    let out = aggregate(&reg, &modules, &empty_rw()).unwrap();
    assert!(find_contract(&out, "ns::position").is_none());
    let model = out.models.iter().find(|e| e.0 == "ns::position").unwrap();
    assert_eq!(model.1 .0.name, "ns::position");
    assert_eq!(model.1 .0.members.len(), 1);
    assert_eq!(model.1 .0.members[0].name, "x");
    assert_eq!(model.1 .0.members[0].ty, "u32");
    assert!(!model.1 .0.members[0].key);
}

#[test]
fn computed_value_attachment() {
    let mut items = system_artifacts();
    items.push(artifact("app::actions"));
    let reg = build_registry(&items).unwrap();
    let modules = vec![
        contract_module("app::actions", "actions"),
        ModuleScan {
            qualified_path: String::from("app::actions::inner"),
            is_submodule: true,
            struct_names: vec![],
            annotations: vec![ModuleAnnotation::ComputedValueTag {
                entrypoint: String::from("calc"),
                model: String::from("Position"),
            }],
        },
    ];
    let out = aggregate(&reg, &modules, &empty_rw()).unwrap();
    let entry = find_contract(&out, "app::actions").unwrap();
    assert_eq!(entry.1 .0.computed.len(), 1);
    assert_eq!(entry.1 .0.computed[0].contract, "app::actions::inner");
    assert_eq!(entry.1 .0.computed[0].entrypoint, "calc");
    assert_eq!(entry.1 .0.computed[0].model, "Position");
}

#[test]
fn computed_value_without_owner_is_fatal() {
    let reg = build_registry(&system_artifacts()).unwrap();
    let modules = vec![ModuleScan {
        qualified_path: String::from("app::actions::inner"),
        is_submodule: true,
        struct_names: vec![],
        annotations: vec![ModuleAnnotation::ComputedValueTag {
            entrypoint: String::from("calc"),
            model: String::from("Position"),
        }],
    }];
    match aggregate(&reg, &modules, &empty_rw()) {
        Err(BuildError::ComputedValueOwnerMissing { contract }) => {
            assert_eq!(contract, "app::actions");
        }
        _ => panic!("expected a fatal orphan computed-value error"),
    }
}

#[test]
fn contract_without_artifact_is_reported_not_fatal() {
    let reg = build_registry(&system_artifacts()).unwrap();
    let modules = vec![contract_module("ns::ghost_contract", "ghost")];
    let out = aggregate(&reg, &modules, &empty_rw()).unwrap();
    assert!(out.contracts.is_empty());
    let seen = out.diagnostics.iter().any(|d| match d {
        Diagnostic::ContractNotCompiled { qualified_path } => qualified_path == "ns::ghost_contract",
        _ => false,
    });
    assert!(seen);
}

#[test]
fn aggregation_deterministic() {
    let mut items = system_artifacts();
    items.push(artifact("ns::c"));
    let reg = build_registry(&items).unwrap();
    let modules = vec![contract_module("ns::c", "c")];
    let rw = RwRecord {
        reads: vec![(
            String::from("ns::c"),
            vec![String::from("B"), String::from("A"), String::from("A")],
        )],
        writes: vec![],
    };
    let out1 = aggregate(&reg, &modules, &rw).unwrap();
    let out2 = aggregate(&reg, &modules, &rw).unwrap();
    assert_eq!(out1.system.len(), out2.system.len());
    for s in 0..out1.system.len() {
        assert_eq!(out1.system[s].0.name, out2.system[s].0.name);
        assert_eq!(out1.system[s].0.class_hash, out2.system[s].0.class_hash);
    }
    assert_eq!(out1.contracts.len(), out2.contracts.len());
    for e in 0..out1.contracts.len() {
        assert_eq!(out1.contracts[e].0, out2.contracts[e].0);
        assert_eq!(out1.contracts[e].1 .0.class_hash, out2.contracts[e].1 .0.class_hash);
        assert_eq!(out1.contracts[e].1 .0.reads, out2.contracts[e].1 .0.reads);
        assert_eq!(out1.contracts[e].1 .0.writes, out2.contracts[e].1 .0.writes);
    }
    let entry = find_contract(&out1, "ns::c").unwrap();
    assert_eq!(entry.1 .0.reads, vec![String::from("A"), String::from("B")]);
}

#[test]
fn external_selector_exact_match() {
    let declared = vec![String::from("pkgA::Foo"), String::from("pkgA::Bar")];
    let selectors = vec![ContractSelector::new(String::from("pkgA::Foo"))];
    let kept = filter_external_paths(&declared, &selectors);
    assert_eq!(kept, vec![String::from("pkgA::Foo")]);
}

#[test]
fn package_wide_selector_matches_no_exact_path() {
    let declared = vec![String::from("pkgA::Foo"), String::from("pkgA::Bar")];
    let selectors = vec![ContractSelector::new(String::from("pkgA"))];
    let kept = filter_external_paths(&declared, &selectors);
    assert!(kept.is_empty());
}

#[test]
fn unique_packages_dedup_first_kept() {
    let selectors = vec![
        ContractSelector::new(String::from("pkgA::Foo")),
        ContractSelector::new(String::from("pkgA::Bar")),
        ContractSelector::new(String::from("pkgB")),
    ];
    let packages = unique_packages(&selectors);
    assert_eq!(packages, vec![String::from("pkgA"), String::from("pkgB")]);
}

#[test]
fn selector_package_and_full_path() {
    let s = ContractSelector::new(String::from("dojo::world"));
    assert_eq!(s.package(), "dojo");
    assert_eq!(s.full_path(), "dojo::world");
    let s = ContractSelector::new(String::from("base"));
    assert_eq!(s.package(), "base");
}

#[test]
fn compiler_serves_dojo_target() {
    let compiler = DojoCompiler;
    assert_eq!(compiler.target_kind(), "dojo");
    let props = Props { build_external_contracts: None };
    assert!(props.build_external_contracts.is_none());
}

#[test]
fn artifact_output_file_name() {
    assert_eq!(artifact_file_name("a::b"), "a::b.json");
}

#[test]
fn end_to_end_build() {
    let mut items = system_artifacts();
    items.push(artifact("ns::c"));
    let modules = vec![contract_module("ns::c", "c")];
    let rw = RwRecord {
        reads: vec![(String::from("ns::c"), vec![String::from("M")])],
        writes: vec![(String::from("ns::c"), vec![String::from("M")])],
    };
    let (reg, out) = run_build(&items, &modules, &rw).unwrap();
    assert_eq!(out.system.len(), 3);
    assert_eq!(out.system[0].0.name, "dojo::world::world");
    assert_eq!(out.system[1].0.name, "dojo::executor::executor");
    assert_eq!(out.system[2].0.name, "dojo::base::base");
    let entry = find_contract(&out, "ns::c").unwrap();
    let reg_entry = reg.entries.iter().find(|e| e.0 == "ns::c").unwrap();
    assert_eq!(entry.1 .0.class_hash, reg_entry.1.class_hash);
    assert_eq!(entry.1 .1, Some(String::from("[]")));
    assert_eq!(entry.1 .0.abi, None);
    assert_eq!(entry.1 .0.reads, vec![String::from("M")]);
    assert_eq!(entry.1 .0.writes, vec![String::from("M")]);
}

#[test]
fn core_crate_packages_dedup() {
    let packages = dojo_lang::selector::collect_core_crate_packages();
    assert_eq!(packages, vec![String::from("dojo")]);
}

#[test]
fn model_without_artifact_skipped_with_diagnostic() {
    let reg = build_registry(&system_artifacts()).unwrap();
    let modules = vec![ModuleScan {
        qualified_path: String::from("ns"),
        is_submodule: false,
        struct_names: vec![String::from("Position")],
        annotations: vec![ModuleAnnotation::ModelTag {
            models: vec![ModelDecl { name: String::from("Position"), members: vec![] }],
        }],
    }];
    let out = aggregate(&reg, &modules, &empty_rw()).unwrap();
    assert!(out.models.is_empty());
    let seen = out.diagnostics.iter().any(|d| match d {
        Diagnostic::ModelNotCompiled { qualified_path } => qualified_path == "ns::position",
        _ => false,
    });
    assert!(seen);
}

#[test]
fn model_name_without_struct_declaration_ignored() {
    let reg = build_registry(&system_artifacts()).unwrap();
    let modules = vec![ModuleScan {
        qualified_path: String::from("ns"),
        is_submodule: false,
        struct_names: vec![],
        annotations: vec![ModuleAnnotation::ModelTag {
            models: vec![ModelDecl { name: String::from("Position"), members: vec![] }],
        }],
    }];
    let out = aggregate(&reg, &modules, &empty_rw()).unwrap();
    assert!(out.models.is_empty());
    assert!(out.diagnostics.is_empty());
}

#[test]
fn annotations_co_occur_on_one_module() {
    let mut items = system_artifacts();
    items.push(artifact("ns"));
    items.push(artifact("ns::position"));
    let reg = build_registry(&items).unwrap();
    let modules = vec![ModuleScan {
        qualified_path: String::from("ns"),
        is_submodule: false,
        struct_names: vec![String::from("Position")],
        annotations: vec![
            ModuleAnnotation::ContractTag { declared_names: vec![String::from("c")] },
            ModuleAnnotation::ModelTag {
                models: vec![ModelDecl { name: String::from("Position"), members: vec![] }],
            },
        ],
    }];
    let out = aggregate(&reg, &modules, &empty_rw()).unwrap();
    assert!(find_contract(&out, "ns").is_some());
    assert!(out.models.iter().any(|e| e.0 == "ns::position"));
}

#[test]
fn system_contract_names_never_become_user_contracts() {
    let reg = build_registry(&system_artifacts()).unwrap();
    let modules = vec![contract_module("dojo::world::world", "world")];
    let out = aggregate(&reg, &modules, &empty_rw()).unwrap();
    assert!(out.contracts.is_empty());
    assert!(out.diagnostics.is_empty());
}

#[test]
fn later_model_declaration_overrides_members() {
    let mut items = system_artifacts();
    items.push(artifact("ns::position"));
    let reg = build_registry(&items).unwrap();
    let declare = |ty: &str| ModuleScan {
        qualified_path: String::from("ns"),
        is_submodule: false,
        struct_names: vec![String::from("Position")],
        annotations: vec![ModuleAnnotation::ModelTag {
            models: vec![ModelDecl {
                name: String::from("Position"),
                members: vec![Member {
                    name: String::from("x"),
                    ty: String::from(ty),
                    key: false,
                }],
            }],
        }],
    };
    let modules = vec![declare("u8"), declare("u128")];
    let out = aggregate(&reg, &modules, &empty_rw()).unwrap();
    let model = out.models.iter().find(|e| e.0 == "ns::position").unwrap();
    assert_eq!(model.1 .0.members.len(), 1);
    assert_eq!(model.1 .0.members[0].ty, "u128");
}

#[test]
fn appending_duplicate_selector_keeps_packages_unchanged() {
    let selectors = vec![
        ContractSelector::new(String::from("pkgA::Foo")),
        ContractSelector::new(String::from("pkgB")),
    ];
    let mut extended = vec![
        ContractSelector::new(String::from("pkgA::Foo")),
        ContractSelector::new(String::from("pkgB")),
    ];
    extended.push(ContractSelector::new(String::from("pkgA::Bar")));
    assert_eq!(unique_packages(&selectors), unique_packages(&extended));
    assert_eq!(unique_packages(&extended), vec![String::from("pkgA"), String::from("pkgB")]);
}
