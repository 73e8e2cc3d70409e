use rot::collections::{SortedMap, SortedSet};
use rot::compiler::cargo::{CargoArtifact, CargoProfile, CargoRun};
use rot::compiler::correlation::{
    cargo_mode_matches, correlate, expected_units, invocation_crate_types_match, invocation_role,
    same_crate_types,
};
use rot::compiler::graph::Locations;
use rot::compiler::inventory::{AuditInventory, AuditPackage, PackageTargetInfo};
use rot::compiler::profile::{CompilerProfile, ExpectedUnit};
use rot::compiler::sidecar::Invocation;
use rot::protocol::{
    ArtifactIdentity, CompilationContext, CompilerIdentity, InvocationFinished, InvocationId,
    InvocationMergeKey, InvocationStarted,
};

fn target(name: &str, source: &str, kind: &str, crate_type: &str) -> PackageTargetInfo {
    PackageTargetInfo {
        name: name.to_owned(),
        kinds: vec![kind.to_owned()],
        crate_types: vec![crate_type.to_owned()],
        source: source.to_owned(),
    }
}

fn unit() -> ExpectedUnit {
    ExpectedUnit {
        package_id: "package".to_owned(),
        target_name: "sample".to_owned(),
        target_kinds: vec!["lib".to_owned()],
        target_crate_types: vec!["lib".to_owned()],
        target_source: "/workspace/src/lib.rs".to_owned(),
        features: vec!["default".to_owned()],
        platform: Some("host".to_owned()),
    }
}

fn profile(units: Vec<ExpectedUnit>) -> CompilerProfile {
    CompilerProfile {
        resolved_features: SortedMap::new(),
        expected_units: units,
        incompatibilities: Vec::new(),
    }
}

fn places() -> Locations {
    Locations { root: "/workspace".to_owned(), canonical: Vec::new() }
}

#[test]
fn selected_unit_ledger_preserves_cargo_multiplicity() {
    let profile = profile(vec![unit(), unit()]);

    let mut selected: SortedSet<String> = SortedSet::new();
    selected.insert("package".to_owned());
    let ledger = expected_units(&places(), &profile, &selected);
    assert_eq!(ledger.len(), 1);
    assert_eq!(*ledger.value_at(0), 2);
}

#[test]
fn crate_type_identity_is_exact_but_order_independent() {
    assert!(same_crate_types(
        &vec!["rlib".to_owned(), "cdylib".to_owned()],
        &vec!["cdylib".to_owned(), "rlib".to_owned()]
    ));
    assert!(!same_crate_types(&vec!["lib".to_owned()], &vec!["rlib".to_owned()]));
    assert!(!same_crate_types(&Vec::new(), &vec!["bin".to_owned()]));
    assert!(invocation_crate_types_match(&Vec::new(), false, &vec!["bin".to_owned()]));
    assert!(invocation_crate_types_match(
        &vec!["bin".to_owned()],
        true,
        &vec!["lib".to_owned()]
    ));
    assert!(!invocation_crate_types_match(
        &vec!["lib".to_owned()],
        true,
        &vec!["lib".to_owned()]
    ));
}

#[test]
fn test_mode_only_maps_to_a_unit_test_when_target_is_testable() {
    let testable = target("sample", "src/lib.rs", "lib", "lib");
    let not_testable = target("sample", "src/main.rs", "bin", "bin");
    let integration = target("it", "tests/it.rs", "test", "bin");

    assert_eq!(invocation_role(&testable, false), Some("production"));
    assert_eq!(invocation_role(&testable, true), Some("unit_test"));
    assert_eq!(invocation_role(&not_testable, true), Some("unit_test"));
    assert_eq!(invocation_role(&integration, true), Some("test"));
}

#[test]
fn special_targets_do_not_confuse_the_cargo_test_profile_with_rustc_test_mode() {
    assert!(cargo_mode_matches(&vec!["lib".to_owned()], true, true));
    assert!(!cargo_mode_matches(&vec!["lib".to_owned()], false, true));
    assert!(!cargo_mode_matches(&vec!["bench".to_owned()], false, true));
    assert!(cargo_mode_matches(&vec!["bench".to_owned()], true, true));
}

fn artifact() -> CargoArtifact {
    CargoArtifact {
        package_id: "package".to_owned(),
        manifest_path: "/workspace/Cargo.toml".to_owned(),
        target_name: "sample".to_owned(),
        target_kinds: vec!["lib".to_owned()],
        target_crate_types: vec!["lib".to_owned()],
        target_source: "/workspace/src/lib.rs".to_owned(),
        profile_test: false,
        profile: CargoProfile {
            opt_level: "0".to_owned(),
            debug_assertions: true,
            overflow_checks: true,
        },
        features: vec!["default".to_owned()],
        filenames: vec!["/workspace/target/libsample-1.rmeta".to_owned()],
        fresh: false,
    }
}

fn run(artifacts: Vec<CargoArtifact>) -> CargoRun {
    CargoRun {
        success: true,
        build_finished: Some(true),
        artifacts,
        failures: Vec::new(),
        build_script_outputs: Vec::new(),
        stderr: String::new(),
        text_lines: Vec::new(),
    }
}

fn inventory() -> AuditInventory {
    AuditInventory {
        root: "/workspace".to_owned(),
        requested: vec!["/workspace".to_owned()],
        packages: vec![AuditPackage {
            id: "package".to_owned(),
            name: "sample".to_owned(),
            root: "/workspace".to_owned(),
            targets: vec![target("sample", "/workspace/src/lib.rs", "lib", "lib")],
            selected: true,
        }],
        audit_target: "host".to_owned(),
    }
}

fn invocation(name: &str) -> Invocation {
    Invocation {
        id: InvocationId(name.to_owned()),
        started: InvocationStarted {
            merge_key: InvocationMergeKey(name.to_owned()),
            compiler: CompilerIdentity {
                release: "nightly".to_owned(),
                commit_hash: "commit".to_owned(),
                commit_date: "date".to_owned(),
                host: "host".to_owned(),
            },
            process_id: 1,
            rustc_path: "rustc".to_owned(),
            working_directory: "/workspace".to_owned(),
            manifest_dir: Some("/workspace".to_owned()),
            build_script_out_dir: None,
            package_name: Some("sample".to_owned()),
            primary_package: true,
            test_mode: false,
            target_triple: "host".to_owned(),
            compilation_context: CompilationContext::Target,
            crate_name: "sample".to_owned(),
            input: Some("src/lib.rs".to_owned()),
            artifact: ArtifactIdentity {
                out_dir: Some("/workspace/target".to_owned()),
                crate_name: "sample".to_owned(),
                crate_types: vec!["lib".to_owned()],
                extra_filename: Some("-1".to_owned()),
                metadata: Some("1".to_owned()),
                emit: vec!["metadata".to_owned()],
            },
        },
        profile: None,
        sources: Vec::new(),
        products: Vec::new(),
        diagnostics: Vec::new(),
        definitions: Vec::new(),
        bindings: Vec::new(),
        roots: Vec::new(),
        references: Vec::new(),
        finished: InvocationFinished { rustc_success: true, analysis_reached: true },
    }
}

#[test]
fn an_invocation_is_matched_with_the_artifact_that_it_made() {
    let correlation = correlate(
        vec![invocation("one")],
        &run(vec![artifact()]),
        &inventory(),
        &profile(vec![unit()]),
        &places(),
    );
    assert_eq!(correlation.invocations.len(), 1);
    assert_eq!(correlation.expected, 1);
    let target = correlation.invocations[0].target.as_ref().expect("matched target");
    assert_eq!(target.package_id, "package");
    assert_eq!(target.role, "production");
}

#[test]
fn a_unit_without_an_invocation_is_missing() {
    let correlation = correlate(
        Vec::new(),
        &run(vec![artifact()]),
        &inventory(),
        &profile(vec![unit()]),
        &places(),
    );
    assert_eq!(correlation.expected, 1);
    assert_eq!(correlation.correlated, 0);
    assert!(!correlation.errors.is_empty());
}

#[test]
fn invocations_are_matched_however_their_paths_are_written() {
    let mut written = invocation("one");
    written.started.manifest_dir = Some("/workspace/.".to_owned());
    written.started.input = Some("/workspace//src/lib.rs".to_owned());
    written.started.artifact.out_dir = Some("/workspace//target/".to_owned());
    let mut planned = unit();
    planned.target_source = "/workspace/src/./lib.rs".to_owned();
    let correlation = correlate(
        vec![written],
        &run(vec![artifact()]),
        &inventory(),
        &profile(vec![planned]),
        &places(),
    );
    assert_eq!(correlation.expected, 1);
    assert_eq!(correlation.correlated, 1);
    assert_eq!(correlation.invocations[0].issue, None);
    assert!(correlation.errors.is_empty());
}

#[test]
fn units_are_one_however_their_sources_are_written() {
    let mut planned = unit();
    planned.target_source = "/workspace//src/lib.rs".to_owned();
    let correlation = correlate(
        Vec::new(),
        &run(Vec::new()),
        &inventory(),
        &profile(vec![planned, unit()]),
        &places(),
    );
    assert_eq!(
        correlation.errors,
        ["selected Cargo unit graph expects 2 compiler sidecar(s), observed 0: package:sample [kinds=lib; crate_types=lib; features=default; platform=host] at /workspace//src/lib.rs"]
    );
}
