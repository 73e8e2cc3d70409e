use rot::collections::SortedMap;
use rot::compiler::cargo::{CargoProfile, CargoRun};
use rot::compiler::collection::{
    check_custom_cfg, check_handshake, collect, driver_places, locate_driver, must_retry, refusal,
    selected_manifest_dirs, sort_generated, source_totals, unavailable, wrapper_probe_failed,
    ContentKind, DriverCandidate, PinnedCompiler, Readiness, SourceLine,
};
use rot::compiler::environment::EnvironmentVariable;
use rot::compiler::generated::read_verified_source;
use rot::compiler::graph::CanonicalPath;
use rot::compiler::inventory::{AuditInventory, AuditPackage};
use rot::compiler::messages::{read_run, script_places, truncate_utf8};
use rot::compiler::outcome::{
    cargo_codegen_issues, normalize_cfg, render_cfg, CollectedRun, GeneratedFileReport,
};
use rot::compiler::profile::{
    audit_packages, check_requested, compiler_profile, expected_units, gated_packages, load_metadata,
    selected_roots, CargoMetadata, MetadataPackage, MetadataTarget, ProfilePackage, RawUnit,
    RawUnitTarget, ResolvedNode, UnitGraph,
};
use rot::model::{ComplexityMetrics, LineCounts, SemanticStatus};
use rot::protocol::{
    CfgValue, CodegenProfile, CompilerIdentity, Handshake, OptimizationLevel, PanicStrategy,
    SourceFile, SourceFileKey, DRIVER_VERSION, MAX_SIDECAR_BYTES, PROTOCOL_VERSION,
};

fn texts(items: &[&str]) -> Vec<String> {
    items.iter().map(|item| item.to_string()).collect()
}

#[test]
fn cargo_codegen_profile_mismatches_are_semantic_issues() {
    let observed = CodegenProfile {
        optimization: OptimizationLevel::More,
        panic: PanicStrategy::Unwind,
        debug_assertions: false,
        overflow_checks: false,
        codegen_units: 1,
        target_cpu: "generic".to_owned(),
        target_features: Vec::new(),
    };
    let expected = CargoProfile {
        opt_level: "0".to_owned(),
        debug_assertions: true,
        overflow_checks: true,
    };

    let issues = cargo_codegen_issues(&observed, &expected);
    assert_eq!(issues.len(), 3);
    assert!(issues.iter().any(|issue| issue.contains("optimization")));
    assert!(issues.iter().any(|issue| issue.contains("debug-assertions")));
    assert!(issues.iter().any(|issue| issue.contains("overflow-checks")));
}

fn source(algorithm: &str, hash: &str) -> SourceFile {
    SourceFile {
        key: SourceFileKey("source".to_owned()),
        local_path: Some("generated.rs".to_owned()),
        remapped_path: "generated.rs".to_owned(),
        source_hash_algorithm: algorithm.to_owned(),
        source_hash: hash.to_owned(),
        byte_len: 3,
        generated: true,
    }
}

#[test]
fn generated_rescan_requires_exact_compiler_observed_bytes() {
    let source = source(
        "sha256",
        "sha256=ba7816bf8f01cfea414140de5dae2223b00361a396177a9cb410ff61f20015ad",
    );

    assert_eq!(read_verified_source(b"abc".to_vec(), &source).unwrap(), b"abc");
    let error = read_verified_source(b"abd".to_vec(), &source).unwrap_err();
    assert!(error.contains("source hash changed"));
}

#[test]
fn every_digest_of_a_source_is_checked() {
    for (algorithm, hash) in [
        ("md5", "md5=900150983cd24fb0d6963f7d28e17f72"),
        ("sha1", "sha1=a9993e364706816aba3e25717850c26c9cd0d89d"),
        (
            "blake3",
            "blake3=6437b3ac38465133ffb63b75273a8db548c558465d79db03fd359c6cd5bd9d85",
        ),
    ] {
        assert_eq!(read_verified_source(b"abc".to_vec(), &source(algorithm, hash)).unwrap(), b"abc");
    }
    assert_eq!(
        read_verified_source(b"abc".to_vec(), &source("crc", "crc=0")).unwrap_err(),
        "unsupported rustc source hash algorithm \"crc\""
    );
    assert_eq!(
        read_verified_source(b"abcd".to_vec(), &source("md5", "md5=0")).unwrap_err(),
        "compiler-observed source changed size: expected 3 bytes, found 4"
    );
}

const ARTIFACT: &str = "{\"reason\":\"compiler-artifact\",\"package_id\":\"path+file:///w#a@0.1.0\",\"manifest_path\":\"/w/Cargo.toml\",\"target\":{\"kind\":[\"lib\"],\"crate_types\":[\"rlib\",\"lib\",\"lib\"],\"name\":\"a\",\"src_path\":\"/w/src/lib.rs\",\"edition\":\"2021\",\"doc\":true,\"doctest\":true,\"test\":true},\"profile\":{\"opt_level\":\"0\",\"debuginfo\":2,\"debug_assertions\":true,\"overflow_checks\":false,\"test\":TEST},\"features\":[\"z\",\"a\"],\"filenames\":[\"/w/target/liba.rmeta\"],\"executable\":null,\"fresh\":false}";

fn stdout() -> Vec<u8> {
    let message = |level: &str, text: &str| {
        format!(
            "{{\"reason\":\"compiler-message\",\"package_id\":\"path+file:///w#a@0.1.0\",\"manifest_path\":\"/w/Cargo.toml\",\"target\":{{\"kind\":[\"lib\"],\"crate_types\":[\"lib\"],\"name\":\"a\",\"src_path\":\"/w/src/lib.rs\",\"edition\":\"2021\",\"doc\":true,\"doctest\":true,\"test\":true}},\"message\":{{\"message\":\"{text}\",\"code\":null,\"level\":\"{level}\",\"spans\":[],\"children\":[],\"rendered\":null}}}}"
        )
    };
    let script = "{\"reason\":\"build-script-executed\",\"package_id\":\"path+file:///w#a@0.1.0\",\"linked_libs\":[],\"linked_paths\":[],\"cfgs\":[\"fast\"],\"env\":[],\"out_dir\":\"/w/out\"}";
    [
        ARTIFACT.replace("TEST", "true"),
        ARTIFACT.replace("TEST", "false"),
        message("error", "second"),
        message("warning", "ignored"),
        message("error: internal compiler error", "first"),
        script.to_owned(),
        script.to_owned(),
        "plain text".to_owned(),
        "{\"reason\":\"build-finished\",\"success\":false}".to_owned(),
        String::new(),
    ]
    .join("\n")
    .into_bytes()
}

#[test]
fn what_cargo_says_is_sorted_and_kept() {
    let known = vec![CanonicalPath { path: "/w/out".to_owned(), canonical: "/real/out".to_owned() }];
    let run = read_run(&stdout(), &known, false, &b"failed".to_vec()).unwrap();
    assert!(!run.success);
    assert_eq!(run.build_finished, Some(false));
    assert_eq!(run.artifacts.len(), 2);
    assert!(!run.artifacts[0].profile_test);
    assert_eq!(run.artifacts[0].role(), "production");
    assert_eq!(run.artifacts[1].role(), "unit_test");
    assert_eq!(run.artifacts[0].package_id, "path+file:///w#a@0.1.0");
    assert_eq!(run.artifacts[0].target_crate_types, ["lib", "rlib"]);
    assert_eq!(run.artifacts[0].features, ["a", "z"]);
    assert_eq!(run.artifacts[0].filenames, ["/w/target/liba.rmeta"]);
    assert!(run.artifacts[0].profile.debug_assertions);
    assert!(!run.artifacts[0].profile.overflow_checks);
    let messages = run.failures.iter().map(|failure| failure.message.as_str()).collect::<Vec<_>>();
    assert_eq!(messages, ["first", "second"]);
    assert_eq!(run.build_script_outputs.len(), 1);
    assert_eq!(run.build_script_outputs[0].out_dir, "/real/out");
    assert_eq!(run.build_script_outputs[0].cfg, ["fast"]);
    assert_eq!(run.text_lines, ["plain text"]);
    assert_eq!(run.stderr, "failed");
    assert_eq!(script_places(&stdout()), ["/w/out", "/w/out"]);
}

#[test]
fn what_cargo_says_is_bounded() {
    let lines = "text\n".repeat(40).into_bytes();
    let run = read_run(&lines, &Vec::new(), true, &Vec::new()).unwrap();
    assert_eq!(run.text_lines.len(), 32);
    assert_eq!(run.build_finished, None);
    assert_eq!(
        read_run(&b"\xff\n".to_vec(), &Vec::new(), true, &Vec::new()).unwrap_err(),
        "cannot parse Cargo JSON message"
    );
    assert_eq!(truncate_utf8(&vec![b'x'; 20_000]).len(), 16 * 1024);
    assert_eq!(truncate_utf8(&b"a\xffb".to_vec()), "a\u{fffd}b");
}

fn raw_unit(name: &str, mode: &str) -> RawUnit {
    RawUnit {
        pkg_id: "package".to_owned(),
        target: RawUnitTarget {
            kind: texts(&["lib"]),
            crate_types: texts(&["rlib", "lib"]),
            name: name.to_owned(),
            src_path: format!("/w/{name}.rs"),
        },
        mode: mode.to_owned(),
        features: texts(&["b", "a", "b"]),
        platform: None,
    }
}

#[test]
fn units_that_run_build_scripts_are_left_out() {
    let graph = UnitGraph {
        version: 1,
        units: vec![raw_unit("z", "check"), raw_unit("y", "run-custom-build"), raw_unit("x", "test")],
    };
    let units = expected_units(&graph).unwrap();
    assert_eq!(units.len(), 2);
    assert_eq!(units[0].target_name, "x");
    assert_eq!(units[0].features, ["a", "b"]);
    assert_eq!(units[0].target_crate_types, ["lib", "rlib"]);
    assert_eq!(units[1].target_name, "z");
    assert_eq!(
        expected_units(&UnitGraph { version: 2, units: Vec::new() }).unwrap_err(),
        "unsupported pinned Cargo unit-graph version 2"
    );
}

fn metadata() -> CargoMetadata {
    CargoMetadata {
        workspace_root: "/w".to_owned(),
        workspace_members: texts(&["a"]),
        packages: vec![
            MetadataPackage {
                id: "a".to_owned(),
                name: "member".to_owned(),
                manifest_path: "/w/a/Cargo.toml".to_owned(),
                targets: vec![MetadataTarget {
                    name: "member".to_owned(),
                    kinds: texts(&["lib"]),
                    crate_types: texts(&["lib"]),
                    source: "/w/a/src/lib.rs".to_owned(),
                    required_features: texts(&["extra"]),
                }],
            },
            MetadataPackage {
                id: "b".to_owned(),
                name: "dependency".to_owned(),
                manifest_path: "/elsewhere/Cargo.toml".to_owned(),
                targets: Vec::new(),
            },
        ],
        nodes: Some(vec![ResolvedNode { id: "a".to_owned(), features: texts(&["z", "default"]) }]),
    }
}

#[test]
fn members_of_the_workspace_are_audited() {
    let packages = audit_packages(&metadata(), &texts(&["/w/a"]));
    assert_eq!(packages.len(), 1);
    assert_eq!(packages[0].root, "/w/a");
    assert_eq!(packages[0].targets[0].source, "/w/a/src/lib.rs");
    assert!(packages[0].selected);
    assert_eq!(check_requested("/w", &texts(&["/w/a", "/w"])), Ok(()));
    assert_eq!(
        check_requested("/w", &texts(&["/w/a", "/other"])),
        Err("cannot mix Cargo workspace /w with outside path /other; run rot-audit once per workspace".to_owned())
    );
    assert_eq!(check_requested("/w", &Vec::new()), Err("at least one path is required".to_owned()));
}

#[test]
fn packages_are_selected_by_the_paths_that_touch_them() {
    assert_eq!(selected_roots(&metadata(), &texts(&["/w/a/src/lib.rs"])), ["/w/a"]);
    assert_eq!(selected_roots(&metadata(), &texts(&["/w"])), ["/w/a"]);
    assert_eq!(selected_roots(&metadata(), &texts(&["/w/a", "/elsewhere/x"])), ["/w/a", "/elsewhere"]);
    assert!(selected_roots(&metadata(), &texts(&["/w/ab"])).is_empty());
    assert!(selected_roots(&metadata(), &Vec::new()).is_empty());
}

#[test]
fn targets_keep_the_features_that_they_need() {
    let packages = gated_packages(&metadata(), &texts(&["/w/a"]));
    assert_eq!(packages.len(), 1);
    assert_eq!(packages[0].id, "a");
    assert_eq!(packages[0].targets[0].required_features, ["extra"]);
    assert!(packages[0].selected);
    assert!(!gated_packages(&metadata(), &Vec::new())[0].selected);
    let bytes = b"{\"packages\":[{\"name\":\"a\",\"version\":\"0.1.0\",\"id\":\"path+file:///w#a@0.1.0\",\"dependencies\":[],\"targets\":[{\"kind\":[\"bin\"],\"crate_types\":[\"bin\"],\"name\":\"a\",\"required-features\":[\"cli\"],\"src_path\":\"/w/src/main.rs\",\"edition\":\"2021\",\"doc\":true,\"doctest\":false,\"test\":true}],\"features\":{\"cli\":[]},\"manifest_path\":\"/w/Cargo.toml\",\"edition\":\"2021\"}],\"workspace_members\":[\"path+file:///w#a@0.1.0\"],\"resolve\":null,\"target_directory\":\"/w/target\",\"version\":1,\"workspace_root\":\"/w\",\"metadata\":null}".to_vec();
    let described = load_metadata(&bytes).unwrap();
    assert_eq!(described.packages[0].targets[0].required_features, ["cli"]);
}

#[test]
fn packages_are_found_however_their_directories_are_written() {
    let profile = compiler_profile(
        &metadata(),
        &Vec::new(),
        &vec![package("member", "/w//a/.", &[])],
        Vec::new(),
    )
    .unwrap();
    assert_eq!(profile.resolved_features(&"a".to_owned()), Some(&texts(&["default", "z"])));
}

fn package(name: &str, root: &str, excluded: &[&str]) -> ProfilePackage {
    ProfilePackage {
        id: "a".to_owned(),
        name: name.to_owned(),
        root: root.to_owned(),
        excluded: texts(excluded),
    }
}

#[test]
fn features_that_are_to_be_off_but_on_are_incompatible() {
    let known = vec![CanonicalPath { path: "/link".to_owned(), canonical: "/w/a".to_owned() }];
    let profile = compiler_profile(
        &metadata(),
        &known,
        &vec![package("member", "/link", &["z", "unused"])],
        Vec::new(),
    )
    .unwrap();
    assert_eq!(profile.resolved_features(&"a".to_owned()), Some(&texts(&["default", "z"])));
    assert_eq!(profile.resolved_features(&"b".to_owned()), None);
    assert_eq!(
        profile.incompatibilities,
        ["package member: feature \"z\" is enabled by Cargo's resolved dependency graph and cannot be excluded in compiler mode"]
    );
    assert_eq!(
        compiler_profile(&metadata(), &known, &vec![package("other", "/w/a", &[])], Vec::new())
            .unwrap_err(),
        "pinned Cargo metadata omitted workspace package other at /w/a"
    );
    let mut unresolved = metadata();
    unresolved.nodes = Some(Vec::new());
    assert_eq!(
        compiler_profile(&unresolved, &known, &vec![package("member", "/w/a", &[])], Vec::new())
            .unwrap_err(),
        "pinned Cargo metadata omitted resolved features for workspace package member"
    );
    unresolved.nodes = None;
    assert_eq!(
        compiler_profile(&unresolved, &known, &Vec::new(), Vec::new()).unwrap_err(),
        "pinned Cargo metadata omitted its resolved dependency graph"
    );
}

#[test]
fn descriptions_of_workspaces_are_read() {
    let bytes = b"{\"packages\":[{\"name\":\"a\",\"version\":\"0.1.0\",\"id\":\"path+file:///w#a@0.1.0\",\"dependencies\":[],\"targets\":[{\"kind\":[\"bin\"],\"crate_types\":[\"bin\"],\"name\":\"a\",\"src_path\":\"/w/src/main.rs\",\"edition\":\"2021\",\"doc\":true,\"doctest\":false,\"test\":true}],\"features\":{},\"manifest_path\":\"/w/Cargo.toml\",\"edition\":\"2021\"}],\"workspace_members\":[\"path+file:///w#a@0.1.0\"],\"resolve\":{\"nodes\":[{\"id\":\"path+file:///w#a@0.1.0\",\"dependencies\":[],\"features\":[\"default\"]}],\"root\":null},\"target_directory\":\"/w/target\",\"version\":1,\"workspace_root\":\"/w\",\"metadata\":null}".to_vec();
    let metadata = load_metadata(&bytes).unwrap();
    assert_eq!(metadata.workspace_root, "/w");
    assert_eq!(metadata.packages[0].name, "a");
    assert_eq!(metadata.packages[0].targets[0].kinds, ["bin"]);
    assert_eq!(metadata.nodes.as_ref().unwrap()[0].features, ["default"]);
    assert_eq!(audit_packages(&metadata, &Vec::new())[0].root, "/w");
    assert_eq!(
        load_metadata(&b"{}".to_vec()).unwrap_err(),
        "pinned Cargo metadata was malformed"
    );
}

fn pinned() -> PinnedCompiler {
    PinnedCompiler {
        version: "1.98.0 (abc)".to_owned(),
        release: "1.98.0".to_owned(),
        commit: "abc".to_owned(),
        host: "host".to_owned(),
    }
}

#[test]
fn nothing_is_shown_where_nothing_was_collected() {
    let ready = Readiness { compatible: true, reasons: Vec::new(), packages: 1 };
    assert_eq!(refusal(&ready), None);
    let outcome = collect(&pinned(), &ready, Err("no graph".to_owned()), Err("unused".to_owned()));
    assert_eq!(outcome.report.products.len(), 6);
    assert!(outcome
        .report
        .products
        .iter()
        .all(|product| product.status == SemanticStatus::Unavailable));
    assert_eq!(outcome.diagnostics[0].message, "compiler analysis unavailable: no graph");

    let refused = Readiness {
        compatible: false,
        reasons: texts(&["one", "two"]),
        packages: 1,
    };
    assert_eq!(refusal(&refused).as_deref(), Some("one; two"));
    let empty = Readiness { compatible: true, reasons: Vec::new(), packages: 0 };
    assert_eq!(
        refusal(&empty).as_deref(),
        Some("compiler mode requires a Cargo workspace or package")
    );
    let conflicting = collect(&pinned(), &ready, Ok(texts(&["x", "y"])), Err("unused".to_owned()));
    assert_eq!(conflicting.profile_incompatibilities, ["x", "y"]);
    assert_eq!(conflicting.diagnostics[0].message, "x; y");
    let failed = collect(&pinned(), &ready, Ok(Vec::new()), Err("stopped".to_owned()));
    assert_eq!(failed.diagnostics[0].message, "compiler analysis unavailable: stopped");
    let done = unavailable(&pinned(), "kept".to_owned());
    let kept = collect(&pinned(), &ready, Ok(Vec::new()), Ok(done));
    assert_eq!(kept.diagnostics[0].message, "kept");
    assert_eq!(kept.report.rustc_commit, "abc");
}

fn handshake() -> Handshake {
    Handshake {
        protocol_version: PROTOCOL_VERSION,
        driver_version: DRIVER_VERSION,
        linked_rustc_version: "1.98.0 (abc)".to_owned(),
        rustc: CompilerIdentity {
            release: "1.98.0".to_owned(),
            commit_hash: "abc".to_owned(),
            commit_date: "date".to_owned(),
            host: "host".to_owned(),
        },
        max_sidecar_bytes: MAX_SIDECAR_BYTES,
    }
}

#[test]
fn drivers_of_another_protocol_or_compiler_are_refused() {
    assert_eq!(check_handshake(&handshake(), &pinned()), Ok(()));
    let mut other = handshake();
    other.protocol_version = 9;
    assert_eq!(
        check_handshake(&other, &pinned()),
        Err("compiler protocol mismatch: rot expects 5, driver reports 9".to_owned())
    );
    let mut other = handshake();
    other.driver_version = 4;
    assert_eq!(
        check_handshake(&other, &pinned()),
        Err("compiler driver mismatch: rot expects 5, driver reports 4".to_owned())
    );
    let mut other = handshake();
    other.linked_rustc_version = "1.97.0".to_owned();
    assert_eq!(
        check_handshake(&other, &pinned()),
        Err("compiler driver linked-rustc mismatch: expected 1.98.0 (abc), found 1.97.0".to_owned())
    );
    let mut other = handshake();
    other.rustc.commit_hash = "def".to_owned();
    assert_eq!(
        check_handshake(&other, &pinned()),
        Err("compiler toolchain mismatch: expected 1.98.0 (abc), found 1.98.0 (def)".to_owned())
    );
}

#[test]
fn drivers_for_another_host_are_refused() {
    let mut other = handshake();
    other.rustc.host = "aarch64-apple-darwin".to_owned();
    assert_eq!(
        check_handshake(&other, &pinned()),
        Err("compiler host mismatch: expected host, found aarch64-apple-darwin".to_owned())
    );
    other.rustc.release = "1.97.0".to_owned();
    assert_eq!(
        check_handshake(&other, &pinned()),
        Err("compiler toolchain mismatch: expected 1.98.0 (abc), found 1.97.0 (abc)".to_owned())
    );
}

fn candidate(path: &str, is_file: bool) -> DriverCandidate {
    DriverCandidate { path: path.to_owned(), is_file }
}

#[test]
fn the_first_driver_that_is_there_is_used() {
    assert_eq!(
        driver_places(&Some("/bin".to_owned()), "/repo", "driver"),
        [
            "/bin/driver",
            "/repo/compiler/rot-rustc-driver/target/release/driver",
            "/repo/compiler/rot-rustc-driver/target/debug/driver",
        ]
    );
    let candidates = vec![candidate("/a", false), candidate("/b", true), candidate("/c", true)];
    assert_eq!(locate_driver(&None, &candidates), Ok("/b".to_owned()));
    assert_eq!(locate_driver(&Some(candidate("/d", true)), &candidates), Ok("/d".to_owned()));
    assert_eq!(
        locate_driver(&Some(candidate("/d", false)), &candidates),
        Err("compiler driver /d does not exist".to_owned())
    );
    assert!(locate_driver(&None, &Vec::new()).unwrap_err().starts_with("rot-rustc-driver was not found"));
}

fn empty_run(stderr: &str) -> CollectedRun {
    CollectedRun {
        handshake: handshake(),
        cargo: CargoRun {
            success: false,
            build_finished: None,
            artifacts: Vec::new(),
            failures: Vec::new(),
            build_script_outputs: Vec::new(),
            stderr: stderr.to_owned(),
            text_lines: Vec::new(),
        },
        sidecar_errors: Vec::new(),
        integrity_errors: Vec::new(),
        product_integrity_errors: SortedMap::new(),
        expected: 0,
        correlated: 0,
        correlation_errors: Vec::new(),
        invocations: Vec::new(),
        generated_files: Vec::new(),
    }
}

#[test]
fn a_wrapper_that_swallows_facts_is_tried_without() {
    let failed = empty_run("process didn't exit successfully: `sccache /bin/driver -vV`");
    assert!(wrapper_probe_failed(&failed, "/bin/driver"));
    assert!(!wrapper_probe_failed(&empty_run("other"), "/bin/driver"));
    assert!(must_retry(true, 0, &failed, "/bin/driver"));
    assert!(!must_retry(false, 1, &failed, "/bin/driver"));
    assert!(must_retry(true, 1, &empty_run("other"), "/bin/driver"));
    assert!(!must_retry(true, 0, &empty_run("other"), "/bin/driver"));

    let variables = vec![EnvironmentVariable { name: "RUSTFLAGS".to_owned(), empty: false }];
    assert_eq!(check_custom_cfg(&Vec::new(), &variables), Ok(()));
    assert!(check_custom_cfg(&texts(&["fast"]), &variables).is_err());
}

fn audit_package(root: &str, selected: bool) -> AuditPackage {
    AuditPackage {
        id: root.to_owned(),
        name: root.to_owned(),
        root: root.to_owned(),
        targets: Vec::new(),
        selected,
    }
}

#[test]
fn directories_of_selected_packages_come_in_order_and_once() {
    let inventory = |packages: Vec<AuditPackage>| AuditInventory {
        root: "/w".to_owned(),
        requested: Vec::new(),
        packages,
        audit_target: "host".to_owned(),
    };
    let known = vec![CanonicalPath { path: "/w/link".to_owned(), canonical: "/w/a".to_owned() }];
    assert_eq!(
        selected_manifest_dirs(
            &inventory(vec![
                audit_package("/w/a-b", true),
                audit_package("/w/link", true),
                audit_package("/w/a/c", true),
                audit_package("/w/a", true),
                audit_package("/w/other", false),
            ]),
            &known,
        )
        .unwrap(),
        ["/w/a", "/w/a/c", "/w/a-b"]
    );
    assert_eq!(
        selected_manifest_dirs(&inventory(Vec::new()), &known).unwrap_err(),
        "compiler mode selected no Cargo package manifests"
    );
    let many = (0..4097).map(|number| audit_package(&format!("/w/{number}"), true)).collect();
    assert_eq!(
        selected_manifest_dirs(&inventory(many), &Vec::new()).unwrap_err(),
        "compiler mode selected 4097 package manifests, exceeding the limit 4096"
    );
}

#[test]
fn lines_and_complexity_of_a_source_add_up() {
    let line = |kind: ContentKind, doc: bool, parts: &[u32]| SourceLine {
        kind,
        doc,
        lexical_complexity: parts.to_vec(),
    };
    let lines = vec![
        line(ContentKind::Code, false, &[1, 2]),
        line(ContentKind::Comment, true, &[]),
        line(ContentKind::Comment, false, &[]),
        line(ContentKind::Blank, false, &[4]),
    ];
    let facts = vec![ComplexityMetrics {
        lexical_complexity: 0,
        cyclomatic_authored: 3,
        cognitive_authored: 5,
    }];
    let (counts, metrics) = source_totals(&lines, &facts);
    assert_eq!(counts, LineCounts { physical: 4, code: 1, comments: 2, docs: 1, blank: 1 });
    assert_eq!(
        metrics,
        ComplexityMetrics { lexical_complexity: 7, cyclomatic_authored: 3, cognitive_authored: 5 }
    );
}

#[test]
fn generated_sources_come_in_order_of_their_names() {
    let file = |path: &str| GeneratedFileReport {
        path: path.to_owned(),
        source_hash: "md5=0".to_owned(),
        bytes: 1,
        lines: LineCounts::default(),
        metrics: ComplexityMetrics::default(),
    };
    let sorted = sort_generated(&vec![file("b"), file("a")]);
    assert_eq!(sorted[0].path, "a");
}

#[test]
fn conditions_are_written_without_quotes_and_spaces() {
    assert_eq!(normalize_cfg("feature = \"a b\""), "feature=ab");
    assert_eq!(normalize_cfg(" unix "), "unix");
    let value = |name: &str, value: Option<&str>| CfgValue {
        name: name.to_owned(),
        value: value.map(str::to_owned),
    };
    assert_eq!(
        render_cfg(&vec![value("unix", None), value("a", Some("b")), value("unix", None)]),
        ["a=b", "unix"]
    );
}
