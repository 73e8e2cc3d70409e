use rot::collections::SortedSet;
use rot::compiler::sidecar::{
    definition_ids, validate_definition_boundaries, validate_profile, validate_public_bindings,
};
use rot::compiler::stream::{arrange_sidecars, check_length, check_sidecar_count, frames, validate_records};
use rot::protocol::{
    ArtifactIdentity, Availability, CfgValue, CodegenProfile, CompilationContext, CompilerDefId,
    CompilerIdentity, Definition, DefinitionKind, Event, ExpansionOrigin, Exposure, FactId,
    Handshake, InvocationFinished, InvocationId, InvocationMergeKey, InvocationStarted, Namespace,
    NominalVisibility, OptimizationLevel, PanicStrategy, Product, ProductStatus, Profile,
    PublicBinding, Record, RunId, SourceFileKey, SourceSpan, DRIVER_VERSION, MAX_SIDECAR_BYTES,
    PROTOCOL_VERSION,
};

fn handshake() -> Handshake {
    Handshake {
        protocol_version: PROTOCOL_VERSION,
        driver_version: DRIVER_VERSION,
        linked_rustc_version: "1.100.0-nightly (bff8e12ff 2026-08-26)".to_owned(),
        rustc: CompilerIdentity {
            release: "nightly".to_owned(),
            commit_hash: "bff8e12ff5e6bcd53dfb1dbccdcec80a60a856ed".to_owned(),
            commit_date: "date".to_owned(),
            host: "host".to_owned(),
        },
        max_sidecar_bytes: MAX_SIDECAR_BYTES,
    }
}

fn record(sequence: u64, event: Event) -> Record {
    Record {
        protocol_version: PROTOCOL_VERSION,
        run_id: RunId("run".to_owned()),
        invocation_id: InvocationId("local".to_owned()),
        sequence,
        event,
    }
}

fn started(compiler: CompilerIdentity) -> Event {
    Event::InvocationStarted(InvocationStarted {
        merge_key: InvocationMergeKey("merge".to_owned()),
        compiler,
        process_id: 1,
        rustc_path: "rustc".to_owned(),
        working_directory: "workspace".to_owned(),
        manifest_dir: Some("workspace".to_owned()),
        build_script_out_dir: None,
        package_name: None,
        primary_package: true,
        crate_name: "crate".to_owned(),
        test_mode: false,
        target_triple: "host".to_owned(),
        compilation_context: CompilationContext::Host,
        input: Some("src/lib.rs".to_owned()),
        artifact: ArtifactIdentity {
            out_dir: Some("target".to_owned()),
            crate_name: "crate".to_owned(),
            crate_types: vec!["lib".to_owned()],
            extra_filename: Some("-hash".to_owned()),
            metadata: Some("hash".to_owned()),
            emit: vec!["metadata".to_owned()],
        },
    })
}

fn profile() -> Event {
    Event::Profile(Profile {
        host_triple: "host".to_owned(),
        target_triple: "host".to_owned(),
        test_mode: false,
        cfg: Vec::new(),
        features: Vec::new(),
        codegen: CodegenProfile {
            optimization: OptimizationLevel::Unoptimized,
            panic: PanicStrategy::Unwind,
            debug_assertions: true,
            overflow_checks: true,
            codegen_units: 1,
            target_cpu: "generic".to_owned(),
            target_features: Vec::new(),
        },
    })
}

fn definition(id: CompilerDefId, visibility: NominalVisibility) -> Definition {
    Definition {
        id: FactId(format!("{}:{}", id.stable_crate_id, id.local_hash)),
        compiler_id: id,
        parent: None,
        name: Some("item".to_owned()),
        definition_path: "crate::item".to_owned(),
        kind: DefinitionKind::Function,
        visibility_editable: true,
        nominal_visibility: visibility,
        externally_reachable: true,
        span: None,
        attribution_callsite: None,
        expansion_origin: ExpansionOrigin::Authored,
    }
}

fn crate_definition() -> Definition {
    let mut definition = definition(
        CompilerDefId {
            stable_crate_id: 1,
            local_hash: 1,
        },
        NominalVisibility::Public,
    );
    definition.name = Some("crate".to_owned());
    definition.definition_path = "crate".to_owned();
    definition.kind = DefinitionKind::Crate;
    definition.visibility_editable = false;
    definition
}

fn public_binding(target: CompilerDefId, resolved_target_path: &str) -> PublicBinding {
    PublicBinding {
        id: FactId("binding".to_owned()),
        parent: CompilerDefId {
            stable_crate_id: 1,
            local_hash: 1,
        },
        target,
        name: "Alias".to_owned(),
        namespace: Namespace::Type,
        exposure: Exposure::SingleReexport,
        exposing_import: None,
        span: None,
        resolved_target_path: resolved_target_path.to_owned(),
    }
}

#[test]
fn validates_complete_contiguous_sidecar() {
    let compiler = handshake().rustc.clone();
    let records = vec![
        record(0, started(compiler)),
        record(1, profile()),
        record(2, Event::Definition(crate_definition())),
        record(
            3,
            Event::PublicBinding(public_binding(
                CompilerDefId {
                    stable_crate_id: 2,
                    local_hash: 1,
                },
                "dependency::Item",
            )),
        ),
        record(
            4,
            Event::ProductStatus(ProductStatus {
                product: Product::SemanticGraph,
                availability: Availability::Complete,
                message: None,
            }),
        ),
        record(
            5,
            Event::InvocationFinished(InvocationFinished {
                rustc_success: true,
                analysis_reached: true,
            }),
        ),
    ];
    let invocation = validate_records(records, "run", &handshake()).unwrap();
    assert_eq!(invocation.started.merge_key.0, "merge");
    assert!(invocation.finished.rustc_success);
    assert_eq!(invocation.bindings.len(), 1);
    assert_eq!(
        invocation.bindings[0].resolved_target_path,
        "dependency::Item"
    );
}

#[test]
fn rejects_complete_semantic_graph_without_crate_definition() {
    let records = vec![
        record(0, started(handshake().rustc.clone())),
        record(1, profile()),
        record(
            2,
            Event::ProductStatus(ProductStatus {
                product: Product::SemanticGraph,
                availability: Availability::Complete,
                message: None,
            }),
        ),
        record(
            3,
            Event::InvocationFinished(InvocationFinished {
                rustc_success: true,
                analysis_reached: true,
            }),
        ),
    ];

    let error = validate_records(records, "run", &handshake()).unwrap_err();
    assert!(error.to_string().contains("expected exactly one"));
}

#[test]
fn rejects_gaps_and_cross_run_records() {
    let compiler = handshake().rustc.clone();
    let started = started(compiler);
    assert!(validate_records(vec![record(1, started.clone())], "run", &handshake()).is_err());
    let mut wrong_run = record(0, started);
    wrong_run.run_id = RunId("other".to_owned());
    assert!(validate_records(vec![wrong_run], "run", &handshake()).is_err());
}

#[test]
fn rejects_complete_product_without_analysis() {
    let records = vec![
        record(0, started(handshake().rustc.clone())),
        record(
            1,
            Event::ProductStatus(ProductStatus {
                product: Product::SemanticGraph,
                availability: Availability::Complete,
                message: None,
            }),
        ),
        record(
            2,
            Event::InvocationFinished(InvocationFinished {
                rustc_success: true,
                analysis_reached: false,
            }),
        ),
    ];

    let error = validate_records(records, "run", &handshake()).unwrap_err();
    assert!(error.to_string().contains("before compiler analysis"));
}

#[test]
fn rejects_duplicate_definition_compiler_identity() {
    let mut definition = definition(
        CompilerDefId {
            stable_crate_id: 1,
            local_hash: 2,
        },
        NominalVisibility::Public,
    );
    definition.id = FactId("first".to_owned());
    let mut duplicate = definition.clone();
    duplicate.id = FactId("second".to_owned());

    assert!(
        definition_ids(&vec![definition, duplicate])
            .unwrap_err()
            .to_string()
            .contains("duplicate definition compiler identity")
    );
}

#[test]
fn rejects_noncanonical_or_inconsistent_profile() {
    let Event::Profile(mut profile) = profile() else {
        unreachable!()
    };
    profile.cfg = vec![
        CfgValue {
            name: "feature".to_owned(),
            value: Some("z".to_owned()),
        },
        CfgValue {
            name: "feature".to_owned(),
            value: Some("a".to_owned()),
        },
    ];
    profile.features = vec!["a".to_owned(), "z".to_owned()];
    let Event::InvocationStarted(started) = started(handshake().rustc.clone()) else {
        unreachable!()
    };
    assert!(validate_profile(&profile, &started).is_err());

    profile.cfg.reverse();
    profile.features = vec!["a".to_owned()];
    assert!(
        validate_profile(&profile, &started)
            .unwrap_err()
            .to_string()
            .contains("does not match")
    );

    profile.features = vec!["a".to_owned(), "z".to_owned()];
    profile.codegen.target_features = vec!["sse4.2".to_owned(), "avx".to_owned()];
    assert!(validate_profile(&profile, &started).is_err());

    profile.codegen.target_features.clear();
    profile.host_triple = "corrupt-host".to_owned();
    assert!(
        validate_profile(&profile, &started)
            .unwrap_err()
            .to_string()
            .contains("compiler identity")
    );
}

#[test]
fn rejects_unknown_restricted_visibility_boundary() {
    let item_id = CompilerDefId {
        stable_crate_id: 1,
        local_hash: 2,
    };
    let missing_boundary = CompilerDefId {
        stable_crate_id: 1,
        local_hash: 3,
    };
    let definitions = vec![definition(
        item_id,
        NominalVisibility::Restricted(missing_boundary),
    )];
    let ids = definition_ids(&definitions).unwrap();

    assert!(
        validate_definition_boundaries(&definitions, &ids)
            .unwrap_err()
            .to_string()
            .contains("visibility boundary")
    );
}

#[test]
fn validates_public_binding_endpoints_and_unique_slots() {
    let crate_id = CompilerDefId {
        stable_crate_id: 1,
        local_hash: 1,
    };
    let target_id = CompilerDefId {
        stable_crate_id: 1,
        local_hash: 2,
    };
    let import_id = CompilerDefId {
        stable_crate_id: 1,
        local_hash: 3,
    };
    let mut target = definition(target_id, NominalVisibility::Public);
    target.definition_path = "crate::Item".to_owned();
    target.kind = DefinitionKind::Struct;
    let mut import = definition(import_id, NominalVisibility::Public);
    import.definition_path = "crate::{use#0}".to_owned();
    import.kind = DefinitionKind::Import;
    let definitions = vec![crate_definition(), target, import];
    let ids = definition_ids(&definitions).unwrap();
    let mut local_crates: SortedSet<u64> = SortedSet::new();
    local_crates.insert(crate_id.stable_crate_id);
    let mut binding = public_binding(target_id, "crate::Item");
    binding.exposing_import = Some(import_id);

    validate_public_bindings(&vec![binding.clone()], &definitions, &ids, &local_crates).unwrap();

    let missing_id = CompilerDefId {
        stable_crate_id: 1,
        local_hash: 99,
    };
    let mut missing_parent = binding.clone();
    missing_parent.parent = missing_id;
    assert!(
        validate_public_bindings(&vec![missing_parent], &definitions, &ids, &local_crates)
            .unwrap_err()
            .to_string()
            .contains("unknown local parent")
    );

    let mut missing_target = binding.clone();
    missing_target.target = missing_id;
    assert!(
        validate_public_bindings(&vec![missing_target], &definitions, &ids, &local_crates)
            .unwrap_err()
            .to_string()
            .contains("unknown local target")
    );

    let mut missing_import = binding.clone();
    missing_import.exposing_import = Some(missing_id);
    assert!(
        validate_public_bindings(&vec![missing_import], &definitions, &ids, &local_crates)
            .unwrap_err()
            .to_string()
            .contains("unknown local exposing import")
    );

    let mut wrong_parent = binding.clone();
    wrong_parent.parent = target_id;
    assert!(
        validate_public_bindings(&vec![wrong_parent], &definitions, &ids, &local_crates)
            .unwrap_err()
            .to_string()
            .contains("not a crate or module")
    );

    let mut wrong_import = binding.clone();
    wrong_import.exposing_import = Some(target_id);
    assert!(
        validate_public_bindings(&vec![wrong_import], &definitions, &ids, &local_crates)
            .unwrap_err()
            .to_string()
            .contains("not an import or extern crate")
    );

    let mut mismatched_path = binding.clone();
    mismatched_path.resolved_target_path = "crate::Other".to_owned();
    assert!(
        validate_public_bindings(&vec![mismatched_path], &definitions, &ids, &local_crates)
            .unwrap_err()
            .to_string()
            .contains("does not match")
    );

    let mut duplicate = binding.clone();
    duplicate.id = FactId("other-binding".to_owned());
    assert!(
        validate_public_bindings(&vec![binding, duplicate], &definitions, &ids, &local_crates)
            .unwrap_err()
            .to_string()
            .contains("duplicate public binding namespace slot")
    );
}

#[test]
fn rejects_public_binding_fact_id_collision() {
    let mut binding = public_binding(
        CompilerDefId {
            stable_crate_id: 2,
            local_hash: 1,
        },
        "dependency::Item",
    );
    binding.id = crate_definition().id;
    let records = vec![
        record(0, started(handshake().rustc.clone())),
        record(1, profile()),
        record(2, Event::Definition(crate_definition())),
        record(3, Event::PublicBinding(binding)),
        record(
            4,
            Event::ProductStatus(ProductStatus {
                product: Product::SemanticGraph,
                availability: Availability::Complete,
                message: None,
            }),
        ),
        record(
            5,
            Event::InvocationFinished(InvocationFinished {
                rustc_success: true,
                analysis_reached: true,
            }),
        ),
    ];

    assert!(
        validate_records(records, "run", &handshake())
            .unwrap_err()
            .to_string()
            .contains("duplicate semantic fact identity")
    );
}

#[test]
fn rejects_public_binding_span_without_its_source_record() {
    let mut binding = public_binding(
        CompilerDefId {
            stable_crate_id: 2,
            local_hash: 1,
        },
        "dependency::Item",
    );
    binding.span = Some(SourceSpan {
        file: SourceFileKey("missing".to_owned()),
        start: 0,
        end: 1,
        line: 1,
        column: 1,
    });
    let records = vec![
        record(0, started(handshake().rustc.clone())),
        record(1, profile()),
        record(2, Event::Definition(crate_definition())),
        record(3, Event::PublicBinding(binding)),
        record(
            4,
            Event::ProductStatus(ProductStatus {
                product: Product::SemanticGraph,
                availability: Availability::Complete,
                message: None,
            }),
        ),
        record(
            5,
            Event::InvocationFinished(InvocationFinished {
                rustc_success: true,
                analysis_reached: true,
            }),
        ),
    ];

    assert!(
        validate_records(records, "run", &handshake())
            .unwrap_err()
            .to_string()
            .contains("unknown source file")
    );
}

fn finished_records() -> Vec<Record> {
    vec![
        record(0, started(handshake().rustc.clone())),
        record(1, profile()),
        record(2, Event::Definition(crate_definition())),
        record(
            3,
            Event::ProductStatus(ProductStatus {
                product: Product::SemanticGraph,
                availability: Availability::Complete,
                message: None,
            }),
        ),
        record(
            4,
            Event::InvocationFinished(InvocationFinished {
                rustc_success: true,
                analysis_reached: true,
            }),
        ),
    ]
}

#[test]
fn a_sidecar_without_records_or_end_is_refused() {
    assert_eq!(
        validate_records(Vec::new(), "run", &handshake()),
        Err("sidecar has no records".to_owned())
    );
    let mut records = finished_records();
    records.pop();
    assert!(validate_records(records, "run", &handshake()).is_err());
    assert!(validate_records(finished_records(), "run", &handshake()).is_ok());
    assert!(validate_records(finished_records(), "other", &handshake()).is_err());
}

#[test]
fn a_sidecar_of_another_compiler_is_refused() {
    let mut other = handshake();
    other.rustc.commit_hash = "other".to_owned();
    assert!(validate_records(finished_records(), "run", &other).is_err());
}

#[test]
fn lines_of_a_sidecar_are_its_records() {
    let found = frames(&b"{\"a\":1}\n{\"b\":2}\n".to_vec()).unwrap();
    assert_eq!(found.error, None);
    assert_eq!(found.records.len(), 2);
    assert_eq!(found.records[0], (1, b"{\"a\":1}".to_vec()));
    assert_eq!(found.records[1], (2, b"{\"b\":2}".to_vec()));
    assert_eq!(
        frames(&b"{\"a\":1}".to_vec()).err().as_deref(),
        Some("sidecar is empty or truncated")
    );
    assert_eq!(frames(&Vec::new()).err().as_deref(), Some("sidecar is empty or truncated"));

    let mut long = vec![b'x'; 1024 * 1024 + 1];
    long.push(b'\n');
    let found = frames(&long).unwrap();
    assert!(found.records.is_empty());
    assert_eq!(found.error.as_deref(), Some("record 1 exceeds 1048576 bytes"));
}

#[test]
fn sidecars_are_bounded_in_size_and_number() {
    assert_eq!(check_sidecar_count(10_000), Ok(()));
    assert_eq!(
        check_sidecar_count(10_001),
        Err("compiler emitted 10001 sidecars, exceeding the limit 10000".to_owned())
    );
    assert_eq!(check_length(MAX_SIDECAR_BYTES), Ok(()));
    assert!(check_length(MAX_SIDECAR_BYTES + 1).is_err());
}

#[test]
fn sidecars_come_in_order_of_what_they_identify() {
    let first = validate_records(finished_records(), "run", &handshake()).unwrap();
    let mut second = validate_records(finished_records(), "run", &handshake()).unwrap();
    second.started.merge_key = InvocationMergeKey("a".to_owned());
    let arranged = arrange_sidecars(
        vec![first, second],
        vec![
            ("b.jsonl".to_owned(), "broken".to_owned()),
            ("a.jsonl".to_owned(), "broken".to_owned()),
            ("b.jsonl".to_owned(), "broken".to_owned()),
        ],
    );
    assert_eq!(arranged.invocations[0].started.merge_key.0, "a");
    assert_eq!(arranged.invocations[1].started.merge_key.0, "merge");
    assert_eq!(arranged.errors.len(), 2);
    assert!(arranged.errors[0].contains("a.jsonl"));
}
