use rot::collections::SortedMap;
use rot::compiler::effective_api::{
    aggregate_expected, eligible, ApiInvocation, ApiTargetKey, EffectiveDefinition,
    EffectiveVisibilityLevel,
};
use rot::compiler::graph::Locations;
use rot::model::{CompilerTargetReport, SemanticStatus};
use rot::protocol::{
    CompilerDefId, Definition, DefinitionKind, ExpansionOrigin, Exposure, FactId, Namespace,
    NominalVisibility, PublicBinding, SourceFile, SourceFileKey, SourceSpan,
};

fn places() -> Locations {
    Locations { root: "/workspace".to_owned(), canonical: Vec::new() }
}

fn keys(targets: &[&CompilerTargetReport]) -> SortedMap<ApiTargetKey, String> {
    let mut keys: SortedMap<ApiTargetKey, String> = SortedMap::new();
    for target in targets {
        keys.insert(ApiTargetKey::from_report(&places(), target), target.source.clone());
    }
    keys
}

#[test]
fn complete_api_keeps_definitions_and_finite_bindings_separate() {
    let target = target("production", &["lib"]);
    let sources = vec![source("source", "/workspace/src/lib.rs", false, 128)];
    let mut definitions = vec![
        definition(3, "crate::Later", DefinitionKind::Struct, true),
        definition(2, "crate::hidden", DefinitionKind::Function, false),
        definition(1, "crate::First", DefinitionKind::Function, true),
    ];
    definitions[2].definition.span = Some(span("source", 4, 12));
    let bindings = vec![PublicBinding {
        id: FactId("binding".to_owned()),
        parent: compiler_id(0),
        target: compiler_id(1),
        name: "First".to_owned(),
        namespace: Namespace::Value,
        exposure: Exposure::GlobReexport,
        exposing_import: Some(compiler_id(9)),
        span: Some(span("source", 1, 3)),
        resolved_target_path: "crate::First".to_owned(),
    }];

    let aggregation = aggregate_expected(
        &places(),
        &keys(&[&target]),
        true,
        &vec![ApiInvocation {
            target: Some(&target),
            owner: "package",
            crate_name: "crate",
            status: SemanticStatus::Complete,
            sources: &sources,
            definitions: &definitions,
            public_bindings: &bindings,
        }],
    );

    assert_eq!(aggregation.product.status, SemanticStatus::Complete);
    let report = aggregation.report.expect("complete API report");
    assert_eq!(report.summary.production_library_invocations, 1);
    assert_eq!(report.summary.effective_definitions, 2);
    assert_eq!(report.summary.public_bindings, 1);
    assert_eq!(report.summary.definitions_by_kind.get(&"function".to_owned()), Some(&1));
    assert_eq!(report.summary.definitions_by_kind.get(&"struct".to_owned()), Some(&1));
    assert_eq!(report.summary.bindings_by_namespace.get(&"value".to_owned()), Some(&1));
    assert_eq!(report.summary.bindings_by_exposure.get(&"glob_reexport".to_owned()), Some(&1));
    assert_eq!(report.definitions[0].definition_path, "crate::First");
    assert_eq!(report.definitions[1].definition_path, "crate::Later");
    assert_eq!(report.definitions[0].id.local_hash, "0000000000000001");
    assert_eq!(report.definitions[0].span.as_ref().unwrap().path, "src/lib.rs");
    assert_eq!(report.public_bindings[0].name, "First");
    assert_eq!(
        report.public_bindings[0].target_definition_path.as_deref(),
        Some("crate::First")
    );
}

#[test]
fn unrelated_target_roles_and_executables_do_not_inflate_or_suppress_api() {
    let library = target("production", &["lib"]);
    let unit_test = target("unit_test", &["lib"]);
    let executable = target("production", &["bin"]);
    let library_definitions =
        vec![definition(1, "crate::LibraryApi", DefinitionKind::Function, true)];
    let unit_definitions = vec![definition(2, "crate::TestOnly", DefinitionKind::Function, true)];
    let executable_definitions = vec![definition(3, "crate::Main", DefinitionKind::Function, true)];
    let no_sources = Vec::new();
    let no_bindings = Vec::new();

    let aggregation = aggregate_expected(
        &places(),
        &keys(&[&library]),
        true,
        &vec![
            ApiInvocation {
                target: Some(&unit_test),
                owner: "package",
                crate_name: "crate",
                status: SemanticStatus::Unavailable,
                sources: &no_sources,
                definitions: &unit_definitions,
                public_bindings: &no_bindings,
            },
            ApiInvocation {
                target: Some(&executable),
                owner: "package",
                crate_name: "main",
                status: SemanticStatus::Partial,
                sources: &no_sources,
                definitions: &executable_definitions,
                public_bindings: &no_bindings,
            },
            ApiInvocation {
                target: Some(&library),
                owner: "package",
                crate_name: "crate",
                status: SemanticStatus::Complete,
                sources: &no_sources,
                definitions: &library_definitions,
                public_bindings: &no_bindings,
            },
        ],
    );

    let report = aggregation.report.expect("complete library API");
    assert_eq!(report.summary.effective_definitions, 1);
    assert_eq!(report.definitions[0].definition_path, "crate::LibraryApi");
    assert!(eligible(&target("production", &["proc-macro"])));
    assert!(!eligible(&unit_test));
    assert!(!eligible(&executable));
}

fn empty_part<'a>(
    target: &'a CompilerTargetReport,
    status: SemanticStatus,
    sources: &'a Vec<SourceFile>,
    definitions: &'a Vec<EffectiveDefinition>,
    public_bindings: &'a Vec<PublicBinding>,
) -> ApiInvocation<'a> {
    ApiInvocation {
        target: Some(target),
        owner: "package",
        crate_name: "crate",
        status,
        sources,
        definitions,
        public_bindings,
    }
}

#[test]
fn incomplete_relevant_fragment_never_serializes_semantic_zero() {
    let target = target("production", &["lib"]);
    let (sources, definitions, bindings) = (Vec::new(), Vec::new(), Vec::new());
    let aggregation = aggregate_expected(
        &places(),
        &keys(&[&target]),
        true,
        &vec![empty_part(&target, SemanticStatus::Partial, &sources, &definitions, &bindings)],
    );

    assert_eq!(aggregation.product.status, SemanticStatus::Partial);
    assert!(aggregation.report.is_none());
    assert!(aggregation
        .product
        .reason
        .as_deref()
        .unwrap()
        .contains("effective API is Partial"));
}

#[test]
fn malformed_sidecar_transport_suppresses_an_otherwise_complete_api() {
    let target = target("production", &["lib"]);
    let definitions = vec![definition(1, "crate::Api", DefinitionKind::Function, true)];
    let (sources, bindings) = (Vec::new(), Vec::new());
    let aggregation = aggregate_expected(
        &places(),
        &keys(&[&target]),
        false,
        &vec![empty_part(&target, SemanticStatus::Complete, &sources, &definitions, &bindings)],
    );

    assert_eq!(aggregation.product.status, SemanticStatus::Partial);
    assert!(aggregation.report.is_none());
}

#[test]
fn only_valid_physical_spans_are_attributed_and_generated_paths_are_stable() {
    let target = target("production", &["lib"]);
    let sources = vec![
        source("authored", "/workspace/src/lib.rs", false, 8),
        source("generated", "/private/tmp/rot-run-123/out/bindings.rs", true, 16),
    ];
    let mut definitions = vec![
        definition(1, "crate::BadSpan", DefinitionKind::Function, true),
        definition(2, "crate::Generated", DefinitionKind::Struct, true),
    ];
    definitions[0].definition.span = Some(span("authored", 7, 9));
    definitions[1].definition.span = Some(span("generated", 2, 10));
    let bindings = Vec::new();

    let aggregation = aggregate_expected(
        &places(),
        &keys(&[&target]),
        true,
        &vec![empty_part(&target, SemanticStatus::Complete, &sources, &definitions, &bindings)],
    );

    let definitions = aggregation.report.unwrap().definitions;
    assert!(definitions[0].span.is_none());
    let generated_span = definitions[1].span.as_ref().unwrap();
    assert!(generated_span.path.starts_with("<generated>/package/"));
    assert!(generated_span.path.ends_with("/bindings.rs"));
    assert!(!generated_span.path.contains("rot-run-123"));
}

#[test]
fn fragments_are_found_however_their_sources_are_written() {
    let mut written = target("production", &["lib"]);
    written.source = "/workspace//src/./lib.rs".to_owned();
    let plain = target("production", &["lib"]);
    let (sources, definitions, bindings) = (Vec::new(), Vec::new(), Vec::new());
    let aggregation = aggregate_expected(
        &places(),
        &keys(&[&written]),
        true,
        &vec![empty_part(&plain, SemanticStatus::Complete, &sources, &definitions, &bindings)],
    );
    assert_eq!(aggregation.product.status, SemanticStatus::Complete);

    let aggregation = aggregate_expected(&places(), &keys(&[&written]), true, &Vec::new());
    assert_eq!(
        aggregation.product.reason.as_deref(),
        Some("missing production library compiler fragment: package 0.1.0 (path+file:///workspace):crate at /workspace//src/./lib.rs")
    );
}

#[test]
fn no_selected_library_never_serializes_semantic_zero() {
    let aggregation = aggregate_expected(&places(), &SortedMap::new(), false, &Vec::new());

    assert_eq!(aggregation.product.status, SemanticStatus::Unavailable);
    assert!(aggregation.report.is_none());
    assert_eq!(
        aggregation.product.reason.as_deref(),
        Some("no selected production library or proc-macro target")
    );
}

fn compiler_id(local_hash: u64) -> CompilerDefId {
    CompilerDefId { stable_crate_id: 0xfeed, local_hash }
}

fn definition(
    local_hash: u64,
    path: &str,
    kind: DefinitionKind,
    effective: bool,
) -> EffectiveDefinition {
    EffectiveDefinition {
        definition: Definition {
            id: FactId(format!("definition-{local_hash}")),
            compiler_id: compiler_id(local_hash),
            parent: Some(compiler_id(0)),
            name: path.rsplit("::").next().map(ToOwned::to_owned),
            definition_path: path.to_owned(),
            kind,
            visibility_editable: true,
            nominal_visibility: NominalVisibility::Public,
            externally_reachable: effective,
            span: None,
            attribution_callsite: None,
            expansion_origin: ExpansionOrigin::Authored,
        },
        effective_public_at: if effective {
            Some(EffectiveVisibilityLevel::Direct)
        } else {
            None
        },
    }
}

fn source(key: &str, path: &str, generated: bool, byte_len: u32) -> SourceFile {
    SourceFile {
        key: SourceFileKey(key.to_owned()),
        local_path: Some(path.to_owned()),
        remapped_path: path.to_owned(),
        source_hash_algorithm: "sha256".to_owned(),
        source_hash: "sha256=0123456789abcdef".to_owned(),
        byte_len,
        generated,
    }
}

fn span(source: &str, start: u32, end: u32) -> SourceSpan {
    SourceSpan { file: SourceFileKey(source.to_owned()), start, end, line: 1, column: 1 }
}

fn target(role: &str, kinds: &[&str]) -> CompilerTargetReport {
    CompilerTargetReport {
        package_id: "package 0.1.0 (path+file:///workspace)".to_owned(),
        name: "crate".to_owned(),
        kinds: kinds.iter().map(|kind| (*kind).to_owned()).collect(),
        crate_types: kinds.iter().map(|kind| (*kind).to_owned()).collect(),
        source: "/workspace/src/lib.rs".to_owned(),
        role: role.to_owned(),
        compilation_context: "target".to_owned(),
    }
}
