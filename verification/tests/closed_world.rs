use std::collections::BTreeSet;

use rot::compiler::closed_world::{aggregate, aggregate_with_query};
use rot::compiler::declarations::{ImpactLocationQuery, ImpactQuery};
use rot::compiler::graph::{GraphInvocation, Locations};
use rot::compiler::sidecar::Invocation;
use rot::model::{
    CompilerTargetReport, ImpactProvenanceClass, ImpactVisibilityDisposition, SemanticStatus,
};
use rot::protocol::{
    ArtifactIdentity, CompilationContext, CompilerDefId, CompilerIdentity, Definition,
    DefinitionKind, ExpansionOrigin, FactId, InvocationFinished, InvocationId, InvocationMergeKey,
    InvocationStarted, NominalVisibility, Reference, ReferenceKind, Root, RootKind, SourceFile,
    SourceFileKey, SourceSpan,
};

const ROOT: &str = "/workspace";

#[test]
fn normal_and_test_fragments_do_not_stitch_impossible_paths() {
    let source = source("/workspace/member/src/lib.rs");
    let mut macro_emitted =
        definition(10, 9, "member::macro_emitted", DefinitionKind::Function, 16);
    macro_emitted.expansion_origin = ExpansionOrigin::LocalMacro;
    let normal_definitions = vec![
        definition(10, 1, "member::common", DefinitionKind::Function, 0),
        definition(
            10,
            2,
            "member::production_only",
            DefinitionKind::Function,
            2,
        ),
        definition(10, 3, "member::entry", DefinitionKind::Function, 4),
        definition(10, 5, "member::reexport", DefinitionKind::Import, 8),
        definition(10, 6, "member::exported_macro", DefinitionKind::Macro, 10),
        definition(10, 7, "member::opaque", DefinitionKind::OpaqueType, 12),
        definition(10, 8, "member::opted_out", DefinitionKind::Function, 14),
        macro_emitted,
    ];
    let test_definitions = vec![
        definition(11, 1, "member::common", DefinitionKind::Function, 0),
        definition(11, 4, "member::test_only", DefinitionKind::Function, 6),
    ];
    let normal = invocation(
        "normal",
        vec![source.clone()],
        normal_definitions,
        vec![
            root(10, 3, RootKind::Conservative),
            Root {
                reason: "dead_code is explicitly allowed for this definition".to_owned(),
                ..root(10, 8, RootKind::Conservative)
            },
        ],
        vec![reference(10, 1, 10, 2, ReferenceKind::Body)],
    );
    let test = invocation(
        "test",
        vec![source],
        test_definitions,
        vec![root(11, 1, RootKind::EntryPoint)],
        vec![reference(11, 1, 11, 4, ReferenceKind::Body)],
    );
    let normal_target = target("member", "production", "target", &["lib"]);
    let test_target = target("member", "unit_test", "target", &["lib"]);
    let inputs = vec![
        graph_input(&normal_target, &normal),
        graph_input(&test_target, &test),
    ];

    let aggregation = aggregate(&places(), SemanticStatus::Complete, &inputs);
    let report = aggregation.closed_world.expect("complete liveness report");
    let production_only = report
        .findings
        .iter()
        .find(|finding| finding.definition_path == "member::production_only")
        .expect("production-only finding");
    assert_eq!(production_only.kind, "dead_public");
    assert!(!production_only.nonproduction_live);
    let test_only = report
        .findings
        .iter()
        .find(|finding| finding.definition_path == "member::test_only")
        .expect("test-compiled finding");
    assert!(test_only.test_compiled_only);
    assert!(!test_only.production_live);
    assert!(test_only.nonproduction_live);
    assert!(report.findings.iter().all(|finding| {
        !matches!(
            finding.definition_path.as_str(),
            "member::reexport"
                | "member::exported_macro"
                | "member::opaque"
                | "member::opted_out"
                | "member::macro_emitted"
        )
    }));
}

#[test]
fn impact_keeps_production_and_nonproduction_chains_separate() {
    let library = invocation(
        "library",
        vec![source("/workspace/helper/src/lib.rs")],
        vec![definition(
            20,
            1,
            "helper::selected",
            DefinitionKind::Function,
            0,
        )],
        Vec::new(),
        Vec::new(),
    );
    let production = invocation(
        "production",
        vec![source("/workspace/app/src/main.rs")],
        vec![definition(30, 1, "app::main", DefinitionKind::Function, 0)],
        vec![root(30, 1, RootKind::EntryPoint)],
        vec![reference(30, 1, 20, 1, ReferenceKind::Body)],
    );
    let test = invocation(
        "integration-test",
        vec![source("/workspace/app/tests/check.rs")],
        vec![definition(
            40,
            1,
            "check::test",
            DefinitionKind::Function,
            0,
        )],
        vec![root(40, 1, RootKind::EntryPoint)],
        vec![reference(40, 1, 20, 1, ReferenceKind::Body)],
    );
    let library_target = target("helper", "production", "target", &["lib"]);
    let production_target = target("app", "production", "target", &["bin"]);
    let test_target = target("app", "test", "target", &["test"]);
    let inputs = vec![
        graph_input(&library_target, &library),
        graph_input(&production_target, &production),
        graph_input(&test_target, &test),
    ];

    let query = query("helper::selected");
    let impact = aggregate_with_query(
        &places(),
        SemanticStatus::Complete,
        &inputs,
        Some(&query),
    )
    .impact
    .expect("impact report");

    assert_eq!(impact.status, SemanticStatus::Complete);
    let summary = impact.summary.as_ref().expect("complete impact summary");
    assert_eq!(summary.direct_reference_relationships, 2);
    assert_eq!(summary.transitive_consumers, 2);
    assert!(summary.production);
    assert!(summary.nonproduction);
    assert!(!summary.build_time);
    let witnesses = impact
        .witnesses
        .iter()
        .map(|witness| {
            (
                witness.provenance.class,
                witness.root.definition_path.as_str(),
                witness.steps.len(),
            )
        })
        .collect::<Vec<_>>();
    assert_eq!(witnesses.len(), 2);
    assert!(witnesses.contains(&(ImpactProvenanceClass::Production, "app::main", 1)));
    assert!(witnesses.contains(&(ImpactProvenanceClass::Nonproduction, "check::test", 1)));
}

#[test]
fn host_build_consumers_require_selected_library_visibility() {
    let library = invocation(
        "library",
        vec![source("/workspace/helper/src/lib.rs")],
        vec![definition(
            20,
            1,
            "helper::api",
            DefinitionKind::Function,
            0,
        )],
        Vec::new(),
        Vec::new(),
    );
    let build = invocation(
        "build",
        vec![source("/workspace/consumer/build.rs")],
        vec![definition(
            30,
            1,
            "build_script::main",
            DefinitionKind::Function,
            0,
        )],
        vec![root(30, 1, RootKind::EntryPoint)],
        vec![reference(30, 1, 20, 1, ReferenceKind::Body)],
    );
    let library_target = target("helper", "production", "host", &["lib"]);
    let build_target = target("consumer", "build", "host", &["custom-build"]);
    let inputs = vec![
        graph_input(&library_target, &library),
        graph_input(&build_target, &build),
    ];

    let aggregation = aggregate(&places(), SemanticStatus::Complete, &inputs);
    assert_eq!(aggregation.status, SemanticStatus::Complete);
    assert!(aggregation.closed_world.is_some());
    let required = aggregation
        .required_visibility
        .expect("complete visibility report");
    assert_eq!(required.definitions.len(), 1);
    assert_eq!(required.definitions[0].definition_path, "helper::api");
    assert_eq!(required.definitions[0].required_visibility, "public");

    let query = query("helper::api");
    let impact = aggregate_with_query(
        &places(),
        SemanticStatus::Complete,
        &inputs,
        Some(&query),
    )
    .impact
    .expect("impact report");
    assert_eq!(impact.status, SemanticStatus::Complete);
    assert_eq!(
        impact.visibility_disposition,
        Some(ImpactVisibilityDisposition::RequiredPublic)
    );
    let summary = impact.summary.expect("complete impact summary");
    assert!(summary.build_time);
    assert!(!summary.production);
    assert_eq!(summary.direct_reference_relationships, 1);
    assert_eq!(impact.witnesses.len(), 1);
    assert_eq!(
        impact.witnesses[0].provenance.class,
        ImpactProvenanceClass::BuildTime
    );
}

#[test]
fn host_proc_macro_consumers_are_build_time_impact() {
    let library = invocation(
        "library",
        vec![source("/workspace/helper/src/lib.rs")],
        vec![definition(
            21,
            1,
            "helper::api",
            DefinitionKind::Function,
            0,
        )],
        Vec::new(),
        Vec::new(),
    );
    let proc_macro = invocation(
        "proc-macro",
        vec![source("/workspace/derive/src/lib.rs")],
        vec![definition(
            31,
            1,
            "derive::expand",
            DefinitionKind::Macro,
            0,
        )],
        vec![root(31, 1, RootKind::EntryPoint)],
        vec![reference(31, 1, 21, 1, ReferenceKind::Body)],
    );
    let library_target = target("helper", "production", "host", &["lib"]);
    let macro_target = target("derive", "production", "host", &["proc-macro"]);
    let inputs = vec![
        graph_input(&library_target, &library),
        graph_input(&macro_target, &proc_macro),
    ];

    let query = query("helper::api");
    let impact = aggregate_with_query(
        &places(),
        SemanticStatus::Complete,
        &inputs,
        Some(&query),
    )
    .impact
    .expect("impact report");

    assert_eq!(impact.status, SemanticStatus::Complete);
    let summary = impact.summary.expect("complete impact summary");
    assert!(summary.build_time);
    assert!(!summary.production);
    assert_eq!(impact.witnesses.len(), 1);
    assert_eq!(
        impact.witnesses[0].provenance.class,
        ImpactProvenanceClass::BuildTime
    );
}

#[test]
fn public_trait_propagates_visibility_to_signature_types() {
    let library = invocation(
        "library",
        vec![source("/workspace/api/src/lib.rs")],
        vec![
            definition(40, 1, "api::Contract", DefinitionKind::Trait, 0),
            definition(40, 2, "api::Payload", DefinitionKind::Struct, 2),
        ],
        vec![root(40, 1, RootKind::RequiredPublic)],
        vec![reference(
            40,
            1,
            40,
            2,
            ReferenceKind::VisibilityRequirement,
        )],
    );
    let target = target("api", "production", "target", &["lib"]);
    let inputs = vec![graph_input(&target, &library)];

    let aggregation = aggregate(&places(), SemanticStatus::Complete, &inputs);
    let paths = aggregation
        .required_visibility
        .unwrap()
        .definitions
        .into_iter()
        .map(|definition| definition.definition_path)
        .collect::<BTreeSet<_>>();
    assert_eq!(
        paths,
        BTreeSet::from(["api::Contract".to_owned(), "api::Payload".to_owned()])
    );

    let query = query("api::Payload");
    let impact = aggregate_with_query(
        &places(),
        SemanticStatus::Complete,
        &inputs,
        Some(&query),
    )
    .impact
    .expect("impact report");
    assert_eq!(impact.status, SemanticStatus::Complete);
    assert!(impact.summary.as_ref().unwrap().public_interface);
    let witness = impact
        .witnesses
        .iter()
        .find(|witness| witness.provenance.class == ImpactProvenanceClass::PublicInterface)
        .expect("public-interface witness");
    assert_eq!(witness.root.definition_path, "api::Contract");
    assert_eq!(witness.steps.len(), 1);
    assert_eq!(witness.steps[0].reference_kind, "visibility_requirement");
}

#[test]
fn one_required_occurrence_suppresses_the_same_physical_visibility_token() {
    let shared = source("/workspace/shared/item.rs");
    let first = invocation(
        "first",
        vec![shared.clone()],
        vec![
            definition(50, 1, "first::shared", DefinitionKind::Function, 0),
            definition(50, 2, "first::entry", DefinitionKind::Function, 2),
            definition(50, 3, "first::payload", DefinitionKind::Struct, 4),
        ],
        vec![root(50, 2, RootKind::Conservative)],
        vec![reference(
            50,
            1,
            50,
            3,
            ReferenceKind::VisibilityRequirement,
        )],
    );
    let mut included = definition(60, 1, "second::shared", DefinitionKind::Function, 0);
    included.expansion_origin = ExpansionOrigin::ExternalMacro;
    let second = invocation(
        "second",
        vec![shared],
        vec![included],
        vec![root(60, 1, RootKind::RequiredPublic)],
        Vec::new(),
    );
    let first_target = target("first", "production", "target", &["lib"]);
    let second_target = target("second", "production", "target", &["lib"]);
    let inputs = vec![
        graph_input(&first_target, &first),
        graph_input(&second_target, &second),
    ];

    let aggregation = aggregate(&places(), SemanticStatus::Complete, &inputs);
    let required = aggregation.required_visibility.unwrap();
    assert!(
        required
            .definitions
            .iter()
            .any(|definition| definition.definition_path == "first::payload")
    );
    let report = aggregation.closed_world.unwrap();
    assert!(report.findings.iter().all(|finding| {
        !matches!(
            finding.definition_path.as_str(),
            "first::shared" | "second::shared"
        )
    }));

    let query = query("first::shared");
    let impact = aggregate_with_query(
        &places(),
        SemanticStatus::Complete,
        &inputs,
        Some(&query),
    )
    .impact
    .expect("impact report");
    assert_eq!(impact.status, SemanticStatus::Complete);
    assert_eq!(
        impact.visibility_disposition,
        Some(ImpactVisibilityDisposition::RequiredPublic)
    );
    assert_eq!(impact.selected.as_ref().unwrap().package_id, "first");
    assert!(!impact.summary.as_ref().unwrap().public_interface);
    assert!(impact.direct_references.is_empty());
    assert!(impact.witnesses.is_empty());
}

#[test]
fn reexported_target_does_not_require_its_original_module_path() {
    let library = invocation(
        "library",
        vec![source("/workspace/api/src/lib.rs")],
        vec![
            definition(70, 1, "api::original", DefinitionKind::Module, 0),
            definition(70, 2, "api::original::item", DefinitionKind::Function, 2),
        ],
        vec![Root {
            reason: "a public reexport requires this local target to remain public".to_owned(),
            ..root(70, 2, RootKind::RequiredPublic)
        }],
        vec![reference(70, 2, 70, 1, ReferenceKind::VisibilityParent)],
    );
    let target = target("api", "production", "target", &["lib"]);
    let inputs = vec![graph_input(&target, &library)];

    let paths = aggregate(&places(), SemanticStatus::Complete, &inputs)
        .required_visibility
        .unwrap()
        .definitions
        .into_iter()
        .map(|definition| definition.definition_path)
        .collect::<BTreeSet<_>>();
    assert!(paths.contains("api::original::item"));
    assert!(!paths.contains("api::original"));
}

#[test]
fn impact_reports_dead_public_with_zero_consumers() {
    let library = invocation(
        "library",
        vec![source("/workspace/api/src/lib.rs")],
        vec![definition(80, 1, "api::dead", DefinitionKind::Function, 0)],
        Vec::new(),
        Vec::new(),
    );
    let target = target("api", "production", "target", &["lib"]);
    let inputs = vec![graph_input(&target, &library)];

    let query = query("api::dead");
    let impact = aggregate_with_query(
        &places(),
        SemanticStatus::Complete,
        &inputs,
        Some(&query),
    )
    .impact
    .expect("impact report");

    assert_eq!(impact.status, SemanticStatus::Complete);
    assert_eq!(
        impact.visibility_disposition,
        Some(ImpactVisibilityDisposition::DeadPublic)
    );
    let summary = impact.summary.expect("complete impact summary");
    assert_eq!(summary.direct_reference_relationships, 0);
    assert_eq!(summary.transitive_consumers, 0);
    assert!(!summary.production);
    assert!(!summary.nonproduction);
    assert!(impact.direct_references.is_empty());
    assert!(impact.witnesses.is_empty());
}

#[test]
fn ambiguous_impact_query_fails_closed_and_exact_location_selects() {
    let library = invocation(
        "library",
        vec![source("/workspace/api/src/lib.rs")],
        vec![
            definition(90, 1, "api::duplicate", DefinitionKind::Function, 0),
            definition(90, 2, "api::duplicate", DefinitionKind::Function, 2),
        ],
        Vec::new(),
        Vec::new(),
    );
    let target = target("api", "production", "target", &["lib"]);
    let inputs = vec![graph_input(&target, &library)];

    let query = query("api::duplicate");
    let aggregation = aggregate_with_query(
        &places(),
        SemanticStatus::Complete,
        &inputs,
        Some(&query),
    );
    assert_eq!(aggregation.status, SemanticStatus::Complete);
    assert!(aggregation.closed_world.is_some());
    let impact = aggregation.impact.expect("impact report");
    assert_eq!(impact.status, SemanticStatus::Unavailable);
    assert!(impact.summary.is_none());
    assert_eq!(impact.candidates.len(), 2);
    assert!(impact.direct_references.is_empty());

    let exact = ImpactQuery {
        location: Some(ImpactLocationQuery {
            path: "api/src/lib.rs".to_owned(),
            line: 1,
            column: 3,
        }),
        ..query
    };
    let impact = aggregate_with_query(
        &places(),
        SemanticStatus::Complete,
        &inputs,
        Some(&exact),
    )
    .impact
    .expect("impact report");
    assert_eq!(impact.status, SemanticStatus::Complete);
    assert_eq!(impact.selected.unwrap().span.unwrap().column, 3);
}

#[test]
fn exact_impact_location_accepts_the_reported_macro_callsite() {
    let mut first_generated = definition(91, 1, "api::generated", DefinitionKind::Function, 0);
    first_generated.attribution_callsite = first_generated.span.take();
    first_generated.expansion_origin = ExpansionOrigin::ExternalMacro;
    let first = invocation(
        "first",
        vec![source("/workspace/api/src/lib.rs")],
        vec![
            first_generated,
            definition(91, 2, "api::first_consumer", DefinitionKind::Function, 4),
        ],
        vec![root(91, 2, RootKind::EntryPoint)],
        vec![reference(91, 2, 91, 1, ReferenceKind::Body)],
    );
    let mut second_generated = definition(92, 1, "api::generated", DefinitionKind::Function, 2);
    second_generated.attribution_callsite = second_generated.span.take();
    second_generated.expansion_origin = ExpansionOrigin::ExternalMacro;
    let second = invocation(
        "second",
        vec![source("/workspace/api/src/lib.rs")],
        vec![
            second_generated,
            definition(92, 2, "api::second_consumer", DefinitionKind::Function, 6),
        ],
        vec![root(92, 2, RootKind::EntryPoint)],
        vec![reference(92, 2, 92, 1, ReferenceKind::Body)],
    );
    let first_target = target("api", "production", "target", &["lib"]);
    let mut second_target = first_target.clone();
    second_target.name = "api-other".to_owned();
    second_target.source = "/workspace/api/src/other.rs".to_owned();
    let inputs = vec![
        graph_input(&first_target, &first),
        graph_input(&second_target, &second),
    ];
    let ambiguous = query("api::generated");
    let impact = aggregate_with_query(
        &places(),
        SemanticStatus::Complete,
        &inputs,
        Some(&ambiguous),
    )
    .impact
    .expect("impact report");
    assert_eq!(impact.status, SemanticStatus::Unavailable);
    assert_eq!(impact.candidates.len(), 2);

    let exact = ImpactQuery {
        location: Some(ImpactLocationQuery {
            path: "api/src/lib.rs".to_owned(),
            line: 1,
            column: 1,
        }),
        ..ambiguous
    };

    let impact = aggregate_with_query(
        &places(),
        SemanticStatus::Complete,
        &inputs,
        Some(&exact),
    )
    .impact
    .expect("impact report");

    assert_eq!(impact.status, SemanticStatus::Complete);
    let selected = impact.selected.expect("selected definition");
    assert!(selected.span.is_none());
    assert_eq!(selected.attribution_callsite.unwrap().column, 1);
    assert_eq!(impact.summary.unwrap().direct_reference_relationships, 1);
    assert_eq!(impact.direct_references.len(), 1);
    assert_eq!(
        impact.direct_references[0].consumer.definition_path,
        "api::first_consumer"
    );
}

#[test]
fn cyclic_consumers_have_one_shortest_deterministic_witness() {
    let library = invocation(
        "library",
        vec![source("/workspace/api/src/lib.rs")],
        vec![
            definition(100, 1, "api::root", DefinitionKind::Function, 0),
            definition(100, 2, "api::selected", DefinitionKind::Function, 2),
        ],
        vec![root(100, 1, RootKind::EntryPoint)],
        vec![
            reference(100, 1, 100, 2, ReferenceKind::Body),
            reference(100, 2, 100, 1, ReferenceKind::Body),
        ],
    );
    let target = target("api", "production", "target", &["bin"]);
    let inputs = vec![graph_input(&target, &library)];

    let query = query("api::selected");
    let impact = aggregate_with_query(
        &places(),
        SemanticStatus::Complete,
        &inputs,
        Some(&query),
    )
    .impact
    .expect("impact report");

    assert_eq!(impact.status, SemanticStatus::Complete);
    assert_eq!(impact.summary.as_ref().unwrap().transitive_consumers, 1);
    assert_eq!(impact.witnesses.len(), 1);
    assert_eq!(impact.witnesses[0].root.definition_path, "api::root");
    assert_eq!(impact.witnesses[0].steps.len(), 1);
    assert_eq!(
        impact.witnesses[0].steps[0].to.definition_path,
        "api::selected"
    );
}

#[test]
fn generated_files_are_never_reported_as_edit_targets() {
    let mut generated = source("/workspace/target/generated.rs");
    generated.generated = true;
    let library = invocation(
        "library",
        vec![generated],
        vec![
            definition(80, 1, "generated_required", DefinitionKind::Function, 0),
            definition(80, 2, "generated_dead", DefinitionKind::Function, 2),
        ],
        vec![root(80, 1, RootKind::RequiredPublic)],
        Vec::new(),
    );
    let target = target("api", "production", "target", &["lib"]);
    let inputs = vec![graph_input(&target, &library)];

    let aggregation = aggregate(&places(), SemanticStatus::Complete, &inputs);
    assert!(
        aggregation
            .required_visibility
            .unwrap()
            .definitions
            .is_empty()
    );
    assert!(aggregation.closed_world.unwrap().findings.is_empty());
}

fn graph_input<'a>(
    target: &'a CompilerTargetReport,
    invocation: &'a Invocation,
) -> GraphInvocation<'a> {
    GraphInvocation {
        target,
        owner: "owner",
        crate_name: &invocation.started.crate_name,
        status: SemanticStatus::Complete,
        invocation,
    }
}

fn query(definition_path: &str) -> ImpactQuery {
    ImpactQuery {
        package: "owner".to_owned(),
        definition_path: definition_path.to_owned(),
        location: None,
    }
}

fn target(package: &str, role: &str, context: &str, kinds: &[&str]) -> CompilerTargetReport {
    CompilerTargetReport {
        package_id: package.to_owned(),
        name: package.to_owned(),
        kinds: kinds.iter().map(|kind| (*kind).to_owned()).collect(),
        crate_types: kinds.iter().map(|kind| (*kind).to_owned()).collect(),
        source: format!("/workspace/{package}/src/lib.rs"),
        role: role.to_owned(),
        compilation_context: context.to_owned(),
    }
}

fn invocation(
    name: &str,
    sources: Vec<SourceFile>,
    definitions: Vec<Definition>,
    roots: Vec<Root>,
    references: Vec<Reference>,
) -> Invocation {
    let compiler = CompilerIdentity {
        release: "nightly".to_owned(),
        commit_hash: "commit".to_owned(),
        commit_date: "date".to_owned(),
        host: "host".to_owned(),
    };
    Invocation {
        id: InvocationId(name.to_owned()),
        started: InvocationStarted {
            merge_key: InvocationMergeKey(name.to_owned()),
            compiler,
            process_id: 1,
            rustc_path: "rustc".to_owned(),
            working_directory: ROOT.to_owned(),
            manifest_dir: Some(ROOT.to_owned()),
            build_script_out_dir: None,
            package_name: Some(name.to_owned()),
            primary_package: true,
            test_mode: false,
            target_triple: "target".to_owned(),
            compilation_context: CompilationContext::Target,
            crate_name: name.to_owned(),
            input: Some(format!("{name}.rs")),
            artifact: ArtifactIdentity {
                out_dir: Some("out".to_owned()),
                crate_name: name.to_owned(),
                crate_types: vec!["lib".to_owned()],
                extra_filename: Some("-hash".to_owned()),
                metadata: Some("hash".to_owned()),
                emit: vec!["metadata".to_owned()],
            },
        },
        profile: None,
        sources,
        products: Vec::new(),
        diagnostics: Vec::new(),
        definitions,
        bindings: Vec::new(),
        roots,
        references,
        finished: InvocationFinished {
            rustc_success: true,
            analysis_reached: true,
        },
    }
}

fn definition(
    stable_crate_id: u64,
    local_hash: u64,
    path: &str,
    kind: DefinitionKind,
    start: u32,
) -> Definition {
    Definition {
        id: FactId(format!("definition-{stable_crate_id}-{local_hash}")),
        compiler_id: CompilerDefId {
            stable_crate_id,
            local_hash,
        },
        parent: None,
        name: path.rsplit("::").next().map(ToOwned::to_owned),
        definition_path: path.to_owned(),
        kind,
        visibility_editable: true,
        nominal_visibility: NominalVisibility::Public,
        externally_reachable: true,
        span: Some(SourceSpan {
            file: SourceFileKey("source".to_owned()),
            start,
            end: start + 1,
            line: 1,
            column: start + 1,
        }),
        attribution_callsite: None,
        expansion_origin: ExpansionOrigin::Authored,
    }
}

fn source(path: &str) -> SourceFile {
    SourceFile {
        key: SourceFileKey("source".to_owned()),
        local_path: Some(path.to_owned()),
        remapped_path: path.to_owned(),
        source_hash_algorithm: "sha256".to_owned(),
        source_hash: format!("sha256={}", "0".repeat(64)),
        byte_len: 64,
        generated: false,
    }
}

fn root(stable_crate_id: u64, local_hash: u64, kind: RootKind) -> Root {
    Root {
        id: FactId(format!("root-{stable_crate_id}-{local_hash}")),
        definition: CompilerDefId {
            stable_crate_id,
            local_hash,
        },
        kind,
        reason: "test root".to_owned(),
    }
}

fn reference(
    from_crate: u64,
    from_hash: u64,
    to_crate: u64,
    to_hash: u64,
    kind: ReferenceKind,
) -> Reference {
    Reference {
        id: FactId(format!(
            "reference-{from_crate}-{from_hash}-{to_crate}-{to_hash}"
        )),
        from: CompilerDefId {
            stable_crate_id: from_crate,
            local_hash: from_hash,
        },
        to: CompilerDefId {
            stable_crate_id: to_crate,
            local_hash: to_hash,
        },
        kind,
        span: None,
    }
}

fn places() -> Locations {
    Locations { root: ROOT.to_owned(), canonical: Vec::new() }
}

#[test]
fn incomplete_evidence_shows_nothing() {
    let library = invocation(
        "library",
        vec![source("/workspace/api/src/lib.rs")],
        vec![definition(80, 1, "api::dead", DefinitionKind::Function, 0)],
        Vec::new(),
        Vec::new(),
    );
    let target = target("api", "production", "target", &["lib"]);
    let inputs = vec![graph_input(&target, &library)];
    let aggregation = aggregate(&places(), SemanticStatus::Partial, &inputs);
    assert_ne!(aggregation.status, SemanticStatus::Complete);
    assert!(aggregation.reason.is_some());
    assert!(aggregation.required_visibility.is_none());
    assert!(aggregation.closed_world.is_none());

    let query = query("api::dead");
    let aggregation =
        aggregate_with_query(&places(), SemanticStatus::Unavailable, &inputs, Some(&query));
    assert_eq!(aggregation.impact.unwrap().status, SemanticStatus::Unavailable);
}

#[test]
fn references_to_unknown_definitions_fail_closed() {
    let library = invocation(
        "library",
        vec![source("/workspace/api/src/lib.rs")],
        vec![definition(80, 1, "api::f", DefinitionKind::Function, 0)],
        Vec::new(),
        vec![reference(80, 1, 80, 9, ReferenceKind::Body)],
    );
    let target = target("api", "production", "target", &["lib"]);
    let inputs = vec![graph_input(&target, &library)];
    let aggregation = aggregate(&places(), SemanticStatus::Complete, &inputs);
    assert_ne!(aggregation.status, SemanticStatus::Complete);
    assert!(aggregation.closed_world.is_none());
}
