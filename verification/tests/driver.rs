use rot::compiler::graph::CanonicalPath;
use rot::compiler::stream::frames;
use rot::driver::arguments::{
    codegen_value, codegen_values, manifest_is_selected, option_value, safe_filename, valid_run_id,
    DriverEnvironment, InvocationArgs,
};
use rot::driver::definitions::{
    DefKind, LocalDefinition, LocatedSpan, ResolvedReference, SpanAttribution,
};
use rot::driver::facts::collect_facts;
use rot::driver::names::{
    hidden_definitions, Expression, FieldUse, LocalKind, OffsetStep, PathUse, Pattern,
};
use rot::driver::records::{
    list_fact_events, product_message, profile, start_collection, started_record, Collection,
    ProductProgress, RecordBuffer, SessionFacts, TRAILER_RESERVE_BYTES,
};
use rot::driver::roots::{ChildTarget, CrateFacts, ModuleChild, Reexport};
use rot::driver::spans::{
    expansion_origin, generated_identity, length_prefixed, source_span, span_attribution, Expansion,
    GeneratedRoot, SpanFacts,
};
use rot::driver::targets::{resolved_targets, ReferenceTargets, Resolution, SelfType};
use rot::driver::toolchain::{build_compiler, driver_configurations, minor_version, version_field};
use rot::protocol::{
    Availability, CfgValue, CompilationContext, CompilerDefId, CompilerIdentity, DefinitionKind,
    Diagnostic, DiagnosticPhase, DiagnosticSeverity, Event, ExpansionOrigin, InvocationFinished,
    InvocationId, NominalVisibility, OptimizationLevel, PanicStrategy, Record, ReferenceKind,
    RootKind, RunId, SourceFile, SourceFileKey, SourceSpan,
};

fn texts(items: &[&str]) -> Vec<String> {
    items.iter().map(|item| item.to_string()).collect()
}

fn environment() -> DriverEnvironment {
    DriverEnvironment {
        working_directory: "/work".to_owned(),
        manifest_dir: None,
        build_script_out_dir: None,
        package_name: None,
        crate_name: None,
        primary_package: false,
        host: "x86_64-unknown-linux-gnu".to_owned(),
        canonical: Vec::new(),
    }
}

fn parse(rustc: &str, args: &[&str]) -> InvocationArgs {
    InvocationArgs::parse(rustc.to_owned(), &texts(args), &environment())
}

#[test]
fn parses_cargo_rustc_invocation_identity() {
    let invocation = parse(
        "/toolchain/bin/rustc",
        &[
            "--crate-name",
            "sample",
            "src/lib.rs",
            "--crate-type=lib,rlib",
            "--out-dir",
            "target/check/deps",
            "-C",
            "extra-filename=-1234",
            "-Cmetadata=abcd",
            "--emit=dep-info,metadata",
            "--cfg",
            "feature=\"alpha\"",
            "--test",
            "--target=aarch64-apple-darwin",
        ],
    );

    assert_eq!(invocation.crate_name, "sample");
    assert_eq!(invocation.artifact.crate_types, ["lib", "rlib"]);
    assert_eq!(invocation.artifact.extra_filename.as_deref(), Some("-1234"));
    assert_eq!(invocation.artifact.metadata.as_deref(), Some("abcd"));
    assert_eq!(invocation.artifact.emit, ["dep-info", "metadata"]);
    assert_eq!(invocation.cfg, ["feature=\"alpha\""]);
    assert!(invocation.test_mode);
    assert_eq!(invocation.target, "aarch64-apple-darwin");
    assert_eq!(invocation.compilation_context, CompilationContext::Target);
}

#[test]
fn explicit_host_target_remains_a_target_context() {
    let base = ["--crate-name=sample", "src/lib.rs", "--out-dir=target/check"];
    let host = parse("rustc", &base);
    let mut explicit_args = texts(&base);
    explicit_args.push(format!("--target={}", environment().host));
    let explicit = InvocationArgs::parse("rustc".to_owned(), &explicit_args, &environment());

    assert_eq!(host.target, explicit.target);
    assert_eq!(host.compilation_context, CompilationContext::Host);
    assert_eq!(explicit.compilation_context, CompilationContext::Target);
    assert_ne!(host.merge_key(), explicit.merge_key());
}

fn encode(record: &Record) -> Option<Vec<u8>> {
    let event = match &record.event {
        Event::Diagnostic(diagnostic) => format!(
            "{{\"event\":\"diagnostic\",\"phase\":\"analysis\",\"severity\":\"warning\",\"message\":\"{}\"}}",
            diagnostic.message
        ),
        _ => "{\"event\":\"invocation_finished\",\"rustc_success\":true,\"analysis_reached\":true}"
            .to_owned(),
    };
    Some(
        format!(
            "{{\"protocol_version\":{},\"run_id\":\"{}\",\"invocation_id\":\"{}\",\"sequence\":{},\"event\":{}}}\n",
            record.protocol_version,
            record.run_id.0,
            record.invocation_id.0,
            record.sequence,
            event
        )
        .into_bytes(),
    )
}

fn warning(message: String) -> Event {
    Event::Diagnostic(Diagnostic {
        phase: DiagnosticPhase::Analysis,
        severity: DiagnosticSeverity::Warning,
        message,
        span: None,
    })
}

#[test]
fn record_buffer_is_bounded_and_sequences_only_written_records() {
    let mut records = RecordBuffer::new(
        RunId("run".to_owned()),
        InvocationId("invocation".to_owned()),
        TRAILER_RESERVE_BYTES + 300,
    );
    let short = encode(&records.record(warning("short".to_owned())));
    assert!(records.push(short));
    let long = encode(&records.record(warning("x".repeat(1_000))));
    assert!(!records.push(long));
    let last = encode(&records.record(Event::InvocationFinished(InvocationFinished {
        rustc_success: true,
        analysis_reached: true,
    })));
    assert!(records.push_mandatory(last));

    let decoded = records
        .records
        .iter()
        .map(|record| serde_json::from_slice::<serde_json::Value>(record).unwrap())
        .collect::<Vec<_>>();
    assert_eq!(decoded.len(), 2);
    assert_eq!(decoded[0]["sequence"].as_u64(), Some(0));
    assert_eq!(decoded[1]["sequence"].as_u64(), Some(1));
    assert!(records.bytes <= records.limit);
    assert!(records.truncated);
}

#[test]
fn a_record_that_cannot_be_encoded_is_missing() {
    let mut records = RecordBuffer::new(
        RunId("run".to_owned()),
        InvocationId("invocation".to_owned()),
        TRAILER_RESERVE_BYTES + 300,
    );
    assert!(!records.push(None));
    assert!(records.truncated);
    assert_eq!(records.next_sequence, 0);

    let mut collection = Collection::new(records);
    collection.begin();
    assert_eq!(collection.visibility_audit.availability(), Availability::Partial);
    let events = collection.closing_events(true);
    assert!(matches!(
        &events[0],
        Event::Diagnostic(diagnostic)
            if diagnostic.message == "compiler facts exceeded the 67108864 byte sidecar limit"
    ));
}

#[test]
fn run_ids_and_sidecar_names_reject_path_syntax() {
    assert!(valid_run_id("run-1_a.b"));
    assert!(!valid_run_id("../escape"));
    assert_eq!(safe_filename("crate/name"), "crate_name");
    assert_eq!(safe_filename(""), "unknown");
}

fn canonical(path: &str, form: &str) -> CanonicalPath {
    CanonicalPath { path: path.to_owned(), canonical: form.to_owned() }
}

#[test]
fn directories_around_a_call_are_canonical_and_an_empty_one_is_none() {
    let mut around = environment();
    around.canonical = vec![canonical("/link", "/real"), canonical("/work", "/real/work")];
    around.manifest_dir = Some("/link".to_owned());
    around.build_script_out_dir = Some(String::new());
    let invocation = InvocationArgs::parse("rustc".to_owned(), &Vec::new(), &around);
    assert_eq!(invocation.build_script_out_dir, None);
    assert_eq!(invocation.manifest_dir.as_deref(), Some("/real"));
    assert_eq!(invocation.working_directory, "/real/work");
    around.build_script_out_dir = Some("/link/".to_owned());
    let invocation = InvocationArgs::parse("rustc".to_owned(), &Vec::new(), &around);
    assert_eq!(invocation.build_script_out_dir.as_deref(), Some("/real"));
}

#[test]
fn manifest_allowlist_holds_however_its_paths_are_written() {
    let allowlist = Some(texts(&["/tmp//allowed/"]));
    assert!(manifest_is_selected(&Vec::new(), &Some("/tmp/allowed".to_owned()), &allowlist));
    assert!(!manifest_is_selected(&Vec::new(), &Some("/tmp/other".to_owned()), &allowlist));
}

#[test]
fn manifest_allowlist_is_bounded_and_fail_closed() {
    let known = vec![canonical("/tmp/allowed", "/private/tmp/allowed")];
    let allowed = Some("/private/tmp/allowed".to_owned());
    let allowlist = Some(texts(&["/tmp/allowed"]));

    assert!(manifest_is_selected(&known, &allowed, &allowlist));
    assert!(!manifest_is_selected(&known, &Some("/private/tmp/other".to_owned()), &allowlist));
    assert!(!manifest_is_selected(&known, &allowed, &None));

    let oversized = Some(vec!["/tmp/allowed".to_owned(); 4097]);
    assert!(!manifest_is_selected(&known, &allowed, &oversized));
}

#[test]
fn effective_codegen_value_is_the_last_occurrence() {
    let args = texts(&["-Cmetadata=first", "-C", "metadata=last"]);

    assert_eq!(codegen_value(&args, "metadata").as_deref(), Some("last"));
    assert_eq!(codegen_values(&args, "metadata"), ["first", "last"]);
}

#[test]
fn the_first_value_of_an_option_counts() {
    let args = texts(&["--crate-name", "first", "--crate-name=second"]);

    assert_eq!(option_value(&args, "--crate-name").as_deref(), Some("first"));
    assert_eq!(option_value(&args, "--target"), None);
}

#[test]
fn omitted_crate_type_uses_rustc_bin_default() {
    let invocation = parse(
        "/toolchain/bin/rustc",
        &["--crate-name=sample_test", "src/lib.rs", "--out-dir=target/test", "--test"],
    );

    assert_eq!(invocation.artifact.crate_types, ["bin"]);
    assert!(invocation.test_mode);
}

#[test]
fn bare_test_cfg_marks_harness_free_targets_as_test_mode() {
    let invocation = parse(
        "/toolchain/bin/rustc",
        &["--crate-name=sample_test", "src/lib.rs", "--out-dir=target/test", "--cfg", "test"],
    );

    assert!(invocation.test_mode);
}

#[test]
fn visibility_audit_progress_is_atomic() {
    let mut audit = ProductProgress::new();

    assert_eq!(audit.availability(), Availability::Unavailable);
    audit.start();
    assert_eq!(audit.availability(), Availability::Complete);
    audit.reject();

    assert_eq!(audit.availability(), Availability::Partial);
    assert_eq!(
        product_message(&audit).as_deref(),
        Some("compiler facts were truncated by the sidecar limit")
    );
}

#[test]
fn facts_are_collected_for_selected_packages_of_a_named_run_only() {
    let invocation = parse(
        "rustc",
        &["--crate-name=sample", "src/lib.rs", "--out-dir=target/check"],
    );
    assert!(invocation.collectible);
    let run = Some("run".to_owned());
    let collection = start_collection(&invocation, true, run.clone(), 7).unwrap();
    assert_eq!(collection.records.run_id.0, "run");
    assert_eq!(collection.records.limit, 67108864);
    assert!(start_collection(&invocation, false, run, 7).is_none());
    assert!(start_collection(&invocation, true, None, 7).is_none());
    assert!(start_collection(&invocation, true, Some("../run".to_owned()), 7).is_none());
}

#[test]
fn generated_identity_prefers_the_most_specific_root() {
    let roots = vec![
        GeneratedRoot { label: "build".to_owned(), path: "run/build".to_owned() },
        GeneratedRoot { label: "out".to_owned(), path: "run/build/package/out".to_owned() },
    ];

    assert_eq!(
        generated_identity("run/build/package/out/generated.rs", &roots).as_deref(),
        Some("<generated:out>/generated.rs")
    );
    assert_eq!(generated_identity("workspace/src/lib.rs", &roots), None);
}

#[test]
fn the_root_counts_where_generated_files_are_placed() {
    let root = |label: &str, path: &str| GeneratedRoot {
        label: label.to_owned(),
        path: path.to_owned(),
    };
    assert_eq!(
        generated_identity("/a", &vec![root("r", "/"), root("e", "")]).as_deref(),
        Some("<generated:r>/a")
    );
    assert_eq!(
        generated_identity("/a", &vec![root("e", ""), root("r", "/")]).as_deref(),
        Some("<generated:r>/a")
    );
    assert_eq!(
        generated_identity("/a/b", &vec![root("first", "/a"), root("second", "/a/")]).as_deref(),
        Some("<generated:second>/b")
    );
}

fn place(source: &[u8], part: &[u8], line: usize, column: usize) -> SpanFacts {
    let start = source.windows(part.len()).position(|window| window == part).unwrap();
    SpanFacts {
        located: true,
        local_path: Some("/work/crlf.rs".to_owned()),
        remapped_path: "crlf.rs".to_owned(),
        source_hash_algorithm: "sha256".to_owned(),
        source_hash: "sha256=0".to_owned(),
        byte_len: source.len() as u32,
        start: start as u32,
        end: (start + part.len()) as u32,
        line,
        column,
    }
}

#[test]
fn source_spans_address_original_crlf_bytes_with_one_based_coordinates() {
    let source = b"pub fn first() {}\r\n\r\npub fn second() {\r\n    first();\r\n}\r\n";
    let second = source_span(&place(source, b"pub fn second()", 3, 0), &Vec::new()).unwrap();

    assert_eq!(second.source.byte_len, u32::try_from(source.len()).unwrap());
    assert_eq!((second.span.line, second.span.column), (3, 1));
    let definition_bytes = &source[usize::try_from(second.span.start).unwrap()
        ..usize::try_from(second.span.end).unwrap()];
    assert!(String::from_utf8_lossy(definition_bytes).contains("second"));

    let mut facts = place(source, b"first();", 4, 4);
    facts.end -= 3;
    let reference = source_span(&facts, &Vec::new()).unwrap();
    assert_eq!((reference.span.line, reference.span.column), (4, 5));
    let reference_bytes = &source[usize::try_from(reference.span.start).unwrap()
        ..usize::try_from(reference.span.end).unwrap()];
    assert_eq!(reference_bytes, b"first");
}

#[test]
fn spans_without_a_place_in_rust_source_are_left_out() {
    let source = b"fn f() {}";
    let mut facts = place(source, b"fn f", 1, 0);
    facts.located = false;
    assert!(source_span(&facts, &Vec::new()).is_none());
    facts.located = true;
    facts.local_path = Some("/work/text.txt".to_owned());
    assert!(source_span(&facts, &Vec::new()).is_none());
}

#[test]
fn the_innermost_macro_decides_where_code_comes_from() {
    assert_eq!(expansion_origin(&Vec::new()), ExpansionOrigin::Authored);
    assert_eq!(
        expansion_origin(&vec![Expansion::Builtin, Expansion::ExternalMacro]),
        ExpansionOrigin::ExternalMacro
    );
    assert_eq!(expansion_origin(&vec![Expansion::LocalMacro]), ExpansionOrigin::LocalMacro);
}

#[test]
fn authored_code_is_attributed_to_itself() {
    let source = b"fn f() {}";
    let raw = source_span(&place(source, b"fn f", 1, 0), &Vec::new()).unwrap();
    let copy = raw.clone();
    let attribution = span_attribution(ExpansionOrigin::Authored, Some(raw), None);
    assert_eq!(attribution.span, Some(copy));
    assert_eq!(attribution.callsite, None);
}

#[test]
fn length_prefixes_tell_parts_apart() {
    assert_eq!(length_prefixed(&texts(&["ab", "", "\u{e9}"])), "2:ab0:2:\u{e9}");
    assert_ne!(length_prefixed(&texts(&["a", "bc"])), length_prefixed(&texts(&["ab", "c"])));
}

#[test]
fn what_a_driver_is_told_depends_on_the_release() {
    let version = "rustc 1.92.0 (abc 2026-01-01)\nrelease: 1.92.0\ncommit-hash: abc\ncommit-date: 2026-01-01\nhost: target\n";
    let (compiler, linked) = build_compiler(version).unwrap();
    assert_eq!(compiler.release, "1.92.0");
    assert_eq!(compiler.host, "target");
    assert_eq!(linked, "1.92.0 (abc 2026-01-01)");
    assert_eq!(version_field(version, "LLVM version"), None);
    assert_eq!(minor_version("1.100.0-nightly"), Some((1, 100)));
    assert_eq!(minor_version("nightly"), None);

    assert_eq!(
        driver_configurations("1.92.0").unwrap(),
        [
            "rot_codegen_symbol_name",
            "rot_trait_item_of",
            "rot_immediate_abort",
            "rot_inline_const_def_kind",
        ]
    );
    assert_eq!(
        driver_configurations("1.92.0-nightly").unwrap(),
        ["rot_codegen_symbol_name", "rot_trait_item_of", "rot_inline_const_def_kind"]
    );
    assert!(driver_configurations("1.100.0-nightly")
        .unwrap()
        .contains(&"rot_test_binder_constraints".to_owned()));
    assert_eq!(driver_configurations("unknown"), None);
}

fn id(local_hash: u64) -> CompilerDefId {
    CompilerDefId { stable_crate_id: 1, local_hash }
}

fn located(file: &str, start: u32) -> LocatedSpan {
    LocatedSpan {
        source: SourceFile {
            key: SourceFileKey(file.to_owned()),
            local_path: Some(file.to_owned()),
            remapped_path: file.to_owned(),
            source_hash_algorithm: "md5".to_owned(),
            source_hash: "md5=0".to_owned(),
            byte_len: 100,
            generated: false,
        },
        span: SourceSpan {
            file: SourceFileKey(file.to_owned()),
            start,
            end: start + 1,
            line: 1,
            column: start + 1,
        },
    }
}

fn authored(file: &str, start: u32) -> SpanAttribution {
    SpanAttribution {
        span: Some(located(file, start)),
        callsite: None,
        origin: ExpansionOrigin::Authored,
    }
}

fn local(hash: u64, parent: Option<usize>, kind: DefKind, path: &str) -> LocalDefinition {
    LocalDefinition {
        compiler_id: id(hash),
        parent,
        kind,
        name: Some(path.rsplit("::").next().unwrap_or(path).to_owned()),
        path: path.to_owned(),
        visibility: NominalVisibility::Public,
        externally_reachable: true,
        exported: true,
        location: authored("src/main.rs", u32::try_from(hash).unwrap()),
        dead_code_allowed: false,
        retained_symbol: false,
        trait_item: None,
        self_type: None,
        body: None,
        interface: Vec::new(),
    }
}

#[test]
fn facts_of_a_crate_are_in_order_and_numbered() {
    let mut main = local(3, Some(0), DefKind::Fn, "main");
    main.body = Some(vec![ResolvedReference { target: id(2), span: Some(located("src/main.rs", 40)) }]);
    let closure = local(4, Some(2), DefKind::Closure, "main::{closure#0}");
    let definitions = vec![
        local(1, None, DefKind::Mod, "crate"),
        local(2, Some(0), DefKind::Struct, "Thing"),
        main,
        closure,
    ];
    let facts = collect_facts(
        &definitions,
        CrateFacts { entry: Some(id(3)), test_harness: false, proc_macro: false },
        &Vec::new(),
    );
    assert_eq!(facts.sources.len(), 1);
    assert_eq!(facts.definitions.len(), 3);
    let kinds = facts.definitions.iter().map(|fact| fact.kind).collect::<Vec<_>>();
    assert!(kinds.contains(&DefinitionKind::Crate));
    assert!(kinds.contains(&DefinitionKind::Struct));
    assert!(kinds.contains(&DefinitionKind::Function));
    assert_eq!(facts.roots.len(), 1);
    assert_eq!(facts.roots[0].kind, RootKind::EntryPoint);
    assert_eq!(facts.roots[0].reason, "rustc entry point");
    assert_eq!(facts.references.len(), 1);
    assert_eq!(facts.references[0].from, id(3));
    assert_eq!(facts.references[0].to, id(2));
    assert_eq!(facts.references[0].kind, ReferenceKind::Body);
    let mut ids = facts.definitions.iter().map(|fact| fact.id.0.clone()).collect::<Vec<_>>();
    ids.sort();
    ids.dedup();
    assert_eq!(ids.len(), 3);

    let events = list_fact_events(
        profile(SessionFacts {
            host_triple: "host".to_owned(),
            target_triple: "target".to_owned(),
            test: false,
            cfg: vec![
                CfgValue { name: "test".to_owned(), value: None },
                CfgValue { name: "feature".to_owned(), value: Some("fast".to_owned()) },
            ],
            optimization: OptimizationLevel::Size,
            panic: PanicStrategy::Abort,
            debug_assertions: true,
            overflow_checks: false,
            codegen_units: 16,
            target_cpu: None,
            default_cpu: "generic".to_owned(),
            target_features: texts(&["b", "a", "b"]),
        }),
        facts,
    );
    assert_eq!(events.len(), 1 + 1 + 3 + 1 + 1);
    match &events[0] {
        Event::Profile(profile) => {
            assert!(profile.test_mode);
            assert_eq!(profile.features, ["fast"]);
            assert_eq!(profile.codegen.target_cpu, "generic");
            assert_eq!(profile.codegen.target_features, ["a", "b"]);
        }
        other => panic!("{other:?}"),
    }
    assert!(matches!(events[1], Event::SourceFile(_)));
    assert!(matches!(events[6], Event::Reference(_)));
}

#[test]
fn names_stand_for_definitions() {
    assert_eq!(resolved_targets(&Resolution::Definition(id(1))), [id(1)]);
    assert_eq!(resolved_targets(&Resolution::Constructor(id(2))), [id(2)]);
    let own = |is_enum: bool| {
        Resolution::SelfConstructor(SelfType { adt: id(3), is_enum, fields: vec![id(4), id(5)] })
    };
    assert_eq!(resolved_targets(&own(false)), [id(3), id(4), id(5)]);
    assert_eq!(resolved_targets(&own(true)), [id(3)]);
}

#[test]
fn the_first_place_of_a_target_is_kept() {
    let mut targets = ReferenceTargets::new();
    targets.record_def(id(2), false, &authored("src/main.rs", 9));
    targets.record_def(id(2), false, &authored("src/main.rs", 4));
    targets.record_def(id(2), false, &authored("src/main.rs", 6));
    targets.record_def(id(3), true, &authored("src/main.rs", 1));
    targets.record_def(
        id(1),
        false,
        &SpanAttribution { span: None, callsite: None, origin: ExpansionOrigin::Authored },
    );
    let references = targets.finish();
    assert_eq!(references.len(), 2);
    assert_eq!(references[0].target, id(1));
    assert_eq!(references[0].span, None);
    assert_eq!(references[1].span.as_ref().unwrap().span.start, 4);
}

#[test]
fn a_fact_that_does_not_fit_is_noted() {
    let mut collection = Collection::new(RecordBuffer::new(
        RunId("run".to_owned()),
        InvocationId("invocation".to_owned()),
        TRAILER_RESERVE_BYTES + 8,
    ));
    collection.begin();
    assert!(collection.accept(Some(vec![b'x'; 7])));
    assert_eq!(collection.visibility_audit.availability(), Availability::Complete);
    assert!(!collection.accept(Some(vec![b'x'])));
    assert!(!collection.accept(None));
    assert_eq!(collection.visibility_audit.availability(), Availability::Partial);
    assert_eq!(collection.closing_events(true).len(), 3);
}

#[test]
fn what_was_called_is_recorded() {
    let arguments = texts(&["--crate-name", "sample", "src/lib.rs", "--crate-type", "lib"]);
    let invocation = InvocationArgs::parse("/bin/rustc".to_owned(), &arguments, &environment());
    let compiler = CompilerIdentity {
        release: "1.98.0".to_owned(),
        commit_hash: "abc".to_owned(),
        commit_date: "date".to_owned(),
        host: "host".to_owned(),
    };
    let started = started_record(&invocation, compiler, 7);
    assert_eq!(started.process_id, 7);
    assert_eq!(started.rustc_path, "/bin/rustc");
    assert_eq!(started.crate_name, "sample");
    assert_eq!(started.artifact.crate_types, ["lib"]);
    assert_eq!(started.merge_key, invocation.merge_key());
    assert_eq!(started.compiler.commit_hash, "abc");
}

fn path(relative: bool, target: u64) -> PathUse {
    PathUse { relative, resolution: Some(Resolution::Definition(id(target))) }
}

fn field(target: u64) -> FieldUse {
    FieldUse { field: id(target), location: authored("src/main.rs", 70) }
}

fn targets_of(record: impl Fn(&mut ReferenceTargets)) -> Vec<u64> {
    let mut targets = ReferenceTargets::new();
    record(&mut targets);
    targets.finish().iter().map(|reference| reference.target.local_hash).collect()
}

#[test]
fn expressions_name_what_only_types_tell() {
    let hidden = hidden_definitions(&vec![
        LocalKind { id: id(1), kind: DefKind::Mod },
        LocalKind { id: id(9), kind: DefKind::Closure },
    ]);
    assert_eq!(hidden.len(), 1);
    let place = authored("src/main.rs", 60);
    let named = |expression: Expression| {
        targets_of(|targets| targets.record_expression(&hidden, &expression, &place))
    };
    assert_eq!(named(Expression::Path { path: path(true, 2), constructed: vec![id(3), id(9)] }), [2, 3]);
    assert_eq!(named(Expression::Path { path: path(false, 2), constructed: Vec::new() }), [0u64; 0]);
    let built = |has_rest: bool| Expression::Struct {
        path: path(true, 2),
        fields: vec![field(3)],
        has_rest,
        all_fields: vec![id(3), id(4)],
    };
    assert_eq!(named(built(false)), [2, 3]);
    assert_eq!(named(built(true)), [2, 3, 4]);
    assert_eq!(named(Expression::Field { of_enum: false, field: Some(field(5)) }), [5]);
    assert_eq!(named(Expression::Field { of_enum: true, field: Some(field(5)) }), [0u64; 0]);
    assert_eq!(
        named(Expression::OffsetOf {
            steps: vec![
                OffsetStep { of_enum: false, field: id(6) },
                OffsetStep { of_enum: true, field: id(7) },
            ],
        }),
        [6]
    );
    assert_eq!(named(Expression::MethodCall { method: Some(id(8)) }), [8]);
    assert_eq!(named(Expression::MethodCall { method: None }), [0u64; 0]);
    assert_eq!(named(Expression::Other), [0u64; 0]);

    let mut targets = ReferenceTargets::new();
    targets.record_expression(&hidden, &built(true), &place);
    let references = targets.finish();
    assert_eq!(references[1].span.as_ref().unwrap().span.start, 60);
}

#[test]
fn tuple_patterns_name_every_field() {
    let hidden = hidden_definitions(&Vec::new());
    let place = authored("src/main.rs", 60);
    let named = |pattern: Pattern| {
        targets_of(|targets| targets.record_pattern(&hidden, &pattern, &place))
    };
    assert_eq!(named(Pattern::Struct { path: path(false, 2), fields: vec![field(3)] }), [3]);
    assert_eq!(
        named(Pattern::TupleStruct { path: path(true, 2), all_fields: vec![id(3), id(4)] }),
        [2, 3, 4]
    );
    assert_eq!(named(Pattern::Path { path: path(true, 2) }), [2]);
    assert_eq!(named(Pattern::Other), [0u64; 0]);
    assert_eq!(
        targets_of(|targets| targets.record(&hidden, &Resolution::Constructor(id(5)), &place)),
        [5]
    );
}

#[test]
fn the_order_of_naming_does_not_matter() {
    let hidden = hidden_definitions(&Vec::new());
    let places = [authored("src/main.rs", 5), authored("src/main.rs", 3), authored("src/lib.rs", 9)];
    let mut forward = ReferenceTargets::new();
    let mut backward = ReferenceTargets::new();
    for place in &places {
        forward.record_all(&hidden, &vec![id(1)], place);
    }
    for place in places.iter().rev() {
        backward.record_all(&hidden, &vec![id(1)], place);
    }
    assert_eq!(forward.finish(), backward.finish());
}

fn reasons(
    definitions: &Vec<LocalDefinition>,
    facts: CrateFacts,
    children: &Vec<ModuleChild>,
) -> Vec<(u64, RootKind, String)> {
    let mut roots = collect_facts(definitions, facts, children)
        .roots
        .into_iter()
        .map(|root| (root.definition.local_hash, root.kind, root.reason))
        .collect::<Vec<_>>();
    roots.sort_by(|left, right| (left.0, &left.2).cmp(&(right.0, &right.2)));
    roots
}

fn no_crate_facts() -> CrateFacts {
    CrateFacts { entry: None, test_harness: false, proc_macro: false }
}

fn hidden_local(hash: u64, parent: Option<usize>, kind: DefKind, path: &str) -> LocalDefinition {
    let mut definition = local(hash, parent, kind, path);
    definition.externally_reachable = false;
    definition.exported = false;
    definition.visibility = NominalVisibility::Restricted(id(1));
    definition
}

#[test]
fn what_the_compiler_keeps_is_a_conservative_root() {
    let mut allowed = hidden_local(2, Some(0), DefKind::Struct, "Allowed");
    allowed.dead_code_allowed = true;
    let mut exported = hidden_local(3, Some(0), DefKind::Fn, "exported");
    exported.retained_symbol = true;
    let mut trait_fn = hidden_local(5, Some(3), DefKind::AssocFn, "Trait::provided");
    trait_fn.body = Some(Vec::new());
    let mut assembly = hidden_local(6, Some(0), DefKind::GlobalAsm, "{global_asm#0}");
    assembly.body = Some(vec![ResolvedReference { target: id(7), span: None }]);
    let definitions = vec![
        hidden_local(1, None, DefKind::Mod, "crate"),
        allowed,
        exported,
        hidden_local(4, Some(0), DefKind::Trait, "Trait"),
        trait_fn,
        assembly,
        hidden_local(7, Some(0), DefKind::Fn, "symbol"),
    ];
    let expected = [
        (2, "dead_code is explicitly allowed for this definition"),
        (3, "codegen attributes make this definition externally addressable or retained"),
        (5, "trait-associated code may execute through indirect dispatch"),
        (7, "global assembly retains this symbol"),
    ];
    let found = reasons(&definitions, no_crate_facts(), &Vec::new());
    assert_eq!(found.len(), expected.len());
    for (root, (node, reason)) in found.iter().zip(expected) {
        assert_eq!((root.0, root.1, root.2.as_str()), (node, RootKind::Conservative, reason));
    }
}

#[test]
fn the_harness_entry_is_the_main_that_the_compiler_wrote() {
    let mut harness = hidden_local(2, Some(0), DefKind::Fn, "main");
    harness.location.origin = ExpansionOrigin::BuiltinDesugaring;
    let definitions = vec![
        hidden_local(1, None, DefKind::Mod, "crate"),
        harness,
        hidden_local(3, Some(0), DefKind::Fn, "unrelated_dead"),
    ];
    let facts = CrateFacts { entry: None, test_harness: true, proc_macro: false };
    assert_eq!(
        reasons(&definitions, facts, &Vec::new()),
        [(2, RootKind::EntryPoint, "rustc test harness entry point".to_owned())]
    );
    assert!(reasons(&definitions, no_crate_facts(), &Vec::new()).is_empty());
}

#[test]
fn exported_names_keep_their_namespaces_public() {
    let definitions = vec![
        local(1, None, DefKind::Mod, "crate"),
        local(2, Some(0), DefKind::Mod, "macros"),
        local(3, Some(1), DefKind::Macro, "macros::declared"),
        local(4, Some(0), DefKind::Mod, "names"),
        local(5, Some(3), DefKind::Use, "names::{use#0}"),
        local(6, Some(0), DefKind::Struct, "Target"),
    ];
    let children = vec![
        ModuleChild {
            module: 1,
            public: true,
            target: Some(ChildTarget { kind: DefKind::Macro, id: id(3) }),
            reexport: None,
        },
        ModuleChild {
            module: 3,
            public: true,
            target: Some(ChildTarget { kind: DefKind::Struct, id: id(6) }),
            reexport: Some(Reexport::Single(id(5))),
        },
        ModuleChild { module: 0, public: false, target: None, reexport: None },
    ];
    let expected = [
        (2, "a directly exported macro requires its containing namespace"),
        (3, "a directly exported macro may be invoked by a selected consumer"),
        (4, "a public reexport requires its containing namespace to remain public"),
        (6, "a public reexport requires this local target to remain public"),
    ];
    let found = reasons(&definitions, no_crate_facts(), &children);
    assert_eq!(found.len(), expected.len());
    for (root, (node, reason)) in found.iter().zip(expected) {
        assert_eq!((root.0, root.1, root.2.as_str()), (node, RootKind::RequiredPublic, reason));
    }
    let proc_macro = CrateFacts { entry: None, test_harness: false, proc_macro: true };
    assert!(reasons(&definitions, proc_macro, &Vec::new()).contains(&(
        3,
        RootKind::RequiredPublic,
        "rustc requires proc-macro entry points to remain public".to_owned()
    )));
}

#[test]
fn reachable_implementations_expose_what_their_signatures_name() {
    let mut associated = local(4, Some(2), DefKind::AssocFn, "<Thing as Trait>::call");
    associated.trait_item = Some(CompilerDefId { stable_crate_id: 2, local_hash: 1 });
    associated.interface = vec![ResolvedReference { target: id(5), span: None }];
    let mut alias = local(5, Some(0), DefKind::TyAlias, "Alias");
    alias.interface = vec![ResolvedReference { target: id(6), span: None }];
    let definitions = vec![
        local(1, None, DefKind::Mod, "crate"),
        local(2, Some(0), DefKind::Struct, "Thing"),
        local(3, Some(0), DefKind::TraitImpl, "<impl Trait for Thing>"),
        associated,
        alias,
        local(6, Some(0), DefKind::Struct, "Exposed"),
        local(7, Some(0), DefKind::InherentImpl, "<impl Thing>"),
        local(8, Some(6), DefKind::AssocTy, "Thing::Kind"),
    ];
    assert_eq!(
        reasons(&definitions, no_crate_facts(), &Vec::new()),
        [
            (
                6,
                RootKind::RequiredPublic,
                "reachable trait implementation exposes this type".to_owned()
            ),
            (
                8,
                RootKind::RequiredPublic,
                "public inherent associated types are conservatively retained".to_owned()
            ),
        ]
    );
    let facts = collect_facts(&definitions, no_crate_facts(), &Vec::new());
    let has = |from: u64, to: u64, kind: ReferenceKind| {
        facts
            .references
            .iter()
            .any(|fact| fact.from == id(from) && fact.to.local_hash == to && fact.kind == kind)
    };
    assert!(has(4, 5, ReferenceKind::Interface));
    assert!(has(4, 5, ReferenceKind::VisibilityRequirement));
    assert!(has(4, 1, ReferenceKind::Interface));
    assert!(has(5, 6, ReferenceKind::Interface));
}

#[test]
fn members_lead_to_what_they_belong_to() {
    let mut method = local(6, Some(4), DefKind::AssocFn, "inner::Thing::method");
    method.interface = Vec::new();
    let mut implementation = local(5, Some(1), DefKind::InherentImpl, "inner::<impl Thing>");
    implementation.self_type = Some(id(3));
    let definitions = vec![
        local(1, None, DefKind::Mod, "crate"),
        local(2, Some(0), DefKind::Mod, "inner"),
        local(3, Some(1), DefKind::Struct, "inner::Thing"),
        local(4, Some(2), DefKind::Field, "inner::Thing::field"),
        implementation,
        method,
        local(7, Some(1), DefKind::ForeignMod, "inner::{extern#0}"),
        local(8, Some(6), DefKind::Fn, "inner::foreign"),
        local(9, Some(0), DefKind::Enum, "Choice"),
        local(10, Some(8), DefKind::Variant, "Choice::One"),
        local(11, Some(9), DefKind::Field, "Choice::One::0"),
    ];
    let facts = collect_facts(&definitions, no_crate_facts(), &Vec::new());
    let has = |from: u64, to: u64, kind: ReferenceKind| {
        facts
            .references
            .iter()
            .any(|fact| fact.from == id(from) && fact.to == id(to) && fact.kind == kind)
    };
    assert!(has(3, 2, ReferenceKind::VisibilityParent));
    assert!(has(8, 2, ReferenceKind::VisibilityParent));
    assert!(!has(2, 1, ReferenceKind::VisibilityParent));
    assert!(has(4, 3, ReferenceKind::Interface));
    assert!(has(6, 3, ReferenceKind::Interface));
    assert!(has(10, 9, ReferenceKind::Interface));
    assert!(has(11, 9, ReferenceKind::Interface));
    let editable = |node: u64| {
        facts
            .definitions
            .iter()
            .find(|fact| fact.compiler_id == id(node))
            .unwrap()
            .visibility_editable
    };
    assert!(!editable(1));
    assert!(editable(2));
    assert!(editable(4));
    assert!(editable(6));
    assert!(!editable(10));
    assert!(!editable(11));
}

#[test]
fn sidecars_are_read_as_they_were_written() {
    let mut buffer = RecordBuffer::new(
        RunId("run".to_owned()),
        InvocationId("invocation".to_owned()),
        TRAILER_RESERVE_BYTES + 64,
    );
    assert!(buffer.push(Some(b"{\"first\":1}".to_vec())));
    assert!(buffer.push(Some(b"{\"second\":2}".to_vec())));
    assert!(!buffer.push(Some(vec![b'x'; 64])));
    assert!(buffer.push_mandatory(Some(b"{}".to_vec())));
    let read = frames(&buffer.records.concat()).unwrap();
    assert_eq!(read.error, None);
    assert_eq!(
        read.records,
        [
            (1, b"{\"first\":1}".to_vec()),
            (2, b"{\"second\":2}".to_vec()),
            (3, b"{}".to_vec()),
        ]
    );
}
