use rot::audit::{
    binding_path, comparison_output, comparison_reason, comparison_status, compiler_label,
    ensure_unchanged_working_state, is_snapshot_complete, normalize_snapshot_paths,
    render_comparison, render_diagnostic, render_snapshot_table, short_commit, sort_diagnostics,
    span_location, status_name, AuditProfile, AuditSelection, AuditSnapshot, ComparisonContext,
    CompilerIdentity, WorkingState,
};
use rot::compiler::api_surface::{
    ApiBindingReport, ApiDefinitionReport, ApiSurfaceReport, ApiUnitReport,
};
use rot::model::{
    CompilerReport, CompilerSourceSpanReport, Diagnostic, DiagnosticSeverity, SemanticStatus,
};

fn identity(version: &str) -> CompilerIdentity {
    CompilerIdentity {
        protocol_version: 1,
        driver_version: version.to_owned(),
        rustc_version: "1.98.0-nightly".to_owned(),
        rustc_commit: "0123456789abcdef".to_owned(),
        rustc_commit_date: "2026-08-27".to_owned(),
        rustc_host: "aarch64-apple-darwin".to_owned(),
    }
}

#[test]
fn compiler_identity_includes_protocol_driver_and_full_rustc_identity() {
    let expected = identity("driver-a");
    let mut changed = expected.clone();
    changed.driver_version = "driver-b".to_owned();
    assert_ne!(expected, changed);
    changed = expected.clone();
    changed.rustc_host = "x86_64-unknown-linux-gnu".to_owned();
    assert_ne!(expected, changed);
    changed = expected.clone();
    changed.protocol_version += 1;
    assert_ne!(expected, changed);
}

#[test]
fn incomplete_endpoint_never_becomes_a_complete_comparison() {
    assert_eq!(
        comparison_status(SemanticStatus::Complete, SemanticStatus::Partial, true, true),
        SemanticStatus::Partial
    );
    assert_eq!(
        comparison_status(SemanticStatus::Complete, SemanticStatus::Unavailable, true, true),
        SemanticStatus::Unavailable
    );
    assert_eq!(
        comparison_status(SemanticStatus::Complete, SemanticStatus::Complete, false, true),
        SemanticStatus::Unavailable
    );
}

#[test]
fn baseline_diagnostics_do_not_expose_the_temporary_checkout() {
    let physical = "/tmp/.rot-baseline-fixture";
    let logical = "/work/project";
    let mut snapshot = synthetic_snapshot();
    snapshot.root = physical.to_owned();
    snapshot.report.reason = Some(format!("failed in {physical}/crate"));
    snapshot.diagnostics.push(Diagnostic {
        severity: DiagnosticSeverity::Warning,
        path: Some(format!("{physical}/crate/src/lib.rs")),
        message: format!("failed in {physical}/crate"),
    });
    let unit = ApiUnitReport {
        package: "member".to_owned(),
        package_path: "crate".to_owned(),
        target: "member".to_owned(),
        kind: "library".to_owned(),
    };
    let outside_workspace = compiler_span(&format!("{physical}/shared.rs"));
    snapshot.report.api_surface = Some(ApiSurfaceReport {
        scope: "test".to_owned(),
        limitations: Vec::new(),
        units: vec![unit.clone()],
        definitions: vec![ApiDefinitionReport {
            unit: unit.clone(),
            definition_path: "member::Shared".to_owned(),
            kind: "struct".to_owned(),
            expansion_origin: "authored".to_owned(),
            span: Some(outside_workspace.clone()),
            attribution_callsite: Some(outside_workspace.clone()),
        }],
        bindings: vec![ApiBindingReport {
            unit,
            parent_definition_path: "member".to_owned(),
            name: "Shared".to_owned(),
            namespace: "type".to_owned(),
            resolved_target_path: "member::Shared".to_owned(),
            exposure: "direct".to_owned(),
            span: Some(outside_workspace),
        }],
    });

    normalize_snapshot_paths(&mut snapshot, physical, logical);

    assert_eq!(snapshot.root, "/work/project");
    assert_eq!(snapshot.report.reason.as_deref(), Some("failed in /work/project/crate"));
    assert_eq!(snapshot.diagnostics[0].path.as_deref(), Some("crate/src/lib.rs"));
    assert_eq!(snapshot.diagnostics[0].message, "failed in /work/project/crate");
    let surface = snapshot.report.api_surface.as_ref().unwrap();
    assert_eq!(surface.definitions[0].span.as_ref().unwrap().path, "/work/project/shared.rs");
    assert_eq!(
        surface.definitions[0].attribution_callsite.as_ref().unwrap().path,
        "/work/project/shared.rs"
    );
    assert_eq!(surface.bindings[0].span.as_ref().unwrap().path, "/work/project/shared.rs");
}

fn compiler_span(path: &str) -> CompilerSourceSpanReport {
    CompilerSourceSpanReport {
        path: path.to_owned(),
        source_hash: format!("sha256={}", "0".repeat(64)),
        generated: false,
        start_byte: 0,
        end_byte: 1,
        line: 1,
        column: 1,
    }
}

fn synthetic_snapshot() -> AuditSnapshot {
    AuditSnapshot {
        root: String::new(),
        profile: AuditProfile {
            toolchain: "nightly-test".to_owned(),
            target: "test-target".to_owned(),
            feature_mode: "default".to_owned(),
            requested_features: Vec::new(),
            all_features: false,
            no_default_features: false,
            forced_cfg: Vec::new(),
        },
        report: CompilerReport {
            protocol_version: 1,
            driver_version: "driver".to_owned(),
            rustc_version: "rustc".to_owned(),
            rustc_commit: "commit".to_owned(),
            rustc_commit_date: "date".to_owned(),
            rustc_host: "host".to_owned(),
            expected_invocations: 0,
            collected_invocations: 0,
            correlated_invocations: 0,
            invocations: Vec::new(),
            status: SemanticStatus::Unavailable,
            reason: None,
            required_visibility: None,
            closed_world: None,
            api_surface: None,
            impact: None,
        },
        diagnostics: Vec::new(),
    }
}

fn surface(name: &str) -> ApiSurfaceReport {
    let unit = ApiUnitReport {
        package: "member".to_owned(),
        package_path: ".".to_owned(),
        target: "member".to_owned(),
        kind: "library".to_owned(),
    };
    ApiSurfaceReport {
        scope: "test".to_owned(),
        limitations: Vec::new(),
        units: vec![unit.clone()],
        definitions: vec![ApiDefinitionReport {
            unit,
            definition_path: format!("member::{name}"),
            kind: "struct".to_owned(),
            expansion_origin: "authored".to_owned(),
            span: None,
            attribution_callsite: None,
        }],
        bindings: Vec::new(),
    }
}

fn context() -> ComparisonContext {
    ComparisonContext {
        baseline_ref: "HEAD~1".to_owned(),
        baseline_commit: "0123456789abcdef".to_owned(),
        current_state: WorkingState {
            commit: "fedcba9876543210".to_owned(),
            dirty: true,
            fingerprint: "one".to_owned(),
        },
        root: "/work/project".to_owned(),
        selection: AuditSelection { paths: Vec::new(), meaning: "all".to_owned() },
        target: "test-target".to_owned(),
    }
}

#[test]
fn complete_audits_of_one_compiler_are_compared() {
    let mut before = synthetic_snapshot();
    before.report.status = SemanticStatus::Complete;
    before.report.api_surface = Some(surface("Old"));
    let mut after = before.clone();
    after.report.api_surface = Some(surface("New"));

    let output = comparison_output(context(), before.clone(), after.clone());
    assert_eq!(output.status, SemanticStatus::Complete);
    assert_eq!(output.reason, None);
    let diff = output.api_diff.as_ref().unwrap();
    assert_eq!(diff.summary.total_changes, 2);
    let text = render_comparison(&output);
    assert!(text.contains("member::Old"));
    assert!(text.contains("member::New"));

    after.report.rustc_host = "other".to_owned();
    let output = comparison_output(context(), before, after);
    assert_eq!(output.status, SemanticStatus::Unavailable);
    assert!(output.api_diff.is_none());
    assert_eq!(
        output.reason.as_deref(),
        Some("endpoint compiler identity differs; protocol, driver, and rustc must match exactly")
    );
}

#[test]
fn every_reason_for_an_incomplete_comparison_is_given() {
    let mut before = synthetic_snapshot().report;
    before.status = SemanticStatus::Complete;
    let mut after = before.clone();
    after.status = SemanticStatus::Partial;
    after.reason = Some("one unit failed".to_owned());
    let reason = comparison_reason(&before, &after, true, false).unwrap();
    assert!(reason.contains("one unit failed"));
    assert!(reason.ends_with("one or both endpoints have no complete public API surface"));
}

#[test]
fn a_working_tree_that_moves_is_refused() {
    let before = context().current_state;
    assert_eq!(ensure_unchanged_working_state(&before, &before), Ok(()));
    let mut moved = before.clone();
    moved.commit = "0011223344556677".to_owned();
    assert_eq!(
        ensure_unchanged_working_state(&before, &moved),
        Err("working-tree HEAD changed during the current compiler audit (fedcba987654 -> 001122334455); rerun against a stable checkout".to_owned())
    );
    let mut edited = before.clone();
    edited.fingerprint = "two".to_owned();
    assert_eq!(
        ensure_unchanged_working_state(&before, &edited),
        Err("working-tree files changed during the current compiler audit; rerun after the checkout is stable".to_owned())
    );
}

#[test]
fn labels_are_short_and_exact() {
    assert_eq!(short_commit("0123456789abcdef"), "0123456789ab");
    assert_eq!(short_commit("0123"), "0123");
    assert_eq!(status_name(SemanticStatus::Partial), "partial");
    assert_eq!(binding_path("member", "Thing"), "member::Thing");
    assert!(compiler_label(&identity("driver-a")).contains("1.98.0-nightly"));
    assert!(span_location(&Some(compiler_span("src/lib.rs"))).contains("src/lib.rs"));
    assert_eq!(
        render_diagnostic(
            &None,
            &Diagnostic {
                severity: DiagnosticSeverity::Error,
                path: Some("src/lib.rs".to_owned()),
                message: "broken".to_owned(),
            }
        ),
        "rot-audit: error: src/lib.rs: broken\n"
    );
    assert_eq!(
        render_diagnostic(
            &Some("baseline".to_owned()),
            &Diagnostic {
                severity: DiagnosticSeverity::Warning,
                path: None,
                message: "old".to_owned(),
            }
        ),
        "rot-audit: warning: baseline: old\n"
    );
}

#[test]
fn diagnostics_are_sorted_by_path_and_message() {
    let diagnostic = |path: Option<&str>, message: &str| Diagnostic {
        severity: DiagnosticSeverity::Warning,
        path: path.map(str::to_owned),
        message: message.to_owned(),
    };
    let sorted = sort_diagnostics(vec![
        diagnostic(Some("b"), "x"),
        diagnostic(None, "z"),
        diagnostic(Some("a"), "y"),
    ]);
    let paths = sorted.iter().map(|item| item.path.as_deref()).collect::<Vec<_>>();
    assert_eq!(paths, [None, Some("a"), Some("b")]);
}

#[test]
fn an_audit_without_evidence_says_so() {
    let snapshot = synthetic_snapshot();
    assert!(!is_snapshot_complete(&snapshot.report));
    let text = render_snapshot_table(&snapshot.report, SemanticStatus::Unavailable, &None);
    assert!(text.contains("unavailable"));
}
