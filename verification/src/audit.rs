//! Audits of one checkout, and comparisons of two.

use vstd::prelude::*;

use crate::collections::{
    append_items, collect_items, collected, drop_repeated_keys, find_first,
    first_per_key, first_where, no_items, push_item, second, stable_sort,
    stable_sorted, take_second,
};
use crate::compiler::api_surface::{
    compare, diff_of, ApiBindingReport, ApiBindingReportView, ApiChangeReport,
    ApiChangeReportView, ApiDefinitionReport, ApiDefinitionReportView, ApiDiffReport,
    ApiDiffReportView, ApiSurfaceReport, ApiSurfaceReportView, ApiUnitReport, ApiUnitReportView,
};
use crate::model::{
    ClosedWorldFindingReport, ClosedWorldFindingReportView, ClosedWorldReport,
    ClosedWorldReportView, CompilerReport, CompilerReportView, CompilerSourceSpanReport,
    CompilerSourceSpanReportView, Diagnostic, DiagnosticSeverity, DiagnosticView,
    ImpactDefinitionReport, ImpactDefinitionReportView, ImpactProvenanceClass,
    ImpactReferenceReport, ImpactReferenceReportView, ImpactReferenceStepReport,
    ImpactReferenceStepReportView, ImpactReport, ImpactReportView, ImpactSummaryReport,
    ImpactVisibilityDisposition, ImpactWitnessReport, ImpactWitnessReportView, SelectedPathReport,
    SelectedPathReportView, SemanticStatus,
};
use crate::order::{Ordered, Rank};
use crate::paths::{path_below, path_from, portable, portable_path, resolve, strip_base};
use crate::text::{
    byte_prefix, decimal, decimal_text, join, joined, no_text, replace_all, replaced, same,
    take_bytes, write_each, written,
};

verus! {

/// The version of the shape of audit reports.
pub const AUDIT_SCHEMA_VERSION: u32 = 3;

/// How many direct uses are listed for people.
pub const HUMAN_DIRECT_LIMIT: usize = 25;

/// How an audit compiles.
#[derive(Debug, PartialEq, Eq)]
pub struct AuditProfile {
    pub toolchain: String,
    pub target: String,
    pub feature_mode: String,
    pub requested_features: Vec<String>,
    pub all_features: bool,
    pub no_default_features: bool,
    pub forced_cfg: Vec<String>,
}

/// The model of [`AuditProfile`].
#[verifier::ext_equal]
pub struct AuditProfileView {
    pub toolchain: Seq<char>,
    pub target: Seq<char>,
    pub feature_mode: Seq<char>,
    pub requested_features: Seq<Seq<char>>,
    pub all_features: bool,
    pub no_default_features: bool,
    pub forced_cfg: Seq<Seq<char>>,
}

impl DeepView for AuditProfile {
    type V = AuditProfileView;

    open spec fn deep_view(&self) -> AuditProfileView {
        AuditProfileView {
            toolchain: self.toolchain.deep_view(),
            target: self.target.deep_view(),
            feature_mode: self.feature_mode.deep_view(),
            requested_features: self.requested_features.deep_view(),
            all_features: self.all_features,
            no_default_features: self.no_default_features,
            forced_cfg: self.forced_cfg.deep_view(),
        }
    }
}

impl Clone for AuditProfile {
    fn clone(&self) -> (copy: Self)
        ensures
            copy.deep_view() == self.deep_view(),
    {
        let copy = AuditProfile {
            toolchain: self.toolchain.clone(),
            target: self.target.clone(),
            feature_mode: self.feature_mode.clone(),
            requested_features: self.requested_features.clone(),
            all_features: self.all_features,
            no_default_features: self.no_default_features,
            forced_cfg: self.forced_cfg.clone(),
        };
        proof {
            assert(copy.requested_features.deep_view() =~= self.requested_features.deep_view());
            assert(copy.forced_cfg.deep_view() =~= self.forced_cfg.deep_view());
        }
        copy
    }
}

/// What an audit of one checkout shows.
#[derive(Debug, PartialEq, Eq)]
pub struct AuditSnapshot {
    pub root: String,
    pub profile: AuditProfile,
    pub report: CompilerReport,
    pub diagnostics: Vec<Diagnostic>,
}

/// The model of [`AuditSnapshot`].
#[verifier::ext_equal]
pub struct AuditSnapshotView {
    pub root: Seq<char>,
    pub profile: AuditProfileView,
    pub report: CompilerReportView,
    pub diagnostics: Seq<DiagnosticView>,
}

impl DeepView for AuditSnapshot {
    type V = AuditSnapshotView;

    open spec fn deep_view(&self) -> AuditSnapshotView {
        AuditSnapshotView {
            root: self.root.deep_view(),
            profile: self.profile.deep_view(),
            report: self.report.deep_view(),
            diagnostics: self.diagnostics.deep_view(),
        }
    }
}

impl Clone for AuditSnapshot {
    fn clone(&self) -> (copy: Self)
        ensures
            copy.deep_view() == self.deep_view(),
    {
        let copy = AuditSnapshot {
            root: self.root.clone(),
            profile: self.profile.clone(),
            report: self.report.clone(),
            diagnostics: self.diagnostics.clone(),
        };
        proof {
            assert(copy.profile.deep_view() =~= self.profile.deep_view());
            assert(copy.report.deep_view() =~= self.report.deep_view());
            assert(copy.diagnostics.deep_view() =~= self.diagnostics.deep_view());
        }
        copy
    }
}

/// The compiler that made a report, in full.
#[derive(Debug, PartialEq, Eq)]
pub struct CompilerIdentity {
    pub protocol_version: u32,
    pub driver_version: String,
    pub rustc_version: String,
    pub rustc_commit: String,
    pub rustc_commit_date: String,
    pub rustc_host: String,
}

/// The model of [`CompilerIdentity`].
#[verifier::ext_equal]
pub struct CompilerIdentityView {
    pub protocol_version: u32,
    pub driver_version: Seq<char>,
    pub rustc_version: Seq<char>,
    pub rustc_commit: Seq<char>,
    pub rustc_commit_date: Seq<char>,
    pub rustc_host: Seq<char>,
}

impl DeepView for CompilerIdentity {
    type V = CompilerIdentityView;

    open spec fn deep_view(&self) -> CompilerIdentityView {
        CompilerIdentityView {
            protocol_version: self.protocol_version,
            driver_version: self.driver_version.deep_view(),
            rustc_version: self.rustc_version.deep_view(),
            rustc_commit: self.rustc_commit.deep_view(),
            rustc_commit_date: self.rustc_commit_date.deep_view(),
            rustc_host: self.rustc_host.deep_view(),
        }
    }
}

impl Clone for CompilerIdentity {
    fn clone(&self) -> (copy: Self)
        ensures
            copy.deep_view() == self.deep_view(),
    {
        let copy = CompilerIdentity {
            protocol_version: self.protocol_version,
            driver_version: self.driver_version.clone(),
            rustc_version: self.rustc_version.clone(),
            rustc_commit: self.rustc_commit.clone(),
            rustc_commit_date: self.rustc_commit_date.clone(),
            rustc_host: self.rustc_host.clone(),
        };
        copy
    }
}

/// What was selected for an audit.
#[derive(Debug, PartialEq, Eq)]
pub struct AuditSelection {
    pub paths: Vec<SelectedPathReport>,
    pub meaning: String,
}

/// The model of [`AuditSelection`].
#[verifier::ext_equal]
pub struct AuditSelectionView {
    pub paths: Seq<SelectedPathReportView>,
    pub meaning: Seq<char>,
}

impl DeepView for AuditSelection {
    type V = AuditSelectionView;

    open spec fn deep_view(&self) -> AuditSelectionView {
        AuditSelectionView {
            paths: self.paths.deep_view(),
            meaning: self.meaning.deep_view(),
        }
    }
}

impl Clone for AuditSelection {
    fn clone(&self) -> (copy: Self)
        ensures
            copy.deep_view() == self.deep_view(),
    {
        let copy = AuditSelection {
            paths: self.paths.clone(),
            meaning: self.meaning.clone(),
        };
        proof {
            assert(copy.paths.deep_view() =~= self.paths.deep_view());
        }
        copy
    }
}

/// The state of a working tree.
#[derive(Debug, PartialEq, Eq)]
pub struct WorkingState {
    pub commit: String,
    pub dirty: bool,
    /// A digest of the changed files.
    pub fingerprint: String,
}

/// The model of [`WorkingState`].
#[verifier::ext_equal]
pub struct WorkingStateView {
    pub commit: Seq<char>,
    pub dirty: bool,
    pub fingerprint: Seq<char>,
}

impl DeepView for WorkingState {
    type V = WorkingStateView;

    open spec fn deep_view(&self) -> WorkingStateView {
        WorkingStateView {
            commit: self.commit.deep_view(),
            dirty: self.dirty,
            fingerprint: self.fingerprint.deep_view(),
        }
    }
}

impl Clone for WorkingState {
    fn clone(&self) -> (copy: Self)
        ensures
            copy.deep_view() == self.deep_view(),
    {
        let copy = WorkingState {
            commit: self.commit.clone(),
            dirty: self.dirty,
            fingerprint: self.fingerprint.clone(),
        };
        copy
    }
}

/// One side of a comparison.
#[derive(Debug, PartialEq, Eq)]
pub struct ComparisonEndpoint {
    pub kind: String,
    pub revision: Option<String>,
    pub commit: String,
    pub dirty: Option<bool>,
    pub status: SemanticStatus,
    pub reason: Option<String>,
    pub compiler: CompilerIdentity,
    pub api_surface: Option<ApiSurfaceReport>,
    pub diagnostics: Vec<Diagnostic>,
}

/// The model of [`ComparisonEndpoint`].
#[verifier::ext_equal]
pub struct ComparisonEndpointView {
    pub kind: Seq<char>,
    pub revision: Option<Seq<char>>,
    pub commit: Seq<char>,
    pub dirty: Option<bool>,
    pub status: SemanticStatus,
    pub reason: Option<Seq<char>>,
    pub compiler: CompilerIdentityView,
    pub api_surface: Option<ApiSurfaceReportView>,
    pub diagnostics: Seq<DiagnosticView>,
}

impl DeepView for ComparisonEndpoint {
    type V = ComparisonEndpointView;

    open spec fn deep_view(&self) -> ComparisonEndpointView {
        ComparisonEndpointView {
            kind: self.kind.deep_view(),
            revision: self.revision.deep_view(),
            commit: self.commit.deep_view(),
            dirty: self.dirty,
            status: self.status,
            reason: self.reason.deep_view(),
            compiler: self.compiler.deep_view(),
            api_surface: self.api_surface.deep_view(),
            diagnostics: self.diagnostics.deep_view(),
        }
    }
}

impl Clone for ComparisonEndpoint {
    fn clone(&self) -> (copy: Self)
        ensures
            copy.deep_view() == self.deep_view(),
    {
        let copy = ComparisonEndpoint {
            kind: self.kind.clone(),
            revision: self.revision.clone(),
            commit: self.commit.clone(),
            dirty: self.dirty,
            status: self.status,
            reason: self.reason.clone(),
            compiler: self.compiler.clone(),
            api_surface: self.api_surface.clone(),
            diagnostics: self.diagnostics.clone(),
        };
        proof {
            assert(copy.revision.deep_view() =~= self.revision.deep_view());
            assert(copy.reason.deep_view() =~= self.reason.deep_view());
            assert(copy.compiler.deep_view() =~= self.compiler.deep_view());
            assert(copy.api_surface.deep_view() =~= self.api_surface.deep_view());
            assert(copy.diagnostics.deep_view() =~= self.diagnostics.deep_view());
        }
        copy
    }
}

/// A comparison of two audits.
#[derive(Debug, PartialEq, Eq)]
pub struct ComparisonOutput {
    pub schema_version: u32,
    pub report_kind: String,
    pub root: String,
    pub selection: AuditSelection,
    pub profile: AuditProfile,
    pub status: SemanticStatus,
    pub reason: Option<String>,
    pub before: ComparisonEndpoint,
    pub after: ComparisonEndpoint,
    pub api_diff: Option<ApiDiffReport>,
}

/// The model of [`ComparisonOutput`].
#[verifier::ext_equal]
pub struct ComparisonOutputView {
    pub schema_version: u32,
    pub report_kind: Seq<char>,
    pub root: Seq<char>,
    pub selection: AuditSelectionView,
    pub profile: AuditProfileView,
    pub status: SemanticStatus,
    pub reason: Option<Seq<char>>,
    pub before: ComparisonEndpointView,
    pub after: ComparisonEndpointView,
    pub api_diff: Option<ApiDiffReportView>,
}

impl DeepView for ComparisonOutput {
    type V = ComparisonOutputView;

    open spec fn deep_view(&self) -> ComparisonOutputView {
        ComparisonOutputView {
            schema_version: self.schema_version,
            report_kind: self.report_kind.deep_view(),
            root: self.root.deep_view(),
            selection: self.selection.deep_view(),
            profile: self.profile.deep_view(),
            status: self.status,
            reason: self.reason.deep_view(),
            before: self.before.deep_view(),
            after: self.after.deep_view(),
            api_diff: self.api_diff.deep_view(),
        }
    }
}

impl Clone for ComparisonOutput {
    fn clone(&self) -> (copy: Self)
        ensures
            copy.deep_view() == self.deep_view(),
    {
        let copy = ComparisonOutput {
            schema_version: self.schema_version,
            report_kind: self.report_kind.clone(),
            root: self.root.clone(),
            selection: self.selection.clone(),
            profile: self.profile.clone(),
            status: self.status,
            reason: self.reason.clone(),
            before: self.before.clone(),
            after: self.after.clone(),
            api_diff: self.api_diff.clone(),
        };
        proof {
            assert(copy.selection.deep_view() =~= self.selection.deep_view());
            assert(copy.profile.deep_view() =~= self.profile.deep_view());
            assert(copy.reason.deep_view() =~= self.reason.deep_view());
            assert(copy.before.deep_view() =~= self.before.deep_view());
            assert(copy.after.deep_view() =~= self.after.deep_view());
            assert(copy.api_diff.deep_view() =~= self.api_diff.deep_view());
        }
        copy
    }
}

/// What is compared with what.
#[derive(Debug, PartialEq, Eq)]
pub struct ComparisonContext {
    pub baseline_ref: String,
    pub baseline_commit: String,
    pub current_state: WorkingState,
    pub root: String,
    pub selection: AuditSelection,
    pub target: String,
}

/// The model of [`ComparisonContext`].
#[verifier::ext_equal]
pub struct ComparisonContextView {
    pub baseline_ref: Seq<char>,
    pub baseline_commit: Seq<char>,
    pub current_state: WorkingStateView,
    pub root: Seq<char>,
    pub selection: AuditSelectionView,
    pub target: Seq<char>,
}

impl DeepView for ComparisonContext {
    type V = ComparisonContextView;

    open spec fn deep_view(&self) -> ComparisonContextView {
        ComparisonContextView {
            baseline_ref: self.baseline_ref.deep_view(),
            baseline_commit: self.baseline_commit.deep_view(),
            current_state: self.current_state.deep_view(),
            root: self.root.deep_view(),
            selection: self.selection.deep_view(),
            target: self.target.deep_view(),
        }
    }
}

/// A compiler, written out.
pub open spec fn labelled_compiler(identity: CompilerIdentityView) -> Seq<char> {
    "protocol "@ + decimal(identity.protocol_version as nat) + ", driver "@
        + identity.driver_version + ", rustc "@ + identity.rustc_version + " ("@
        + identity.rustc_commit + " "@ + identity.rustc_commit_date + " for "@ + identity.rustc_host
        + ")"@
}

/// A compiler, written out.
pub fn compiler_label(identity: &CompilerIdentity) -> (text: String)
    ensures
        text@ == labelled_compiler(identity.deep_view()),
{
    let mut text = "protocol ".to_owned();
    text.append(decimal_text(identity.protocol_version as u128).as_str());
    text.append(", driver ");
    text.append(identity.driver_version.as_str());
    text.append(", rustc ");
    text.append(identity.rustc_version.as_str());
    text.append(" (");
    text.append(identity.rustc_commit.as_str());
    text.append(" ");
    text.append(identity.rustc_commit_date.as_str());
    text.append(" for ");
    text.append(identity.rustc_host.as_str());
    text.append(")");
    text
}

/// Where a span is.
pub open spec fn location_of(span: CompilerSourceSpanReportView) -> Seq<char> {
    " at "@ + span.path + ":"@ + decimal(span.line as nat) + ":"@ + decimal(span.column as nat)
}

fn located(span: &CompilerSourceSpanReport) -> (text: String)
    ensures
        text@ == location_of(span.deep_view()),
{
    let mut text = " at ".to_owned();
    text.append(span.path.as_str());
    text.append(":");
    text.append(decimal_text(span.line as u128).as_str());
    text.append(":");
    text.append(decimal_text(span.column as u128).as_str());
    text
}

/// The place of a span.
pub open spec fn place_of_span(span: CompilerSourceSpanReportView) -> Seq<char> {
    span.path + ":"@ + decimal(span.line as nat) + ":"@ + decimal(span.column as nat)
}

fn place(span: &CompilerSourceSpanReport) -> (text: String)
    ensures
        text@ == place_of_span(span.deep_view()),
{
    let mut text = span.path.clone();
    text.append(":");
    text.append(decimal_text(span.line as u128).as_str());
    text.append(":");
    text.append(decimal_text(span.column as u128).as_str());
    text
}

/// Where a span is, where there is one.
pub open spec fn optional_location(span: Option<CompilerSourceSpanReportView>) -> Seq<char> {
    match span {
        Some(span) => location_of(span),
        None => Seq::empty(),
    }
}

/// Where a span is, where there is one.
pub fn span_location(span: &Option<CompilerSourceSpanReport>) -> (text: String)
    ensures
        text@ == optional_location(span.deep_view()),
{
    match span {
        Some(span) => located(span),
        None => {
            let text = String::new();
            proof {
                assert(text@ =~= Seq::<char>::empty());
            }
            text
        },
    }
}

/// The span of a definition, or that of the call that made it.
pub open spec fn either_span(
    span: Option<CompilerSourceSpanReportView>,
    callsite: Option<CompilerSourceSpanReportView>,
) -> Option<CompilerSourceSpanReportView> {
    match span {
        Some(span) => Some(span),
        None => callsite,
    }
}

fn location(
    span: &Option<CompilerSourceSpanReport>,
    callsite: &Option<CompilerSourceSpanReport>,
) -> (text: String)
    ensures
        text@ == optional_location(either_span(span.deep_view(), callsite.deep_view())),
{
    match span {
        Some(span) => located(span),
        None => span_location(callsite),
    }
}

/// The name of a status.
pub open spec fn named_status(value: SemanticStatus) -> Seq<char> {
    match value {
        SemanticStatus::Complete => "complete"@,
        SemanticStatus::Partial => "partial"@,
        SemanticStatus::Unavailable => "unavailable"@,
    }
}

/// The name of a status.
pub fn status_name(value: SemanticStatus) -> (name: &'static str)
    ensures
        name@ == named_status(value),
{
    match value {
        SemanticStatus::Complete => "complete",
        SemanticStatus::Partial => "partial",
        SemanticStatus::Unavailable => "unavailable",
    }
}

/// The name of a disposition.
pub open spec fn named_disposition(value: ImpactVisibilityDisposition) -> Seq<char> {
    match value {
        ImpactVisibilityDisposition::RequiredPublic => "required-public"@,
        ImpactVisibilityDisposition::NarrowablePublic => "narrowable-public"@,
        ImpactVisibilityDisposition::DeadPublic => "dead-public"@,
        ImpactVisibilityDisposition::NotPublicCandidate => "not-a-public-candidate"@,
    }
}

/// The name of a disposition.
pub fn disposition_name(value: ImpactVisibilityDisposition) -> (name: &'static str)
    ensures
        name@ == named_disposition(value),
{
    match value {
        ImpactVisibilityDisposition::RequiredPublic => "required-public",
        ImpactVisibilityDisposition::NarrowablePublic => "narrowable-public",
        ImpactVisibilityDisposition::DeadPublic => "dead-public",
        ImpactVisibilityDisposition::NotPublicCandidate => "not-a-public-candidate",
    }
}

/// The name of a provenance.
pub open spec fn named_provenance(value: ImpactProvenanceClass) -> Seq<char> {
    match value {
        ImpactProvenanceClass::Production => "production"@,
        ImpactProvenanceClass::Nonproduction => "nonproduction"@,
        ImpactProvenanceClass::BuildTime => "build-time"@,
        ImpactProvenanceClass::PublicInterface => "public-interface"@,
    }
}

/// The name of a provenance.
pub fn provenance_name(value: ImpactProvenanceClass) -> (name: &'static str)
    ensures
        name@ == named_provenance(value),
{
    match value {
        ImpactProvenanceClass::Production => "production",
        ImpactProvenanceClass::Nonproduction => "nonproduction",
        ImpactProvenanceClass::BuildTime => "build-time",
        ImpactProvenanceClass::PublicInterface => "public-interface",
    }
}

/// The name of a severity.
pub open spec fn named_severity(value: DiagnosticSeverity) -> Seq<char> {
    match value {
        DiagnosticSeverity::Warning => "warning"@,
        DiagnosticSeverity::Error => "error"@,
    }
}

/// The name of a severity.
pub fn severity_name(value: DiagnosticSeverity) -> (name: &'static str)
    ensures
        name@ == named_severity(value),
{
    match value {
        DiagnosticSeverity::Warning => "warning",
        DiagnosticSeverity::Error => "error",
    }
}

/// A reason, on a line.
pub open spec fn line_of_reason(reason: Seq<char>) -> Seq<char> {
    "Reason: "@ + reason + "\n"@
}

fn reason_line(reason: &str) -> (text: String)
    ensures
        text@ == line_of_reason(reason@),
{
    let mut text = "Reason: ".to_owned();
    text.append(reason);
    text.append("\n");
    text
}

/// A reason, on a line, where there is one.
pub open spec fn reason_text(reason: Option<Seq<char>>) -> Seq<char> {
    match reason {
        Some(reason) => line_of_reason(reason),
        None => Seq::empty(),
    }
}

fn optional_reason(reason: &Option<String>) -> (text: String)
    ensures
        text@ == reason_text(reason.deep_view()),
{
    match reason {
        Some(reason) => reason_line(reason.as_str()),
        None => no_text(),
    }
}

/// How the code of a definition came about, where nobody wrote it.
pub open spec fn origin_suffix(origin: Seq<char>) -> Seq<char> {
    if origin == "authored"@ {
        Seq::empty()
    } else {
        ", "@ + origin
    }
}

fn origin_text(origin: &str) -> (text: String)
    ensures
        text@ == origin_suffix(origin@),
{
    if same(origin, "authored") {
        no_text()
    } else {
        let mut text = ", ".to_owned();
        text.append(origin);
        text
    }
}

/// A definition, written out.
pub open spec fn labelled_definition(definition: ImpactDefinitionReportView) -> Seq<char> {
    definition.package_name + ":"@ + definition.target_name + " "@ + definition.definition_path
        + " ["@ + definition.definition_kind + origin_suffix(definition.expansion_origin) + "]"@
}

/// A definition, written out.
pub fn impact_definition_label(definition: &ImpactDefinitionReport) -> (text: String)
    ensures
        text@ == labelled_definition(definition.deep_view()),
{
    let mut text = definition.package_name.clone();
    text.append(":");
    text.append(definition.target_name.as_str());
    text.append(" ");
    text.append(definition.definition_path.as_str());
    text.append(" [");
    text.append(definition.definition_kind.as_str());
    text.append(origin_text(definition.expansion_origin.as_str()).as_str());
    text.append("]");
    text
}

/// A candidate, on a line.
pub open spec fn line_of_candidate(definition: ImpactDefinitionReportView) -> Seq<char> {
    "  "@ + labelled_definition(definition)
        + optional_location(either_span(definition.span, definition.attribution_callsite)) + "\n"@
}

fn candidate_line(definition: &ImpactDefinitionReport) -> (text: String)
    ensures
        text@ == line_of_candidate(definition.deep_view()),
{
    let mut text = "  ".to_owned();
    text.append(impact_definition_label(definition).as_str());
    text.append(location(&definition.span, &definition.attribution_callsite).as_str());
    text.append("\n");
    text
}

/// The selected declaration, on a line.
pub open spec fn line_of_declaration(definition: ImpactDefinitionReportView) -> Seq<char> {
    "Declaration: "@ + labelled_definition(definition)
        + optional_location(either_span(definition.span, definition.attribution_callsite)) + "\n"@
}

fn declaration_line(definition: &ImpactDefinitionReport) -> (text: String)
    ensures
        text@ == line_of_declaration(definition.deep_view()),
{
    let mut text = "Declaration: ".to_owned();
    text.append(impact_definition_label(definition).as_str());
    text.append(location(&definition.span, &definition.attribution_callsite).as_str());
    text.append("\n");
    text
}

/// The selected declaration, where there is one.
pub open spec fn declaration_text(definition: Option<ImpactDefinitionReportView>) -> Seq<char> {
    match definition {
        Some(definition) => line_of_declaration(definition),
        None => Seq::empty(),
    }
}

fn optional_declaration(definition: &Option<ImpactDefinitionReport>) -> (text: String)
    ensures
        text@ == declaration_text(definition.deep_view()),
{
    match definition {
        Some(definition) => declaration_line(definition),
        None => no_text(),
    }
}

/// A disposition, on a line.
pub open spec fn line_of_disposition(disposition: ImpactVisibilityDisposition) -> Seq<char> {
    "Visibility: "@ + named_disposition(disposition) + "\n"@
}

fn disposition_line(disposition: ImpactVisibilityDisposition) -> (text: String)
    ensures
        text@ == line_of_disposition(disposition),
{
    let mut text = "Visibility: ".to_owned();
    text.append(disposition_name(disposition));
    text.append("\n");
    text
}

/// A disposition, where there is one.
pub open spec fn disposition_text(disposition: Option<ImpactVisibilityDisposition>) -> Seq<char> {
    match disposition {
        Some(disposition) => line_of_disposition(disposition),
        None => Seq::empty(),
    }
}

fn optional_disposition(disposition: &Option<ImpactVisibilityDisposition>) -> (text: String)
    ensures
        text@ == disposition_text(disposition.deep_view()),
{
    match disposition {
        Some(disposition) => disposition_line(*disposition),
        None => no_text(),
    }
}

/// The kinds of code that use a definition, in a fixed order.
pub open spec fn provenance_kinds(summary: ImpactSummaryReport) -> Seq<Seq<char>> {
    let none = Seq::<Seq<char>>::empty();
    let first = if summary.production {
        none.push("production"@)
    } else {
        none
    };
    let second = if summary.nonproduction {
        first.push("nonproduction"@)
    } else {
        first
    };
    let third = if summary.build_time {
        second.push("build-time"@)
    } else {
        second
    };
    if summary.public_interface {
        third.push("public-interface"@)
    } else {
        third
    }
}

/// The kinds of code that use a definition, written out.
pub open spec fn provenance_text(summary: ImpactSummaryReport) -> Seq<char> {
    if provenance_kinds(summary).len() == 0 {
        "none"@
    } else {
        joined(provenance_kinds(summary), "+"@)
    }
}

fn write_provenance(summary: &ImpactSummaryReport) -> (text: String)
    ensures
        text@ == provenance_text(*summary),
{
    let mut kinds: Vec<String> = no_items();
    if summary.production {
        push_item(&mut kinds, "production".to_owned());
    }
    if summary.nonproduction {
        push_item(&mut kinds, "nonproduction".to_owned());
    }
    if summary.build_time {
        push_item(&mut kinds, "build-time".to_owned());
    }
    if summary.public_interface {
        push_item(&mut kinds, "public-interface".to_owned());
    }
    proof {
        assert(kinds.deep_view() == provenance_kinds(*summary));
        assert(kinds.len() == kinds.deep_view().len());
    }
    if kinds.len() == 0 {
        "none".to_owned()
    } else {
        join(&kinds, "+")
    }
}

/// The extent of an impact, on a line.
pub open spec fn line_of_summary(summary: ImpactSummaryReport) -> Seq<char> {
    "Consumers: "@ + decimal(summary.direct_reference_relationships as nat)
        + " direct relationships, "@ + decimal(summary.transitive_consumers as nat)
        + " transitive declarations ["@ + provenance_text(summary) + "]\n"@
}

fn summary_line(summary: &ImpactSummaryReport) -> (text: String)
    ensures
        text@ == line_of_summary(*summary),
{
    let mut text = "Consumers: ".to_owned();
    text.append(decimal_text(summary.direct_reference_relationships as u128).as_str());
    text.append(" direct relationships, ");
    text.append(decimal_text(summary.transitive_consumers as u128).as_str());
    text.append(" transitive declarations [");
    text.append(write_provenance(summary).as_str());
    text.append("]\n");
    text
}

/// The extent of an impact, where it is known.
pub open spec fn summary_text(summary: Option<ImpactSummaryReport>) -> Seq<char> {
    match summary {
        Some(summary) => line_of_summary(summary),
        None => Seq::empty(),
    }
}

fn optional_summary(summary: &Option<ImpactSummaryReport>) -> (text: String)
    ensures
        text@ == summary_text(summary.deep_view()),
{
    match summary {
        Some(summary) => summary_line(summary),
        None => no_text(),
    }
}

/// A direct use, on a line.
pub open spec fn line_of_direct(reference: ImpactReferenceReportView) -> Seq<char> {
    "  "@ + labelled_definition(reference.consumer)
        + optional_location(reference.representative_span) + " --"@ + reference.reference_kind
        + "--> "@ + labelled_definition(reference.dependency) + " ["@
        + named_provenance(reference.provenance.class) + "]\n"@
}

fn direct_line(reference: &ImpactReferenceReport) -> (text: String)
    ensures
        text@ == line_of_direct(reference.deep_view()),
{
    let mut text = "  ".to_owned();
    text.append(impact_definition_label(&reference.consumer).as_str());
    text.append(span_location(&reference.representative_span).as_str());
    text.append(" --");
    text.append(reference.reference_kind.as_str());
    text.append("--> ");
    text.append(impact_definition_label(&reference.dependency).as_str());
    text.append(" [");
    text.append(provenance_name(reference.provenance.class));
    text.append("]\n");
    text
}

/// A step of a chain, on a line.
pub open spec fn line_of_step(step: ImpactReferenceStepReportView) -> Seq<char> {
    "    --"@ + step.reference_kind + optional_location(step.representative_span) + "--> "@
        + labelled_definition(step.to) + "\n"@
}

fn step_line(step: &ImpactReferenceStepReport) -> (text: String)
    ensures
        text@ == line_of_step(step.deep_view()),
{
    let mut text = "    --".to_owned();
    text.append(step.reference_kind.as_str());
    text.append(span_location(&step.representative_span).as_str());
    text.append("--> ");
    text.append(impact_definition_label(&step.to).as_str());
    text.append("\n");
    text
}

/// The root of a chain, on a line.
pub open spec fn line_of_witness(witness: ImpactWitnessReportView) -> Seq<char> {
    "  ["@ + named_provenance(witness.provenance.class) + "] "@ + labelled_definition(witness.root)
        + " ("@ + witness.root_reason + ")\n"@
}

fn witness_line(witness: &ImpactWitnessReport) -> (text: String)
    ensures
        text@ == line_of_witness(witness.deep_view()),
{
    let mut text = "  [".to_owned();
    text.append(provenance_name(witness.provenance.class));
    text.append("] ");
    text.append(impact_definition_label(&witness.root).as_str());
    text.append(" (");
    text.append(witness.root_reason.as_str());
    text.append(")\n");
    text
}

/// All candidates, a line each.
pub open spec fn lines_of_candidates(items: Seq<ImpactDefinitionReportView>) -> Seq<char> {
    written(items, |item: ImpactDefinitionReportView| line_of_candidate(item))
}

fn candidate_lines(items: &Vec<ImpactDefinitionReport>) -> (text: String)
    ensures
        text@ == lines_of_candidates(items.deep_view()),
{
    let ghost piece = |item: ImpactDefinitionReportView| line_of_candidate(item);
    let write = |item: &ImpactDefinitionReport| -> (text: String)
        ensures
            text@ == piece(item.deep_view()),
    {
        candidate_line(item)
    };
    write_each(items, write, Ghost(piece))
}

/// Direct uses, a line each.
pub open spec fn lines_of_direct(items: Seq<ImpactReferenceReportView>) -> Seq<char> {
    written(items, |item: ImpactReferenceReportView| line_of_direct(item))
}

fn direct_lines(items: &Vec<ImpactReferenceReport>) -> (text: String)
    ensures
        text@ == lines_of_direct(items.deep_view()),
{
    let ghost piece = |item: ImpactReferenceReportView| line_of_direct(item);
    let write = |item: &ImpactReferenceReport| -> (text: String)
        ensures
            text@ == piece(item.deep_view()),
    {
        direct_line(item)
    };
    write_each(items, write, Ghost(piece))
}

/// The steps of a chain, a line each.
pub open spec fn lines_of_steps(items: Seq<ImpactReferenceStepReportView>) -> Seq<char> {
    written(items, |item: ImpactReferenceStepReportView| line_of_step(item))
}

fn step_lines(items: &Vec<ImpactReferenceStepReport>) -> (text: String)
    ensures
        text@ == lines_of_steps(items.deep_view()),
{
    let ghost piece = |item: ImpactReferenceStepReportView| line_of_step(item);
    let write = |item: &ImpactReferenceStepReport| -> (text: String)
        ensures
            text@ == piece(item.deep_view()),
    {
        step_line(item)
    };
    write_each(items, write, Ghost(piece))
}

/// A chain, a line for its root and each step.
pub open spec fn text_of_witness(witness: ImpactWitnessReportView) -> Seq<char> {
    line_of_witness(witness) + lines_of_steps(witness.steps)
}

fn witness_text(witness: &ImpactWitnessReport) -> (text: String)
    ensures
        text@ == text_of_witness(witness.deep_view()),
{
    let mut text = witness_line(witness);
    text.append(step_lines(&witness.steps).as_str());
    text
}

/// All chains.
pub open spec fn texts_of_witnesses(items: Seq<ImpactWitnessReportView>) -> Seq<char> {
    written(items, |item: ImpactWitnessReportView| text_of_witness(item))
}

fn witness_texts(items: &Vec<ImpactWitnessReport>) -> (text: String)
    ensures
        text@ == texts_of_witnesses(items.deep_view()),
{
    let ghost piece = |item: ImpactWitnessReportView| text_of_witness(item);
    let write = |item: &ImpactWitnessReport| -> (text: String)
        ensures
            text@ == piece(item.deep_view()),
    {
        witness_text(item)
    };
    write_each(items, write, Ghost(piece))
}

/// The first items.
pub open spec fn first_items<A>(items: Seq<A>, limit: int) -> Seq<A> {
    if items.len() <= limit {
        items
    } else {
        items.take(limit)
    }
}

fn keep_first<T: DeepView>(items: Vec<T>, limit: usize) -> (kept: Vec<T>)
    ensures
        kept.deep_view() == first_items(items.deep_view(), limit as int),
{
    let ghost all = items.deep_view();
    let mut kept = items;
    if kept.len() > limit {
        kept.truncate(limit);
        proof {
            assert(kept.deep_view() =~= all.take(limit as int));
        }
    }
    kept
}

/// The direct uses whose code somebody wrote, or the others.
pub open spec fn uses_written(references: Seq<ImpactReferenceReportView>, authored: bool) -> Seq<
    ImpactReferenceReportView,
> {
    collected(
        references,
        |reference: ImpactReferenceReportView|
            if (reference.consumer.expansion_origin == "authored"@) == authored {
                Some(reference)
            } else {
                None
            },
    )
}

fn list_uses(references: &Vec<ImpactReferenceReport>, authored: bool) -> (list: Vec<
    ImpactReferenceReport,
>)
    ensures
        list.deep_view() == uses_written(references.deep_view(), authored),
{
    let ghost f = |reference: ImpactReferenceReportView|
        if (reference.consumer.expansion_origin == "authored"@) == authored {
            Some(reference)
        } else {
            None
        };
    let pick = |reference: &ImpactReferenceReport| -> (kept: Option<ImpactReferenceReport>)
        ensures
            kept.deep_view() == f(reference.deep_view()),
    {
        if same(reference.consumer.expansion_origin.as_str(), "authored") == authored {
            Some(reference.clone())
        } else {
            None
        }
    };
    collect_items(references, pick, Ghost(f))
}

/// How many direct uses are left out, on a line.
pub open spec fn line_of_more(count: nat) -> Seq<char> {
    "  ... "@ + decimal(count as nat) + " more relationships; use --format json for the complete list\n"@
}

fn more_line(count: usize) -> (text: String)
    ensures
        text@ == line_of_more(count as nat),
{
    let mut text = "  ... ".to_owned();
    text.append(decimal_text(count as u128).as_str());
    text.append(" more relationships; use --format json for the complete list\n");
    text
}

/// The direct uses, those that somebody wrote first, as far as people want to see them.
pub open spec fn direct_text(references: Seq<ImpactReferenceReportView>) -> Seq<char> {
    let ordered = uses_written(references, true) + uses_written(references, false);
    if references.len() == 0 {
        Seq::empty()
    } else {
        "\nRepresentative direct references:\n"@ + lines_of_direct(
            first_items(ordered, HUMAN_DIRECT_LIMIT as int),
        ) + (if references.len() > HUMAN_DIRECT_LIMIT {
            line_of_more((references.len() - HUMAN_DIRECT_LIMIT) as nat)
        } else {
            Seq::empty()
        })
    }
}

fn write_direct(references: &Vec<ImpactReferenceReport>) -> (text: String)
    ensures
        text@ == direct_text(references.deep_view()),
{
    proof {
        assert(references.len() == references.deep_view().len());
    }
    if references.len() == 0 {
        return no_text();
    }
    let mut ordered = list_uses(references, true);
    append_items(&mut ordered, list_uses(references, false));
    let mut text = "\nRepresentative direct references:\n".to_owned();
    text.append(direct_lines(&keep_first(ordered, HUMAN_DIRECT_LIMIT)).as_str());
    if references.len() > HUMAN_DIRECT_LIMIT {
        text.append(more_line(references.len() - HUMAN_DIRECT_LIMIT).as_str());
    } else {
        text.append(no_text().as_str());
    }
    text
}

/// A section with a heading, where it holds anything.
pub open spec fn section(heading: Seq<char>, content: Seq<char>, count: nat) -> Seq<char> {
    if count == 0 {
        Seq::empty()
    } else {
        heading + content
    }
}

fn write_section(heading: &str, content: String, count: usize) -> (text: String)
    ensures
        text@ == section(heading@, content@, count as nat),
{
    if count == 0 {
        no_text()
    } else {
        let mut text = heading.to_owned();
        text.append(content.as_str());
        text
    }
}

/// The start of an impact report.
pub open spec fn head_of_impact(impact: ImpactReportView) -> Seq<char> {
    "Impact: "@ + named_status(impact.status) + "\nQuery: "@ + impact.query.package + ":"@
        + impact.query.definition_path + "\n"@ + reason_text(impact.reason)
}

fn impact_head(impact: &ImpactReport) -> (text: String)
    ensures
        text@ == head_of_impact(impact.deep_view()),
{
    let mut text = "Impact: ".to_owned();
    text.append(status_name(impact.status));
    text.append("\nQuery: ");
    text.append(impact.query.package.as_str());
    text.append(":");
    text.append(impact.query.definition_path.as_str());
    text.append("\n");
    text.append(optional_reason(&impact.reason).as_str());
    text
}

/// An impact report for people. Without complete evidence it names at most the candidates.
pub open spec fn impact_text(impact: ImpactReportView) -> Seq<char> {
    if impact.status != SemanticStatus::Complete {
        head_of_impact(impact) + section(
            "Candidates:\n"@,
            lines_of_candidates(impact.candidates),
            impact.candidates.len(),
        )
    } else {
        head_of_impact(impact) + declaration_text(impact.selected) + disposition_text(
            impact.visibility_disposition,
        ) + summary_text(impact.summary) + direct_text(impact.direct_references) + section(
            "\nShortest root witnesses:\n"@,
            texts_of_witnesses(impact.witnesses),
            impact.witnesses.len(),
        )
    }
}

/// Writes an impact report for people.
pub fn render_impact(impact: &ImpactReport) -> (text: String)
    ensures
        text@ == impact_text(impact.deep_view()),
{
    proof {
        assert(impact.candidates.len() == impact.deep_view().candidates.len());
        assert(impact.witnesses.len() == impact.deep_view().witnesses.len());
    }
    let mut text = impact_head(impact);
    if impact.status != SemanticStatus::Complete {
        text.append(
            write_section(
                "Candidates:\n",
                candidate_lines(&impact.candidates),
                impact.candidates.len(),
            ).as_str(),
        );
        return text;
    }
    text.append(optional_declaration(&impact.selected).as_str());
    text.append(optional_disposition(&impact.visibility_disposition).as_str());
    text.append(optional_summary(&impact.summary).as_str());
    text.append(write_direct(&impact.direct_references).as_str());
    text.append(
        write_section(
            "\nShortest root witnesses:\n",
            witness_texts(&impact.witnesses),
            impact.witnesses.len(),
        ).as_str(),
    );
    text
}

/// The code that a finding is live in.
pub open spec fn liveness_of(production: bool, nonproduction: bool) -> Seq<char> {
    if production && nonproduction {
        "production+nonproduction"@
    } else if production {
        "production"@
    } else if nonproduction {
        "nonproduction"@
    } else {
        "unreachable"@
    }
}

fn liveness(production: bool, nonproduction: bool) -> (name: &'static str)
    ensures
        name@ == liveness_of(production, nonproduction),
{
    if production && nonproduction {
        "production+nonproduction"
    } else if production {
        "production"
    } else if nonproduction {
        "nonproduction"
    } else {
        "unreachable"
    }
}

/// The place of a finding.
pub open spec fn finding_place(finding: ClosedWorldFindingReportView) -> Seq<char> {
    match either_span(finding.span, finding.attribution_callsite) {
        Some(span) => place_of_span(span),
        None => "<unknown>"@,
    }
}

fn write_finding_place(finding: &ClosedWorldFindingReport) -> (text: String)
    ensures
        text@ == finding_place(finding.deep_view()),
{
    match &finding.span {
        Some(span) => place(span),
        None => match &finding.attribution_callsite {
            Some(span) => place(span),
            None => "<unknown>".to_owned(),
        },
    }
}

/// A finding, on a line.
pub open spec fn line_of_finding(finding: ClosedWorldFindingReportView) -> Seq<char> {
    finding_place(finding) + "  "@ + finding.definition_path + "  "@ + finding.kind + "  ["@
        + liveness_of(finding.production_live, finding.nonproduction_live) + "]  "@ + finding.reason
        + "\n"@
}

fn finding_line(finding: &ClosedWorldFindingReport) -> (text: String)
    ensures
        text@ == line_of_finding(finding.deep_view()),
{
    let mut text = write_finding_place(finding);
    text.append("  ");
    text.append(finding.definition_path.as_str());
    text.append("  ");
    text.append(finding.kind.as_str());
    text.append("  [");
    text.append(liveness(finding.production_live, finding.nonproduction_live));
    text.append("]  ");
    text.append(finding.reason.as_str());
    text.append("\n");
    text
}

/// All findings, a line each.
pub open spec fn lines_of_findings(items: Seq<ClosedWorldFindingReportView>) -> Seq<char> {
    written(items, |item: ClosedWorldFindingReportView| line_of_finding(item))
}

fn finding_lines(items: &Vec<ClosedWorldFindingReport>) -> (text: String)
    ensures
        text@ == lines_of_findings(items.deep_view()),
{
    let ghost piece = |item: ClosedWorldFindingReportView| line_of_finding(item);
    let write = |item: &ClosedWorldFindingReport| -> (text: String)
        ensures
            text@ == piece(item.deep_view()),
    {
        finding_line(item)
    };
    write_each(items, write, Ghost(piece))
}

/// The start of an audit report.
pub open spec fn head_of_snapshot(report: CompilerReportView, status: SemanticStatus, reason: Option<Seq<char>>) -> Seq<char> {
    "Compiler audit: "@ + named_status(status) + " ("@
        + decimal(report.correlated_invocations as nat) + "/"@
        + decimal(report.expected_invocations as nat)
        + " Cargo invocations correlated)\nCompiler: "@ + report.rustc_version + " ("@
        + report.rustc_commit + " "@ + report.rustc_commit_date + " for "@ + report.rustc_host
        + ")\n"@ + reason_text(reason)
}

fn snapshot_head(report: &CompilerReport, status: SemanticStatus, reason: &Option<String>) -> (text: String)
    ensures
        text@ == head_of_snapshot(report.deep_view(), status, reason.deep_view()),
{
    let mut text = "Compiler audit: ".to_owned();
    text.append(status_name(status));
    text.append(" (");
    text.append(decimal_text(report.correlated_invocations as u128).as_str());
    text.append("/");
    text.append(decimal_text(report.expected_invocations as u128).as_str());
    text.append(" Cargo invocations correlated)\nCompiler: ");
    text.append(report.rustc_version.as_str());
    text.append(" (");
    text.append(report.rustc_commit.as_str());
    text.append(" ");
    text.append(report.rustc_commit_date.as_str());
    text.append(" for ");
    text.append(report.rustc_host.as_str());
    text.append(")\n");
    text.append(optional_reason(reason).as_str());
    text
}

/// What a report covers and leaves out.
pub open spec fn lines_of_scope(report: ClosedWorldReportView) -> Seq<char> {
    "Scope: "@ + report.scope + "\nEvidence excludes: "@ + joined(report.evidence_exclusions, ", "@)
        + "\n"@
}

fn scope_lines(report: &ClosedWorldReport) -> (text: String)
    ensures
        text@ == lines_of_scope(report.deep_view()),
{
    let mut text = "Scope: ".to_owned();
    text.append(report.scope.as_str());
    text.append("\nEvidence excludes: ");
    text.append(join(&report.evidence_exclusions, ", ").as_str());
    text.append("\n");
    text
}

/// What a report covers and leaves out, where there is one.
pub open spec fn scope_lines_text(report: Option<ClosedWorldReportView>) -> Seq<char> {
    match report {
        Some(report) => lines_of_scope(report),
        None => Seq::empty(),
    }
}

fn optional_scope(report: &Option<ClosedWorldReport>) -> (text: String)
    ensures
        text@ == scope_lines_text(report.deep_view()),
{
    match report {
        Some(report) => scope_lines(report),
        None => no_text(),
    }
}

/// How many definitions have to be public, can be narrowed, and are dead.
pub open spec fn snapshot_counts(report: CompilerReportView) -> (nat, nat, nat) {
    (
        match report.required_visibility {
            Some(required) => required.definitions.len(),
            None => 0,
        },
        match report.closed_world {
            Some(world) => world.summary.unnecessary_public as nat,
            None => 0,
        },
        match report.closed_world {
            Some(world) => world.summary.dead_public as nat,
            None => 0,
        },
    )
}

fn count_snapshot(report: &CompilerReport) -> (counts: (u64, (u64, u64)))
    ensures
        (counts.0 as nat, (counts.1).0 as nat, (counts.1).1 as nat) == snapshot_counts(
            report.deep_view(),
        ),
{
    let required: u64 = match &report.required_visibility {
        Some(required) => {
            proof {
                assert(required.definitions.len() == required.deep_view().definitions.len());
            }
            required.definitions.len() as u64
        },
        None => 0,
    };
    match &report.closed_world {
        Some(world) => (required, (world.summary.unnecessary_public, world.summary.dead_public)),
        None => (required, (0, 0)),
    }
}

/// How many definitions have to be public, can be narrowed, and are dead.
pub open spec fn lines_of_counts(required: nat, narrow: nat, dead: nat) -> Seq<char> {
    "Required public: "@ + decimal(required as nat) + "\nCan narrow unrestricted pub: "@
        + decimal(narrow as nat) + "\nDead public: "@ + decimal(dead as nat) + "\n"@
}

fn count_lines(required: u64, narrow: u64, dead: u64) -> (text: String)
    ensures
        text@ == lines_of_counts(required as nat, narrow as nat, dead as nat),
{
    let mut text = "Required public: ".to_owned();
    text.append(decimal_text(required as u128).as_str());
    text.append("\nCan narrow unrestricted pub: ");
    text.append(decimal_text(narrow as u128).as_str());
    text.append("\nDead public: ");
    text.append(decimal_text(dead as u128).as_str());
    text.append("\n");
    text
}

/// The findings, unless an impact was asked for.
pub open spec fn findings_text(report: CompilerReportView) -> Seq<char> {
    match report.closed_world {
        Some(world) if report.impact is None => section(
            "\nFindings:\n"@,
            lines_of_findings(world.findings),
            world.findings.len(),
        ),
        _ => Seq::empty(),
    }
}

fn write_findings(report: &CompilerReport) -> (text: String)
    ensures
        text@ == findings_text(report.deep_view()),
{
    match &report.closed_world {
        Some(world) => {
            proof {
                assert(world.findings.len() == world.deep_view().findings.len());
            }
            if report.impact.is_none() {
                write_section(
                    "\nFindings:\n",
                    finding_lines(&world.findings),
                    world.findings.len(),
                )
            } else {
                no_text()
            }
        },
        None => no_text(),
    }
}

/// The impact, where it was asked for.
pub open spec fn impact_section(impact: Option<ImpactReportView>) -> Seq<char> {
    match impact {
        Some(impact) => "\n"@ + impact_text(impact),
        None => Seq::empty(),
    }
}

fn write_impact_section(impact: &Option<ImpactReport>) -> (text: String)
    ensures
        text@ == impact_section(impact.deep_view()),
{
    match impact {
        Some(impact) => {
            let mut text = "\n".to_owned();
            text.append(render_impact(impact).as_str());
            text
        },
        None => no_text(),
    }
}

/// An audit report for people. Without complete evidence it counts and finds nothing.
pub open spec fn snapshot_text(
    report: CompilerReportView,
    status: SemanticStatus,
    reason: Option<Seq<char>>,
) -> Seq<char> {
    let counts = snapshot_counts(report);
    if status != SemanticStatus::Complete {
        head_of_snapshot(report, status, reason)
    } else {
        head_of_snapshot(report, status, reason) + scope_lines_text(report.closed_world)
            + lines_of_counts(counts.0, counts.1, counts.2) + findings_text(report)
            + impact_section(report.impact)
    }
}

/// Writes an audit report for people.
pub fn render_snapshot_table(
    report: &CompilerReport,
    status: SemanticStatus,
    reason: &Option<String>,
) -> (text: String)
    ensures
        text@ == snapshot_text(report.deep_view(), status, reason.deep_view()),
{
    let mut text = snapshot_head(report, status, reason);
    if status != SemanticStatus::Complete {
        return text;
    }
    text.append(optional_scope(&report.closed_world).as_str());
    let counts = count_snapshot(report);
    text.append(count_lines(counts.0, (counts.1).0, (counts.1).1).as_str());
    text.append(write_findings(report).as_str());
    text.append(write_impact_section(&report.impact).as_str());
    text
}

/// Whether an audit and the impact that it was asked for, if any, are complete.
pub open spec fn snapshot_complete(report: CompilerReportView) -> bool {
    report.status == SemanticStatus::Complete && (report.impact matches Some(impact)
        ==> impact.status == SemanticStatus::Complete)
}

/// Whether an audit and the impact that it was asked for, if any, are complete.
pub fn is_snapshot_complete(report: &CompilerReport) -> (complete: bool)
    ensures
        complete == snapshot_complete(report.deep_view()),
{
    let impact_complete = match &report.impact {
        Some(impact) => impact.status == SemanticStatus::Complete,
        None => true,
    };
    report.status == SemanticStatus::Complete && impact_complete
}

/// The start of a commit, enough to tell it.
pub fn short_commit(commit: &str) -> (short: String)
    ensures
        short@ == byte_prefix(commit@, 12),
{
    take_bytes(commit, 12)
}

/// A unit, written out; the workspace root needs no path.
pub open spec fn labelled_unit(unit: ApiUnitReportView) -> Seq<char> {
    if unit.package_path == "."@ {
        unit.package + ":"@ + unit.target
    } else {
        unit.package + ":"@ + unit.target + " ("@ + unit.package_path + ")"@
    }
}

/// Writes a unit out.
pub fn unit_label(unit: &ApiUnitReport) -> (text: String)
    ensures
        text@ == labelled_unit(unit.deep_view()),
{
    let mut text = unit.package.clone();
    text.append(":");
    text.append(unit.target.as_str());
    if same(unit.package_path.as_str(), ".") {
        return text;
    }
    text.append(" (");
    text.append(unit.package_path.as_str());
    text.append(")");
    text
}

/// The path of a name.
pub open spec fn path_of_binding(parent: Seq<char>, name: Seq<char>) -> Seq<char> {
    if parent.len() == 0 {
        name
    } else {
        parent + "::"@ + name
    }
}

/// The path of a name.
pub fn binding_path(parent: &str, name: &str) -> (text: String)
    ensures
        text@ == path_of_binding(parent@, name@),
{
    if parent.is_empty() {
        name.to_owned()
    } else {
        let mut text = parent.to_owned();
        text.append("::");
        text.append(name);
        text
    }
}

/// A definition that came or went, on a line.
pub open spec fn line_of_definition_change(marker: Seq<char>, definition: ApiDefinitionReportView) -> Seq<char> {
    marker + " definition "@ + labelled_unit(definition.unit) + " "@ + definition.definition_path
        + " ["@ + definition.kind + "]"@
        + optional_location(either_span(definition.span, definition.attribution_callsite)) + "\n"@
}

fn definition_change_line(marker: &str, definition: &ApiDefinitionReport) -> (text: String)
    ensures
        text@ == line_of_definition_change(marker@, definition.deep_view()),
{
    let mut text = marker.to_owned();
    text.append(" definition ");
    text.append(unit_label(&definition.unit).as_str());
    text.append(" ");
    text.append(definition.definition_path.as_str());
    text.append(" [");
    text.append(definition.kind.as_str());
    text.append("]");
    text.append(location(&definition.span, &definition.attribution_callsite).as_str());
    text.append("\n");
    text
}

/// A name that came or went, on a line.
pub open spec fn line_of_binding_change(marker: Seq<char>, binding: ApiBindingReportView) -> Seq<char> {
    marker + " binding "@ + labelled_unit(binding.unit) + " "@
        + path_of_binding(binding.parent_definition_path, binding.name) + " ["@ + binding.namespace
        + "] -> "@ + binding.resolved_target_path + " ("@ + binding.exposure + ")"@
        + optional_location(binding.span) + "\n"@
}

fn binding_change_line(marker: &str, binding: &ApiBindingReport) -> (text: String)
    ensures
        text@ == line_of_binding_change(marker@, binding.deep_view()),
{
    let mut text = marker.to_owned();
    text.append(" binding ");
    text.append(unit_label(&binding.unit).as_str());
    text.append(" ");
    text.append(binding_path(binding.parent_definition_path.as_str(), binding.name.as_str()).as_str());
    text.append(" [");
    text.append(binding.namespace.as_str());
    text.append("] -> ");
    text.append(binding.resolved_target_path.as_str());
    text.append(" (");
    text.append(binding.exposure.as_str());
    text.append(")");
    text.append(span_location(&binding.span).as_str());
    text.append("\n");
    text
}

/// A name that stands for something else, on a line.
pub open spec fn line_of_retarget(unit: ApiUnitReportView, parent: Seq<char>, name: Seq<char>, namespace: Seq<char>, before: Seq<char>, after: Seq<char>, place: Seq<char>) -> Seq<char> {
    "~ binding "@ + labelled_unit(unit) + " "@ + path_of_binding(parent, name) + " ["@ + namespace
        + "]: "@ + before + " -> "@ + after + place + "\n"@
}

fn retarget_line(unit: &ApiUnitReport, parent: &str, name: &str, namespace: &str, before: &str, after: &str, place: &str) -> (text: String)
    ensures
        text@ == line_of_retarget(unit.deep_view(), parent@, name@, namespace@, before@, after@, place@),
{
    let mut text = "~ binding ".to_owned();
    text.append(unit_label(unit).as_str());
    text.append(" ");
    text.append(binding_path(parent, name).as_str());
    text.append(" [");
    text.append(namespace);
    text.append("]: ");
    text.append(before);
    text.append(" -> ");
    text.append(after);
    text.append(place);
    text.append("\n");
    text
}

/// Whether a name is the one that a change speaks of.
pub open spec fn is_retargeted(
    unit: ApiUnitReportView,
    parent: Seq<char>,
    name: Seq<char>,
    namespace: Seq<char>,
    target: Seq<char>,
) -> spec_fn(ApiBindingReportView) -> bool {
    |binding: ApiBindingReportView|
        binding.unit == unit && binding.parent_definition_path == parent && binding.name == name
            && binding.namespace == namespace && binding.resolved_target_path == target
}

/// Where a name that stands for something else is.
pub open spec fn retarget_place(
    surface: Option<ApiSurfaceReportView>,
    unit: ApiUnitReportView,
    parent: Seq<char>,
    name: Seq<char>,
    namespace: Seq<char>,
    target: Seq<char>,
) -> Seq<char> {
    match surface {
        None => Seq::empty(),
        Some(surface) => match first_where(
            surface.bindings,
            is_retargeted(unit, parent, name, namespace, target),
        ) {
            Some(binding) => optional_location(binding.span),
            None => Seq::empty(),
        },
    }
}

fn same_unit(left: &ApiUnitReport, right: &ApiUnitReport) -> (result: bool)
    ensures
        result == (left.deep_view() == right.deep_view()),
{
    proof {
        ApiUnitReport::irreflexive(left.deep_view());
    }
    match left.rank(right) {
        Rank::Equal => true,
        _ => false,
    }
}

fn retarget_location(
    surface: &Option<ApiSurfaceReport>,
    unit: &ApiUnitReport,
    parent: &str,
    name: &str,
    namespace: &str,
    target: &str,
) -> (text: String)
    ensures
        text@ == retarget_place(
            surface.deep_view(),
            unit.deep_view(),
            parent@,
            name@,
            namespace@,
            target@,
        ),
{
    let surface = match surface {
        Some(surface) => surface,
        None => {
            return no_text();
        },
    };
    let ghost property = is_retargeted(unit.deep_view(), parent@, name@, namespace@, target@);
    let test = |binding: &ApiBindingReport| -> (result: bool)
        ensures
            result == property(binding.deep_view()),
    {
        same_unit(&binding.unit, unit) && same(binding.parent_definition_path.as_str(), parent)
            && same(binding.name.as_str(), name) && same(binding.namespace.as_str(), namespace)
            && same(binding.resolved_target_path.as_str(), target)
    };
    match find_first(&surface.bindings, test, Ghost(property)) {
        Some(binding) => span_location(&binding.span),
        None => no_text(),
    }
}

/// A change, on a line.
pub open spec fn line_of_change(
    change: ApiChangeReportView,
    surface: Option<ApiSurfaceReportView>,
) -> Seq<char> {
    match change {
        ApiChangeReportView::DefinitionAdded { definition } => line_of_definition_change(
            "+"@,
            definition,
        ),
        ApiChangeReportView::DefinitionRemoved { definition } => line_of_definition_change(
            "-"@,
            definition,
        ),
        ApiChangeReportView::BindingAdded { binding } => line_of_binding_change("+"@, binding),
        ApiChangeReportView::BindingRemoved { binding } => line_of_binding_change("-"@, binding),
        ApiChangeReportView::BindingRetargeted {
            unit,
            parent_definition_path,
            name,
            namespace,
            before_target_path,
            after_target_path,
        } => line_of_retarget(
            unit,
            parent_definition_path,
            name,
            namespace,
            before_target_path,
            after_target_path,
            retarget_place(
                surface,
                unit,
                parent_definition_path,
                name,
                namespace,
                after_target_path,
            ),
        ),
    }
}

fn render_api_change(change: &ApiChangeReport, surface: &Option<ApiSurfaceReport>) -> (text: String)
    ensures
        text@ == line_of_change(change.deep_view(), surface.deep_view()),
{
    match change {
        ApiChangeReport::DefinitionAdded { definition } => definition_change_line("+", definition),
        ApiChangeReport::DefinitionRemoved { definition } => definition_change_line(
            "-",
            definition,
        ),
        ApiChangeReport::BindingAdded { binding } => binding_change_line("+", binding),
        ApiChangeReport::BindingRemoved { binding } => binding_change_line("-", binding),
        ApiChangeReport::BindingRetargeted {
            unit,
            parent_definition_path,
            name,
            namespace,
            before_target_path,
            after_target_path,
        } => {
            let place = retarget_location(
                surface,
                unit,
                parent_definition_path.as_str(),
                name.as_str(),
                namespace.as_str(),
                after_target_path.as_str(),
            );
            retarget_line(
                unit,
                parent_definition_path.as_str(),
                name.as_str(),
                namespace.as_str(),
                before_target_path.as_str(),
                after_target_path.as_str(),
                place.as_str(),
            )
        },
    }
}

/// All changes, a line each.
pub open spec fn lines_of_changes(
    changes: Seq<ApiChangeReportView>,
    surface: Option<ApiSurfaceReportView>,
) -> Seq<char> {
    written(changes, |change: ApiChangeReportView| line_of_change(change, surface))
}

fn change_lines(changes: &Vec<ApiChangeReport>, surface: &Option<ApiSurfaceReport>) -> (text:
    String)
    ensures
        text@ == lines_of_changes(changes.deep_view(), surface.deep_view()),
{
    let ghost told = surface.deep_view();
    let ghost piece = |change: ApiChangeReportView| line_of_change(change, told);
    let write = |change: &ApiChangeReport| -> (text: String)
        ensures
            text@ == piece(change.deep_view()),
    {
        render_api_change(change, surface)
    };
    write_each(changes, write, Ghost(piece))
}

/// A compiler, on a line.
pub open spec fn line_of_compiler(heading: Seq<char>, identity: CompilerIdentityView) -> Seq<char> {
    heading + labelled_compiler(identity) + "\n"@
}

fn one_compiler(heading: &str, identity: &CompilerIdentity) -> (text: String)
    ensures
        text@ == line_of_compiler(heading@, identity.deep_view()),
{
    let mut text = heading.to_owned();
    text.append(compiler_label(identity).as_str());
    text.append("\n");
    text
}

/// The compilers of a comparison: one line where they are the same.
pub open spec fn compilers_text(before: CompilerIdentityView, after: CompilerIdentityView) -> Seq<
    char,
> {
    if before == after {
        line_of_compiler("Compiler: "@, after)
    } else {
        line_of_compiler("Baseline compiler: "@, before) + line_of_compiler(
            "Working-tree compiler: "@,
            after,
        )
    }
}

fn same_identity(left: &CompilerIdentity, right: &CompilerIdentity) -> (result: bool)
    ensures
        result == (left.deep_view() == right.deep_view()),
{
    left.protocol_version == right.protocol_version && same(
        left.driver_version.as_str(),
        right.driver_version.as_str(),
    ) && same(left.rustc_version.as_str(), right.rustc_version.as_str()) && same(
        left.rustc_commit.as_str(),
        right.rustc_commit.as_str(),
    ) && same(left.rustc_commit_date.as_str(), right.rustc_commit_date.as_str()) && same(
        left.rustc_host.as_str(),
        right.rustc_host.as_str(),
    )
}

fn render_compiler_identity(before: &CompilerIdentity, after: &CompilerIdentity) -> (text: String)
    ensures
        text@ == compilers_text(before.deep_view(), after.deep_view()),
{
    if same_identity(before, after) {
        one_compiler("Compiler: ", after)
    } else {
        let mut text = one_compiler("Baseline compiler: ", before);
        text.append(one_compiler("Working-tree compiler: ", after).as_str());
        text
    }
}

/// The revision of the baseline.
pub open spec fn revision_name(revision: Option<Seq<char>>) -> Seq<char> {
    match revision {
        Some(revision) => revision,
        None => "<commit>"@,
    }
}

fn write_revision(revision: &Option<String>) -> (text: String)
    ensures
        text@ == revision_name(revision.deep_view()),
{
    match revision {
        Some(revision) => revision.clone(),
        None => "<commit>".to_owned(),
    }
}

/// Whether a working tree holds changes.
pub open spec fn dirtiness(dirty: Option<bool>) -> Seq<char> {
    if dirty == Some(true) {
        "dirty"@
    } else {
        "clean"@
    }
}

fn write_dirtiness(dirty: Option<bool>) -> (text: &'static str)
    ensures
        text@ == dirtiness(dirty),
{
    match dirty {
        Some(true) => "dirty",
        _ => "clean",
    }
}

/// The start of a comparison.
pub open spec fn head_of_comparison(report: ComparisonOutputView) -> Seq<char> {
    "Public API comparison: "@ + named_status(report.status) + "\nBaseline: "@
        + revision_name(report.before.revision) + " at "@ + byte_prefix(report.before.commit, 12)
        + " ("@ + named_status(report.before.status) + ")\nWorking tree: "@
        + dirtiness(report.after.dirty) + " at "@ + byte_prefix(report.after.commit, 12) + " ("@
        + named_status(report.after.status) + ")\n"@
        + compilers_text(report.before.compiler, report.after.compiler) + reason_text(report.reason)
}

fn comparison_head(report: &ComparisonOutput) -> (text: String)
    ensures
        text@ == head_of_comparison(report.deep_view()),
{
    let mut text = "Public API comparison: ".to_owned();
    text.append(status_name(report.status));
    text.append("\nBaseline: ");
    text.append(write_revision(&report.before.revision).as_str());
    text.append(" at ");
    text.append(short_commit(report.before.commit.as_str()).as_str());
    text.append(" (");
    text.append(status_name(report.before.status));
    text.append(")\nWorking tree: ");
    text.append(write_dirtiness(report.after.dirty));
    text.append(" at ");
    text.append(short_commit(report.after.commit.as_str()).as_str());
    text.append(" (");
    text.append(status_name(report.after.status));
    text.append(")\n");
    text.append(render_compiler_identity(&report.before.compiler, &report.after.compiler).as_str());
    text.append(optional_reason(&report.reason).as_str());
    text
}

/// How many changes there are, on a line.
pub open spec fn head_of_diff(diff: ApiDiffReportView) -> Seq<char> {
    "Changes: "@ + decimal(diff.summary.total_changes as nat) + " ("@
        + decimal(diff.summary.added_definitions as nat) + " definitions added, "@
        + decimal(diff.summary.removed_definitions as nat) + " removed; "@
        + decimal(diff.summary.added_bindings as nat) + " bindings added, "@
        + decimal(diff.summary.removed_bindings as nat) + " removed, "@
        + decimal(diff.summary.retargeted_bindings as nat) + " retargeted)\n"@
}

fn diff_head(diff: &ApiDiffReport) -> (text: String)
    ensures
        text@ == head_of_diff(diff.deep_view()),
{
    let mut text = "Changes: ".to_owned();
    text.append(decimal_text(diff.summary.total_changes as u128).as_str());
    text.append(" (");
    text.append(decimal_text(diff.summary.added_definitions as u128).as_str());
    text.append(" definitions added, ");
    text.append(decimal_text(diff.summary.removed_definitions as u128).as_str());
    text.append(" removed; ");
    text.append(decimal_text(diff.summary.added_bindings as u128).as_str());
    text.append(" bindings added, ");
    text.append(decimal_text(diff.summary.removed_bindings as u128).as_str());
    text.append(" removed, ");
    text.append(decimal_text(diff.summary.retargeted_bindings as u128).as_str());
    text.append(" retargeted)\n");
    text
}

/// A comparison for people. Without complete evidence it says so, and counts nothing.
pub open spec fn comparison_text(report: ComparisonOutputView) -> Seq<char> {
    match report.api_diff {
        None => head_of_comparison(report)
            + "API diff unavailable; incomplete evidence is not reported as zero changes.\n"@,
        Some(diff) => if diff.changes.len() == 0 {
            head_of_comparison(report) + head_of_diff(diff)
                + "No public API topology changes.\n"@
        } else {
            head_of_comparison(report) + head_of_diff(diff) + "\nAPI changes:\n"@
                + lines_of_changes(diff.changes, report.after.api_surface)
        },
    }
}

/// Writes a comparison for people.
pub fn render_comparison(report: &ComparisonOutput) -> (text: String)
    ensures
        text@ == comparison_text(report.deep_view()),
{
    let mut text = comparison_head(report);
    match &report.api_diff {
        None => {
            text.append(
                "API diff unavailable; incomplete evidence is not reported as zero changes.\n",
            );
        },
        Some(diff) => {
            proof {
                assert(diff.changes.len() == diff.deep_view().changes.len());
            }
            text.append(diff_head(diff).as_str());
            if diff.changes.len() == 0 {
                text.append("No public API topology changes.\n");
            } else {
                text.append("\nAPI changes:\n");
                text.append(change_lines(&diff.changes, &report.after.api_surface).as_str());
            }
        },
    }
    text
}

/// The side of a comparison that a diagnostic is about.
pub open spec fn endpoint_prefix(endpoint: Option<Seq<char>>) -> Seq<char> {
    match endpoint {
        Some(endpoint) => endpoint + ": "@,
        None => Seq::empty(),
    }
}

/// A diagnostic, on a line.
pub open spec fn line_of_diagnostic(endpoint: Option<Seq<char>>, diagnostic: DiagnosticView) -> Seq<
    char,
> {
    "rot-audit: "@ + named_severity(diagnostic.severity) + ": "@ + endpoint_prefix(endpoint) + (
    match diagnostic.path {
        Some(path) => path + ": "@,
        None => Seq::empty(),
    }) + diagnostic.message + "\n"@
}

/// Writes a diagnostic on a line.
pub fn render_diagnostic(endpoint: &Option<String>, diagnostic: &Diagnostic) -> (text: String)
    ensures
        text@ == line_of_diagnostic(endpoint.deep_view(), diagnostic.deep_view()),
{
    let prefix = match endpoint {
        Some(endpoint) => {
            let mut prefix = endpoint.clone();
            prefix.append(": ");
            prefix
        },
        None => no_text(),
    };
    let place = match &diagnostic.path {
        Some(path) => {
            let mut place = path.clone();
            place.append(": ");
            place
        },
        None => no_text(),
    };
    let mut text = "rot-audit: ".to_owned();
    text.append(severity_name(diagnostic.severity));
    text.append(": ");
    text.append(prefix.as_str());
    text.append(place.as_str());
    text.append(diagnostic.message.as_str());
    text.append("\n");
    text
}

/// How complete a comparison is, by its sides.
pub open spec fn status_of_comparison(
    baseline: SemanticStatus,
    current: SemanticStatus,
    same_compiler: bool,
    has_surfaces: bool,
) -> SemanticStatus {
    if baseline == SemanticStatus::Complete && current == SemanticStatus::Complete && same_compiler
        && has_surfaces {
        SemanticStatus::Complete
    } else if baseline == SemanticStatus::Unavailable || current == SemanticStatus::Unavailable
        || !same_compiler {
        SemanticStatus::Unavailable
    } else {
        SemanticStatus::Partial
    }
}

/// How complete a comparison is, by its sides.
pub fn comparison_status(
    baseline: SemanticStatus,
    current: SemanticStatus,
    same_compiler: bool,
    has_surfaces: bool,
) -> (status: SemanticStatus)
    ensures
        status == status_of_comparison(baseline, current, same_compiler, has_surfaces),
{
    if baseline == SemanticStatus::Complete && current == SemanticStatus::Complete && same_compiler
        && has_surfaces {
        SemanticStatus::Complete
    } else if baseline == SemanticStatus::Unavailable || current == SemanticStatus::Unavailable
        || !same_compiler {
        SemanticStatus::Unavailable
    } else {
        SemanticStatus::Partial
    }
}

/// Why the evidence of one side is not complete.
pub open spec fn endpoint_reason(
    side: Seq<char>,
    status: SemanticStatus,
    reason: Option<Seq<char>>,
) -> Seq<char> {
    side + " evidence is "@ + named_status(status) + (match reason {
        Some(reason) => ": "@ + reason,
        None => Seq::empty(),
    })
}

fn write_endpoint_reason(side: &str, status: SemanticStatus, reason: &Option<String>) -> (text:
    String)
    ensures
        text@ == endpoint_reason(side@, status, reason.deep_view()),
{
    let suffix = match reason {
        Some(reason) => {
            let mut suffix = ": ".to_owned();
            suffix.append(reason.as_str());
            suffix
        },
        None => no_text(),
    };
    let mut text = side.to_owned();
    text.append(" evidence is ");
    text.append(status_name(status));
    text.append(suffix.as_str());
    text
}

/// Why a comparison is not complete.
pub open spec fn reasons_of_comparison(
    baseline: CompilerReportView,
    current: CompilerReportView,
    same_compiler: bool,
    has_surfaces: bool,
) -> Seq<Seq<char>> {
    let none = Seq::<Seq<char>>::empty();
    let first = if baseline.status != SemanticStatus::Complete {
        none.push(endpoint_reason("baseline"@, baseline.status, baseline.reason))
    } else {
        none
    };
    let second = if current.status != SemanticStatus::Complete {
        first.push(endpoint_reason("working-tree"@, current.status, current.reason))
    } else {
        first
    };
    let third = if !same_compiler {
        second.push(
            "endpoint compiler identity differs; protocol, driver, and rustc must match exactly"@,
        )
    } else {
        second
    };
    if !has_surfaces {
        third.push("one or both endpoints have no complete public API surface"@)
    } else {
        third
    }
}

/// Why a comparison is not complete, where it is not.
pub open spec fn reason_of_comparison(
    baseline: CompilerReportView,
    current: CompilerReportView,
    same_compiler: bool,
    has_surfaces: bool,
) -> Option<Seq<char>> {
    let reasons = reasons_of_comparison(baseline, current, same_compiler, has_surfaces);
    if reasons.len() == 0 {
        None
    } else {
        Some(joined(reasons, "; "@))
    }
}

/// Says why a comparison is not complete.
pub fn comparison_reason(
    baseline: &CompilerReport,
    current: &CompilerReport,
    same_compiler: bool,
    has_surfaces: bool,
) -> (reason: Option<String>)
    ensures
        reason.deep_view() == reason_of_comparison(
            baseline.deep_view(),
            current.deep_view(),
            same_compiler,
            has_surfaces,
        ),
{
    let mut reasons: Vec<String> = no_items();
    if baseline.status != SemanticStatus::Complete {
        push_item(
            &mut reasons,
            write_endpoint_reason("baseline", baseline.status, &baseline.reason),
        );
    }
    if current.status != SemanticStatus::Complete {
        push_item(
            &mut reasons,
            write_endpoint_reason("working-tree", current.status, &current.reason),
        );
    }
    if !same_compiler {
        push_item(
            &mut reasons,
            "endpoint compiler identity differs; protocol, driver, and rustc must match exactly".to_owned(),
        );
    }
    if !has_surfaces {
        push_item(
            &mut reasons,
            "one or both endpoints have no complete public API surface".to_owned(),
        );
    }
    proof {
        assert(reasons.len() == reasons.deep_view().len());
    }
    if reasons.len() == 0 {
        None
    } else {
        Some(join(&reasons, "; "))
    }
}

/// The compiler that made a report.
pub open spec fn identity_of(report: CompilerReportView) -> CompilerIdentityView {
    CompilerIdentityView {
        protocol_version: report.protocol_version,
        driver_version: report.driver_version,
        rustc_version: report.rustc_version,
        rustc_commit: report.rustc_commit,
        rustc_commit_date: report.rustc_commit_date,
        rustc_host: report.rustc_host,
    }
}

impl CompilerIdentity {
    /// The compiler that made a report.
    pub fn of(report: &CompilerReport) -> (identity: Self)
        ensures
            identity.deep_view() == identity_of(report.deep_view()),
    {
        CompilerIdentity {
            protocol_version: report.protocol_version,
            driver_version: report.driver_version.clone(),
            rustc_version: report.rustc_version.clone(),
            rustc_commit: report.rustc_commit.clone(),
            rustc_commit_date: report.rustc_commit_date.clone(),
            rustc_host: report.rustc_host.clone(),
        }
    }
}

/// Whether two reports can be compared: both complete, of one compiler, with their public names.
pub open spec fn comparable(baseline: CompilerReportView, current: CompilerReportView) -> bool {
    &&& baseline.status == SemanticStatus::Complete
    &&& current.status == SemanticStatus::Complete
    &&& identity_of(baseline) == identity_of(current)
    &&& baseline.api_surface is Some
    &&& current.api_surface is Some
}

/// The comparison of two audits.
pub open spec fn comparison_of(
    context: ComparisonContextView,
    baseline: AuditSnapshotView,
    current: AuditSnapshotView,
) -> ComparisonOutputView {
    let same_compiler = identity_of(baseline.report) == identity_of(current.report);
    let has_surfaces = baseline.report.api_surface is Some && current.report.api_surface is Some;
    ComparisonOutputView {
        schema_version: AUDIT_SCHEMA_VERSION,
        report_kind: "comparison"@,
        root: context.root,
        selection: context.selection,
        profile: AuditProfileView { target: context.target, ..current.profile },
        status: status_of_comparison(
            baseline.report.status,
            current.report.status,
            same_compiler,
            has_surfaces,
        ),
        reason: reason_of_comparison(
            baseline.report,
            current.report,
            same_compiler,
            has_surfaces,
        ),
        before: ComparisonEndpointView {
            kind: "git"@,
            revision: Some(context.baseline_ref),
            commit: context.baseline_commit,
            dirty: None,
            status: baseline.report.status,
            reason: baseline.report.reason,
            compiler: identity_of(baseline.report),
            api_surface: baseline.report.api_surface,
            diagnostics: baseline.diagnostics,
        },
        after: ComparisonEndpointView {
            kind: "working_tree"@,
            revision: None,
            commit: context.current_state.commit,
            dirty: Some(context.current_state.dirty),
            status: current.report.status,
            reason: current.report.reason,
            compiler: identity_of(current.report),
            api_surface: current.report.api_surface,
            diagnostics: current.diagnostics,
        },
        api_diff: if comparable(baseline.report, current.report) {
            Some(diff_of(baseline.report.api_surface->0, current.report.api_surface->0))
        } else {
            None
        },
    }
}

/// Compares two audits.
pub fn comparison_output(
    context: ComparisonContext,
    baseline: AuditSnapshot,
    current: AuditSnapshot,
) -> (output: ComparisonOutput)
    ensures
        output.deep_view() == comparison_of(
            context.deep_view(),
            baseline.deep_view(),
            current.deep_view(),
        ),
{
    let baseline_identity = CompilerIdentity::of(&baseline.report);
    let current_identity = CompilerIdentity::of(&current.report);
    let same_compiler = same_identity(&baseline_identity, &current_identity);
    let has_surfaces = baseline.report.api_surface.is_some()
        && current.report.api_surface.is_some();
    let status = comparison_status(
        baseline.report.status,
        current.report.status,
        same_compiler,
        has_surfaces,
    );
    let reason = comparison_reason(
        &baseline.report,
        &current.report,
        same_compiler,
        has_surfaces,
    );
    let both_complete = baseline.report.status == SemanticStatus::Complete && current.report.status
        == SemanticStatus::Complete && same_compiler;
    let api_diff = match (&baseline.report.api_surface, &current.report.api_surface) {
        (Some(before), Some(after)) => if both_complete {
            Some(compare(before, after))
        } else {
            None
        },
        _ => None,
    };
    let profile = AuditProfile {
        toolchain: current.profile.toolchain,
        target: context.target,
        feature_mode: current.profile.feature_mode,
        requested_features: current.profile.requested_features,
        all_features: current.profile.all_features,
        no_default_features: current.profile.no_default_features,
        forced_cfg: current.profile.forced_cfg,
    };
    ComparisonOutput {
        schema_version: AUDIT_SCHEMA_VERSION,
        report_kind: "comparison".to_owned(),
        root: context.root,
        selection: context.selection,
        profile,
        status,
        reason,
        before: ComparisonEndpoint {
            kind: "git".to_owned(),
            revision: Some(context.baseline_ref),
            commit: context.baseline_commit,
            dirty: None,
            status: baseline.report.status,
            reason: baseline.report.reason,
            compiler: baseline_identity,
            api_surface: baseline.report.api_surface,
            diagnostics: baseline.diagnostics,
        },
        after: ComparisonEndpoint {
            kind: "working_tree".to_owned(),
            revision: None,
            commit: context.current_state.commit,
            dirty: Some(context.current_state.dirty),
            status: current.report.status,
            reason: current.report.reason,
            compiler: current_identity,
            api_surface: current.report.api_surface,
            diagnostics: current.diagnostics,
        },
        api_diff,
    }
}

/// A comparison is complete just where both sides are and can be compared; just then it shows
/// changes, and just then it gives no reason.
pub proof fn law_incomplete_evidence_never_compares(
    context: ComparisonContextView,
    baseline: AuditSnapshotView,
    current: AuditSnapshotView,
)
    ensures
        (comparison_of(context, baseline, current).status == SemanticStatus::Complete)
            == comparable(baseline.report, current.report),
        comparison_of(context, baseline, current).api_diff is Some == comparable(
            baseline.report,
            current.report,
        ),
        comparison_of(context, baseline, current).reason is None == comparable(
            baseline.report,
            current.report,
        ),
{
}

/// What is wrong where a working tree changed while it was audited.
pub open spec fn state_change_error(before: WorkingStateView, after: WorkingStateView) -> Option<
    Seq<char>,
> {
    if before == after {
        None
    } else if before.commit != after.commit {
        Some(
            "working-tree HEAD changed during the current compiler audit ("@ + byte_prefix(
                before.commit,
                12,
            ) + " -> "@ + byte_prefix(after.commit, 12) + "); rerun against a stable checkout"@,
        )
    } else {
        Some(
            "working-tree files changed during the current compiler audit; rerun after the checkout is stable"@,
        )
    }
}

/// Refuses a working tree that changed while it was audited.
pub fn ensure_unchanged_working_state(before: &WorkingState, after: &WorkingState) -> (result:
    Result<(), String>)
    ensures
        match state_change_error(before.deep_view(), after.deep_view()) {
            None => result is Ok,
            Some(message) => result matches Err(error) && error@ == message,
        },
{
    if !same(before.commit.as_str(), after.commit.as_str()) {
        let mut message = "working-tree HEAD changed during the current compiler audit (".to_owned();
        message.append(short_commit(before.commit.as_str()).as_str());
        message.append(" -> ");
        message.append(short_commit(after.commit.as_str()).as_str());
        message.append("); rerun against a stable checkout");
        return Err(message);
    }
    if before.dirty == after.dirty && same(
        before.fingerprint.as_str(),
        after.fingerprint.as_str(),
    ) {
        return Ok(());
    }
    Err(
        "working-tree files changed during the current compiler audit; rerun after the checkout is stable".to_owned(),
    )
}

/// What diagnostics are ordered by.
pub type DiagnosticKey = (Option<String>, String);

/// Diagnostics with what they are ordered by.
pub open spec fn keyed_diagnostics(diagnostics: Seq<DiagnosticView>) -> Seq<
    ((Option<Seq<char>>, Seq<char>), DiagnosticView),
> {
    Seq::new(
        diagnostics.len(),
        |i: int| ((diagnostics[i].path, diagnostics[i].message), diagnostics[i]),
    )
}

/// Diagnostics in order, the first of those with one place and message.
pub open spec fn sorted_diagnostics(diagnostics: Seq<DiagnosticView>) -> Seq<DiagnosticView> {
    second(
        first_per_key(stable_sorted::<DiagnosticKey, Diagnostic>(keyed_diagnostics(diagnostics))),
    )
}

/// Puts diagnostics in order, and keeps the first of those with one place and message.
pub fn sort_diagnostics(diagnostics: Vec<Diagnostic>) -> (sorted: Vec<Diagnostic>)
    ensures
        sorted.deep_view() == sorted_diagnostics(diagnostics.deep_view()),
{
    let ghost all = diagnostics.deep_view();
    let mut entries: Vec<(DiagnosticKey, Diagnostic)> = no_items();
    for diagnostic in it: diagnostics
        invariant
            all.len() == it.seq().len(),
            forall|i: int| 0 <= i < all.len() ==> #[trigger] all[i] == it.seq()[i].deep_view(),
            entries.deep_view() =~= keyed_diagnostics(all).take(it.index() as int),
    {
        proof {
            assert(all[it.index() as int] == diagnostic.deep_view());
        }
        let path = diagnostic.path.clone();
        proof {
            assert(path.deep_view() == diagnostic.path.deep_view());
        }
        let key = (path, diagnostic.message.clone());
        push_item(&mut entries, (key, diagnostic));
    }
    proof {
        assert(entries.deep_view() =~= keyed_diagnostics(all));
    }
    take_second(drop_repeated_keys(stable_sort(entries)))
}

/// The path of a diagnostic of a temporary checkout, as one of the real one.
pub open spec fn normal_path(path: Seq<char>, physical: Seq<char>, logical: Seq<char>) -> Seq<char> {
    match path_below(path, physical) {
        Some(rest) => portable_path(rest),
        None => match path_below(path, logical) {
            Some(rest) => portable_path(rest),
            None => replaced(path, physical, logical),
        },
    }
}

fn normalize_path(path: &str, physical: &str, logical: &str) -> (normal: String)
    ensures
        normal@ == normal_path(path@, physical@, logical@),
{
    match strip_base(path, physical) {
        Some(rest) => portable(rest.as_str()),
        None => match strip_base(path, logical) {
            Some(rest) => portable(rest.as_str()),
            None => replace_all(path, physical, logical),
        },
    }
}

/// A diagnostic of a temporary checkout, as one of the real one.
pub open spec fn normal_diagnostic(
    diagnostic: DiagnosticView,
    physical: Seq<char>,
    logical: Seq<char>,
) -> DiagnosticView {
    DiagnosticView {
        severity: diagnostic.severity,
        path: match diagnostic.path {
            Some(path) => Some(normal_path(path, physical, logical)),
            None => None,
        },
        message: replaced(diagnostic.message, physical, logical),
    }
}

/// A span of a temporary checkout, as one of the real one.
pub open spec fn normal_span(
    span: CompilerSourceSpanReportView,
    physical: Seq<char>,
    logical: Seq<char>,
) -> CompilerSourceSpanReportView {
    match path_below(span.path, physical) {
        Some(rest) => CompilerSourceSpanReportView {
            path: portable_path(path_from(logical, rest)),
            ..span
        },
        None => span,
    }
}

/// A span of a temporary checkout, where there is one.
pub open spec fn normal_optional(
    span: Option<CompilerSourceSpanReportView>,
    physical: Seq<char>,
    logical: Seq<char>,
) -> Option<CompilerSourceSpanReportView> {
    match span {
        Some(span) => Some(normal_span(span, physical, logical)),
        None => None,
    }
}

fn normalize_api_span_path(
    span: &Option<CompilerSourceSpanReport>,
    physical: &str,
    logical: &str,
) -> (normal: Option<CompilerSourceSpanReport>)
    ensures
        normal.deep_view() == normal_optional(span.deep_view(), physical@, logical@),
{
    match span {
        None => None,
        Some(span) => {
            let mut normal = span.clone();
            if let Some(rest) = strip_base(span.path.as_str(), physical) {
                normal.path = portable(resolve(logical, rest.as_str()).as_str());
            }
            Some(normal)
        },
    }
}

/// The public names of a temporary checkout, as those of the real one.
pub open spec fn normal_surface(
    surface: ApiSurfaceReportView,
    physical: Seq<char>,
    logical: Seq<char>,
) -> ApiSurfaceReportView {
    ApiSurfaceReportView {
        definitions: collected(
            surface.definitions,
            |definition: ApiDefinitionReportView|
                Some(
                    ApiDefinitionReportView {
                        span: normal_optional(definition.span, physical, logical),
                        attribution_callsite: normal_optional(
                            definition.attribution_callsite,
                            physical,
                            logical,
                        ),
                        ..definition
                    },
                ),
        ),
        bindings: collected(
            surface.bindings,
            |binding: ApiBindingReportView|
                Some(
                    ApiBindingReportView {
                        span: normal_optional(binding.span, physical, logical),
                        ..binding
                    },
                ),
        ),
        ..surface
    }
}

fn normalize_surface(surface: &ApiSurfaceReport, physical: &str, logical: &str) -> (normal:
    ApiSurfaceReport)
    ensures
        normal.deep_view() == normal_surface(surface.deep_view(), physical@, logical@),
{
    let ghost from = physical@;
    let ghost to = logical@;
    let ghost f = |definition: ApiDefinitionReportView|
        Some(
            ApiDefinitionReportView {
                span: normal_optional(definition.span, from, to),
                attribution_callsite: normal_optional(definition.attribution_callsite, from, to),
                ..definition
            },
        );
    let pick_definition = |definition: &ApiDefinitionReport| -> (normal: Option<
        ApiDefinitionReport,
    >)
        ensures
            normal.deep_view() == f(definition.deep_view()),
    {
        let copy = definition.clone();
        Some(
            ApiDefinitionReport {
                unit: copy.unit,
                definition_path: copy.definition_path,
                kind: copy.kind,
                expansion_origin: copy.expansion_origin,
                span: normalize_api_span_path(&definition.span, physical, logical),
                attribution_callsite: normalize_api_span_path(
                    &definition.attribution_callsite,
                    physical,
                    logical,
                ),
            },
        )
    };
    let ghost g = |binding: ApiBindingReportView|
        Some(
            ApiBindingReportView { span: normal_optional(binding.span, from, to), ..binding },
        );
    let pick_binding = |binding: &ApiBindingReport| -> (normal: Option<ApiBindingReport>)
        ensures
            normal.deep_view() == g(binding.deep_view()),
    {
        let copy = binding.clone();
        Some(
            ApiBindingReport {
                unit: copy.unit,
                parent_definition_path: copy.parent_definition_path,
                name: copy.name,
                namespace: copy.namespace,
                resolved_target_path: copy.resolved_target_path,
                exposure: copy.exposure,
                span: normalize_api_span_path(&binding.span, physical, logical),
            },
        )
    };
    let definitions = collect_items(&surface.definitions, pick_definition, Ghost(f));
    let bindings = collect_items(&surface.bindings, pick_binding, Ghost(g));
    let copy = surface.clone();
    ApiSurfaceReport {
        scope: copy.scope,
        limitations: copy.limitations,
        units: copy.units,
        definitions,
        bindings,
    }
}

/// An audit of a temporary checkout, as one of the real one.
pub open spec fn normal_snapshot(
    snapshot: AuditSnapshotView,
    physical: Seq<char>,
    logical: Seq<char>,
) -> AuditSnapshotView {
    AuditSnapshotView {
        root: logical,
        profile: snapshot.profile,
        report: CompilerReportView {
            reason: match snapshot.report.reason {
                Some(reason) => Some(replaced(reason, physical, logical)),
                None => None,
            },
            api_surface: match snapshot.report.api_surface {
                Some(surface) => Some(normal_surface(surface, physical, logical)),
                None => None,
            },
            ..snapshot.report
        },
        diagnostics: sorted_diagnostics(
            collected(
                snapshot.diagnostics,
                |diagnostic: DiagnosticView|
                    Some(normal_diagnostic(diagnostic, physical, logical)),
            ),
        ),
    }
}

/// Makes an audit of a temporary checkout look like one of the real one.
pub fn normalize_snapshot_paths(
    snapshot: &mut AuditSnapshot,
    physical_root: &str,
    logical_root: &str,
)
    ensures
        final(snapshot).deep_view() == normal_snapshot(
            old(snapshot).deep_view(),
            physical_root@,
            logical_root@,
        ),
{
    let ghost before = snapshot.deep_view();
    let ghost from = physical_root@;
    let ghost to = logical_root@;
    let reason = match &snapshot.report.reason {
        Some(reason) => Some(replace_all(reason.as_str(), physical_root, logical_root)),
        None => None,
    };
    let api_surface = match &snapshot.report.api_surface {
        Some(surface) => Some(normalize_surface(surface, physical_root, logical_root)),
        None => None,
    };
    let ghost f = |diagnostic: DiagnosticView| Some(normal_diagnostic(diagnostic, from, to));
    let pick = |diagnostic: &Diagnostic| -> (normal: Option<Diagnostic>)
        ensures
            normal.deep_view() == f(diagnostic.deep_view()),
    {
        Some(
            Diagnostic {
                severity: diagnostic.severity,
                path: match &diagnostic.path {
                    Some(path) => Some(normalize_path(path.as_str(), physical_root, logical_root)),
                    None => None,
                },
                message: replace_all(diagnostic.message.as_str(), physical_root, logical_root),
            },
        )
    };
    let diagnostics = sort_diagnostics(collect_items(&snapshot.diagnostics, pick, Ghost(f)));
    snapshot.root = logical_root.to_owned();
    snapshot.report.reason = reason;
    snapshot.report.api_surface = api_surface;
    snapshot.diagnostics = diagnostics;
    proof {
        assert(snapshot.deep_view() =~= normal_snapshot(before, from, to));
    }
}

} // verus!
