//! What a compiler run comes to.

use vstd::prelude::*;

use crate::audit::{sort_diagnostics, sorted_diagnostics};
use crate::collections::{
    add_members, any_item, any_where, append_items, ascending, collect_items, collect_set,
    collected, count_items, count_where, find_first, find_last, first_where, flattened, image,
    last_place, lemma_collected_step, lemma_prefix_set, no_items, push_item, second, sorted_unique,
    stable_sort, stable_sorted, take_second, SortedMap, SortedSet,
};
use crate::compiler::cargo::{
    BuildScriptOutput, BuildScriptOutputView, CargoFailure, CargoFailureView, CargoProfile,
    CargoProfileView, CargoRun, CargoRunView,
};
use crate::compiler::closed_world::{self, aggregation_of, AggregationView};
use crate::compiler::correlation::{
    compilation_context_name, context_name, with_issue, add_issue, CorrelatedInvocation,
    CorrelatedInvocationView,
};
use crate::compiler::effective_api::{
    self, api_of, ApiAggregationView, ApiInvocation, ApiInvocationView, EffectiveApiReport,
    EffectiveApiReportView, EffectiveDefinition, EffectiveDefinitionView, GatedPackage,
    GatedPackageView, ProductAvailabilityReport, ProductAvailabilityReportView,
};
use crate::compiler::graph::{
    canonical_key, canonical_place, CanonicalPathView, GraphInvocation, GraphInvocationView, Locations,
    LocationsView, WorldView,
};
use crate::compiler::inventory::{selected_ids, AuditInventory};
use crate::compiler::labels::{generated_label_of, generated_source_label};
use crate::compiler::macro_complexity::{
    self, complexity_of, from_macro, is_macro, Body, BodyView, Decision, DecisionView,
    MacroExpansionComplexityReport, MacroExpansionComplexityReportView, MacroInvocation,
    MacroInvocationView,
};
use crate::compiler::sidecar::{reports, Invocation, InvocationView};
use crate::model::{
    ClosedWorldReport, ClosedWorldReportView, CompilerTargetReport, CompilerTargetReportView,
    ComplexityMetrics, Diagnostic, DiagnosticSeverity, DiagnosticView, LineCounts,
    RequiredVisibilityReport, RequiredVisibilityReportView, SemanticStatus,
};
use crate::order::{Ordered, Rank};
use crate::paths::{path_below, portable, portable_path, same_key, strip_base, PathKey};
use crate::protocol::{
    Availability, CfgValue, CfgValueView, CodegenProfile, CodegenProfileView, CompilationContext,
    Handshake, HandshakeView, OptimizationLevel, PanicStrategy, Profile, ProfileView, SourceFile,
    SourceFileView,
};
use crate::text::{
    compact, copy_list, cut_once, debug_text, decimal, decimal_text, join, joined, list_contains,
    quoted, quotes, same, same_list, spaces, split_once, trim, trim_quotes, trimmed_of,
    without_spaces,
};

verus! {

/// A kind of facts that a compiler run yields.
#[derive(Clone, Copy, Debug, PartialEq, Eq, Structural)]
pub enum SemanticProduct {
    HirBodies,
    EffectiveApi,
    References,
    ExpansionDecisions,
}

impl DeepView for SemanticProduct {
    type V = SemanticProduct;

    open spec fn deep_view(&self) -> SemanticProduct {
        *self
    }
}

impl SemanticProduct {
    /// The place of the variant in the declaration.
    pub open spec fn place(self) -> u8 {
        match self {
            SemanticProduct::HirBodies => 0,
            SemanticProduct::EffectiveApi => 1,
            SemanticProduct::References => 2,
            SemanticProduct::ExpansionDecisions => 3,
        }
    }

    fn declared_at(self) -> (place: u8)
        ensures
            place == self.place(),
    {
        match self {
            SemanticProduct::HirBodies => 0,
            SemanticProduct::EffectiveApi => 1,
            SemanticProduct::References => 2,
            SemanticProduct::ExpansionDecisions => 3,
        }
    }
}

/// Ordered as declared.
impl Ordered for SemanticProduct {
    open spec fn precedes(a: SemanticProduct, b: SemanticProduct) -> bool {
        a.place() < b.place()
    }

    proof fn irreflexive(a: SemanticProduct) {
    }

    proof fn transitive(a: SemanticProduct, b: SemanticProduct, c: SemanticProduct) {
    }

    proof fn total(a: SemanticProduct, b: SemanticProduct) {
    }

    fn rank(&self, other: &Self) -> (rank: Rank) {
        let left: u8 = self.declared_at();
        let right: u8 = other.declared_at();
        if left < right {
            Rank::Less
        } else if left == right {
            Rank::Equal
        } else {
            Rank::Greater
        }
    }
}

/// How complete an invocation says that a product is.
#[derive(Debug, PartialEq, Eq)]
pub struct ProductObservation {
    pub product: SemanticProduct,
    pub availability: Availability,
    pub message: Option<String>,
}

/// The model of [`ProductObservation`].
#[verifier::ext_equal]
pub struct ProductObservationView {
    pub product: SemanticProduct,
    pub availability: Availability,
    pub message: Option<Seq<char>>,
}

impl DeepView for ProductObservation {
    type V = ProductObservationView;

    open spec fn deep_view(&self) -> ProductObservationView {
        ProductObservationView {
            product: self.product,
            availability: self.availability,
            message: self.message.deep_view(),
        }
    }
}

impl Clone for ProductObservation {
    fn clone(&self) -> (copy: Self)
        ensures
            copy.deep_view() == self.deep_view(),
    {
        let copy = ProductObservation {
            product: self.product,
            availability: self.availability,
            message: self.message.clone(),
        };
        proof {
            assert(copy.message.deep_view() =~= self.message.deep_view());
        }
        copy
    }
}

/// A correlated invocation with all its facts.
#[derive(Debug, PartialEq, Eq)]
pub struct CompiledInvocation {
    pub correlated: CorrelatedInvocation,
    pub bodies: Vec<Body>,
    pub decisions: Vec<Decision>,
    pub effective: Vec<EffectiveDefinition>,
    pub products: Vec<ProductObservation>,
}

/// The model of [`CompiledInvocation`].
#[verifier::ext_equal]
pub struct CompiledInvocationView {
    pub correlated: CorrelatedInvocationView,
    pub bodies: Seq<BodyView>,
    pub decisions: Seq<DecisionView>,
    pub effective: Seq<EffectiveDefinitionView>,
    pub products: Seq<ProductObservationView>,
}

impl DeepView for CompiledInvocation {
    type V = CompiledInvocationView;

    open spec fn deep_view(&self) -> CompiledInvocationView {
        CompiledInvocationView {
            correlated: self.correlated.deep_view(),
            bodies: self.bodies.deep_view(),
            decisions: self.decisions.deep_view(),
            effective: self.effective.deep_view(),
            products: self.products.deep_view(),
        }
    }
}

/// A generated source file.
#[derive(Debug, PartialEq, Eq)]
pub struct GeneratedFileReport {
    pub path: String,
    pub source_hash: String,
    pub bytes: u64,
    pub lines: LineCounts,
    pub metrics: ComplexityMetrics,
}

/// The model of [`GeneratedFileReport`].
#[verifier::ext_equal]
pub struct GeneratedFileReportView {
    pub path: Seq<char>,
    pub source_hash: Seq<char>,
    pub bytes: u64,
    pub lines: LineCounts,
    pub metrics: ComplexityMetrics,
}

impl DeepView for GeneratedFileReport {
    type V = GeneratedFileReportView;

    open spec fn deep_view(&self) -> GeneratedFileReportView {
        GeneratedFileReportView {
            path: self.path.deep_view(),
            source_hash: self.source_hash.deep_view(),
            bytes: self.bytes,
            lines: self.lines,
            metrics: self.metrics,
        }
    }
}

impl Clone for GeneratedFileReport {
    fn clone(&self) -> (copy: Self)
        ensures
            copy.deep_view() == self.deep_view(),
    {
        let copy = GeneratedFileReport {
            path: self.path.clone(),
            source_hash: self.source_hash.clone(),
            bytes: self.bytes,
            lines: self.lines,
            metrics: self.metrics,
        };
        copy
    }
}

/// How an invocation generated code.
#[derive(Debug, PartialEq, Eq)]
pub struct CompilerCodegenReport {
    pub optimization: String,
    pub panic: String,
    pub debug_assertions: bool,
    pub overflow_checks: bool,
    pub codegen_units: usize,
    pub target_cpu: String,
    pub target_features: Vec<String>,
}

/// The model of [`CompilerCodegenReport`].
#[verifier::ext_equal]
pub struct CompilerCodegenReportView {
    pub optimization: Seq<char>,
    pub panic: Seq<char>,
    pub debug_assertions: bool,
    pub overflow_checks: bool,
    pub codegen_units: usize,
    pub target_cpu: Seq<char>,
    pub target_features: Seq<Seq<char>>,
}

impl DeepView for CompilerCodegenReport {
    type V = CompilerCodegenReportView;

    open spec fn deep_view(&self) -> CompilerCodegenReportView {
        CompilerCodegenReportView {
            optimization: self.optimization.deep_view(),
            panic: self.panic.deep_view(),
            debug_assertions: self.debug_assertions,
            overflow_checks: self.overflow_checks,
            codegen_units: self.codegen_units,
            target_cpu: self.target_cpu.deep_view(),
            target_features: self.target_features.deep_view(),
        }
    }
}

impl Clone for CompilerCodegenReport {
    fn clone(&self) -> (copy: Self)
        ensures
            copy.deep_view() == self.deep_view(),
    {
        let copy = CompilerCodegenReport {
            optimization: self.optimization.clone(),
            panic: self.panic.clone(),
            debug_assertions: self.debug_assertions,
            overflow_checks: self.overflow_checks,
            codegen_units: self.codegen_units,
            target_cpu: self.target_cpu.clone(),
            target_features: self.target_features.clone(),
        };
        proof {
            assert(copy.target_features.deep_view() =~= self.target_features.deep_view());
        }
        copy
    }
}

/// A source file that an invocation read.
#[derive(Debug, PartialEq, Eq)]
pub struct CompilerSourceReport {
    pub path: String,
    pub source_hash_algorithm: String,
    pub source_hash: String,
    pub bytes: u64,
    pub generated: bool,
}

/// The model of [`CompilerSourceReport`].
#[verifier::ext_equal]
pub struct CompilerSourceReportView {
    pub path: Seq<char>,
    pub source_hash_algorithm: Seq<char>,
    pub source_hash: Seq<char>,
    pub bytes: u64,
    pub generated: bool,
}

impl DeepView for CompilerSourceReport {
    type V = CompilerSourceReportView;

    open spec fn deep_view(&self) -> CompilerSourceReportView {
        CompilerSourceReportView {
            path: self.path.deep_view(),
            source_hash_algorithm: self.source_hash_algorithm.deep_view(),
            source_hash: self.source_hash.deep_view(),
            bytes: self.bytes,
            generated: self.generated,
        }
    }
}

impl Clone for CompilerSourceReport {
    fn clone(&self) -> (copy: Self)
        ensures
            copy.deep_view() == self.deep_view(),
    {
        let copy = CompilerSourceReport {
            path: self.path.clone(),
            source_hash_algorithm: self.source_hash_algorithm.clone(),
            source_hash: self.source_hash.clone(),
            bytes: self.bytes,
            generated: self.generated,
        };
        copy
    }
}

/// What an invocation was told to write.
#[derive(Debug, PartialEq, Eq)]
pub struct CompilerArtifactReport {
    pub extra_filename: Option<String>,
    pub metadata: Option<String>,
    pub emit: Vec<String>,
}

/// The model of [`CompilerArtifactReport`].
#[verifier::ext_equal]
pub struct CompilerArtifactReportView {
    pub extra_filename: Option<Seq<char>>,
    pub metadata: Option<Seq<char>>,
    pub emit: Seq<Seq<char>>,
}

impl DeepView for CompilerArtifactReport {
    type V = CompilerArtifactReportView;

    open spec fn deep_view(&self) -> CompilerArtifactReportView {
        CompilerArtifactReportView {
            extra_filename: self.extra_filename.deep_view(),
            metadata: self.metadata.deep_view(),
            emit: self.emit.deep_view(),
        }
    }
}

impl Clone for CompilerArtifactReport {
    fn clone(&self) -> (copy: Self)
        ensures
            copy.deep_view() == self.deep_view(),
    {
        let copy = CompilerArtifactReport {
            extra_filename: self.extra_filename.clone(),
            metadata: self.metadata.clone(),
            emit: self.emit.clone(),
        };
        proof {
            assert(copy.extra_filename.deep_view() =~= self.extra_filename.deep_view());
            assert(copy.metadata.deep_view() =~= self.metadata.deep_view());
            assert(copy.emit.deep_view() =~= self.emit.deep_view());
        }
        copy
    }
}

/// All that one invocation shows.
#[derive(Debug, PartialEq, Eq)]
pub struct UnitReport {
    pub key: String,
    pub target: Option<CompilerTargetReport>,
    pub crate_name: String,
    pub crate_types: Vec<String>,
    pub target_triple: String,
    pub compilation_context: String,
    pub test: bool,
    pub features: Vec<String>,
    pub cfg: Vec<String>,
    pub codegen: Option<CompilerCodegenReport>,
    pub artifact: CompilerArtifactReport,
    pub source_files: u64,
    pub sources: Vec<CompilerSourceReport>,
    pub bodies: u64,
    pub definitions: u64,
    pub public_bindings: u64,
    pub roots: u64,
    pub references: u64,
    pub macro_expansion_decisions: u64,
    pub products: Vec<ProductAvailabilityReport>,
}

/// The model of [`UnitReport`].
#[verifier::ext_equal]
pub struct UnitReportView {
    pub key: Seq<char>,
    pub target: Option<CompilerTargetReportView>,
    pub crate_name: Seq<char>,
    pub crate_types: Seq<Seq<char>>,
    pub target_triple: Seq<char>,
    pub compilation_context: Seq<char>,
    pub test: bool,
    pub features: Seq<Seq<char>>,
    pub cfg: Seq<Seq<char>>,
    pub codegen: Option<CompilerCodegenReportView>,
    pub artifact: CompilerArtifactReportView,
    pub source_files: u64,
    pub sources: Seq<CompilerSourceReportView>,
    pub bodies: u64,
    pub definitions: u64,
    pub public_bindings: u64,
    pub roots: u64,
    pub references: u64,
    pub macro_expansion_decisions: u64,
    pub products: Seq<ProductAvailabilityReportView>,
}

impl DeepView for UnitReport {
    type V = UnitReportView;

    open spec fn deep_view(&self) -> UnitReportView {
        UnitReportView {
            key: self.key.deep_view(),
            target: self.target.deep_view(),
            crate_name: self.crate_name.deep_view(),
            crate_types: self.crate_types.deep_view(),
            target_triple: self.target_triple.deep_view(),
            compilation_context: self.compilation_context.deep_view(),
            test: self.test,
            features: self.features.deep_view(),
            cfg: self.cfg.deep_view(),
            codegen: self.codegen.deep_view(),
            artifact: self.artifact.deep_view(),
            source_files: self.source_files,
            sources: self.sources.deep_view(),
            bodies: self.bodies,
            definitions: self.definitions,
            public_bindings: self.public_bindings,
            roots: self.roots,
            references: self.references,
            macro_expansion_decisions: self.macro_expansion_decisions,
            products: self.products.deep_view(),
        }
    }
}

/// All that a compiler run shows.
#[derive(Debug, PartialEq, Eq)]
pub struct RunReport {
    pub protocol_version: u32,
    pub driver_version: String,
    pub rustc_version: String,
    pub rustc_commit: String,
    pub expected_invocations: u64,
    pub collected_invocations: u64,
    pub correlated_invocations: u64,
    pub invocations: Vec<UnitReport>,
    pub products: Vec<ProductAvailabilityReport>,
    pub effective_api: Option<EffectiveApiReport>,
    pub required_visibility: Option<RequiredVisibilityReport>,
    pub closed_world: Option<ClosedWorldReport>,
    pub macro_expansion_complexity: Option<MacroExpansionComplexityReport>,
    pub generated_files: Vec<GeneratedFileReport>,
}

/// The model of [`RunReport`].
#[verifier::ext_equal]
pub struct RunReportView {
    pub protocol_version: u32,
    pub driver_version: Seq<char>,
    pub rustc_version: Seq<char>,
    pub rustc_commit: Seq<char>,
    pub expected_invocations: u64,
    pub collected_invocations: u64,
    pub correlated_invocations: u64,
    pub invocations: Seq<UnitReportView>,
    pub products: Seq<ProductAvailabilityReportView>,
    pub effective_api: Option<EffectiveApiReportView>,
    pub required_visibility: Option<RequiredVisibilityReportView>,
    pub closed_world: Option<ClosedWorldReportView>,
    pub macro_expansion_complexity: Option<MacroExpansionComplexityReportView>,
    pub generated_files: Seq<GeneratedFileReportView>,
}

impl DeepView for RunReport {
    type V = RunReportView;

    open spec fn deep_view(&self) -> RunReportView {
        RunReportView {
            protocol_version: self.protocol_version,
            driver_version: self.driver_version.deep_view(),
            rustc_version: self.rustc_version.deep_view(),
            rustc_commit: self.rustc_commit.deep_view(),
            expected_invocations: self.expected_invocations,
            collected_invocations: self.collected_invocations,
            correlated_invocations: self.correlated_invocations,
            invocations: self.invocations.deep_view(),
            products: self.products.deep_view(),
            effective_api: self.effective_api.deep_view(),
            required_visibility: self.required_visibility.deep_view(),
            closed_world: self.closed_world.deep_view(),
            macro_expansion_complexity: self.macro_expansion_complexity.deep_view(),
            generated_files: self.generated_files.deep_view(),
        }
    }
}

/// What a compiler run came to.
#[derive(Debug, PartialEq, Eq)]
pub struct Outcome {
    pub report: RunReport,
    pub diagnostics: Vec<Diagnostic>,
    pub profile_incompatibilities: Vec<String>,
}

/// The model of [`Outcome`].
#[verifier::ext_equal]
pub struct OutcomeView {
    pub report: RunReportView,
    pub diagnostics: Seq<DiagnosticView>,
    pub profile_incompatibilities: Seq<Seq<char>>,
}

impl DeepView for Outcome {
    type V = OutcomeView;

    open spec fn deep_view(&self) -> OutcomeView {
        OutcomeView {
            report: self.report.deep_view(),
            diagnostics: self.diagnostics.deep_view(),
            profile_incompatibilities: self.profile_incompatibilities.deep_view(),
        }
    }
}

/// What was collected of a compiler run.
#[derive(Debug, PartialEq, Eq)]
pub struct CollectedRun {
    pub handshake: Handshake,
    pub cargo: CargoRun,
    pub sidecar_errors: Vec<String>,
    pub integrity_errors: Vec<String>,
    /// What is wrong with the sources of a product, by invocation.
    pub product_integrity_errors: SortedMap<(String, SemanticProduct), Vec<String>>,
    /// How many invocations were expected.
    pub expected: usize,
    /// How many of them are accounted for.
    pub correlated: usize,
    pub correlation_errors: Vec<String>,
    pub invocations: Vec<CompiledInvocation>,
    pub generated_files: Vec<GeneratedFileReport>,
}

/// The model of [`CollectedRun`].
#[verifier::ext_equal]
pub struct CollectedRunView {
    pub handshake: HandshakeView,
    pub cargo: CargoRunView,
    pub sidecar_errors: Seq<Seq<char>>,
    pub integrity_errors: Seq<Seq<char>>,
    pub product_integrity_errors: Map<(Seq<char>, SemanticProduct), Seq<Seq<char>>>,
    pub expected: usize,
    pub correlated: usize,
    pub correlation_errors: Seq<Seq<char>>,
    pub invocations: Seq<CompiledInvocationView>,
    pub generated_files: Seq<GeneratedFileReportView>,
}

impl DeepView for CollectedRun {
    type V = CollectedRunView;

    open spec fn deep_view(&self) -> CollectedRunView {
        CollectedRunView {
            handshake: self.handshake.deep_view(),
            cargo: self.cargo.deep_view(),
            sidecar_errors: self.sidecar_errors.deep_view(),
            integrity_errors: self.integrity_errors.deep_view(),
            product_integrity_errors: self.product_integrity_errors.deep_view(),
            expected: self.expected,
            correlated: self.correlated,
            correlation_errors: self.correlation_errors.deep_view(),
            invocations: self.invocations.deep_view(),
            generated_files: self.generated_files.deep_view(),
        }
    }
}

/// What was asked of a compiler run.
#[derive(Debug, PartialEq, Eq)]
pub struct RunSettings {
    /// The cfgs that were asked for.
    pub cfg: Vec<String>,
    /// The platform that was asked for.
    pub target: String,
}

/// The model of [`RunSettings`].
#[verifier::ext_equal]
pub struct RunSettingsView {
    pub cfg: Seq<Seq<char>>,
    pub target: Seq<char>,
}

impl DeepView for RunSettings {
    type V = RunSettingsView;

    open spec fn deep_view(&self) -> RunSettingsView {
        RunSettingsView {
            cfg: self.cfg.deep_view(),
            target: self.target.deep_view(),
        }
    }
}

impl Clone for RunSettings {
    fn clone(&self) -> (copy: Self)
        ensures
            copy.deep_view() == self.deep_view(),
    {
        let copy = RunSettings {
            cfg: self.cfg.clone(),
            target: self.target.clone(),
        };
        proof {
            assert(copy.cfg.deep_view() =~= self.cfg.deep_view());
        }
        copy
    }
}

/// The name of an optimization level.
pub open spec fn optimization_label(value: OptimizationLevel) -> Seq<char> {
    match value {
        OptimizationLevel::Unoptimized => "none"@,
        OptimizationLevel::Less => "less"@,
        OptimizationLevel::More => "more"@,
        OptimizationLevel::Aggressive => "aggressive"@,
        OptimizationLevel::Size => "size"@,
        OptimizationLevel::SizeMin => "size_min"@,
    }
}

/// The name of an optimization level.
pub fn optimization_name(value: OptimizationLevel) -> (name: &'static str)
    ensures
        name@ == optimization_label(value),
{
    match value {
        OptimizationLevel::Unoptimized => "none",
        OptimizationLevel::Less => "less",
        OptimizationLevel::More => "more",
        OptimizationLevel::Aggressive => "aggressive",
        OptimizationLevel::Size => "size",
        OptimizationLevel::SizeMin => "size_min",
    }
}

/// The name of a panic strategy.
pub open spec fn panic_label(value: PanicStrategy) -> Seq<char> {
    match value {
        PanicStrategy::Unwind => "unwind"@,
        PanicStrategy::Abort => "abort"@,
        PanicStrategy::ImmediateAbort => "immediate_abort"@,
    }
}

/// The name of a panic strategy.
pub fn panic_name(value: PanicStrategy) -> (name: &'static str)
    ensures
        name@ == panic_label(value),
{
    match value {
        PanicStrategy::Unwind => "unwind",
        PanicStrategy::Abort => "abort",
        PanicStrategy::ImmediateAbort => "immediate_abort",
    }
}

/// The name of a product.
pub open spec fn product_label(value: SemanticProduct) -> Seq<char> {
    match value {
        SemanticProduct::HirBodies => "hir_bodies"@,
        SemanticProduct::EffectiveApi => "effective_api"@,
        SemanticProduct::References => "references"@,
        SemanticProduct::ExpansionDecisions => "macro_expansion_cyclomatic_delta"@,
    }
}

/// The name of a product.
pub fn product_name(value: SemanticProduct) -> (name: &'static str)
    ensures
        name@ == product_label(value),
{
    match value {
        SemanticProduct::HirBodies => "hir_bodies",
        SemanticProduct::EffectiveApi => "effective_api",
        SemanticProduct::References => "references",
        SemanticProduct::ExpansionDecisions => "macro_expansion_cyclomatic_delta",
    }
}

/// A warning about no place in particular.
pub open spec fn warning_of(message: Seq<char>) -> DiagnosticView {
    DiagnosticView { severity: DiagnosticSeverity::Warning, path: None, message }
}

/// A warning about no place in particular.
pub fn warning(message: String) -> (diagnostic: Diagnostic)
    ensures
        diagnostic.deep_view() == warning_of(message@),
{
    Diagnostic { severity: DiagnosticSeverity::Warning, path: None, message }
}

/// A cfg, written out.
pub open spec fn cfg_text(cfg: CfgValueView) -> Seq<char> {
    match cfg.value {
        Some(value) => cfg.name + "="@ + value,
        None => cfg.name,
    }
}

/// Cfgs, written out in order, each once.
pub open spec fn rendered_cfg(values: Seq<CfgValueView>) -> Seq<Seq<char>> {
    ascending::<String>(image(values, |cfg: CfgValueView| Some(cfg_text(cfg))))
}

/// Writes cfgs out in order, each once.
pub fn render_cfg(values: &Vec<CfgValue>) -> (rendered: Vec<String>)
    ensures
        rendered.deep_view() == rendered_cfg(values.deep_view()),
{
    let ghost f = |cfg: CfgValueView| Some(cfg_text(cfg));
    let pick = |cfg: &CfgValue| -> (text: Option<String>)
        ensures
            text.deep_view() == f(cfg.deep_view()),
    {
        let mut text = cfg.name.clone();
        match &cfg.value {
            Some(value) => {
                text.append("=");
                text.append(value.as_str());
            },
            None => {},
        }
        Some(text)
    };
    collect_set(values, pick, Ghost(f)).into_vec()
}

/// A cfg as it was asked for, in the form that cfgs are written out in.
pub open spec fn normal_cfg(value: Seq<char>) -> Seq<char> {
    match cut_once(compact(value), '=') {
        Some(parts) => parts.0 + "="@ + trimmed_of(parts.1, quotes()),
        None => compact(value),
    }
}

/// Brings a cfg into the form that cfgs are written out in.
pub fn normalize_cfg(value: &str) -> (normal: String)
    ensures
        normal@ == normal_cfg(value@),
{
    let text = without_spaces(value);
    match split_once(text.as_str(), '=') {
        Some(parts) => {
            let mut normal = parts.0;
            normal.append("=");
            normal.append(trim_quotes(parts.1.as_str()).as_str());
            normal
        },
        None => text,
    }
}

/// The number or letter of an optimization level.
pub open spec fn level_text(level: OptimizationLevel) -> Seq<char> {
    match level {
        OptimizationLevel::Unoptimized => "0"@,
        OptimizationLevel::Less => "1"@,
        OptimizationLevel::More => "2"@,
        OptimizationLevel::Aggressive => "3"@,
        OptimizationLevel::Size => "s"@,
        OptimizationLevel::SizeMin => "z"@,
    }
}

fn write_level(level: OptimizationLevel) -> (text: &'static str)
    ensures
        text@ == level_text(level),
{
    match level {
        OptimizationLevel::Unoptimized => "0",
        OptimizationLevel::Less => "1",
        OptimizationLevel::More => "2",
        OptimizationLevel::Aggressive => "3",
        OptimizationLevel::Size => "s",
        OptimizationLevel::SizeMin => "z",
    }
}

/// A truth value, written out.
pub open spec fn bool_text(value: bool) -> Seq<char> {
    if value {
        "true"@
    } else {
        "false"@
    }
}

fn write_bool(value: bool) -> (text: &'static str)
    ensures
        text@ == bool_text(value),
{
    if value {
        "true"
    } else {
        "false"
    }
}

/// Whether two flags differ.
pub open spec fn flags_differ(left: bool, right: bool) -> bool {
    left != right
}

fn differ(left: bool, right: bool) -> (result: bool)
    ensures
        result == flags_differ(left, right),
{
    left != right
}

/// Where Cargo and rustc disagree on how code was generated.
pub open spec fn codegen_issues(observed: CodegenProfileView, expected: CargoProfileView) -> Seq<
    Seq<char>,
> {
    let none = Seq::<Seq<char>>::empty();
    let first = if level_text(observed.optimization) != expected.opt_level {
        none.push(
            "Cargo/rustc optimization mismatch: Cargo="@ + debug_text(expected.opt_level)
                + ", rustc="@ + debug_text(level_text(observed.optimization)),
        )
    } else {
        none
    };
    let assertions_differ = flags_differ(observed.debug_assertions, expected.debug_assertions);
    let second = if assertions_differ {
        first.push(
            "Cargo/rustc debug-assertions mismatch: Cargo="@ + bool_text(
                expected.debug_assertions,
            ) + ", rustc="@ + bool_text(observed.debug_assertions),
        )
    } else {
        first
    };
    if observed.overflow_checks != expected.overflow_checks {
        second.push(
            "Cargo/rustc overflow-checks mismatch: Cargo="@ + bool_text(expected.overflow_checks)
                + ", rustc="@ + bool_text(observed.overflow_checks),
        )
    } else {
        second
    }
}

/// Lists where Cargo and rustc disagree on how code was generated.
pub fn cargo_codegen_issues(observed: &CodegenProfile, expected: &CargoProfile) -> (issues: Vec<
    String,
>)
    ensures
        issues.deep_view() == codegen_issues(observed.deep_view(), expected.deep_view()),
{
    let mut issues: Vec<String> = no_items();
    let level = write_level(observed.optimization);
    if !same(level, expected.opt_level.as_str()) {
        let mut text = "Cargo/rustc optimization mismatch: Cargo=".to_owned();
        text.append(quoted(expected.opt_level.as_str()).as_str());
        text.append(", rustc=");
        text.append(quoted(level).as_str());
        push_item(&mut issues, text);
    }
    let assertions_differ = differ(observed.debug_assertions, expected.debug_assertions);
    if assertions_differ {
        let mut text = "Cargo/rustc debug-assertions mismatch: Cargo=".to_owned();
        text.append(write_bool(expected.debug_assertions));
        text.append(", rustc=");
        text.append(write_bool(observed.debug_assertions));
        push_item(&mut issues, text);
    }
    if observed.overflow_checks != expected.overflow_checks {
        let mut text = "Cargo/rustc overflow-checks mismatch: Cargo=".to_owned();
        text.append(write_bool(expected.overflow_checks));
        text.append(", rustc=");
        text.append(write_bool(observed.overflow_checks));
        push_item(&mut issues, text);
    }
    issues
}

/// Texts in quotes, in brackets.
pub open spec fn list_text(list: Seq<Seq<char>>) -> Seq<char> {
    "["@ + joined(collected(list, |text: Seq<char>| Some(debug_text(text))), ", "@) + "]"@
}

fn write_list(list: &Vec<String>) -> (text: String)
    ensures
        text@ == list_text(list.deep_view()),
{
    let ghost f = |text: Seq<char>| Some(debug_text(text));
    let pick = |text: &String| -> (shown: Option<String>)
        ensures
            shown.deep_view() == f(text.deep_view()),
    {
        Some(quoted(text.as_str()))
    };
    let shown = collect_items(list, pick, Ghost(f));
    let mut text = "[".to_owned();
    text.append(join(&shown, ", ").as_str());
    text.append("]");
    text
}

/// The cfgs that rustc saw.
pub open spec fn observed_cfg(invocation: InvocationView) -> Seq<Seq<char>> {
    match invocation.profile {
        Some(profile) => rendered_cfg(profile.cfg),
        None => Seq::empty(),
    }
}

fn list_observed_cfg(invocation: &Invocation) -> (list: Vec<String>)
    ensures
        list.deep_view() == observed_cfg(invocation.deep_view()),
{
    match &invocation.profile {
        Some(profile) => render_cfg(&profile.cfg),
        None => no_items(),
    }
}

/// Picks a cfg that was asked for and that rustc did not see.
pub open spec fn missing_cfg(seen: Seq<Seq<char>>) -> spec_fn(Seq<char>) -> Option<Seq<char>> {
    |value: Seq<char>|
        if seen.contains(normal_cfg(value)) {
            None
        } else {
            Some(
                "requested cfg "@ + debug_text(normal_cfg(value)) + " was not observed by rustc"@,
            )
        }
}

/// What is amiss with the features of an invocation.
pub open spec fn feature_issue(pair: CorrelatedInvocationView) -> Option<Seq<char>> {
    match (pair.cargo_features, pair.invocation.profile) {
        (Some(features), Some(profile)) => if profile.features != features {
            Some(
                "Cargo/rustc feature mismatch: Cargo="@ + list_text(features) + ", rustc=Some("@
                    + list_text(profile.features) + ")"@,
            )
        } else {
            None
        },
        _ => None,
    }
}

/// What is amiss with how an invocation generated code.
pub open spec fn pair_codegen_issues(pair: CorrelatedInvocationView) -> Seq<Seq<char>> {
    match (pair.invocation.profile, pair.cargo_profile) {
        (Some(profile), Some(cargo)) => codegen_issues(profile.codegen, cargo),
        _ => Seq::empty(),
    }
}

/// Whether an invocation compiled for the host.
pub open spec fn host_only(pair: CorrelatedInvocationView) -> bool {
    pair.invocation.started.compilation_context == CompilationContext::Host
}

/// What is amiss with the platform of an invocation.
pub open spec fn platform_issue(target: Seq<char>, pair: CorrelatedInvocationView) -> Option<
    Seq<char>,
> {
    match pair.invocation.profile {
        None => None,
        Some(profile) => {
            let expected = if host_only(pair) {
                profile.host_triple
            } else {
                target
            };
            if profile.target_triple != expected {
                Some(
                    "rustc target mismatch: expected "@ + expected + ", observed "@
                        + profile.target_triple,
                )
            } else {
                None
            }
        },
    }
}

/// A set with one more text, where there is one.
pub open spec fn with_optional(set: Set<Seq<char>>, text: Option<Seq<char>>) -> Set<Seq<char>> {
    match text {
        Some(text) => set.insert(text),
        None => set,
    }
}

fn add_optional(set: &mut SortedSet<String>, text: Option<String>)
    requires
        old(set).wf(),
    ensures
        final(set).wf(),
        final(set).deep_view() == with_optional(old(set).deep_view(), text.deep_view()),
{
    if let Some(text) = text {
        set.insert(text);
    }
}

fn add_list(set: &mut SortedSet<String>, list: &Vec<String>)
    requires
        old(set).wf(),
    ensures
        final(set).wf(),
        final(set).deep_view() == old(set).deep_view().union(list.deep_view().to_set()),
{
    let ghost before = set.deep_view();
    let ghost all = list.deep_view();
    let mut index: usize = 0;
    proof {
        assert(all.take(0).to_set() =~= Set::empty());
        assert(before.union(all.take(0).to_set()) =~= before);
    }
    while index < list.len()
        invariant
            all == list.deep_view(),
            set.wf(),
            index <= all.len(),
            set.deep_view() == before.union(all.take(index as int).to_set()),
        decreases all.len() - index,
    {
        let text = list[index].clone();
        proof {
            assert(all[index as int] == text@);
            lemma_prefix_set(all, index as int);
        }
        let ghost said = text@;
        set.insert(text);
        proof {
            assert(before.union(all.take(index as int).to_set()).insert(said) =~= before.union(
                all.take(index as int).to_set().insert(said),
            ));
        }
        index = index + 1;
    }
    proof {
        assert(all.take(all.len() as int) =~= all);
    }
}

/// All that is amiss with an invocation.
pub open spec fn issue_set(settings: RunSettingsView, pair: CorrelatedInvocationView) -> Set<
    Seq<char>,
> {
    let told = with_optional(Set::empty(), pair.issue);
    let concrete = with_optional(
        told,
        if pair.invocation.profile is None {
            Some("compiler invocation has no concrete profile"@)
        } else {
            None
        },
    );
    let succeeded = with_optional(
        concrete,
        if pair.invocation.finished.rustc_success {
            None
        } else {
            Some("rustc invocation failed"@)
        },
    );
    let featured = with_optional(succeeded, feature_issue(pair));
    let generated = featured.union(pair_codegen_issues(pair).to_set());
    let placed = with_optional(generated, platform_issue(settings.target, pair));
    if host_only(pair) {
        placed
    } else {
        placed.union(image(settings.cfg, missing_cfg(observed_cfg(pair.invocation))))
    }
}

/// All that is amiss with an invocation, in order.
pub open spec fn issues_of(settings: RunSettingsView, pair: CorrelatedInvocationView) -> Seq<
    Seq<char>,
> {
    ascending::<String>(issue_set(settings, pair))
}

/// Lists all that is amiss with an invocation.
pub fn invocation_issues(settings: &RunSettings, pair: &CorrelatedInvocation) -> (issues: Vec<
    String,
>)
    ensures
        issues.deep_view() == issues_of(settings.deep_view(), pair.deep_view()),
{
    let invocation = &pair.invocation;
    let mut issues: SortedSet<String> = SortedSet::new();
    let told = pair.issue.clone();
    proof {
        assert(told.deep_view() == pair.issue.deep_view());
    }
    add_optional(&mut issues, told);
    add_optional(
        &mut issues,
        if invocation.profile.is_none() {
            Some("compiler invocation has no concrete profile".to_owned())
        } else {
            None
        },
    );
    add_optional(
        &mut issues,
        if invocation.finished.rustc_success {
            None
        } else {
            Some("rustc invocation failed".to_owned())
        },
    );
    let features = match (&pair.cargo_features, &invocation.profile) {
        (Some(features), Some(profile)) => if same_list(&profile.features, features) {
            None
        } else {
            let mut text = "Cargo/rustc feature mismatch: Cargo=".to_owned();
            text.append(write_list(features).as_str());
            text.append(", rustc=Some(");
            text.append(write_list(&profile.features).as_str());
            text.append(")");
            Some(text)
        },
        _ => None,
    };
    add_optional(&mut issues, features);
    let generated = match (&invocation.profile, &pair.cargo_profile) {
        (Some(profile), Some(cargo)) => cargo_codegen_issues(&profile.codegen, cargo),
        _ => no_items(),
    };
    add_list(&mut issues, &generated);
    let for_host = is_host_only(pair);
    let platform = match &invocation.profile {
        None => None,
        Some(profile) => {
            let expected = if for_host {
                profile.host_triple.as_str()
            } else {
                settings.target.as_str()
            };
            if same(profile.target_triple.as_str(), expected) {
                None
            } else {
                let mut text = "rustc target mismatch: expected ".to_owned();
                text.append(expected);
                text.append(", observed ");
                text.append(profile.target_triple.as_str());
                Some(text)
            }
        },
    };
    add_optional(&mut issues, platform);
    if !for_host {
        let seen = list_observed_cfg(invocation);
        let ghost f = missing_cfg(seen.deep_view());
        let pick = |value: &String| -> (text: Option<String>)
            ensures
                text.deep_view() == f(value.deep_view()),
        {
            let normal = normalize_cfg(value.as_str());
            if list_contains(&seen, normal.as_str()) {
                None
            } else {
                let mut text = "requested cfg ".to_owned();
                text.append(quoted(normal.as_str()).as_str());
                text.append(" was not observed by rustc");
                Some(text)
            }
        };
        let missing = collect_set(&settings.cfg, pick, Ghost(f));
        add_members(&mut issues, &missing);
    }
    proof {
        assert(issues.deep_view() == issue_set(settings.deep_view(), pair.deep_view()));
        issues.lemma_seq();
    }
    issues.into_vec()
}

/// Whether an invocation compiled for the host.
pub fn is_host_only(pair: &CorrelatedInvocation) -> (result: bool)
    ensures
        result == host_only(pair.deep_view()),
{
    pair.invocation.started.compilation_context == CompilationContext::Host
}

/// How complete a product is.
pub open spec fn availability_status(value: Availability) -> SemanticStatus {
    match value {
        Availability::Complete => SemanticStatus::Complete,
        Availability::Partial => SemanticStatus::Partial,
        Availability::Unavailable => SemanticStatus::Unavailable,
    }
}

/// How complete a product is.
pub fn availability(value: Availability) -> (status: SemanticStatus)
    ensures
        status == availability_status(value),
{
    match value {
        Availability::Complete => SemanticStatus::Complete,
        Availability::Partial => SemanticStatus::Partial,
        Availability::Unavailable => SemanticStatus::Unavailable,
    }
}

/// Whether a body came from a macro.
pub open spec fn macro_body() -> spec_fn(BodyView) -> bool {
    |body: BodyView| from_macro(body.expansion_origin)
}

/// Whether an invocation shows facts of a product.
pub open spec fn has_facts(unit: CompiledInvocationView, product: SemanticProduct) -> bool {
    let invocation = unit.correlated.invocation;
    match product {
        SemanticProduct::HirBodies => invocation.sources.len() > 0 || unit.bodies.len() > 0,
        SemanticProduct::EffectiveApi => unit.effective.len() > 0 || invocation.bindings.len() > 0,
        SemanticProduct::References => invocation.references.len() > 0 || invocation.roots.len()
            > 0,
        SemanticProduct::ExpansionDecisions => unit.decisions.len() > 0 || any_where(
            unit.bodies,
            macro_body(),
        ),
    }
}

/// Whether an invocation shows facts of a product.
pub fn product_has_facts(unit: &CompiledInvocation, product: SemanticProduct) -> (result: bool)
    ensures
        result == has_facts(unit.deep_view(), product),
{
    let invocation = &unit.correlated.invocation;
    proof {
        let view = unit.deep_view();
        assert(view.bodies.len() == unit.bodies.len());
        assert(view.effective.len() == unit.effective.len());
        assert(view.decisions.len() == unit.decisions.len());
        assert(view.correlated.invocation.sources.len() == invocation.sources.len());
        assert(view.correlated.invocation.bindings.len() == invocation.bindings.len());
        assert(view.correlated.invocation.references.len() == invocation.references.len());
        assert(view.correlated.invocation.roots.len() == invocation.roots.len());
    }
    match product {
        SemanticProduct::HirBodies => invocation.sources.len() > 0 || unit.bodies.len() > 0,
        SemanticProduct::EffectiveApi => unit.effective.len() > 0 || invocation.bindings.len() > 0,
        SemanticProduct::References => invocation.references.len() > 0 || invocation.roots.len()
            > 0,
        SemanticProduct::ExpansionDecisions => {
            let ghost property = macro_body();
            let test = |body: &Body| -> (result: bool)
                ensures
                    result == property(body.deep_view()),
            {
                is_macro(body.expansion_origin)
            };
            unit.decisions.len() > 0 || any_item(&unit.bodies, test, Ghost(property))
        },
    }
}

/// What is wrong with the sources of a product.
pub open spec fn integrity_of(
    errors: Map<(Seq<char>, SemanticProduct), Seq<Seq<char>>>,
    unit: CompiledInvocationView,
    product: SemanticProduct,
) -> Seq<Seq<char>> {
    let key = (unit.correlated.invocation.started.merge_key, product);
    if errors.dom().contains(key) {
        errors[key]
    } else {
        Seq::empty()
    }
}

fn list_integrity(
    errors: &SortedMap<(String, SemanticProduct), Vec<String>>,
    unit: &CompiledInvocation,
    product: SemanticProduct,
) -> (list: Vec<String>)
    requires
        errors.wf(),
    ensures
        list.deep_view() == integrity_of(errors.deep_view(), unit.deep_view(), product),
{
    let key = (unit.correlated.invocation.started.merge_key.0.clone(), product);
    match errors.get(&key) {
        Some(list) => copy_list(list),
        None => no_items(),
    }
}

/// How complete a product of an invocation is, given all that is amiss.
pub open spec fn product_of(
    issues: Seq<Seq<char>>,
    integrity: Seq<Seq<char>>,
    facts: bool,
    raw: ProductObservationView,
) -> ProductAvailabilityReportView {
    let all = issues.to_set().union(integrity.to_set());
    let clean = ascending::<String>(all).len() == 0;
    let raw_status = availability_status(raw.availability);
    let status = if clean || raw_status == SemanticStatus::Unavailable {
        raw_status
    } else if facts {
        SemanticStatus::Partial
    } else {
        SemanticStatus::Unavailable
    };
    let told = with_optional(Set::empty(), raw.message);
    let reasons = ascending::<String>(
        if raw_status != status || !clean {
            told.union(all)
        } else {
            told
        },
    );
    ProductAvailabilityReportView {
        product: product_label(raw.product),
        status,
        reason: if status == SemanticStatus::Complete || reasons.len() == 0 {
            None
        } else {
            Some(joined(reasons, "; "@))
        },
    }
}

fn report_product(
    issues: &Vec<String>,
    integrity: &Vec<String>,
    facts: bool,
    raw: &ProductObservation,
) -> (report: ProductAvailabilityReport)
    ensures
        report.deep_view() == product_of(
            issues.deep_view(),
            integrity.deep_view(),
            facts,
            raw.deep_view(),
        ),
{
    let mut all: SortedSet<String> = SortedSet::new();
    add_list(&mut all, issues);
    proof {
        assert(all.deep_view() =~= issues.deep_view().to_set());
    }
    add_list(&mut all, integrity);
    proof {
        all.lemma_seq();
    }
    let clean = all.len() == 0;
    let raw_status = availability(raw.availability);
    let status = if clean || raw_status == SemanticStatus::Unavailable {
        raw_status
    } else if facts {
        SemanticStatus::Partial
    } else {
        SemanticStatus::Unavailable
    };
    let mut reasons: SortedSet<String> = SortedSet::new();
    let message = raw.message.clone();
    proof {
        assert(message.deep_view() == raw.message.deep_view());
    }
    add_optional(&mut reasons, message);
    if raw_status != status || !clean {
        add_members(&mut reasons, &all);
    }
    proof {
        reasons.lemma_seq();
    }
    let list = reasons.into_vec();
    proof {
        assert(list.len() == list.deep_view().len());
    }
    ProductAvailabilityReport {
        product: product_name(raw.product).to_owned(),
        status,
        reason: if status == SemanticStatus::Complete || list.len() == 0 {
            None
        } else {
            Some(join(&list, "; "))
        },
    }
}

/// Picks the report of a product of an invocation.
pub open spec fn unit_product(
    settings: RunSettingsView,
    errors: Map<(Seq<char>, SemanticProduct), Seq<Seq<char>>>,
    unit: CompiledInvocationView,
) -> spec_fn(ProductObservationView) -> Option<ProductAvailabilityReportView> {
    |raw: ProductObservationView|
        Some(
            product_of(
                issues_of(settings, unit.correlated),
                integrity_of(errors, unit, raw.product),
                has_facts(unit, raw.product),
                raw,
            ),
        )
}

/// How an invocation generated code.
pub open spec fn codegen_of(profile: Option<ProfileView>) -> Option<CompilerCodegenReportView> {
    match profile {
        None => None,
        Some(profile) => Some(
            CompilerCodegenReportView {
                optimization: optimization_label(profile.codegen.optimization),
                panic: panic_label(profile.codegen.panic),
                debug_assertions: profile.codegen.debug_assertions,
                overflow_checks: profile.codegen.overflow_checks,
                codegen_units: profile.codegen.codegen_units,
                target_cpu: profile.codegen.target_cpu,
                target_features: profile.codegen.target_features,
            },
        ),
    }
}

fn report_codegen(profile: &Option<Profile>) -> (report: Option<CompilerCodegenReport>)
    ensures
        report.deep_view() == codegen_of(profile.deep_view()),
{
    match profile {
        None => None,
        Some(profile) => Some(
            CompilerCodegenReport {
                optimization: optimization_name(profile.codegen.optimization).to_owned(),
                panic: panic_name(profile.codegen.panic).to_owned(),
                debug_assertions: profile.codegen.debug_assertions,
                overflow_checks: profile.codegen.overflow_checks,
                codegen_units: profile.codegen.codegen_units,
                target_cpu: profile.codegen.target_cpu.clone(),
                target_features: copy_list(&profile.codegen.target_features),
            },
        ),
    }
}

/// Who owns the sources of an invocation: its package, or else its crate.
pub open spec fn owner_of(invocation: InvocationView) -> Seq<char> {
    match invocation.started.package_name {
        Some(name) => name,
        None => invocation.started.crate_name,
    }
}

/// Who owns the sources of an invocation.
pub fn owner<'a>(invocation: &'a Invocation) -> (owner: &'a str)
    ensures
        owner@ == owner_of(invocation.deep_view()),
{
    match &invocation.started.package_name {
        Some(name) => name.as_str(),
        None => invocation.started.crate_name.as_str(),
    }
}

/// A path as it is shown: below the root, where it lies there.
pub open spec fn shown_path(root: Seq<char>, path: Seq<char>) -> Seq<char> {
    portable_path(
        match path_below(path, root) {
            Some(rest) => rest,
            None => path,
        },
    )
}

fn show_path(root: &str, path: &str) -> (text: String)
    ensures
        text@ == shown_path(root@, path@),
{
    match strip_base(path, root) {
        Some(rest) => portable(rest.as_str()),
        None => portable(path),
    }
}

/// The report of a source file.
pub open spec fn reported_source(root: Seq<char>, invocation: InvocationView) -> spec_fn(
    SourceFileView,
) -> Option<CompilerSourceReportView> {
    |source: SourceFileView|
        Some(
            CompilerSourceReportView {
                path: if source.generated {
                    generated_label_of(
                        owner_of(invocation),
                        match source.local_path {
                            Some(path) => path,
                            None => source.remapped_path,
                        },
                        source.source_hash,
                    )
                } else {
                    match source.local_path {
                        Some(path) => shown_path(root, path),
                        None => source.remapped_path,
                    }
                },
                source_hash_algorithm: source.source_hash_algorithm,
                source_hash: source.source_hash,
                bytes: source.byte_len as u64,
                generated: source.generated,
            },
        )
}

fn report_sources(root: &str, invocation: &Invocation) -> (list: Vec<CompilerSourceReport>)
    ensures
        list.deep_view() == collected(
            invocation.deep_view().sources,
            reported_source(root@, invocation.deep_view()),
        ),
{
    let ghost f = reported_source(root@, invocation.deep_view());
    let pick = |source: &SourceFile| -> (report: Option<CompilerSourceReport>)
        ensures
            report.deep_view() == f(source.deep_view()),
    {
        let path = if source.generated {
            let local = match &source.local_path {
                Some(path) => path.as_str(),
                None => source.remapped_path.as_str(),
            };
            generated_source_label(owner(invocation), local, source.source_hash.as_str())
        } else {
            match &source.local_path {
                Some(path) => show_path(root, path.as_str()),
                None => source.remapped_path.clone(),
            }
        };
        Some(
            CompilerSourceReport {
                path,
                source_hash_algorithm: source.source_hash_algorithm.clone(),
                source_hash: source.source_hash.clone(),
                bytes: source.byte_len as u64,
                generated: source.generated,
            },
        )
    };
    collect_items(&invocation.sources, pick, Ghost(f))
}

/// All that one invocation shows.
#[verifier::opaque]
pub open spec fn unit_report(
    settings: RunSettingsView,
    root: Seq<char>,
    errors: Map<(Seq<char>, SemanticProduct), Seq<Seq<char>>>,
    unit: CompiledInvocationView,
) -> UnitReportView {
    let invocation = unit.correlated.invocation;
    UnitReportView {
        key: invocation.started.merge_key,
        target: unit.correlated.target,
        crate_name: invocation.started.crate_name,
        crate_types: invocation.started.artifact.crate_types,
        target_triple: match invocation.profile {
            Some(profile) => profile.target_triple,
            None => invocation.started.target_triple,
        },
        compilation_context: context_name(invocation.started.compilation_context),
        test: invocation.started.test_mode,
        features: match invocation.profile {
            Some(profile) => profile.features,
            None => match unit.correlated.cargo_features {
                Some(features) => features,
                None => Seq::empty(),
            },
        },
        cfg: observed_cfg(invocation),
        codegen: codegen_of(invocation.profile),
        artifact: CompilerArtifactReportView {
            extra_filename: invocation.started.artifact.extra_filename,
            metadata: invocation.started.artifact.metadata,
            emit: invocation.started.artifact.emit,
        },
        source_files: invocation.sources.len() as u64,
        sources: collected(invocation.sources, reported_source(root, invocation)),
        bodies: unit.bodies.len() as u64,
        definitions: unit.effective.len() as u64,
        public_bindings: invocation.bindings.len() as u64,
        roots: invocation.roots.len() as u64,
        references: invocation.references.len() as u64,
        macro_expansion_decisions: unit.decisions.len() as u64,
        products: collected(unit.products, unit_product(settings, errors, unit)),
    }
}

/// Reports all that one invocation shows.
pub fn invocation_report(
    settings: &RunSettings,
    root: &str,
    errors: &SortedMap<(String, SemanticProduct), Vec<String>>,
    unit: &CompiledInvocation,
) -> (report: UnitReport)
    requires
        errors.wf(),
    ensures
        report.deep_view() == unit_report(
            settings.deep_view(),
            root@,
            errors.deep_view(),
            unit.deep_view(),
        ),
{
    proof {
        reveal(unit_report);
    }
    let invocation = &unit.correlated.invocation;
    let started = &invocation.started;
    let issues = invocation_issues(settings, &unit.correlated);
    let ghost f = unit_product(settings.deep_view(), errors.deep_view(), unit.deep_view());
    let pick = |raw: &ProductObservation| -> (report: Option<ProductAvailabilityReport>)
        ensures
            report.deep_view() == f(raw.deep_view()),
    {
        let integrity = list_integrity(errors, unit, raw.product);
        Some(report_product(&issues, &integrity, product_has_facts(unit, raw.product), raw))
    };
    let products = collect_items(&unit.products, pick, Ghost(f));
    let target = unit.correlated.target.clone();
    let extra_filename = started.artifact.extra_filename.clone();
    let metadata = started.artifact.metadata.clone();
    proof {
        let view = unit.deep_view();
        assert(target.deep_view() == view.correlated.target);
        assert(extra_filename.deep_view() == started.artifact.extra_filename.deep_view());
        assert(metadata.deep_view() == started.artifact.metadata.deep_view());
        assert(view.bodies.len() == unit.bodies.len());
        assert(view.effective.len() == unit.effective.len());
        assert(view.decisions.len() == unit.decisions.len());
        assert(view.correlated.invocation.sources.len() == invocation.sources.len());
        assert(view.correlated.invocation.bindings.len() == invocation.bindings.len());
        assert(view.correlated.invocation.references.len() == invocation.references.len());
        assert(view.correlated.invocation.roots.len() == invocation.roots.len());
    }
    let features = match &invocation.profile {
        Some(profile) => copy_list(&profile.features),
        None => match &unit.correlated.cargo_features {
            Some(features) => copy_list(features),
            None => no_items(),
        },
    };
    let target_triple = match &invocation.profile {
        Some(profile) => profile.target_triple.clone(),
        None => started.target_triple.clone(),
    };
    UnitReport {
        key: started.merge_key.0.clone(),
        target,
        crate_name: started.crate_name.clone(),
        crate_types: copy_list(&started.artifact.crate_types),
        target_triple,
        compilation_context: compilation_context_name(started.compilation_context).to_owned(),
        test: started.test_mode,
        features,
        cfg: list_observed_cfg(invocation),
        codegen: report_codegen(&invocation.profile),
        artifact: CompilerArtifactReport {
            extra_filename,
            metadata,
            emit: copy_list(&started.artifact.emit),
        },
        source_files: invocation.sources.len() as u64,
        sources: report_sources(root, invocation),
        bodies: unit.bodies.len() as u64,
        definitions: unit.effective.len() as u64,
        public_bindings: invocation.bindings.len() as u64,
        roots: invocation.roots.len() as u64,
        references: invocation.references.len() as u64,
        macro_expansion_decisions: unit.decisions.len() as u64,
        products,
    }
}

/// Whether a report is of a product.
pub open spec fn is_product(name: Seq<char>) -> spec_fn(ProductAvailabilityReportView) -> bool {
    |report: ProductAvailabilityReportView| report.product == name
}

/// Picks the report of a product from what an invocation shows.
pub open spec fn product_in(name: Seq<char>) -> spec_fn(UnitReportView) -> Option<
    ProductAvailabilityReportView,
> {
    |unit: UnitReportView| first_where(unit.products, is_product(name))
}

fn find_product<'a>(products: &'a Vec<ProductAvailabilityReport>, name: &str) -> (found: Option<
    &'a ProductAvailabilityReport,
>)
    ensures
        found.deep_view() == first_where(products.deep_view(), is_product(name@)),
{
    let ghost property = is_product(name@);
    let test = |report: &ProductAvailabilityReport| -> (result: bool)
        ensures
            result == property(report.deep_view()),
    {
        same(report.product.as_str(), name)
    };
    find_first(products, test, Ghost(property))
}

/// Whether a product has a status.
pub open spec fn has_status(status: SemanticStatus) -> spec_fn(ProductAvailabilityReportView) -> bool {
    |report: ProductAvailabilityReportView| report.status == status
}

fn any_with_status(reports: &Vec<ProductAvailabilityReport>, status: SemanticStatus) -> (result:
    bool)
    ensures
        result == any_where(reports.deep_view(), has_status(status)),
{
    let ghost property = has_status(status);
    let test = |report: &ProductAvailabilityReport| -> (result: bool)
        ensures
            result == property(report.deep_view()),
    {
        report.status == status
    };
    any_item(reports, test, Ghost(property))
}

/// Picks the reason of a product.
pub open spec fn given_reason() -> spec_fn(ProductAvailabilityReportView) -> Option<Seq<char>> {
    |report: ProductAvailabilityReportView| report.reason
}

/// How complete a product is over all invocations.
#[verifier::opaque]
pub open spec fn overall_product(
    units: Seq<UnitReportView>,
    expected: usize,
    transport_clean: bool,
    product: SemanticProduct,
) -> ProductAvailabilityReportView {
    let statuses = collected(units, product_in(product_label(product)));
    let reasons = collected(statuses, given_reason());
    let all_complete = statuses.len() == expected && count_where(
        statuses,
        has_status(SemanticStatus::Complete),
    ) == statuses.len();
    let status = if transport_clean && expected > 0 && units.len() == expected && all_complete {
        SemanticStatus::Complete
    } else if any_where(statuses, has_status(SemanticStatus::Complete)) || any_where(
        statuses,
        has_status(SemanticStatus::Partial),
    ) {
        SemanticStatus::Partial
    } else {
        SemanticStatus::Unavailable
    };
    ProductAvailabilityReportView {
        product: product_label(product),
        status,
        reason: if status == SemanticStatus::Complete {
            None
        } else if reasons.len() > 0 {
            Some(reasons[0])
        } else {
            Some("not complete for every expected Cargo invocation"@)
        },
    }
}

fn report_overall(
    units: &Vec<UnitReport>,
    expected: usize,
    transport_clean: bool,
    product: SemanticProduct,
) -> (report: ProductAvailabilityReport)
    ensures
        report.deep_view() == overall_product(
            units.deep_view(),
            expected,
            transport_clean,
            product,
        ),
{
    proof {
        reveal(overall_product);
    }
    let ghost f = product_in(product_label(product));
    let pick = |unit: &UnitReport| -> (report: Option<ProductAvailabilityReport>)
        ensures
            report.deep_view() == f(unit.deep_view()),
    {
        match find_product(&unit.products, product_name(product)) {
            Some(report) => Some(report.clone()),
            None => None,
        }
    };
    let statuses = collect_items(units, pick, Ghost(f));
    let ghost complete = has_status(SemanticStatus::Complete);
    let test = |report: &ProductAvailabilityReport| -> (result: bool)
        ensures
            result == complete(report.deep_view()),
    {
        report.status == SemanticStatus::Complete
    };
    let complete_count = count_items(&statuses, test, Ghost(complete));
    proof {
        assert(statuses.len() == statuses.deep_view().len());
        assert(units.len() == units.deep_view().len());
    }
    let all_complete = statuses.len() == expected && complete_count == statuses.len();
    let status = if transport_clean && expected > 0 && units.len() == expected && all_complete {
        SemanticStatus::Complete
    } else if any_with_status(&statuses, SemanticStatus::Complete) || any_with_status(
        &statuses,
        SemanticStatus::Partial,
    ) {
        SemanticStatus::Partial
    } else {
        SemanticStatus::Unavailable
    };
    let ghost g = given_reason();
    let pick_reason = |report: &ProductAvailabilityReport| -> (reason: Option<String>)
        ensures
            reason.deep_view() == g(report.deep_view()),
    {
        let reason = report.reason.clone();
        proof {
            assert(reason.deep_view() == report.reason.deep_view());
        }
        reason
    };
    let reasons = collect_items(&statuses, pick_reason, Ghost(g));
    proof {
        assert(reasons.len() == reasons.deep_view().len());
        if reasons.len() > 0 {
            assert(reasons.deep_view()[0] == reasons[0]@);
        }
    }
    ProductAvailabilityReport {
        product: product_name(product).to_owned(),
        status,
        reason: if status == SemanticStatus::Complete {
            None
        } else if reasons.len() > 0 {
            Some(reasons[0].clone())
        } else {
            Some("not complete for every expected Cargo invocation".to_owned())
        },
    }
}

/// How complete each product is over all invocations.
pub open spec fn overall_products(
    units: Seq<UnitReportView>,
    expected: usize,
    transport_clean: bool,
) -> Seq<ProductAvailabilityReportView> {
    seq![
        overall_product(units, expected, transport_clean, SemanticProduct::HirBodies),
        overall_product(units, expected, transport_clean, SemanticProduct::EffectiveApi),
        overall_product(units, expected, transport_clean, SemanticProduct::References),
        overall_product(units, expected, transport_clean, SemanticProduct::ExpansionDecisions),
    ]
}

/// Reports how complete each product is over all invocations.
pub fn aggregate_products(units: &Vec<UnitReport>, expected: usize, transport_clean: bool) -> (
    products: Vec<ProductAvailabilityReport>)
    ensures
        products.deep_view() == overall_products(units.deep_view(), expected, transport_clean),
{
    let mut products: Vec<ProductAvailabilityReport> = no_items();
    push_item(
        &mut products,
        report_overall(units, expected, transport_clean, SemanticProduct::HirBodies),
    );
    push_item(
        &mut products,
        report_overall(units, expected, transport_clean, SemanticProduct::EffectiveApi),
    );
    push_item(
        &mut products,
        report_overall(units, expected, transport_clean, SemanticProduct::References),
    );
    push_item(
        &mut products,
        report_overall(units, expected, transport_clean, SemanticProduct::ExpansionDecisions),
    );
    proof {
        assert(products.deep_view() =~= overall_products(
            units.deep_view(),
            expected,
            transport_clean,
        ));
    }
    products
}

/// A product that not every expected invocation completed is never complete.
pub proof fn law_products_are_complete_together(
    units: Seq<UnitReportView>,
    expected: usize,
    transport_clean: bool,
    product: SemanticProduct,
)
    requires
        !transport_clean || expected == 0 || units.len() != expected || any_where(
            collected(units, product_in(product_label(product))),
            |report: ProductAvailabilityReportView| report.status != SemanticStatus::Complete,
        ),
    ensures
        overall_product(units, expected, transport_clean, product).status
            != SemanticStatus::Complete,
        overall_product(units, expected, transport_clean, product).reason is Some,
{
    reveal(overall_product);
    let statuses = collected(units, product_in(product_label(product)));
    let complete = has_status(SemanticStatus::Complete);
    let lacking = |report: ProductAvailabilityReportView|
        report.status != SemanticStatus::Complete;
    if any_where(statuses, lacking) {
        let i = choose|i: int| 0 <= i < statuses.len() && lacking(#[trigger] statuses[i]);
        lemma_count_misses(statuses, complete, i);
    }
}

/// Not everything counts where the property fails once.
proof fn lemma_count_misses<A>(s: Seq<A>, property: spec_fn(A) -> bool, i: int)
    requires
        0 <= i < s.len(),
        !property(s[i]),
    ensures
        count_where(s, property) < s.len(),
    decreases s.len(),
{
    if i < s.len() - 1 {
        assert(s.drop_last()[i] == s[i]);
        lemma_count_misses(s.drop_last(), property, i);
    } else {
        crate::collections::lemma_count_bound(s.drop_last(), property);
    }
}

/// Picks the build-script output of a package: its directory and cfgs.
pub open spec fn output_of(known: Seq<CanonicalPathView>, package_id: Seq<char>) -> spec_fn(
    BuildScriptOutputView,
) -> Option<(Seq<(usize, Seq<char>)>, Seq<Seq<char>>)> {
    |output: BuildScriptOutputView|
        if output.package_id == package_id {
            Some((canonical_key(known, output.out_dir), output.cfg))
        } else {
            None
        }
}

/// Picks an output in a directory.
pub open spec fn output_at(directory: Seq<(usize, Seq<char>)>) -> spec_fn(
    (Seq<(usize, Seq<char>)>, Seq<Seq<char>>),
) -> Option<Seq<Seq<char>>> {
    |output: (Seq<(usize, Seq<char>)>, Seq<Seq<char>>)|
        if output.0 == directory {
            Some(output.1)
        } else {
            None
        }
}

/// Picks a cfg of a build script that an invocation did not see.
pub open spec fn unseen_cfg(
    package_id: Seq<char>,
    crate_name: Seq<char>,
    seen: Seq<Seq<char>>,
) -> spec_fn(Seq<char>) -> Option<Seq<char>> {
    |cfg: Seq<char>|
        if seen.contains(normal_cfg(cfg)) {
            None
        } else {
            Some(
                "Cargo build-script cfg "@ + debug_text(normal_cfg(cfg)) + " for "@ + package_id
                    + " was not observed by "@ + crate_name,
            )
        }
}

/// What is amiss between an invocation and the build script of its package.
#[verifier::opaque]
pub open spec fn script_issues(
    known: Seq<CanonicalPathView>,
    outputs: Seq<BuildScriptOutputView>,
    pair: CorrelatedInvocationView,
) -> Seq<Seq<char>> {
    let started = pair.invocation.started;
    match pair.target {
        Some(target) if target.role != "build"@ => {
            let own = collected(outputs, output_of(known, target.package_id));
            if own.len() == 0 {
                Seq::empty()
            } else {
                match started.build_script_out_dir {
                    None => seq![
                        "compiler invocation "@ + started.crate_name
                            + " omitted Cargo build-script OUT_DIR for "@ + target.package_id,
                    ],
                    Some(directory) => {
                        let matched = collected(own, output_at(canonical_key(known, directory)));
                        if matched.len() != 1 {
                            seq![
                                "compiler invocation "@ + started.crate_name
                                    + " has an unmatched Cargo build-script OUT_DIR for "@
                                    + target.package_id,
                            ]
                        } else {
                            collected(
                                matched[0],
                                unseen_cfg(
                                    target.package_id,
                                    started.crate_name,
                                    observed_cfg(pair.invocation),
                                ),
                            )
                        }
                    },
                }
            }
        },
        _ => Seq::empty(),
    }
}

/// Issues added to those found before.
pub open spec fn with_issues(current: Option<Seq<char>>, issues: Seq<Seq<char>>) -> Option<
    Seq<char>,
>
    decreases issues.len(),
{
    if issues.len() == 0 {
        current
    } else {
        with_issue(with_issues(current, issues.drop_last()), issues.last())
    }
}

fn one_text(text: String) -> (list: Vec<String>)
    ensures
        list.deep_view() == seq![text@],
{
    let mut list: Vec<String> = no_items();
    push_item(&mut list, text);
    proof {
        assert(list.deep_view() =~= seq![text@]);
    }
    list
}

/// Lists what is amiss between an invocation and the build script of its package.
pub fn build_script_issues(
    places: &Locations,
    outputs: &Vec<BuildScriptOutput>,
    pair: &CorrelatedInvocation,
) -> (issues: Vec<String>)
    ensures
        issues.deep_view() == script_issues(
            places.deep_view().canonical,
            outputs.deep_view(),
            pair.deep_view(),
        ),
{
    proof {
        reveal(script_issues);
    }
    let started = &pair.invocation.started;
    let target = match &pair.target {
        Some(target) => target,
        None => {
            return no_items();
        },
    };
    if same(target.role.as_str(), "build") {
        return no_items();
    }
    let ghost known = places.deep_view().canonical;
    let ghost f = output_of(known, target.deep_view().package_id);
    let pick = |output: &BuildScriptOutput| -> (picked: Option<(PathKey, Vec<String>)>)
        ensures
            picked.deep_view() == f(output.deep_view()),
    {
        if same(output.package_id.as_str(), target.package_id.as_str()) {
            Some((canonical_place(places, output.out_dir.as_str()), copy_list(&output.cfg)))
        } else {
            None
        }
    };
    let own = collect_items(outputs, pick, Ghost(f));
    proof {
        assert(own.len() == own.deep_view().len());
    }
    if own.len() == 0 {
        return no_items();
    }
    let directory = match &started.build_script_out_dir {
        Some(directory) => canonical_place(places, directory.as_str()),
        None => {
            let mut text = "compiler invocation ".to_owned();
            text.append(started.crate_name.as_str());
            text.append(" omitted Cargo build-script OUT_DIR for ");
            text.append(target.package_id.as_str());
            return one_text(text);
        },
    };
    let ghost g = output_at(directory.deep_view());
    let pick_cfg = |output: &(PathKey, Vec<String>)| -> (picked: Option<Vec<String>>)
        ensures
            picked.deep_view() == g(output.deep_view()),
    {
        if same_key(&output.0, &directory) {
            Some(copy_list(&output.1))
        } else {
            None
        }
    };
    let matched = collect_items(&own, pick_cfg, Ghost(g));
    proof {
        assert(matched.len() == matched.deep_view().len());
    }
    if matched.len() != 1 {
        let mut text = "compiler invocation ".to_owned();
        text.append(started.crate_name.as_str());
        text.append(" has an unmatched Cargo build-script OUT_DIR for ");
        text.append(target.package_id.as_str());
        return one_text(text);
    }
    proof {
        assert(matched.deep_view()[0] == matched[0].deep_view());
    }
    let seen = list_observed_cfg(&pair.invocation);
    let ghost h = unseen_cfg(
        target.deep_view().package_id,
        started.deep_view().crate_name,
        seen.deep_view(),
    );
    let pick_unseen = |cfg: &String| -> (issue: Option<String>)
        ensures
            issue.deep_view() == h(cfg.deep_view()),
    {
        let normal = normalize_cfg(cfg.as_str());
        if list_contains(&seen, normal.as_str()) {
            None
        } else {
            let mut text = "Cargo build-script cfg ".to_owned();
            text.append(quoted(normal.as_str()).as_str());
            text.append(" for ");
            text.append(target.package_id.as_str());
            text.append(" was not observed by ");
            text.append(started.crate_name.as_str());
            Some(text)
        }
    };
    collect_items(&matched[0], pick_unseen, Ghost(h))
}

fn append_issues(current: Option<String>, issues: &Vec<String>) -> (all: Option<String>)
    ensures
        all.deep_view() == with_issues(current.deep_view(), issues.deep_view()),
{
    let ghost start = current.deep_view();
    let ghost list = issues.deep_view();
    let mut all = current;
    let mut index: usize = 0;
    proof {
        assert(list.take(0) =~= Seq::<Seq<char>>::empty());
    }
    while index < issues.len()
        invariant
            list == issues.deep_view(),
            index <= list.len(),
            all.deep_view() == with_issues(start, list.take(index as int)),
        decreases list.len() - index,
    {
        proof {
            assert(list.take(index as int + 1).drop_last() =~= list.take(index as int));
            assert(list[index as int] == issues[index as int]@);
        }
        all = add_issue(all, issues[index].as_str());
        index = index + 1;
    }
    proof {
        assert(list.take(list.len() as int) =~= list);
    }
    all
}

/// An invocation with what is amiss with its build script.
pub open spec fn scripted(
    known: Seq<CanonicalPathView>,
    outputs: Seq<BuildScriptOutputView>,
    unit: CompiledInvocationView,
) -> CompiledInvocationView {
    CompiledInvocationView {
        correlated: CorrelatedInvocationView {
            issue: with_issues(
                unit.correlated.issue,
                script_issues(known, outputs, unit.correlated),
            ),
            ..unit.correlated
        },
        ..unit
    }
}

/// All invocations with what is amiss with their build scripts.
pub open spec fn scripted_units(
    known: Seq<CanonicalPathView>,
    outputs: Seq<BuildScriptOutputView>,
    units: Seq<CompiledInvocationView>,
) -> Seq<CompiledInvocationView> {
    Seq::new(units.len(), |i: int| scripted(known, outputs, units[i]))
}

/// All that is amiss with build scripts, in order.
pub open spec fn all_script_issues(
    known: Seq<CanonicalPathView>,
    outputs: Seq<BuildScriptOutputView>,
    units: Seq<CompiledInvocationView>,
) -> Seq<Seq<char>> {
    ascending::<String>(
        flattened(
            units.len() as int,
            |i: int| script_issues(known, outputs, units[i].correlated),
        ).to_set(),
    )
}

/// Adds what is amiss with build scripts to the invocations, and lists it.
pub fn apply_build_script_cfg_issues(
    places: &Locations,
    outputs: &Vec<BuildScriptOutput>,
    units: Vec<CompiledInvocation>,
) -> (result: (Vec<CompiledInvocation>, Vec<String>))
    ensures
        result.0.deep_view() == scripted_units(
            places.deep_view().canonical,
            outputs.deep_view(),
            units.deep_view(),
        ),
        result.1.deep_view() == all_script_issues(
            places.deep_view().canonical,
            outputs.deep_view(),
            units.deep_view(),
        ),
{
    let ghost known = places.deep_view().canonical;
    let ghost told = outputs.deep_view();
    let ghost all = units.deep_view();
    let ghost f = |i: int| script_issues(known, told, all[i].correlated);
    let mut done: Vec<CompiledInvocation> = no_items();
    let mut issues: Vec<String> = no_items();
    for unit in it: units
        invariant
            known == places.deep_view().canonical,
            told == outputs.deep_view(),
            f == |i: int| script_issues(known, told, all[i].correlated),
            all.len() == it.seq().len(),
            forall|i: int| 0 <= i < all.len() ==> #[trigger] all[i] == it.seq()[i].deep_view(),
            done.deep_view() =~= scripted_units(known, told, all).take(it.index() as int),
            issues.deep_view() == flattened(it.index() as int, f),
    {
        proof {
            assert(all[it.index() as int] == unit.deep_view());
        }
        let found = build_script_issues(places, outputs, &unit.correlated);
        let issue = append_issues(unit.correlated.issue, &found);
        let pair = CorrelatedInvocation {
            invocation: unit.correlated.invocation,
            target: unit.correlated.target,
            cargo_features: unit.correlated.cargo_features,
            cargo_profile: unit.correlated.cargo_profile,
            issue,
        };
        let next = CompiledInvocation {
            correlated: pair,
            bodies: unit.bodies,
            decisions: unit.decisions,
            effective: unit.effective,
            products: unit.products,
        };
        proof {
            assert(next.deep_view() == scripted(known, told, all[it.index() as int]));
        }
        push_item(&mut done, next);
        append_items(&mut issues, found);
    }
    proof {
        assert(done.deep_view() =~= scripted_units(known, told, all));
    }
    (done, sorted_unique(issues))
}

/// Warnings, one for each text.
pub open spec fn warnings_of(messages: Seq<Seq<char>>) -> Seq<DiagnosticView> {
    collected(messages, |message: Seq<char>| Some(warning_of(message)))
}

fn warnings(messages: &Vec<String>) -> (list: Vec<Diagnostic>)
    ensures
        list.deep_view() == warnings_of(messages.deep_view()),
{
    let ghost f = |message: Seq<char>| Some(warning_of(message));
    let pick = |message: &String| -> (diagnostic: Option<Diagnostic>)
        ensures
            diagnostic.deep_view() == f(message.deep_view()),
    {
        Some(warning(message.clone()))
    };
    collect_items(messages, pick, Ghost(f))
}

/// A text that says which crate it is about.
pub open spec fn about_crate(crate_name: Seq<char>, text: Seq<char>) -> Seq<char> {
    "compiler "@ + crate_name + ": "@ + text
}

fn write_about_crate(crate_name: &str, text: &str) -> (message: String)
    ensures
        message@ == about_crate(crate_name@, text@),
{
    let mut message = "compiler ".to_owned();
    message.append(crate_name);
    message.append(": ");
    message.append(text);
    message
}

/// A diagnostic of the compiler, as one of the run.
pub open spec fn run_diagnostic(crate_name: Seq<char>) -> spec_fn(
    crate::protocol::DiagnosticView,
) -> Option<DiagnosticView> {
    |diagnostic: crate::protocol::DiagnosticView|
        Some(
            DiagnosticView {
                severity: match diagnostic.severity {
                    crate::protocol::DiagnosticSeverity::Warning => DiagnosticSeverity::Warning,
                    crate::protocol::DiagnosticSeverity::Error => DiagnosticSeverity::Error,
                },
                path: None,
                message: about_crate(crate_name, diagnostic.message),
            },
        )
}

/// What is said of one invocation: its issues, then what is wrong with the sources of its
/// products, then what the compiler said.
#[verifier::opaque]
pub open spec fn unit_diagnostics(
    settings: RunSettingsView,
    errors: Map<(Seq<char>, SemanticProduct), Seq<Seq<char>>>,
    unit: CompiledInvocationView,
) -> Seq<DiagnosticView> {
    let crate_name = unit.correlated.invocation.started.crate_name;
    warnings_of(
        collected(
            issues_of(settings, unit.correlated),
            |issue: Seq<char>| Some(about_crate(crate_name, issue)),
        ),
    ) + warnings_of(
        flattened(
            unit.products.len() as int,
            |i: int| integrity_of(errors, unit, unit.products[i].product),
        ),
    ) + collected(unit.correlated.invocation.diagnostics, run_diagnostic(crate_name))
}

fn list_unit_diagnostics(
    settings: &RunSettings,
    errors: &SortedMap<(String, SemanticProduct), Vec<String>>,
    unit: &CompiledInvocation,
) -> (list: Vec<Diagnostic>)
    requires
        errors.wf(),
    ensures
        list.deep_view() == unit_diagnostics(
            settings.deep_view(),
            errors.deep_view(),
            unit.deep_view(),
        ),
{
    proof {
        reveal(unit_diagnostics);
    }
    let invocation = &unit.correlated.invocation;
    let crate_name = invocation.started.crate_name.as_str();
    let ghost told = crate_name@;
    let ghost f = |issue: Seq<char>| Some(about_crate(told, issue));
    let pick = |issue: &String| -> (message: Option<String>)
        ensures
            message.deep_view() == f(issue.deep_view()),
    {
        Some(write_about_crate(crate_name, issue.as_str()))
    };
    let issues = invocation_issues(settings, &unit.correlated);
    let mut list = warnings(&collect_items(&issues, pick, Ghost(f)));
    let ghost view = unit.deep_view();
    let ghost wrong = errors.deep_view();
    let ghost g = |i: int| integrity_of(wrong, view, view.products[i].product);
    let mut integrity: Vec<String> = no_items();
    let mut index: usize = 0;
    while index < unit.products.len()
        invariant
            errors.wf(),
            view == unit.deep_view(),
            wrong == errors.deep_view(),
            g == |i: int| integrity_of(wrong, view, view.products[i].product),
            index <= unit.products.len(),
            view.products.len() == unit.products.len(),
            integrity.deep_view() == flattened(index as int, g),
        decreases unit.products.len() - index,
    {
        proof {
            assert(view.products[index as int] == unit.products[index as int].deep_view());
        }
        append_items(&mut integrity, list_integrity(errors, unit, unit.products[index].product));
        index = index + 1;
    }
    append_items(&mut list, warnings(&integrity));
    let ghost h = run_diagnostic(told);
    let pick_own = |diagnostic: &crate::protocol::Diagnostic| -> (shown: Option<Diagnostic>)
        ensures
            shown.deep_view() == h(diagnostic.deep_view()),
    {
        Some(
            Diagnostic {
                severity: match diagnostic.severity {
                    crate::protocol::DiagnosticSeverity::Warning => DiagnosticSeverity::Warning,
                    crate::protocol::DiagnosticSeverity::Error => DiagnosticSeverity::Error,
                },
                path: None,
                message: write_about_crate(crate_name, diagnostic.message.as_str()),
            },
        )
    };
    append_items(&mut list, collect_items(&invocation.diagnostics, pick_own, Ghost(h)));
    list
}

/// Whether an invocation failed.
pub open spec fn unit_failed() -> spec_fn(CompiledInvocationView) -> bool {
    |unit: CompiledInvocationView| !unit.correlated.invocation.finished.rustc_success
}

/// Whether a failure is one of a selected package.
pub open spec fn selected_failure(selected: Set<Seq<char>>) -> spec_fn(CargoFailureView) -> bool {
    |failure: CargoFailureView| selected.contains(failure.package_id)
}

/// What Cargo said of why it did not complete: first of a selected package, then of any, then
/// anything that it printed.
pub open spec fn cargo_detail(cargo: CargoRunView, selected: Set<Seq<char>>) -> Seq<char> {
    match first_where(cargo.failures, selected_failure(selected)) {
        Some(failure) => failure.message,
        None => if cargo.failures.len() > 0 {
            cargo.failures[0].message
        } else if cargo.text_lines.len() > 0 {
            cargo.text_lines[0]
        } else if trimmed_of(cargo.stderr, spaces()).len() > 0 {
            trimmed_of(cargo.stderr, spaces())
        } else {
            "Cargo check did not complete successfully"@
        },
    }
}

fn describe_cargo(cargo: &CargoRun, selected: &SortedSet<String>) -> (detail: String)
    requires
        selected.wf(),
    ensures
        detail@ == cargo_detail(cargo.deep_view(), selected.deep_view()),
{
    let ghost property = selected_failure(selected.deep_view());
    let test = |failure: &CargoFailure| -> (result: bool)
        ensures
            result == property(failure.deep_view()),
    {
        selected.contains(&failure.package_id)
    };
    proof {
        assert(cargo.failures.len() == cargo.deep_view().failures.len());
        assert(cargo.text_lines.len() == cargo.deep_view().text_lines.len());
    }
    match find_first(&cargo.failures, test, Ghost(property)) {
        Some(failure) => failure.message.clone(),
        None => if cargo.failures.len() > 0 {
            proof {
                assert(cargo.deep_view().failures[0] == cargo.failures[0].deep_view());
            }
            cargo.failures[0].message.clone()
        } else if cargo.text_lines.len() > 0 {
            proof {
                assert(cargo.deep_view().text_lines[0] == cargo.text_lines[0]@);
            }
            cargo.text_lines[0].clone()
        } else {
            let said = trim(cargo.stderr.as_str());
            if said.as_str().is_empty() {
                "Cargo check did not complete successfully".to_owned()
            } else {
                said
            }
        },
    }
}

/// What is said of a Cargo run that left selected invocations out.
pub open spec fn cargo_warning(run: CollectedRunView, selected: Set<Seq<char>>) -> Seq<
    DiagnosticView,
> {
    if (run.correlated != run.expected || any_where(run.invocations, unit_failed())) && (
    !run.cargo.success || run.cargo.build_finished != Some(true)) {
        seq![
            warning_of(
                "compiler Cargo pass was incomplete: "@ + cargo_detail(run.cargo, selected),
            ),
        ]
    } else {
        Seq::empty()
    }
}

fn list_cargo_warning(run: &CollectedRun, selected: &SortedSet<String>) -> (list: Vec<Diagnostic>)
    requires
        selected.wf(),
    ensures
        list.deep_view() == cargo_warning(run.deep_view(), selected.deep_view()),
{
    let ghost property = unit_failed();
    let test = |unit: &CompiledInvocation| -> (result: bool)
        ensures
            result == property(unit.deep_view()),
    {
        !unit.correlated.invocation.finished.rustc_success
    };
    let finished = match run.cargo.build_finished {
        Some(true) => true,
        _ => false,
    };
    let mut list: Vec<Diagnostic> = no_items();
    if (run.correlated != run.expected || any_item(&run.invocations, test, Ghost(property))) && (
    !run.cargo.success || !finished) {
        let mut message = "compiler Cargo pass was incomplete: ".to_owned();
        message.append(describe_cargo(&run.cargo, selected).as_str());
        push_item(&mut list, warning(message));
    }
    proof {
        assert(list.deep_view() =~= cargo_warning(run.deep_view(), selected.deep_view()));
    }
    list
}

/// All that went wrong between the compiler and the report.
pub open spec fn transport_errors(run: CollectedRunView) -> Seq<Seq<char>> {
    ascending::<String>(
        (run.sidecar_errors + run.integrity_errors + run.correlation_errors).to_set(),
    )
}

/// What is said of a run that was tried again.
pub open spec fn retry_warning(retried: bool) -> Seq<DiagnosticView> {
    if retried {
        seq![
            warning_of(
                "the configured ordinary Cargo rustc wrapper suppressed compiler sidecars; collection was retried once with that wrapper disabled"@,
            ),
        ]
    } else {
        Seq::empty()
    }
}

/// All that is said of a run.
pub open spec fn run_diagnostics(
    settings: RunSettingsView,
    places: LocationsView,
    selected: Set<Seq<char>>,
    run: CollectedRunView,
    retried: bool,
) -> Seq<DiagnosticView> {
    let outputs = run.cargo.build_script_outputs;
    let units = scripted_units(places.canonical, outputs, run.invocations);
    sorted_diagnostics(
        warnings_of(transport_errors(run)) + retry_warning(retried) + cargo_warning(run, selected)
            + warnings_of(all_script_issues(places.canonical, outputs, run.invocations))
            + flattened(
            units.len() as int,
            |i: int| unit_diagnostics(settings, run.product_integrity_errors, units[i]),
        ),
    )
}

/// What all invocations show.
pub open spec fn unit_reports(
    settings: RunSettingsView,
    root: Seq<char>,
    errors: Map<(Seq<char>, SemanticProduct), Seq<Seq<char>>>,
    units: Seq<CompiledInvocationView>,
) -> Seq<UnitReportView> {
    collected(
        units,
        |unit: CompiledInvocationView| Some(unit_report(settings, root, errors, unit)),
    )
}

/// The report of a product of an invocation, by the key of the invocation.
pub open spec fn product_by_key(
    reported: Seq<UnitReportView>,
    key: Seq<char>,
    name: Seq<char>,
) -> Option<ProductAvailabilityReportView> {
    match last_place(reported, |report: UnitReportView| report.key == key) {
        Some(at) => first_where(reported[at].products, is_product(name)),
        None => None,
    }
}

fn find_by_key<'a>(reported: &'a Vec<UnitReport>, key: &str, name: &str) -> (found: Option<
    &'a ProductAvailabilityReport,
>)
    ensures
        found.deep_view() == product_by_key(reported.deep_view(), key@, name@),
{
    let ghost property = |report: UnitReportView| report.key == key@;
    let test = |report: &UnitReport| -> (result: bool)
        ensures
            result == property(report.deep_view()),
    {
        same(report.key.as_str(), key)
    };
    match find_last(reported, test, Ghost(property)) {
        Some(at) => {
            proof {
                assert(reported.deep_view()[at as int] == reported[at as int].deep_view());
            }
            find_product(&reported[at].products, name)
        },
        None => None,
    }
}

/// How complete a product of an invocation is, by the key of the invocation.
pub open spec fn status_by_key(
    reported: Seq<UnitReportView>,
    key: Seq<char>,
    name: Seq<char>,
) -> SemanticStatus {
    match product_by_key(reported, key, name) {
        Some(product) => product.status,
        None => SemanticStatus::Unavailable,
    }
}

fn find_status(reported: &Vec<UnitReport>, key: &str, name: &str) -> (status: SemanticStatus)
    ensures
        status == status_by_key(reported.deep_view(), key@, name@),
{
    match find_by_key(reported, key, name) {
        Some(product) => product.status,
        None => SemanticStatus::Unavailable,
    }
}

/// An invocation as far as it shows what can be seen from outside.
pub open spec fn api_part(reported: Seq<UnitReportView>) -> spec_fn(
    CompiledInvocationView,
) -> Option<ApiInvocationView> {
    |unit: CompiledInvocationView|
        {
            let invocation = unit.correlated.invocation;
            Some(
                ApiInvocationView {
                    target: unit.correlated.target,
                    owner: owner_of(invocation),
                    crate_name: invocation.started.crate_name,
                    status: status_by_key(
                        reported,
                        invocation.started.merge_key,
                        "effective_api"@,
                    ),
                    sources: invocation.sources,
                    definitions: unit.effective,
                    public_bindings: invocation.bindings,
                },
            )
        }
}

/// An invocation as far as its macros show.
pub open spec fn macro_part(reported: Seq<UnitReportView>) -> spec_fn(
    CompiledInvocationView,
) -> Option<MacroInvocationView> {
    |unit: CompiledInvocationView|
        {
            let invocation = unit.correlated.invocation;
            match product_by_key(
                reported,
                invocation.started.merge_key,
                "macro_expansion_cyclomatic_delta"@,
            ) {
                None => None,
                Some(product) => Some(
                    MacroInvocationView {
                        key: invocation.started.merge_key,
                        target: unit.correlated.target,
                        crate_name: invocation.started.crate_name,
                        status: product.status,
                        reason: product.reason,
                        bodies: unit.bodies,
                        decisions: unit.decisions,
                    },
                ),
            }
        }
}

/// An invocation as far as it is part of the reference graph.
pub open spec fn graph_part(reported: Seq<UnitReportView>) -> spec_fn(
    CompiledInvocationView,
) -> Option<GraphInvocationView> {
    |unit: CompiledInvocationView|
        {
            let invocation = unit.correlated.invocation;
            match unit.correlated.target {
                None => None,
                Some(target) => Some(
                    GraphInvocationView {
                        target,
                        owner: owner_of(invocation),
                        crate_name: invocation.started.crate_name,
                        status: status_by_key(
                            reported,
                            invocation.started.merge_key,
                            "references"@,
                        ),
                        invocation,
                    },
                ),
            }
        }
}

fn list_api_parts<'a>(units: &'a Vec<CompiledInvocation>, reported: &Vec<UnitReport>) -> (list: Vec<
    ApiInvocation<'a>,
>)
    ensures
        list.deep_view() == collected(units.deep_view(), api_part(reported.deep_view())),
{
    let ghost all = units.deep_view();
    let ghost f = api_part(reported.deep_view());
    let mut list: Vec<ApiInvocation<'a>> = no_items();
    let mut index: usize = 0;
    proof {
        assert(all.take(0) =~= Seq::<CompiledInvocationView>::empty());
    }
    while index < units.len()
        invariant
            all == units.deep_view(),
            f == api_part(reported.deep_view()),
            index <= all.len(),
            list.deep_view() == collected(all.take(index as int), f),
        decreases all.len() - index,
    {
        let unit = &units[index];
        let invocation = &unit.correlated.invocation;
        proof {
            assert(all[index as int] == unit.deep_view());
            lemma_collected_step(all, f, index as int);
        }
        let part = ApiInvocation {
            target: match &unit.correlated.target {
                Some(target) => Some(target),
                None => None,
            },
            owner: owner(invocation),
            crate_name: invocation.started.crate_name.as_str(),
            status: find_status(
                reported,
                invocation.started.merge_key.0.as_str(),
                "effective_api",
            ),
            sources: &invocation.sources,
            definitions: &unit.effective,
            public_bindings: &invocation.bindings,
        };
        push_item(&mut list, part);
        index = index + 1;
    }
    proof {
        assert(all.take(all.len() as int) =~= all);
    }
    list
}

fn list_macro_parts<'a>(units: &'a Vec<CompiledInvocation>, reported: &'a Vec<UnitReport>) -> (list:
    Vec<MacroInvocation<'a>>)
    requires
        forall|i: int|
            0 <= i < units.len() ==> (#[trigger] units[i]).bodies.len() + units[i].decisions.len()
                <= u64::MAX,
    ensures
        list.deep_view() == collected(units.deep_view(), macro_part(reported.deep_view())),
        forall|i: int|
            0 <= i < list.len() ==> (#[trigger] list[i]).bodies.len() + list[i].decisions.len()
                <= u64::MAX,
{
    let ghost all = units.deep_view();
    let ghost f = macro_part(reported.deep_view());
    let mut list: Vec<MacroInvocation<'a>> = Vec::new();
    let mut index: usize = 0;
    proof {
        assert(all.take(0) =~= Seq::<CompiledInvocationView>::empty());
        assert(list.deep_view() =~= Seq::<MacroInvocationView>::empty());
    }
    while index < units.len()
        invariant
            forall|i: int|
                0 <= i < units.len() ==> (#[trigger] units[i]).bodies.len()
                    + units[i].decisions.len() <= u64::MAX,
            all == units.deep_view(),
            f == macro_part(reported.deep_view()),
            index <= all.len(),
            list.deep_view() == collected(all.take(index as int), f),
            forall|i: int|
                0 <= i < list.len() ==> (#[trigger] list[i]).bodies.len()
                    + list[i].decisions.len() <= u64::MAX,
        decreases all.len() - index,
    {
        let unit = &units[index];
        let invocation = &unit.correlated.invocation;
        proof {
            assert(all[index as int] == unit.deep_view());
            lemma_collected_step(all, f, index as int);
        }
        if let Some(product) = find_by_key(
            reported,
            invocation.started.merge_key.0.as_str(),
            "macro_expansion_cyclomatic_delta",
        ) {
            let part = MacroInvocation {
                key: invocation.started.merge_key.0.as_str(),
                target: match &unit.correlated.target {
                    Some(target) => Some(target),
                    None => None,
                },
                crate_name: invocation.started.crate_name.as_str(),
                status: product.status,
                reason: match &product.reason {
                    Some(reason) => Some(reason.as_str()),
                    None => None,
                },
                bodies: &unit.bodies,
                decisions: &unit.decisions,
            };
            let ghost before = list.deep_view();
            let ghost added = part.deep_view();
            list.push(part);
            proof {
                assert(list.deep_view() =~= before.push(added));
            }
        }
        index = index + 1;
    }
    proof {
        assert(all.take(all.len() as int) =~= all);
    }
    list
}

fn list_graph_parts<'a>(units: &'a Vec<CompiledInvocation>, reported: &Vec<UnitReport>) -> (list:
    Vec<GraphInvocation<'a>>)
    ensures
        list.deep_view() == collected(units.deep_view(), graph_part(reported.deep_view())),
{
    let ghost all = units.deep_view();
    let ghost f = graph_part(reported.deep_view());
    let mut list: Vec<GraphInvocation<'a>> = no_items();
    let mut index: usize = 0;
    proof {
        assert(all.take(0) =~= Seq::<CompiledInvocationView>::empty());
    }
    while index < units.len()
        invariant
            all == units.deep_view(),
            f == graph_part(reported.deep_view()),
            index <= all.len(),
            list.deep_view() == collected(all.take(index as int), f),
        decreases all.len() - index,
    {
        let unit = &units[index];
        let invocation = &unit.correlated.invocation;
        proof {
            assert(all[index as int] == unit.deep_view());
            lemma_collected_step(all, f, index as int);
        }
        if let Some(target) = &unit.correlated.target {
            let part = GraphInvocation {
                target,
                owner: owner(invocation),
                crate_name: invocation.started.crate_name.as_str(),
                status: find_status(
                    reported,
                    invocation.started.merge_key.0.as_str(),
                    "references",
                ),
                invocation,
            };
            push_item(&mut list, part);
        }
        index = index + 1;
    }
    proof {
        assert(all.take(all.len() as int) =~= all);
    }
    list
}

/// Products with their names.
pub open spec fn named_products(products: Seq<ProductAvailabilityReportView>) -> Seq<
    (Seq<char>, ProductAvailabilityReportView),
> {
    Seq::new(products.len(), |i: int| (products[i].product, products[i]))
}

fn sort_products(products: Vec<ProductAvailabilityReport>) -> (sorted: Vec<
    ProductAvailabilityReport,
>)
    ensures
        sorted.deep_view() == second(
            stable_sorted::<String, ProductAvailabilityReport>(
                named_products(products.deep_view()),
            ),
        ),
{
    let ghost all = products.deep_view();
    let mut entries: Vec<(String, ProductAvailabilityReport)> = no_items();
    for product in it: products
        invariant
            all.len() == it.seq().len(),
            forall|i: int| 0 <= i < all.len() ==> #[trigger] all[i] == it.seq()[i].deep_view(),
            entries.deep_view() =~= named_products(all).take(it.index() as int),
    {
        proof {
            assert(all[it.index() as int] == product.deep_view());
        }
        push_item(&mut entries, (product.product.clone(), product));
    }
    proof {
        assert(entries.deep_view() =~= named_products(all));
    }
    take_second(stable_sort(entries))
}

/// Reports of invocations with their keys.
pub open spec fn keyed_units(reported: Seq<UnitReportView>) -> Seq<(Seq<char>, UnitReportView)> {
    Seq::new(reported.len(), |i: int| (reported[i].key, reported[i]))
}

fn sort_units(reported: Vec<UnitReport>) -> (sorted: Vec<UnitReport>)
    ensures
        sorted.deep_view() == second(
            stable_sorted::<String, UnitReport>(keyed_units(reported.deep_view())),
        ),
{
    let ghost all = reported.deep_view();
    let mut entries: Vec<(String, UnitReport)> = no_items();
    for report in it: reported
        invariant
            all.len() == it.seq().len(),
            forall|i: int| 0 <= i < all.len() ==> #[trigger] all[i] == it.seq()[i].deep_view(),
            entries.deep_view() =~= keyed_units(all).take(it.index() as int),
    {
        proof {
            assert(all[it.index() as int] == report.deep_view());
        }
        push_item(&mut entries, (report.key.clone(), report));
    }
    proof {
        assert(entries.deep_view() =~= keyed_units(all));
    }
    take_second(stable_sort(entries))
}

/// A product with what the reference graph allows.
pub open spec fn graph_product(name: Seq<char>, graph: AggregationView) -> ProductAvailabilityReportView {
    ProductAvailabilityReportView { product: name, status: graph.status, reason: graph.reason }
}

/// All products of a run, in the order of their names.
pub open spec fn run_products(
    reported: Seq<UnitReportView>,
    run: CollectedRunView,
    api: ApiAggregationView,
    graph: AggregationView,
) -> Seq<ProductAvailabilityReportView> {
    second(
        stable_sorted::<String, ProductAvailabilityReport>(
            named_products(
                overall_products(
                    reported,
                    run.expected,
                    run.correlation_errors.len() == 0,
                ).update(1, api.product).push(graph_product("closed_world_liveness"@, graph)).push(
                    graph_product("required_visibility"@, graph),
                ),
            ),
        ),
    )
}

/// What a compiler run comes to.
pub open spec fn outcome_of(
    settings: RunSettingsView,
    places: LocationsView,
    selected: Set<Seq<char>>,
    packages: Seq<GatedPackageView>,
    resolved: Map<Seq<char>, Seq<Seq<char>>>,
    run: CollectedRunView,
    retried: bool,
) -> OutcomeView {
    let units = scripted_units(places.canonical, run.cargo.build_script_outputs, run.invocations);
    let reported = unit_reports(settings, places.root, run.product_integrity_errors, units);
    let api = api_of(
        places,
        packages,
        resolved,
        true,
        collected(units, api_part(reported)),
    );
    let references = overall_product(
        reported,
        run.expected,
        run.correlation_errors.len() == 0,
        SemanticProduct::References,
    );
    let graph = aggregation_of(
        WorldView { places, invocations: collected(units, graph_part(reported)) },
        references.status,
        None,
    );
    OutcomeView {
        report: RunReportView {
            protocol_version: run.handshake.protocol_version,
            driver_version: decimal(run.handshake.driver_version as nat),
            rustc_version: run.handshake.rustc.release,
            rustc_commit: run.handshake.rustc.commit_hash,
            expected_invocations: run.expected as u64,
            collected_invocations: run.invocations.len() as u64,
            correlated_invocations: run.correlated as u64,
            invocations: second(stable_sorted::<String, UnitReport>(keyed_units(reported))),
            products: run_products(reported, run, api, graph),
            effective_api: api.report,
            required_visibility: graph.required_visibility,
            closed_world: graph.closed_world,
            macro_expansion_complexity: complexity_of(
                true,
                collected(units, macro_part(reported)),
            ),
            generated_files: run.generated_files,
        },
        diagnostics: run_diagnostics(settings, places, selected, run, retried),
        profile_incompatibilities: Seq::empty(),
    }
}

fn list_diagnostics(
    run: &CollectedRun,
    selected: &SortedSet<String>,
    retried: bool,
) -> (list: Vec<Diagnostic>)
    requires
        selected.wf(),
    ensures
        list.deep_view() == warnings_of(transport_errors(run.deep_view())) + retry_warning(retried)
            + cargo_warning(run.deep_view(), selected.deep_view()),
{
    let mut errors = copy_list(&run.sidecar_errors);
    append_items(&mut errors, copy_list(&run.integrity_errors));
    append_items(&mut errors, copy_list(&run.correlation_errors));
    let mut list = warnings(&sorted_unique(errors));
    let mut retry: Vec<Diagnostic> = no_items();
    if retried {
        push_item(
            &mut retry,
            warning(
                "the configured ordinary Cargo rustc wrapper suppressed compiler sidecars; collection was retried once with that wrapper disabled".to_owned(),
            ),
        );
    }
    proof {
        assert(retry.deep_view() =~= retry_warning(retried));
    }
    append_items(&mut list, retry);
    append_items(&mut list, list_cargo_warning(run, selected));
    list
}

fn list_units_diagnostics(
    settings: &RunSettings,
    errors: &SortedMap<(String, SemanticProduct), Vec<String>>,
    units: &Vec<CompiledInvocation>,
) -> (list: Vec<Diagnostic>)
    requires
        errors.wf(),
    ensures
        list.deep_view() == flattened(
            units.deep_view().len() as int,
            |i: int|
                unit_diagnostics(
                    settings.deep_view(),
                    errors.deep_view(),
                    units.deep_view()[i],
                ),
        ),
{
    let ghost all = units.deep_view();
    let ghost asked = settings.deep_view();
    let ghost wrong = errors.deep_view();
    let ghost f = |i: int| unit_diagnostics(asked, wrong, all[i]);
    let mut list: Vec<Diagnostic> = no_items();
    let mut index: usize = 0;
    while index < units.len()
        invariant
            errors.wf(),
            all == units.deep_view(),
            asked == settings.deep_view(),
            wrong == errors.deep_view(),
            f == |i: int| unit_diagnostics(asked, wrong, all[i]),
            index <= all.len(),
            list.deep_view() == flattened(index as int, f),
        decreases all.len() - index,
    {
        proof {
            assert(all[index as int] == units[index as int].deep_view());
        }
        append_items(&mut list, list_unit_diagnostics(settings, errors, &units[index]));
        index = index + 1;
    }
    list
}

fn report_units(
    settings: &RunSettings,
    root: &str,
    errors: &SortedMap<(String, SemanticProduct), Vec<String>>,
    units: &Vec<CompiledInvocation>,
) -> (list: Vec<UnitReport>)
    requires
        errors.wf(),
    ensures
        list.deep_view() == unit_reports(
            settings.deep_view(),
            root@,
            errors.deep_view(),
            units.deep_view(),
        ),
{
    let ghost asked = settings.deep_view();
    let ghost wrong = errors.deep_view();
    let ghost base = root@;
    let ghost f = |unit: CompiledInvocationView| Some(unit_report(asked, base, wrong, unit));
    let pick = |unit: &CompiledInvocation| -> (report: Option<UnitReport>)
        ensures
            report.deep_view() == f(unit.deep_view()),
    {
        Some(invocation_report(settings, root, errors, unit))
    };
    collect_items(units, pick, Ghost(f))
}

/// Builds the outcome of a compiler run.
pub fn build_outcome(
    settings: &RunSettings,
    places: &Locations,
    inventory: &AuditInventory,
    packages: &Vec<GatedPackage>,
    resolved: &SortedMap<String, Vec<String>>,
    run: CollectedRun,
    retried_without_wrapper: bool,
) -> (outcome: Outcome)
    requires
        resolved.wf(),
        run.product_integrity_errors.wf(),
        forall|i: int|
            0 <= i < run.invocations.len() ==> (#[trigger] run.invocations[i]).bodies.len()
                + run.invocations[i].decisions.len() <= u64::MAX,
    ensures
        outcome.deep_view() == outcome_of(
            settings.deep_view(),
            places.deep_view(),
            selected_ids(inventory.packages.deep_view()),
            packages.deep_view(),
            resolved.deep_view(),
            run.deep_view(),
            retried_without_wrapper,
        ),
{
    let ghost told = run.deep_view();
    let ghost known = places.deep_view().canonical;
    let ghost outputs = run.cargo.build_script_outputs.deep_view();
    let selected = inventory.selected_package_ids();
    let mut diagnostics = list_diagnostics(&run, &selected, retried_without_wrapper);
    let transport_clean = run.correlation_errors.len() == 0;
    let collected_count = run.invocations.len() as u64;
    proof {
        assert(run.correlation_errors.len() == told.correlation_errors.len());
        assert(run.invocations.len() == told.invocations.len());
    }
    let ghost originals = run.invocations;
    let (units, script_list) = apply_build_script_cfg_issues(
        places,
        &run.cargo.build_script_outputs,
        run.invocations,
    );
    let ghost all = units.deep_view();
    proof {
        assert(all == scripted_units(known, outputs, told.invocations));
        assert(units.len() == all.len());
        assert forall|i: int| 0 <= i < units.len() implies (#[trigger] units[i]).bodies.len()
            + units[i].decisions.len() <= u64::MAX by {
            assert(all[i] == units[i].deep_view());
            assert(all[i] == scripted(known, outputs, told.invocations[i]));
            assert(told.invocations[i] == originals[i].deep_view());
            assert(units[i].bodies.len() == all[i].bodies.len());
            assert(units[i].decisions.len() == all[i].decisions.len());
            assert(originals[i].bodies.len() == told.invocations[i].bodies.len());
            assert(originals[i].decisions.len() == told.invocations[i].decisions.len());
        }
    }
    append_items(&mut diagnostics, warnings(&script_list));
    append_items(
        &mut diagnostics,
        list_units_diagnostics(settings, &run.product_integrity_errors, &units),
    );
    let reported = report_units(
        settings,
        places.root.as_str(),
        &run.product_integrity_errors,
        &units,
    );
    let api_parts = list_api_parts(&units, &reported);
    let api = effective_api::aggregate(places, packages, resolved, true, &api_parts);
    let macro_parts = list_macro_parts(&units, &reported);
    let macro_expansion_complexity = macro_complexity::aggregate(true, &macro_parts);
    let mut products = aggregate_products(&reported, run.expected, transport_clean);
    let ghost base = products.deep_view();
    let references_status = products[2].status;
    proof {
        assert(products.len() == base.len());
        assert(base[2] == products[2].deep_view());
    }
    let graph_parts = list_graph_parts(&units, &reported);
    let graph = closed_world::aggregate(places, references_status, &graph_parts);
    products.set(1, api.product);
    proof {
        assert(products.deep_view() =~= base.update(1, api.product.deep_view()));
    }
    let live_reason = graph.reason.clone();
    let visible_reason = graph.reason.clone();
    proof {
        assert(live_reason.deep_view() == graph.reason.deep_view());
        assert(visible_reason.deep_view() == graph.reason.deep_view());
    }
    push_item(
        &mut products,
        ProductAvailabilityReport {
            product: "closed_world_liveness".to_owned(),
            status: graph.status,
            reason: live_reason,
        },
    );
    push_item(
        &mut products,
        ProductAvailabilityReport {
            product: "required_visibility".to_owned(),
            status: graph.status,
            reason: visible_reason,
        },
    );
    let report = RunReport {
        protocol_version: run.handshake.protocol_version,
        driver_version: decimal_text(run.handshake.driver_version as u128),
        rustc_version: run.handshake.rustc.release,
        rustc_commit: run.handshake.rustc.commit_hash,
        expected_invocations: run.expected as u64,
        collected_invocations: collected_count,
        correlated_invocations: run.correlated as u64,
        invocations: sort_units(reported),
        products: sort_products(products),
        effective_api: api.report,
        required_visibility: graph.required_visibility,
        closed_world: graph.closed_world,
        macro_expansion_complexity,
        generated_files: run.generated_files,
    };
    let incompatible: Vec<String> = no_items();
    Outcome {
        report,
        diagnostics: sort_diagnostics(diagnostics),
        profile_incompatibilities: incompatible,
    }
}

} // verus!
