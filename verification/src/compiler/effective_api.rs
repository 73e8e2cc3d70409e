//! What can be seen from outside of the selected libraries.

use vstd::prelude::*;

use crate::collections::{
    any_item, any_where, append_items, ascending, assemble, assembled, collect_items, collect_set,
    collected, count_items, count_where, counts, earliest, find_first, find_last, first_where,
    flattened, image, keep_earliest, last_place, lemma_ascending_exists, lemma_first_where,
    lemma_image_ends, lemma_image_finite, lemma_image_step, no_items, tally, values_of, SortedMap,
    SortedSet,
};
use crate::compiler::closed_world::{has_library_kind, is_library};
use crate::compiler::correlation::{sorted, sorted_texts};
use crate::compiler::graph::{
    canonical, canonical_form, canonical_key, canonical_place, CanonicalPathView, Locations,
    LocationsView,
};
use crate::compiler::labels::{
    definition_id, definition_kind, expansion_origin, exposure, exposure_name,
    generated_label_of, generated_source_label, id_report, kind_name, namespace, namespace_name,
    origin_name,
};
use crate::model::{
    CompilerDefinitionIdReport, CompilerDefinitionIdReportView, CompilerSourceSpanReport,
    CompilerSourceSpanReportView, CompilerTargetReport, CompilerTargetReportView, SemanticStatus,
};
use crate::order::{Ordered, Rank};
use crate::paths::{copy_key, path_below, portable, portable_path, strip_base, PathKey};
use crate::protocol::{
    CompilerDefId, Definition, DefinitionView, NominalVisibility, PublicBinding,
    PublicBindingView, SourceFile, SourceFileView, SourceSpan, SourceSpanView,
};
use crate::text::{copy_list, decimal, decimal_text, join, joined, list_contains, same};

verus! {

/// How far a definition can be seen.
#[derive(Clone, Copy, Debug, PartialEq, Eq, Structural)]
pub enum EffectiveVisibilityLevel {
    Direct,
    Reexported,
    Reachable,
    ReachableThroughImplTrait,
}

impl DeepView for EffectiveVisibilityLevel {
    type V = EffectiveVisibilityLevel;

    open spec fn deep_view(&self) -> EffectiveVisibilityLevel {
        *self
    }
}

/// A definition, and how far it can be seen from outside.
#[derive(Debug, PartialEq, Eq)]
pub struct EffectiveDefinition {
    pub definition: Definition,
    pub effective_public_at: Option<EffectiveVisibilityLevel>,
}

/// The model of [`EffectiveDefinition`].
#[verifier::ext_equal]
pub struct EffectiveDefinitionView {
    pub definition: DefinitionView,
    pub effective_public_at: Option<EffectiveVisibilityLevel>,
}

impl DeepView for EffectiveDefinition {
    type V = EffectiveDefinitionView;

    open spec fn deep_view(&self) -> EffectiveDefinitionView {
        EffectiveDefinitionView {
            definition: self.definition.deep_view(),
            effective_public_at: self.effective_public_at,
        }
    }
}

impl Clone for EffectiveDefinition {
    fn clone(&self) -> (copy: Self)
        ensures
            copy.deep_view() == self.deep_view(),
    {
        let copy = EffectiveDefinition {
            definition: self.definition.clone(),
            effective_public_at: self.effective_public_at,
        };
        proof {
            assert(copy.definition.deep_view() =~= self.definition.deep_view());
        }
        copy
    }
}

/// A target that may need features.
#[derive(Debug, PartialEq, Eq)]
pub struct GatedTarget {
    pub name: String,
    pub kinds: Vec<String>,
    pub crate_types: Vec<String>,
    pub source: String,
    pub required_features: Vec<String>,
}

/// The model of [`GatedTarget`].
#[verifier::ext_equal]
pub struct GatedTargetView {
    pub name: Seq<char>,
    pub kinds: Seq<Seq<char>>,
    pub crate_types: Seq<Seq<char>>,
    pub source: Seq<char>,
    pub required_features: Seq<Seq<char>>,
}

impl DeepView for GatedTarget {
    type V = GatedTargetView;

    open spec fn deep_view(&self) -> GatedTargetView {
        GatedTargetView {
            name: self.name.deep_view(),
            kinds: self.kinds.deep_view(),
            crate_types: self.crate_types.deep_view(),
            source: self.source.deep_view(),
            required_features: self.required_features.deep_view(),
        }
    }
}

impl Clone for GatedTarget {
    fn clone(&self) -> (copy: Self)
        ensures
            copy.deep_view() == self.deep_view(),
    {
        let copy = GatedTarget {
            name: self.name.clone(),
            kinds: self.kinds.clone(),
            crate_types: self.crate_types.clone(),
            source: self.source.clone(),
            required_features: self.required_features.clone(),
        };
        proof {
            assert(copy.kinds.deep_view() =~= self.kinds.deep_view());
            assert(copy.crate_types.deep_view() =~= self.crate_types.deep_view());
            assert(copy.required_features.deep_view() =~= self.required_features.deep_view());
        }
        copy
    }
}

/// A package with its targets.
#[derive(Debug, PartialEq, Eq)]
pub struct GatedPackage {
    pub id: String,
    pub name: String,
    pub targets: Vec<GatedTarget>,
    /// Whether the package lies among the requested paths.
    pub selected: bool,
}

/// The model of [`GatedPackage`].
#[verifier::ext_equal]
pub struct GatedPackageView {
    pub id: Seq<char>,
    pub name: Seq<char>,
    pub targets: Seq<GatedTargetView>,
    pub selected: bool,
}

impl DeepView for GatedPackage {
    type V = GatedPackageView;

    open spec fn deep_view(&self) -> GatedPackageView {
        GatedPackageView {
            id: self.id.deep_view(),
            name: self.name.deep_view(),
            targets: self.targets.deep_view(),
            selected: self.selected,
        }
    }
}

impl Clone for GatedPackage {
    fn clone(&self) -> (copy: Self)
        ensures
            copy.deep_view() == self.deep_view(),
    {
        let copy = GatedPackage {
            id: self.id.clone(),
            name: self.name.clone(),
            targets: self.targets.clone(),
            selected: self.selected,
        };
        proof {
            assert(copy.targets.deep_view() =~= self.targets.deep_view());
        }
        copy
    }
}

/// A definition that can be seen from outside.
#[derive(Debug, PartialEq, Eq)]
pub struct EffectiveApiDefinitionReport {
    pub package_id: String,
    pub crate_name: String,
    pub id: CompilerDefinitionIdReport,
    pub parent: Option<CompilerDefinitionIdReport>,
    pub name: Option<String>,
    pub definition_path: String,
    pub kind: String,
    pub nominal_visibility: String,
    pub restricted_to: Option<CompilerDefinitionIdReport>,
    pub effective_public_at: String,
    pub expansion_origin: String,
    pub span: Option<CompilerSourceSpanReport>,
    pub attribution_callsite: Option<CompilerSourceSpanReport>,
}

/// The model of [`EffectiveApiDefinitionReport`].
#[verifier::ext_equal]
pub struct EffectiveApiDefinitionReportView {
    pub package_id: Seq<char>,
    pub crate_name: Seq<char>,
    pub id: CompilerDefinitionIdReportView,
    pub parent: Option<CompilerDefinitionIdReportView>,
    pub name: Option<Seq<char>>,
    pub definition_path: Seq<char>,
    pub kind: Seq<char>,
    pub nominal_visibility: Seq<char>,
    pub restricted_to: Option<CompilerDefinitionIdReportView>,
    pub effective_public_at: Seq<char>,
    pub expansion_origin: Seq<char>,
    pub span: Option<CompilerSourceSpanReportView>,
    pub attribution_callsite: Option<CompilerSourceSpanReportView>,
}

impl DeepView for EffectiveApiDefinitionReport {
    type V = EffectiveApiDefinitionReportView;

    open spec fn deep_view(&self) -> EffectiveApiDefinitionReportView {
        EffectiveApiDefinitionReportView {
            package_id: self.package_id.deep_view(),
            crate_name: self.crate_name.deep_view(),
            id: self.id.deep_view(),
            parent: self.parent.deep_view(),
            name: self.name.deep_view(),
            definition_path: self.definition_path.deep_view(),
            kind: self.kind.deep_view(),
            nominal_visibility: self.nominal_visibility.deep_view(),
            restricted_to: self.restricted_to.deep_view(),
            effective_public_at: self.effective_public_at.deep_view(),
            expansion_origin: self.expansion_origin.deep_view(),
            span: self.span.deep_view(),
            attribution_callsite: self.attribution_callsite.deep_view(),
        }
    }
}

/// A name that can be seen from outside.
#[derive(Debug, PartialEq, Eq)]
pub struct EffectiveApiBindingReport {
    pub package_id: String,
    pub crate_name: String,
    pub parent: CompilerDefinitionIdReport,
    pub target: CompilerDefinitionIdReport,
    pub name: String,
    pub namespace: String,
    pub exposure: String,
    pub exposing_import: Option<CompilerDefinitionIdReport>,
    pub parent_definition_path: Option<String>,
    pub target_definition_path: Option<String>,
    pub span: Option<CompilerSourceSpanReport>,
}

/// The model of [`EffectiveApiBindingReport`].
#[verifier::ext_equal]
pub struct EffectiveApiBindingReportView {
    pub package_id: Seq<char>,
    pub crate_name: Seq<char>,
    pub parent: CompilerDefinitionIdReportView,
    pub target: CompilerDefinitionIdReportView,
    pub name: Seq<char>,
    pub namespace: Seq<char>,
    pub exposure: Seq<char>,
    pub exposing_import: Option<CompilerDefinitionIdReportView>,
    pub parent_definition_path: Option<Seq<char>>,
    pub target_definition_path: Option<Seq<char>>,
    pub span: Option<CompilerSourceSpanReportView>,
}

impl DeepView for EffectiveApiBindingReport {
    type V = EffectiveApiBindingReportView;

    open spec fn deep_view(&self) -> EffectiveApiBindingReportView {
        EffectiveApiBindingReportView {
            package_id: self.package_id.deep_view(),
            crate_name: self.crate_name.deep_view(),
            parent: self.parent.deep_view(),
            target: self.target.deep_view(),
            name: self.name.deep_view(),
            namespace: self.namespace.deep_view(),
            exposure: self.exposure.deep_view(),
            exposing_import: self.exposing_import.deep_view(),
            parent_definition_path: self.parent_definition_path.deep_view(),
            target_definition_path: self.target_definition_path.deep_view(),
            span: self.span.deep_view(),
        }
    }
}

/// How much can be seen from outside.
#[derive(Debug, PartialEq, Eq)]
pub struct EffectiveApiSummaryReport {
    pub production_library_invocations: u64,
    pub effective_definitions: u64,
    pub public_bindings: u64,
    pub definitions_by_kind: SortedMap<String, usize>,
    pub bindings_by_namespace: SortedMap<String, usize>,
    pub bindings_by_exposure: SortedMap<String, usize>,
}

/// The model of [`EffectiveApiSummaryReport`].
#[verifier::ext_equal]
pub struct EffectiveApiSummaryReportView {
    pub production_library_invocations: u64,
    pub effective_definitions: u64,
    pub public_bindings: u64,
    pub definitions_by_kind: Map<Seq<char>, usize>,
    pub bindings_by_namespace: Map<Seq<char>, usize>,
    pub bindings_by_exposure: Map<Seq<char>, usize>,
}

impl DeepView for EffectiveApiSummaryReport {
    type V = EffectiveApiSummaryReportView;

    open spec fn deep_view(&self) -> EffectiveApiSummaryReportView {
        EffectiveApiSummaryReportView {
            production_library_invocations: self.production_library_invocations,
            effective_definitions: self.effective_definitions,
            public_bindings: self.public_bindings,
            definitions_by_kind: self.definitions_by_kind.deep_view(),
            bindings_by_namespace: self.bindings_by_namespace.deep_view(),
            bindings_by_exposure: self.bindings_by_exposure.deep_view(),
        }
    }
}

/// All that can be seen from outside.
#[derive(Debug, PartialEq, Eq)]
pub struct EffectiveApiReport {
    pub summary: EffectiveApiSummaryReport,
    pub definitions: Vec<EffectiveApiDefinitionReport>,
    pub public_bindings: Vec<EffectiveApiBindingReport>,
}

/// The model of [`EffectiveApiReport`].
#[verifier::ext_equal]
pub struct EffectiveApiReportView {
    pub summary: EffectiveApiSummaryReportView,
    pub definitions: Seq<EffectiveApiDefinitionReportView>,
    pub public_bindings: Seq<EffectiveApiBindingReportView>,
}

impl DeepView for EffectiveApiReport {
    type V = EffectiveApiReportView;

    open spec fn deep_view(&self) -> EffectiveApiReportView {
        EffectiveApiReportView {
            summary: self.summary.deep_view(),
            definitions: self.definitions.deep_view(),
            public_bindings: self.public_bindings.deep_view(),
        }
    }
}

/// How complete a product of the compiler run is.
#[derive(Debug, PartialEq, Eq)]
pub struct ProductAvailabilityReport {
    pub product: String,
    pub status: SemanticStatus,
    pub reason: Option<String>,
}

/// The model of [`ProductAvailabilityReport`].
#[verifier::ext_equal]
pub struct ProductAvailabilityReportView {
    pub product: Seq<char>,
    pub status: SemanticStatus,
    pub reason: Option<Seq<char>>,
}

impl DeepView for ProductAvailabilityReport {
    type V = ProductAvailabilityReportView;

    open spec fn deep_view(&self) -> ProductAvailabilityReportView {
        ProductAvailabilityReportView {
            product: self.product.deep_view(),
            status: self.status,
            reason: self.reason.deep_view(),
        }
    }
}

impl Clone for ProductAvailabilityReport {
    fn clone(&self) -> (copy: Self)
        ensures
            copy.deep_view() == self.deep_view(),
    {
        let copy = ProductAvailabilityReport {
            product: self.product.clone(),
            status: self.status,
            reason: self.reason.clone(),
        };
        proof {
            assert(copy.reason.deep_view() =~= self.reason.deep_view());
        }
        copy
    }
}

/// All that can be seen from outside, as far as the evidence allows it.
#[derive(Debug, PartialEq, Eq)]
pub struct ApiAggregation {
    pub product: ProductAvailabilityReport,
    pub report: Option<EffectiveApiReport>,
}

/// The model of [`ApiAggregation`].
#[verifier::ext_equal]
pub struct ApiAggregationView {
    pub product: ProductAvailabilityReportView,
    pub report: Option<EffectiveApiReportView>,
}

impl DeepView for ApiAggregation {
    type V = ApiAggregationView;

    open spec fn deep_view(&self) -> ApiAggregationView {
        ApiAggregationView {
            product: self.product.deep_view(),
            report: self.report.deep_view(),
        }
    }
}

/// What tells one library target from another.
#[derive(Debug, PartialEq, Eq)]
pub struct ApiTargetKey {
    pub package_id: String,
    pub name: String,
    pub source: PathKey,
    pub kinds: Vec<String>,
    pub crate_types: Vec<String>,
    pub compilation_context: String,
}

/// The model of [`ApiTargetKey`].
#[verifier::ext_equal]
pub struct ApiTargetKeyView {
    pub package_id: Seq<char>,
    pub name: Seq<char>,
    pub source: Seq<(usize, Seq<char>)>,
    pub kinds: Seq<Seq<char>>,
    pub crate_types: Seq<Seq<char>>,
    pub compilation_context: Seq<char>,
}

impl DeepView for ApiTargetKey {
    type V = ApiTargetKeyView;

    open spec fn deep_view(&self) -> ApiTargetKeyView {
        ApiTargetKeyView {
            package_id: self.package_id.deep_view(),
            name: self.name.deep_view(),
            source: self.source.deep_view(),
            kinds: self.kinds.deep_view(),
            crate_types: self.crate_types.deep_view(),
            compilation_context: self.compilation_context.deep_view(),
        }
    }
}

impl Clone for ApiTargetKey {
    fn clone(&self) -> (copy: Self)
        ensures
            copy.deep_view() == self.deep_view(),
    {
        let copy = ApiTargetKey {
            package_id: self.package_id.clone(),
            name: self.name.clone(),
            source: copy_key(&self.source),
            kinds: self.kinds.clone(),
            crate_types: self.crate_types.clone(),
            compilation_context: self.compilation_context.clone(),
        };
        proof {
            assert(copy.kinds.deep_view() =~= self.kinds.deep_view());
            assert(copy.crate_types.deep_view() =~= self.crate_types.deep_view());
        }
        copy
    }
}

/// Ordered field by field.
impl Ordered for ApiTargetKey {
    open spec fn precedes(a: ApiTargetKeyView, b: ApiTargetKeyView) -> bool {
        <(String, (String, (PathKey, (Vec<String>, (Vec<String>, String))))) as Ordered>::precedes(
            (a.package_id, (a.name, (a.source, (a.kinds, (a.crate_types, a.compilation_context))))),
            (b.package_id, (b.name, (b.source, (b.kinds, (b.crate_types, b.compilation_context))))),
        )
    }

    proof fn irreflexive(a: ApiTargetKeyView) {
        <(String, (String, (PathKey, (Vec<String>, (Vec<String>, String))))) as Ordered>::irreflexive((a.package_id, (a.name, (a.source, (a.kinds, (a.crate_types, a.compilation_context))))));
    }

    proof fn transitive(a: ApiTargetKeyView, b: ApiTargetKeyView, c: ApiTargetKeyView) {
        <(String, (String, (PathKey, (Vec<String>, (Vec<String>, String))))) as Ordered>::transitive(
            (a.package_id, (a.name, (a.source, (a.kinds, (a.crate_types, a.compilation_context))))),
            (b.package_id, (b.name, (b.source, (b.kinds, (b.crate_types, b.compilation_context))))),
            (c.package_id, (c.name, (c.source, (c.kinds, (c.crate_types, c.compilation_context))))),
        );
    }

    proof fn total(a: ApiTargetKeyView, b: ApiTargetKeyView) {
        <(String, (String, (PathKey, (Vec<String>, (Vec<String>, String))))) as Ordered>::total((a.package_id, (a.name, (a.source, (a.kinds, (a.crate_types, a.compilation_context))))), (b.package_id, (b.name, (b.source, (b.kinds, (b.crate_types, b.compilation_context))))));
    }

    fn rank(&self, other: &Self) -> (rank: Rank) {
        match self.package_id.rank(&other.package_id) {
            Rank::Equal => {
                match self.name.rank(&other.name) {
                    Rank::Equal => {
                        match self.source.rank(&other.source) {
                            Rank::Equal => {
                                match self.kinds.rank(&other.kinds) {
                                    Rank::Equal => {
                                        match self.crate_types.rank(&other.crate_types) {
                                            Rank::Equal => {
                                                self.compilation_context.rank(&other.compilation_context)
                                            },
                                            decided => decided,
                                        }
                                    },
                                    decided => decided,
                                }
                            },
                            decided => decided,
                        }
                    },
                    decided => decided,
                }
            },
            decided => decided,
        }
    }
}

/// The facts of one invocation about what can be seen from outside.
pub struct ApiInvocation<'a> {
    pub target: Option<&'a CompilerTargetReport>,
    pub owner: &'a str,
    pub crate_name: &'a str,
    pub status: SemanticStatus,
    pub sources: &'a Vec<SourceFile>,
    pub definitions: &'a Vec<EffectiveDefinition>,
    pub public_bindings: &'a Vec<PublicBinding>,
}

/// The model of [`ApiInvocation`].
pub struct ApiInvocationView {
    pub target: Option<CompilerTargetReportView>,
    pub owner: Seq<char>,
    pub crate_name: Seq<char>,
    pub status: SemanticStatus,
    pub sources: Seq<SourceFileView>,
    pub definitions: Seq<EffectiveDefinitionView>,
    pub public_bindings: Seq<PublicBindingView>,
}

impl<'a> DeepView for ApiInvocation<'a> {
    type V = ApiInvocationView;

    open spec fn deep_view(&self) -> ApiInvocationView {
        ApiInvocationView {
            target: match self.target {
                Some(target) => Some(target.deep_view()),
                None => None,
            },
            owner: self.owner@,
            crate_name: self.crate_name@,
            status: self.status,
            sources: self.sources.deep_view(),
            definitions: self.definitions.deep_view(),
            public_bindings: self.public_bindings.deep_view(),
        }
    }
}

/// Whether a target is one whose names can be seen from outside.
pub open spec fn is_eligible(target: CompilerTargetReportView) -> bool {
    &&& target.role == "production"@
    &&& has_library_kind(target.kinds)
    &&& target.compilation_context == "target"@ || target.kinds.contains("proc-macro"@)
}

/// Whether a target is one whose names can be seen from outside.
pub fn eligible(target: &CompilerTargetReport) -> (result: bool)
    ensures
        result == is_eligible(target.deep_view()),
{
    same(target.role.as_str(), "production") && is_library(&target.kinds) && (same(
        target.compilation_context.as_str(),
        "target",
    ) || list_contains(&target.kinds, "proc-macro"))
}

/// The key of a reported target.
pub open spec fn api_key(
    known: Seq<CanonicalPathView>,
    target: CompilerTargetReportView,
) -> ApiTargetKeyView {
    ApiTargetKeyView {
        package_id: target.package_id,
        name: target.name,
        source: canonical_key(known, target.source),
        kinds: sorted_texts(target.kinds),
        crate_types: sorted_texts(target.crate_types),
        compilation_context: target.compilation_context,
    }
}

/// A target, written out with its source as it is named.
pub open spec fn rendered_target(key: ApiTargetKeyView, source: Seq<char>) -> Seq<char> {
    key.package_id + ":"@ + key.name + " at "@ + source
}

impl ApiTargetKey {
    /// The key of a reported target.
    pub fn from_report(places: &Locations, target: &CompilerTargetReport) -> (key: Self)
        ensures
            key.deep_view() == api_key(places.deep_view().canonical, target.deep_view()),
    {
        ApiTargetKey {
            package_id: target.package_id.clone(),
            name: target.name.clone(),
            source: canonical_place(places, target.source.as_str()),
            kinds: sorted(&target.kinds),
            crate_types: sorted(&target.crate_types),
            compilation_context: target.compilation_context.clone(),
        }
    }

    /// Writes the target out, with its source as it is named.
    pub fn render(&self, source: &str) -> (text: String)
        ensures
            text@ == rendered_target(self.deep_view(), source@),
    {
        let mut text = self.package_id.clone();
        text.append(":");
        text.append(self.name.as_str());
        text.append(" at ");
        text.append(source);
        text
    }
}

/// Picks the key of a library target whose features are all enabled.
pub open spec fn gated_key(
    known: Seq<CanonicalPathView>,
    package: GatedPackageView,
    enabled: Seq<Seq<char>>,
) -> spec_fn(GatedTargetView) -> Option<ApiTargetKeyView> {
    |target: GatedTargetView|
        if has_library_kind(target.kinds) && !any_where(
            target.required_features,
            |feature: Seq<char>| !enabled.contains(feature),
        ) {
            Some(
                ApiTargetKeyView {
                    package_id: package.id,
                    name: target.name,
                    source: canonical_key(known, target.source),
                    kinds: sorted_texts(target.kinds),
                    crate_types: sorted_texts(target.crate_types),
                    compilation_context: if target.kinds.contains("proc-macro"@) {
                        "host"@
                    } else {
                        "target"@
                    },
                },
            )
        } else {
            None
        }
}

/// Picks the key of a library target whose features are all enabled, with the source that it names.
pub open spec fn named_target(
    known: Seq<CanonicalPathView>,
    package: GatedPackageView,
    enabled: Seq<Seq<char>>,
) -> spec_fn(GatedTargetView) -> Option<(ApiTargetKeyView, Seq<char>)> {
    |target: GatedTargetView|
        match gated_key(known, package, enabled)(target) {
            Some(key) => Some((key, canonical_form(known, target.source))),
            None => None,
        }
}

/// The library targets of the package at a place.
pub open spec fn package_targets(
    known: Seq<CanonicalPathView>,
    packages: Seq<GatedPackageView>,
    resolved: Map<Seq<char>, Seq<Seq<char>>>,
) -> spec_fn(int) -> Seq<(ApiTargetKeyView, Seq<char>)> {
    |at: int|
        if packages[at].selected {
            collected(
                packages[at].targets,
                named_target(known, packages[at], resolved[packages[at].id]),
            )
        } else {
            Seq::empty()
        }
}

/// The library targets that have to be seen, each with the source that the first of its kind
/// names.
pub open spec fn targets_to_see(
    known: Seq<CanonicalPathView>,
    packages: Seq<GatedPackageView>,
    resolved: Map<Seq<char>, Seq<Seq<char>>>,
) -> Map<ApiTargetKeyView, Seq<char>> {
    earliest(flattened(packages.len() as int, package_targets(known, packages, resolved)))
}

/// Whether a selected package has no resolved features.
pub open spec fn unresolved(resolved: Map<Seq<char>, Seq<Seq<char>>>) -> spec_fn(
    GatedPackageView,
) -> bool {
    |package: GatedPackageView| package.selected && !resolved.dom().contains(package.id)
}

fn target_key(
    places: &Locations,
    package: &GatedPackage,
    target: &GatedTarget,
    enabled: &Vec<String>,
) -> (key: Option<ApiTargetKey>)
    ensures
        key.deep_view() == gated_key(
            places.deep_view().canonical,
            package.deep_view(),
            enabled.deep_view(),
        )(target.deep_view()),
{
    let ghost told = enabled.deep_view();
    let ghost property = |feature: Seq<char>| !told.contains(feature);
    let test = |feature: &String| -> (result: bool)
        ensures
            result == property(feature.deep_view()),
    {
        !list_contains(enabled, feature.as_str())
    };
    if !is_library(&target.kinds) || any_item(&target.required_features, test, Ghost(property)) {
        return None;
    }
    Some(
        ApiTargetKey {
            package_id: package.id.clone(),
            name: target.name.clone(),
            source: canonical_place(places, target.source.as_str()),
            kinds: sorted(&target.kinds),
            crate_types: sorted(&target.crate_types),
            compilation_context: if list_contains(&target.kinds, "proc-macro") {
                "host".to_owned()
            } else {
                "target".to_owned()
            },
        },
    )
}

/// Finds the library targets that have to be seen, given the features that Cargo resolved.
pub fn expected_targets(
    places: &Locations,
    packages: &Vec<GatedPackage>,
    resolved: &SortedMap<String, Vec<String>>,
) -> (result: Result<SortedMap<ApiTargetKey, String>, String>)
    requires
        resolved.wf(),
    ensures
        match first_where(packages.deep_view(), unresolved(resolved.deep_view())) {
            Some(package) => result matches Err(error) && error@
                == "pinned Cargo profile has no resolved features for selected package "@
                + package.name,
            None => result matches Ok(expected) && expected.wf() && expected.deep_view()
                == targets_to_see(
                places.deep_view().canonical,
                packages.deep_view(),
                resolved.deep_view(),
            ),
        },
{
    let ghost known = places.deep_view().canonical;
    let ghost features = resolved.deep_view();
    let ghost all = packages.deep_view();
    let ghost property = unresolved(features);
    let test = |package: &GatedPackage| -> (result: bool)
        ensures
            result == property(package.deep_view()),
    {
        package.selected && !resolved.contains_key(&package.id)
    };
    if let Some(package) = find_first(packages, test, Ghost(property)) {
        let mut message = "pinned Cargo profile has no resolved features for selected package ".to_owned();
        message.append(package.name.as_str());
        return Err(message);
    }
    let ghost f = package_targets(known, all, features);
    let mut named: Vec<(ApiTargetKey, String)> = no_items();
    let mut index: usize = 0;
    proof {
        lemma_first_where(all, property);
        assert(all.len() == packages.len());
    }
    while index < packages.len()
        invariant
            known == places.deep_view().canonical,
            features == resolved.deep_view(),
            resolved.wf(),
            all == packages.deep_view(),
            property == unresolved(features),
            f == package_targets(known, all, features),
            forall|i: int| 0 <= i < all.len() ==> !property(#[trigger] all[i]),
            index <= all.len(),
            named.deep_view() == flattened(index as int, f),
        decreases all.len() - index,
    {
        let package = &packages[index];
        let ghost told = package.deep_view();
        proof {
            assert(all[index as int] == told);
            assert(!property(all[index as int]));
        }
        if package.selected {
            let enabled = match resolved.get(&package.id) {
                Some(enabled) => copy_list(enabled),
                None => no_items(),
            };
            let ghost g = named_target(known, told, enabled.deep_view());
            let pick = |target: &GatedTarget| -> (entry: Option<(ApiTargetKey, String)>)
                ensures
                    entry.deep_view() == g(target.deep_view()),
            {
                match target_key(places, package, target, &enabled) {
                    Some(key) => Some((key, canonical(places, target.source.as_str()))),
                    None => None,
                }
            };
            append_items(&mut named, collect_items(&package.targets, pick, Ghost(g)));
        } else {
            proof {
                assert(flattened(index as int, f) + f(index as int) =~= flattened(
                    index as int,
                    f,
                ));
            }
        }
        index = index + 1;
    }
    Ok(keep_earliest(named))
}

/// Whether an invocation is a fragment of a target.
pub open spec fn is_fragment(
    known: Seq<CanonicalPathView>,
    key: ApiTargetKeyView,
) -> spec_fn(ApiInvocationView) -> bool {
    |invocation: ApiInvocationView|
        match invocation.target {
            Some(target) => is_eligible(target) && api_key(known, target) == key,
            None => false,
        }
}

/// Picks what is said of an invocation of a target that was not expected.
pub open spec fn unexpected_reason(
    known: Seq<CanonicalPathView>,
    expected: Map<ApiTargetKeyView, Seq<char>>,
) -> spec_fn(ApiInvocationView) -> Option<Seq<char>> {
    |invocation: ApiInvocationView|
        match invocation.target {
            Some(target) if is_eligible(target) && !expected.contains_key(
                api_key(known, target),
            ) => {
                Some(
                    "unexpected production library compiler fragment: "@ + rendered_target(
                        api_key(known, target),
                        canonical_form(known, target.source),
                    ),
                )
            },
            _ => None,
        }
}

/// Whether an invocation shows anything of a library target.
pub open spec fn shows_evidence() -> spec_fn(ApiInvocationView) -> bool {
    |invocation: ApiInvocationView|
        match invocation.target {
            Some(target) => is_eligible(target) && (invocation.status
                != SemanticStatus::Unavailable || invocation.definitions.len() > 0
                || invocation.public_bindings.len() > 0),
            None => false,
        }
}

/// The name of a status, as it is declared.
pub open spec fn declared_status(status: SemanticStatus) -> Seq<char> {
    match status {
        SemanticStatus::Complete => "Complete"@,
        SemanticStatus::Partial => "Partial"@,
        SemanticStatus::Unavailable => "Unavailable"@,
    }
}

fn write_declared_status(status: SemanticStatus) -> (name: &'static str)
    ensures
        name@ == declared_status(status),
{
    match status {
        SemanticStatus::Complete => "Complete",
        SemanticStatus::Partial => "Partial",
        SemanticStatus::Unavailable => "Unavailable",
    }
}

/// Picks what is said of an expected target that has no single complete fragment.
pub open spec fn fragment_reason(
    known: Seq<CanonicalPathView>,
    expected: Map<ApiTargetKeyView, Seq<char>>,
    invocations: Seq<ApiInvocationView>,
) -> spec_fn(ApiTargetKeyView) -> Option<Seq<char>> {
    |key: ApiTargetKeyView|
        {
            let count = count_where(invocations, is_fragment(known, key));
            let first = first_where(invocations, is_fragment(known, key));
            if count == 0 {
                Some(
                    "missing production library compiler fragment: "@ + rendered_target(
                        key,
                        expected[key],
                    ),
                )
            } else if count > 1 {
                Some(
                    decimal(count) + " production library compiler fragments matched "@
                        + rendered_target(
                        key,
                        expected[key],
                    ),
                )
            } else {
                match first {
                    Some(invocation) if invocation.status != SemanticStatus::Complete => Some(
                        "effective API is "@ + declared_status(invocation.status) + " for "@
                            + rendered_target(
                        key,
                        expected[key],
                    ),
                    ),
                    _ => None,
                }
            }
        }
}

/// All reasons why what can be seen from outside is not known.
pub open spec fn api_reasons(
    known: Seq<CanonicalPathView>,
    expected: Map<ApiTargetKeyView, Seq<char>>,
    trustworthy: bool,
    invocations: Seq<ApiInvocationView>,
) -> Set<Seq<char>> {
    let found = image(invocations, unexpected_reason(known, expected)).union(
        image(ascending::<ApiTargetKey>(expected.dom()), fragment_reason(known, expected, invocations)),
    );
    if trustworthy {
        found
    } else {
        found.insert("compiler sidecar or build-profile validation was incomplete"@)
    }
}

/// Where a span is, by the last source with its key.
pub open spec fn api_span(
    places: LocationsView,
    invocation: ApiInvocationView,
    span: Option<SourceSpanView>,
) -> Option<CompilerSourceSpanReportView> {
    match span {
        None => None,
        Some(span) => match last_place(
            invocation.sources,
            |source: SourceFileView| source.key == span.file,
        ) {
            None => None,
            Some(at) => {
                let source = invocation.sources[at];
                if span.start > span.end || span.end > source.byte_len
                    || source.local_path is None {
                    None
                } else {
                    Some(
                        CompilerSourceSpanReportView {
                            path: if source.generated {
                                generated_label_of(
                                    invocation.owner,
                                    source.local_path->0,
                                    source.source_hash,
                                )
                            } else {
                                portable_path(
                                    match path_below(source.local_path->0, places.root) {
                                        Some(rest) => rest,
                                        None => source.local_path->0,
                                    },
                                )
                            },
                            source_hash: source.source_hash,
                            generated: source.generated,
                            start_byte: span.start as u64,
                            end_byte: span.end as u64,
                            line: span.line as u64,
                            column: span.column as u64,
                        },
                    )
                }
            },
        },
    }
}

fn source_span(places: &Locations, invocation: &ApiInvocation<'_>, span: &Option<SourceSpan>) -> (
    report: Option<CompilerSourceSpanReport>)
    ensures
        report.deep_view() == api_span(
            places.deep_view(),
            invocation.deep_view(),
            span.deep_view(),
        ),
{
    let span = match span {
        Some(span) => span,
        None => {
            return None;
        },
    };
    let ghost told = span.deep_view().file;
    let ghost property = |source: SourceFileView| source.key == told;
    let test = |source: &SourceFile| -> (result: bool)
        ensures
            result == property(source.deep_view()),
    {
        same(source.key.0.as_str(), span.file.0.as_str())
    };
    let at: usize = match find_last(invocation.sources, test, Ghost(property)) {
        Some(at) => at,
        None => {
            return None;
        },
    };
    let source = &invocation.sources[at];
    proof {
        assert(invocation.deep_view().sources[at as int] == source.deep_view());
    }
    if span.start > span.end || span.end > source.byte_len {
        return None;
    }
    match &source.local_path {
        None => None,
        Some(local) => {
            let path = if source.generated {
                generated_source_label(
                    invocation.owner,
                    local.as_str(),
                    source.source_hash.as_str(),
                )
            } else {
                match strip_base(local.as_str(), places.root.as_str()) {
                    Some(rest) => portable(rest.as_str()),
                    None => portable(local.as_str()),
                }
            };
            Some(
                CompilerSourceSpanReport {
                    path,
                    source_hash: source.source_hash.clone(),
                    generated: source.generated,
                    start_byte: span.start as u64,
                    end_byte: span.end as u64,
                    line: span.line as u64,
                    column: span.column as u64,
                },
            )
        },
    }
}

/// What tells one visible definition from another.
pub type EffectiveKey = (String, (String, (u64, u64)));

/// What tells one visible name from another.
pub type EffectiveBindingKey = (
    String,
    (String, ((u64, u64), (String, (String, (String, ((u64, u64), Option<(u64, u64)>)))))),
);

/// The reported identity of a definition, where there is one.
pub open spec fn optional_id(id: Option<CompilerDefId>) -> Option<CompilerDefinitionIdReportView> {
    match id {
        Some(id) => Some(id_report(id)),
        None => None,
    }
}

fn report_optional_id(id: Option<CompilerDefId>) -> (report: Option<CompilerDefinitionIdReport>)
    ensures
        report.deep_view() == optional_id(id),
{
    match id {
        Some(id) => Some(definition_id(id)),
        None => None,
    }
}

/// How far a definition can be seen, by name.
pub open spec fn level_name(level: EffectiveVisibilityLevel) -> Seq<char> {
    match level {
        EffectiveVisibilityLevel::Direct => "direct"@,
        EffectiveVisibilityLevel::Reexported => "reexported"@,
        EffectiveVisibilityLevel::Reachable => "reachable"@,
        EffectiveVisibilityLevel::ReachableThroughImplTrait => "reachable_through_impl_trait"@,
    }
}

/// How far a definition can be seen, by name.
pub fn effective_visibility(level: EffectiveVisibilityLevel) -> (name: &'static str)
    ensures
        name@ == level_name(level),
{
    match level {
        EffectiveVisibilityLevel::Direct => "direct",
        EffectiveVisibilityLevel::Reexported => "reexported",
        EffectiveVisibilityLevel::Reachable => "reachable",
        EffectiveVisibilityLevel::ReachableThroughImplTrait => "reachable_through_impl_trait",
    }
}

/// Picks a definition that can be seen from outside, with what it is known by.
pub open spec fn visible_definition(
    places: LocationsView,
    package_id: Seq<char>,
    invocation: ApiInvocationView,
) -> spec_fn(EffectiveDefinitionView) -> Option<
    ((Seq<char>, (Seq<char>, (u64, u64))), EffectiveApiDefinitionReportView),
> {
    |fact: EffectiveDefinitionView|
        match fact.effective_public_at {
            None => None,
            Some(level) => {
                let definition = fact.definition;
                Some(
                    (
                        (
                            package_id,
                            (
                                invocation.crate_name,
                                (
                                    definition.compiler_id.stable_crate_id,
                                    definition.compiler_id.local_hash,
                                ),
                            ),
                        ),
                        EffectiveApiDefinitionReportView {
                            package_id,
                            crate_name: invocation.crate_name,
                            id: id_report(definition.compiler_id),
                            parent: optional_id(definition.parent),
                            name: definition.name,
                            definition_path: definition.definition_path,
                            kind: kind_name(definition.kind),
                            nominal_visibility: match definition.nominal_visibility {
                                NominalVisibility::Public => "public"@,
                                NominalVisibility::Restricted(_) => "restricted"@,
                            },
                            restricted_to: match definition.nominal_visibility {
                                NominalVisibility::Public => None,
                                NominalVisibility::Restricted(boundary) => Some(
                                    id_report(boundary),
                                ),
                            },
                            effective_public_at: level_name(level),
                            expansion_origin: origin_name(definition.expansion_origin),
                            span: api_span(places, invocation, definition.span),
                            attribution_callsite: api_span(
                                places,
                                invocation,
                                definition.attribution_callsite,
                            ),
                        },
                    ),
                )
            },
        }
}

/// The path of the last definition with an identity.
pub open spec fn path_of(
    definitions: Seq<EffectiveDefinitionView>,
    id: CompilerDefId,
) -> Option<Seq<char>> {
    match last_place(
        definitions,
        |fact: EffectiveDefinitionView| fact.definition.compiler_id == id,
    ) {
        Some(at) => Some(definitions[at].definition.definition_path),
        None => None,
    }
}

fn find_path(definitions: &Vec<EffectiveDefinition>, id: CompilerDefId) -> (path: Option<String>)
    ensures
        path.deep_view() == path_of(definitions.deep_view(), id),
{
    let ghost property = |fact: EffectiveDefinitionView| fact.definition.compiler_id == id;
    let test = |fact: &EffectiveDefinition| -> (result: bool)
        ensures
            result == property(fact.deep_view()),
    {
        fact.definition.compiler_id == id
    };
    match find_last(definitions, test, Ghost(property)) {
        Some(at) => {
            proof {
                assert(definitions.deep_view()[at as int] == definitions[at as int].deep_view());
            }
            Some(definitions[at].definition.definition_path.clone())
        },
        None => None,
    }
}

/// Picks a name that can be seen from outside, with what it is known by.
pub open spec fn visible_binding(
    places: LocationsView,
    package_id: Seq<char>,
    invocation: ApiInvocationView,
) -> spec_fn(PublicBindingView) -> Option<
    (
        (
            Seq<char>,
            (
                Seq<char>,
                (
                    (u64, u64),
                    (
                        Seq<char>,
                        (Seq<char>, (Seq<char>, ((u64, u64), Option<(u64, u64)>))),
                    ),
                ),
            ),
        ),
        EffectiveApiBindingReportView,
    ),
> {
    |binding: PublicBindingView|
        Some(
            (
                (
                    package_id,
                    (
                        invocation.crate_name,
                        (
                            (binding.parent.stable_crate_id, binding.parent.local_hash),
                            (
                                binding.name,
                                (
                                    namespace_name(binding.namespace),
                                    (
                                        exposure_name(binding.exposure),
                                        (
                                            (
                                                binding.target.stable_crate_id,
                                                binding.target.local_hash,
                                            ),
                                            match binding.exposing_import {
                                                Some(id) => Some(
                                                    (id.stable_crate_id, id.local_hash),
                                                ),
                                                None => None,
                                            },
                                        ),
                                    ),
                                ),
                            ),
                        ),
                    ),
                ),
                EffectiveApiBindingReportView {
                    package_id,
                    crate_name: invocation.crate_name,
                    parent: id_report(binding.parent),
                    target: id_report(binding.target),
                    name: binding.name,
                    namespace: namespace_name(binding.namespace),
                    exposure: exposure_name(binding.exposure),
                    exposing_import: optional_id(binding.exposing_import),
                    parent_definition_path: path_of(invocation.definitions, binding.parent),
                    target_definition_path: path_of(invocation.definitions, binding.target),
                    span: api_span(places, invocation, binding.span),
                },
            ),
        )
}

fn list_definitions(places: &Locations, package_id: &str, invocation: &ApiInvocation<'_>) -> (list:
    Vec<(EffectiveKey, EffectiveApiDefinitionReport)>)
    ensures
        list.deep_view() == collected(
            invocation.deep_view().definitions,
            visible_definition(places.deep_view(), package_id@, invocation.deep_view()),
        ),
{
    let ghost f = visible_definition(places.deep_view(), package_id@, invocation.deep_view());
    let pick = |fact: &EffectiveDefinition| -> (entry: Option<
        (EffectiveKey, EffectiveApiDefinitionReport),
    >)
        ensures
            entry.deep_view() == f(fact.deep_view()),
    {
        let definition = &fact.definition;
        match fact.effective_public_at {
            None => None,
            Some(level) => {
                let name = definition.name.clone();
                let report = EffectiveApiDefinitionReport {
                    package_id: package_id.to_owned(),
                    crate_name: invocation.crate_name.to_owned(),
                    id: definition_id(definition.compiler_id),
                    parent: report_optional_id(definition.parent),
                    name,
                    definition_path: definition.definition_path.clone(),
                    kind: definition_kind(definition.kind).to_owned(),
                    nominal_visibility: match definition.nominal_visibility {
                        NominalVisibility::Public => "public".to_owned(),
                        NominalVisibility::Restricted(_) => "restricted".to_owned(),
                    },
                    restricted_to: match definition.nominal_visibility {
                        NominalVisibility::Public => None,
                        NominalVisibility::Restricted(boundary) => Some(definition_id(boundary)),
                    },
                    effective_public_at: effective_visibility(level).to_owned(),
                    expansion_origin: expansion_origin(definition.expansion_origin).to_owned(),
                    span: source_span(places, invocation, &definition.span),
                    attribution_callsite: source_span(
                        places,
                        invocation,
                        &definition.attribution_callsite,
                    ),
                };
                proof {
                    assert(report.name.deep_view() == definition.name.deep_view());
                }
                Some(
                    (
                        (
                            package_id.to_owned(),
                            (
                                invocation.crate_name.to_owned(),
                                (
                                    definition.compiler_id.stable_crate_id,
                                    definition.compiler_id.local_hash,
                                ),
                            ),
                        ),
                        report,
                    ),
                )
            },
        }
    };
    collect_items(invocation.definitions, pick, Ghost(f))
}

fn list_bindings(places: &Locations, package_id: &str, invocation: &ApiInvocation<'_>) -> (list:
    Vec<(EffectiveBindingKey, EffectiveApiBindingReport)>)
    ensures
        list.deep_view() == collected(
            invocation.deep_view().public_bindings,
            visible_binding(places.deep_view(), package_id@, invocation.deep_view()),
        ),
{
    let ghost f = visible_binding(places.deep_view(), package_id@, invocation.deep_view());
    let pick = |binding: &PublicBinding| -> (entry: Option<
        (EffectiveBindingKey, EffectiveApiBindingReport),
    >)
        ensures
            entry.deep_view() == f(binding.deep_view()),
    {
        let import = match binding.exposing_import {
            Some(id) => Some((id.stable_crate_id, id.local_hash)),
            None => None,
        };
        let key = (
            package_id.to_owned(),
            (
                invocation.crate_name.to_owned(),
                (
                    (binding.parent.stable_crate_id, binding.parent.local_hash),
                    (
                        binding.name.clone(),
                        (
                            namespace(binding.namespace).to_owned(),
                            (
                                exposure(binding.exposure).to_owned(),
                                (
                                    (binding.target.stable_crate_id, binding.target.local_hash),
                                    import,
                                ),
                            ),
                        ),
                    ),
                ),
            ),
        );
        let report = EffectiveApiBindingReport {
            package_id: package_id.to_owned(),
            crate_name: invocation.crate_name.to_owned(),
            parent: definition_id(binding.parent),
            target: definition_id(binding.target),
            name: binding.name.clone(),
            namespace: namespace(binding.namespace).to_owned(),
            exposure: exposure(binding.exposure).to_owned(),
            exposing_import: report_optional_id(binding.exposing_import),
            parent_definition_path: find_path(invocation.definitions, binding.parent),
            target_definition_path: find_path(invocation.definitions, binding.target),
            span: source_span(places, invocation, &binding.span),
        };
        Some((key, report))
    };
    collect_items(invocation.public_bindings, pick, Ghost(f))
}

/// The visible definitions of the fragment of the target at a place.
pub open spec fn definitions_at(
    places: LocationsView,
    targets: Seq<ApiTargetKeyView>,
    invocations: Seq<ApiInvocationView>,
) -> spec_fn(int) -> Seq<
    ((Seq<char>, (Seq<char>, (u64, u64))), EffectiveApiDefinitionReportView),
> {
    |i: int|
        match first_where(invocations, is_fragment(places.canonical, targets[i])) {
            Some(invocation) => collected(
                invocation.definitions,
                visible_definition(places, targets[i].package_id, invocation),
            ),
            None => Seq::empty(),
        }
}

/// The visible names of the fragment of the target at a place.
pub open spec fn bindings_at(
    places: LocationsView,
    targets: Seq<ApiTargetKeyView>,
    invocations: Seq<ApiInvocationView>,
) -> spec_fn(int) -> Seq<
    (
        (
            Seq<char>,
            (
                Seq<char>,
                (
                    (u64, u64),
                    (
                        Seq<char>,
                        (Seq<char>, (Seq<char>, ((u64, u64), Option<(u64, u64)>))),
                    ),
                ),
            ),
        ),
        EffectiveApiBindingReportView,
    ),
> {
    |i: int|
        match first_where(invocations, is_fragment(places.canonical, targets[i])) {
            Some(invocation) => collected(
                invocation.public_bindings,
                visible_binding(places, targets[i].package_id, invocation),
            ),
            None => Seq::empty(),
        }
}

/// How much is listed.
pub open spec fn api_summary(
    invocation_count: nat,
    definitions: Seq<EffectiveApiDefinitionReportView>,
    bindings: Seq<EffectiveApiBindingReportView>,
) -> EffectiveApiSummaryReportView {
    EffectiveApiSummaryReportView {
        production_library_invocations: invocation_count as u64,
        effective_definitions: definitions.len() as u64,
        public_bindings: bindings.len() as u64,
        definitions_by_kind: tally(
            collected(
                definitions,
                |definition: EffectiveApiDefinitionReportView| Some(definition.kind),
            ),
        ),
        bindings_by_namespace: tally(
            collected(bindings, |binding: EffectiveApiBindingReportView| Some(binding.namespace)),
        ),
        bindings_by_exposure: tally(
            collected(bindings, |binding: EffectiveApiBindingReportView| Some(binding.exposure)),
        ),
    }
}

fn summarize(
    invocation_count: usize,
    definitions: &Vec<EffectiveApiDefinitionReport>,
    bindings: &Vec<EffectiveApiBindingReport>,
) -> (summary: EffectiveApiSummaryReport)
    ensures
        summary.deep_view() == api_summary(
            invocation_count as nat,
            definitions.deep_view(),
            bindings.deep_view(),
        ),
{
    let ghost f = |definition: EffectiveApiDefinitionReportView| Some(definition.kind);
    let ghost g = |binding: EffectiveApiBindingReportView| Some(binding.namespace);
    let ghost h = |binding: EffectiveApiBindingReportView| Some(binding.exposure);
    let pick_kind = |definition: &EffectiveApiDefinitionReport| -> (kind: Option<String>)
        ensures
            kind.deep_view() == f(definition.deep_view()),
    {
        Some(definition.kind.clone())
    };
    let pick_namespace = |binding: &EffectiveApiBindingReport| -> (name: Option<String>)
        ensures
            name.deep_view() == g(binding.deep_view()),
    {
        Some(binding.namespace.clone())
    };
    let pick_exposure = |binding: &EffectiveApiBindingReport| -> (name: Option<String>)
        ensures
            name.deep_view() == h(binding.deep_view()),
    {
        Some(binding.exposure.clone())
    };
    proof {
        assert(definitions.len() == definitions.deep_view().len());
        assert(bindings.len() == bindings.deep_view().len());
    }
    EffectiveApiSummaryReport {
        production_library_invocations: invocation_count as u64,
        effective_definitions: definitions.len() as u64,
        public_bindings: bindings.len() as u64,
        definitions_by_kind: counts(collect_items(definitions, pick_kind, Ghost(f))),
        bindings_by_namespace: counts(collect_items(bindings, pick_namespace, Ghost(g))),
        bindings_by_exposure: counts(collect_items(bindings, pick_exposure, Ghost(h))),
    }
}

/// What is said where the evidence does not allow a report.
pub open spec fn incomplete_api(status: SemanticStatus, reason: Seq<char>) -> ApiAggregationView {
    ApiAggregationView {
        product: ProductAvailabilityReportView {
            product: "effective_api"@,
            status,
            reason: Some(reason),
        },
        report: None,
    }
}

fn incomplete(status: SemanticStatus, reason: String) -> (aggregation: ApiAggregation)
    ensures
        aggregation.deep_view() == incomplete_api(status, reason@),
{
    ApiAggregation {
        product: ProductAvailabilityReport {
            product: "effective_api".to_owned(),
            status,
            reason: Some(reason),
        },
        report: None,
    }
}

/// What can be seen from outside of the expected targets, where each has one complete fragment
/// and nothing else is amiss.
pub open spec fn api_of_expected(
    places: LocationsView,
    expected: Map<ApiTargetKeyView, Seq<char>>,
    trustworthy: bool,
    invocations: Seq<ApiInvocationView>,
) -> ApiAggregationView {
    let targets = ascending::<ApiTargetKey>(expected.dom());
    let reasons = ascending::<String>(
        api_reasons(places.canonical, expected, trustworthy, invocations),
    );
    if targets.len() == 0 {
        incomplete_api(
            SemanticStatus::Unavailable,
            "no selected production library or proc-macro target"@,
        )
    } else if reasons.len() > 0 {
        incomplete_api(
            if any_where(invocations, shows_evidence()) {
                SemanticStatus::Partial
            } else {
                SemanticStatus::Unavailable
            },
            joined(reasons, "; "@),
        )
    } else {
        let definitions = values_of::<EffectiveKey, _>(
            assembled(
                flattened(targets.len() as int, definitions_at(places, targets, invocations)),
            ),
        );
        let bindings = values_of::<EffectiveBindingKey, _>(
            assembled(flattened(targets.len() as int, bindings_at(places, targets, invocations))),
        );
        ApiAggregationView {
            product: ProductAvailabilityReportView {
                product: "effective_api"@,
                status: SemanticStatus::Complete,
                reason: None,
            },
            report: Some(
                EffectiveApiReportView {
                    summary: api_summary(targets.len(), definitions, bindings),
                    definitions,
                    public_bindings: bindings,
                },
            ),
        }
    }
}

fn same_key(left: &ApiTargetKey, right: &ApiTargetKey) -> (result: bool)
    ensures
        result == (left.deep_view() == right.deep_view()),
{
    proof {
        ApiTargetKey::irreflexive(left.deep_view());
    }
    match left.rank(right) {
        Rank::Equal => true,
        _ => false,
    }
}

fn check_fragment(places: &Locations, invocation: &ApiInvocation<'_>, key: &ApiTargetKey) -> (
    result: bool)
    ensures
        result == is_fragment(places.deep_view().canonical, key.deep_view())(
            invocation.deep_view(),
        ),
{
    match invocation.target {
        Some(target) => eligible(target) && same_key(
            &ApiTargetKey::from_report(places, target),
            key,
        ),
        None => false,
    }
}

fn find_fragment<'a, 'b>(
    places: &Locations,
    invocations: &'b Vec<ApiInvocation<'a>>,
    key: &ApiTargetKey,
) -> (found: Option<&'b ApiInvocation<'a>>)
    ensures
        found.deep_view() == first_where(
            invocations.deep_view(),
            is_fragment(places.deep_view().canonical, key.deep_view()),
        ),
{
    let ghost property = is_fragment(places.deep_view().canonical, key.deep_view());
    let test = |invocation: &ApiInvocation<'a>| -> (result: bool)
        ensures
            result == property(invocation.deep_view()),
    {
        check_fragment(places, invocation, key)
    };
    find_first(invocations, test, Ghost(property))
}

fn describe_fragments<'a>(
    places: &Locations,
    expected: &SortedMap<ApiTargetKey, String>,
    invocations: &Vec<ApiInvocation<'a>>,
    key: &ApiTargetKey,
) -> (reason: Option<String>)
    requires
        expected.wf(),
        expected.deep_view().contains_key(key.deep_view()),
    ensures
        reason.deep_view() == fragment_reason(
            places.deep_view().canonical,
            expected.deep_view(),
            invocations.deep_view(),
        )(key.deep_view()),
{
    let source = match expected.get(key) {
        Some(source) => source,
        None => {
            return None;
        },
    };
    let ghost property = is_fragment(places.deep_view().canonical, key.deep_view());
    let test = |invocation: &ApiInvocation<'a>| -> (result: bool)
        ensures
            result == property(invocation.deep_view()),
    {
        check_fragment(places, invocation, key)
    };
    let count = count_items(invocations, test, Ghost(property));
    if count == 0 {
        let mut reason = "missing production library compiler fragment: ".to_owned();
        reason.append(key.render(source.as_str()).as_str());
        return Some(reason);
    }
    if count > 1 {
        let mut reason = decimal_text(count as u128);
        reason.append(" production library compiler fragments matched ");
        reason.append(key.render(source.as_str()).as_str());
        return Some(reason);
    }
    match find_fragment(places, invocations, key) {
        Some(invocation) => if invocation.status != SemanticStatus::Complete {
            let mut reason = "effective API is ".to_owned();
            reason.append(write_declared_status(invocation.status));
            reason.append(" for ");
            reason.append(key.render(source.as_str()).as_str());
            Some(reason)
        } else {
            None
        },
        None => None,
    }
}

fn list_reasons<'a>(
    places: &Locations,
    expected: &SortedMap<ApiTargetKey, String>,
    trustworthy: bool,
    invocations: &Vec<ApiInvocation<'a>>,
) -> (reasons: SortedSet<String>)
    requires
        expected.wf(),
    ensures
        reasons.wf(),
        reasons.deep_view() == api_reasons(
            places.deep_view().canonical,
            expected.deep_view(),
            trustworthy,
            invocations.deep_view(),
        ),
{
    let ghost known = places.deep_view().canonical;
    let ghost f = unexpected_reason(known, expected.deep_view());
    let pick = |invocation: &ApiInvocation<'a>| -> (reason: Option<String>)
        ensures
            reason.deep_view() == f(invocation.deep_view()),
    {
        match invocation.target {
            Some(target) => {
                let key = ApiTargetKey::from_report(places, target);
                if eligible(target) && !expected.contains_key(&key) {
                    let mut reason = "unexpected production library compiler fragment: ".to_owned();
                    let source = canonical(places, target.source.as_str());
                    reason.append(key.render(source.as_str()).as_str());
                    Some(reason)
                } else {
                    None
                }
            },
            None => None,
        }
    };
    let mut reasons = collect_set(invocations, pick, Ghost(f));
    let ghost first = reasons.deep_view();
    let ghost g = fragment_reason(known, expected.deep_view(), invocations.deep_view());
    let ghost keys = expected.key_seq();
    let mut index: usize = 0;
    proof {
        expected.lemma_places();
        lemma_image_ends(keys, g);
        assert(first.union(Set::empty()) =~= first);
    }
    while index < expected.len()
        invariant
            known == places.deep_view().canonical,
            expected.wf(),
            keys == expected.key_seq(),
            g == fragment_reason(known, expected.deep_view(), invocations.deep_view()),
            index <= keys.len(),
            reasons.wf(),
            reasons.deep_view() == first.union(image(keys.take(index as int), g)),
        decreases keys.len() - index,
    {
        let ghost now = image(keys.take(index as int), g);
        let key = expected.key_at(index);
        proof {
            lemma_image_step(keys, g, index as int);
            assert(keys[index as int] == key.deep_view());
            expected.lemma_places();
            assert(expected.deep_view().dom().contains(keys[index as int]));
        }
        if let Some(reason) = describe_fragments(places, expected, invocations, key) {
            let ghost said = reason@;
            reasons.insert(reason);
            proof {
                assert(first.union(now).insert(said) =~= first.union(now.insert(said)));
            }
        }
        index = index + 1;
    }
    proof {
        lemma_image_ends(keys, g);
    }
    if !trustworthy {
        reasons.insert("compiler sidecar or build-profile validation was incomplete".to_owned());
    }
    reasons
}

/// Reports what can be seen from outside of the expected targets.
pub fn aggregate_expected<'a>(
    places: &Locations,
    expected: &SortedMap<ApiTargetKey, String>,
    collection_trustworthy: bool,
    invocations: &Vec<ApiInvocation<'a>>,
) -> (aggregation: ApiAggregation)
    requires
        expected.wf(),
    ensures
        aggregation.deep_view() == api_of_expected(
            places.deep_view(),
            expected.deep_view(),
            collection_trustworthy,
            invocations.deep_view(),
        ),
{
    let ghost told = places.deep_view();
    let ghost all = invocations.deep_view();
    let ghost targets = expected.key_seq();
    proof {
        expected.lemma_places();
    }
    if expected.len() == 0 {
        return incomplete(
            SemanticStatus::Unavailable,
            "no selected production library or proc-macro target".to_owned(),
        );
    }
    let reasons = list_reasons(places, expected, collection_trustworthy, invocations);
    proof {
        reasons.lemma_seq();
    }
    if reasons.len() > 0 {
        let ghost property = shows_evidence();
        let test = |invocation: &ApiInvocation<'a>| -> (result: bool)
            ensures
                result == property(invocation.deep_view()),
        {
            match invocation.target {
                Some(target) => eligible(target) && (invocation.status
                    != SemanticStatus::Unavailable || invocation.definitions.len() > 0
                    || invocation.public_bindings.len() > 0),
                None => false,
            }
        };
        let status = if any_item(invocations, test, Ghost(property)) {
            SemanticStatus::Partial
        } else {
            SemanticStatus::Unavailable
        };
        let list = reasons.into_vec();
        return incomplete(status, join(&list, "; "));
    }
    let ghost f = definitions_at(told, targets, all);
    let ghost g = bindings_at(told, targets, all);
    let mut definitions: Vec<(EffectiveKey, EffectiveApiDefinitionReport)> = no_items();
    let mut bindings: Vec<(EffectiveBindingKey, EffectiveApiBindingReport)> = no_items();
    let mut index: usize = 0;
    while index < expected.len()
        invariant
            told == places.deep_view(),
            all == invocations.deep_view(),
            expected.wf(),
            targets == expected.key_seq(),
            f == definitions_at(told, targets, all),
            g == bindings_at(told, targets, all),
            index <= targets.len(),
            definitions.deep_view() == flattened(index as int, f),
            bindings.deep_view() == flattened(index as int, g),
        decreases targets.len() - index,
    {
        let key = expected.key_at(index);
        proof {
            assert(targets[index as int] == key.deep_view());
        }
        match find_fragment(places, invocations, key) {
            Some(invocation) => {
                append_items(
                    &mut definitions,
                    list_definitions(places, key.package_id.as_str(), invocation),
                );
                append_items(
                    &mut bindings,
                    list_bindings(places, key.package_id.as_str(), invocation),
                );
            },
            None => {
                proof {
                    assert(flattened(index as int, f) + f(index as int) =~= flattened(
                        index as int,
                        f,
                    ));
                    assert(flattened(index as int, g) + g(index as int) =~= flattened(
                        index as int,
                        g,
                    ));
                }
            },
        }
        index = index + 1;
    }
    let definitions = assemble(definitions).into_values();
    let public_bindings = assemble(bindings).into_values();
    let summary = summarize(expected.len(), &definitions, &public_bindings);
    ApiAggregation {
        product: ProductAvailabilityReport {
            product: "effective_api".to_owned(),
            status: SemanticStatus::Complete,
            reason: None,
        },
        report: Some(EffectiveApiReport { summary, definitions, public_bindings }),
    }
}

/// What can be seen from outside of the selected packages.
#[verifier::opaque]
pub open spec fn api_of(
    places: LocationsView,
    packages: Seq<GatedPackageView>,
    resolved: Map<Seq<char>, Seq<Seq<char>>>,
    trustworthy: bool,
    invocations: Seq<ApiInvocationView>,
) -> ApiAggregationView {
    match first_where(packages, unresolved(resolved)) {
        Some(package) => incomplete_api(
            SemanticStatus::Unavailable,
            "pinned Cargo profile has no resolved features for selected package "@ + package.name,
        ),
        None => api_of_expected(
            places,
            targets_to_see(places.canonical, packages, resolved),
            trustworthy,
            invocations,
        ),
    }
}

/// Reports what can be seen from outside of the selected packages.
pub fn aggregate<'a>(
    places: &Locations,
    packages: &Vec<GatedPackage>,
    resolved: &SortedMap<String, Vec<String>>,
    collection_trustworthy: bool,
    invocations: &Vec<ApiInvocation<'a>>,
) -> (aggregation: ApiAggregation)
    requires
        resolved.wf(),
    ensures
        aggregation.deep_view() == api_of(
            places.deep_view(),
            packages.deep_view(),
            resolved.deep_view(),
            collection_trustworthy,
            invocations.deep_view(),
        ),
{
    proof {
        reveal(api_of);
    }
    match expected_targets(places, packages, resolved) {
        Ok(expected) => aggregate_expected(
            places,
            &expected,
            collection_trustworthy,
            invocations,
        ),
        Err(reason) => incomplete(SemanticStatus::Unavailable, reason),
    }
}

/// There is a report just where the product is complete: evidence that is not complete never
/// shows as an empty interface.
pub proof fn law_incomplete_evidence_shows_no_interface(
    places: LocationsView,
    expected: Map<ApiTargetKeyView, Seq<char>>,
    trustworthy: bool,
    invocations: Seq<ApiInvocationView>,
)
    ensures
        api_of_expected(places, expected, trustworthy, invocations).report is Some == (
        api_of_expected(places, expected, trustworthy, invocations).product.status
            == SemanticStatus::Complete),
        !trustworthy ==> api_of_expected(places, expected, trustworthy, invocations).report is None,
{
    let targets = ascending::<ApiTargetKey>(expected.dom());
    let found = api_reasons(places.canonical, expected, trustworthy, invocations);
    if !trustworthy {
        lemma_image_finite(invocations, unexpected_reason(places.canonical, expected));
        lemma_image_finite(targets, fragment_reason(places.canonical, expected, invocations));
        assert(found.contains("compiler sidecar or build-profile validation was incomplete"@));
        lemma_ascending_exists::<String>(found);
        assert(ascending::<String>(found).to_set().contains(
            "compiler sidecar or build-profile validation was incomplete"@,
        ));
    }
}

} // verus!
