//! The public names of the selected libraries, and how they change.

use vstd::prelude::*;

use crate::collections::{
    any_item, any_where, append_items, ascending, collect_entries, collect_items, collect_set,
    collected, find_last, folded, image, index_items, indexed, last_place,
    lemma_ascending_exists, lemma_folded_step, lemma_stable_sorted,
    no_items, picked_entries, push_item, second, stable_sort, stable_sorted, take_second,
    values_of, SortedMap, SortedSet,
};
use crate::compiler::closed_world::{optional_span, source_span};
use crate::compiler::graph::{GraphInvocation, GraphInvocationView, Locations, LocationsView};
use crate::compiler::inventory::{AuditInventory, AuditPackage, AuditPackageView};
use crate::compiler::labels::{
    definition_kind, expansion_origin, exposure, exposure_name, kind_name, namespace,
    namespace_name, origin_name,
};
use crate::compiler::sidecar::{definition_with, find_definition};
use crate::model::{CompilerSourceSpanReport, CompilerSourceSpanReportView};
use crate::order::{Ordered, Rank};
use crate::paths::{path_below, portable, portable_path, strip_base};
use crate::protocol::{
    Definition, DefinitionKind, DefinitionView, PublicBinding, PublicBindingView,
};
use crate::text::{chars_of, debug_text, list_contains, quoted, same, text_of};

verus! {

/// What the report covers.
pub const SCOPE: &'static str = "selected production library and proc-macro public-name topology";

/// A library or proc-macro whose public names are reported.
#[derive(Debug, PartialEq, Eq)]
pub struct ApiUnitReport {
    pub package: String,
    pub package_path: String,
    pub target: String,
    pub kind: String,
}

/// The model of [`ApiUnitReport`].
#[verifier::ext_equal]
pub struct ApiUnitReportView {
    pub package: Seq<char>,
    pub package_path: Seq<char>,
    pub target: Seq<char>,
    pub kind: Seq<char>,
}

impl DeepView for ApiUnitReport {
    type V = ApiUnitReportView;

    open spec fn deep_view(&self) -> ApiUnitReportView {
        ApiUnitReportView {
            package: self.package.deep_view(),
            package_path: self.package_path.deep_view(),
            target: self.target.deep_view(),
            kind: self.kind.deep_view(),
        }
    }
}

impl Clone for ApiUnitReport {
    fn clone(&self) -> (copy: Self)
        ensures
            copy.deep_view() == self.deep_view(),
    {
        let copy = ApiUnitReport {
            package: self.package.clone(),
            package_path: self.package_path.clone(),
            target: self.target.clone(),
            kind: self.kind.clone(),
        };
        copy
    }
}

/// Ordered field by field.
impl Ordered for ApiUnitReport {
    open spec fn precedes(a: ApiUnitReportView, b: ApiUnitReportView) -> bool {
        <(String, (String, (String, String))) as Ordered>::precedes(
            (a.package, (a.package_path, (a.target, a.kind))),
            (b.package, (b.package_path, (b.target, b.kind))),
        )
    }

    proof fn irreflexive(a: ApiUnitReportView) {
        <(String, (String, (String, String))) as Ordered>::irreflexive((a.package, (a.package_path, (a.target, a.kind))));
    }

    proof fn transitive(a: ApiUnitReportView, b: ApiUnitReportView, c: ApiUnitReportView) {
        <(String, (String, (String, String))) as Ordered>::transitive(
            (a.package, (a.package_path, (a.target, a.kind))),
            (b.package, (b.package_path, (b.target, b.kind))),
            (c.package, (c.package_path, (c.target, c.kind))),
        );
    }

    proof fn total(a: ApiUnitReportView, b: ApiUnitReportView) {
        <(String, (String, (String, String))) as Ordered>::total((a.package, (a.package_path, (a.target, a.kind))), (b.package, (b.package_path, (b.target, b.kind))));
    }

    fn rank(&self, other: &Self) -> (rank: Rank) {
        match self.package.rank(&other.package) {
            Rank::Equal => {
                match self.package_path.rank(&other.package_path) {
                    Rank::Equal => {
                        match self.target.rank(&other.target) {
                            Rank::Equal => {
                                self.kind.rank(&other.kind)
                            },
                            decided => decided,
                        }
                    },
                    decided => decided,
                }
            },
            decided => decided,
        }
    }
}

/// A public definition.
#[derive(Debug, PartialEq, Eq)]
pub struct ApiDefinitionReport {
    pub unit: ApiUnitReport,
    pub definition_path: String,
    pub kind: String,
    pub expansion_origin: String,
    pub span: Option<CompilerSourceSpanReport>,
    pub attribution_callsite: Option<CompilerSourceSpanReport>,
}

/// The model of [`ApiDefinitionReport`].
#[verifier::ext_equal]
pub struct ApiDefinitionReportView {
    pub unit: ApiUnitReportView,
    pub definition_path: Seq<char>,
    pub kind: Seq<char>,
    pub expansion_origin: Seq<char>,
    pub span: Option<CompilerSourceSpanReportView>,
    pub attribution_callsite: Option<CompilerSourceSpanReportView>,
}

impl DeepView for ApiDefinitionReport {
    type V = ApiDefinitionReportView;

    open spec fn deep_view(&self) -> ApiDefinitionReportView {
        ApiDefinitionReportView {
            unit: self.unit.deep_view(),
            definition_path: self.definition_path.deep_view(),
            kind: self.kind.deep_view(),
            expansion_origin: self.expansion_origin.deep_view(),
            span: self.span.deep_view(),
            attribution_callsite: self.attribution_callsite.deep_view(),
        }
    }
}

impl Clone for ApiDefinitionReport {
    fn clone(&self) -> (copy: Self)
        ensures
            copy.deep_view() == self.deep_view(),
    {
        let copy = ApiDefinitionReport {
            unit: self.unit.clone(),
            definition_path: self.definition_path.clone(),
            kind: self.kind.clone(),
            expansion_origin: self.expansion_origin.clone(),
            span: self.span.clone(),
            attribution_callsite: self.attribution_callsite.clone(),
        };
        proof {
            assert(copy.unit.deep_view() =~= self.unit.deep_view());
            assert(copy.span.deep_view() =~= self.span.deep_view());
            assert(copy.attribution_callsite.deep_view() =~= self.attribution_callsite.deep_view());
        }
        copy
    }
}

/// A public name.
#[derive(Debug, PartialEq, Eq)]
pub struct ApiBindingReport {
    pub unit: ApiUnitReport,
    pub parent_definition_path: String,
    pub name: String,
    pub namespace: String,
    pub resolved_target_path: String,
    pub exposure: String,
    pub span: Option<CompilerSourceSpanReport>,
}

/// The model of [`ApiBindingReport`].
#[verifier::ext_equal]
pub struct ApiBindingReportView {
    pub unit: ApiUnitReportView,
    pub parent_definition_path: Seq<char>,
    pub name: Seq<char>,
    pub namespace: Seq<char>,
    pub resolved_target_path: Seq<char>,
    pub exposure: Seq<char>,
    pub span: Option<CompilerSourceSpanReportView>,
}

impl DeepView for ApiBindingReport {
    type V = ApiBindingReportView;

    open spec fn deep_view(&self) -> ApiBindingReportView {
        ApiBindingReportView {
            unit: self.unit.deep_view(),
            parent_definition_path: self.parent_definition_path.deep_view(),
            name: self.name.deep_view(),
            namespace: self.namespace.deep_view(),
            resolved_target_path: self.resolved_target_path.deep_view(),
            exposure: self.exposure.deep_view(),
            span: self.span.deep_view(),
        }
    }
}

impl Clone for ApiBindingReport {
    fn clone(&self) -> (copy: Self)
        ensures
            copy.deep_view() == self.deep_view(),
    {
        let copy = ApiBindingReport {
            unit: self.unit.clone(),
            parent_definition_path: self.parent_definition_path.clone(),
            name: self.name.clone(),
            namespace: self.namespace.clone(),
            resolved_target_path: self.resolved_target_path.clone(),
            exposure: self.exposure.clone(),
            span: self.span.clone(),
        };
        proof {
            assert(copy.unit.deep_view() =~= self.unit.deep_view());
            assert(copy.span.deep_view() =~= self.span.deep_view());
        }
        copy
    }
}

/// The public names of the selected libraries.
#[derive(Debug, PartialEq, Eq)]
pub struct ApiSurfaceReport {
    pub scope: String,
    pub limitations: Vec<String>,
    pub units: Vec<ApiUnitReport>,
    pub definitions: Vec<ApiDefinitionReport>,
    pub bindings: Vec<ApiBindingReport>,
}

/// The model of [`ApiSurfaceReport`].
#[verifier::ext_equal]
pub struct ApiSurfaceReportView {
    pub scope: Seq<char>,
    pub limitations: Seq<Seq<char>>,
    pub units: Seq<ApiUnitReportView>,
    pub definitions: Seq<ApiDefinitionReportView>,
    pub bindings: Seq<ApiBindingReportView>,
}

impl DeepView for ApiSurfaceReport {
    type V = ApiSurfaceReportView;

    open spec fn deep_view(&self) -> ApiSurfaceReportView {
        ApiSurfaceReportView {
            scope: self.scope.deep_view(),
            limitations: self.limitations.deep_view(),
            units: self.units.deep_view(),
            definitions: self.definitions.deep_view(),
            bindings: self.bindings.deep_view(),
        }
    }
}

impl Clone for ApiSurfaceReport {
    fn clone(&self) -> (copy: Self)
        ensures
            copy.deep_view() == self.deep_view(),
    {
        let copy = ApiSurfaceReport {
            scope: self.scope.clone(),
            limitations: self.limitations.clone(),
            units: self.units.clone(),
            definitions: self.definitions.clone(),
            bindings: self.bindings.clone(),
        };
        proof {
            assert(copy.limitations.deep_view() =~= self.limitations.deep_view());
            assert(copy.units.deep_view() =~= self.units.deep_view());
            assert(copy.definitions.deep_view() =~= self.definitions.deep_view());
            assert(copy.bindings.deep_view() =~= self.bindings.deep_view());
        }
        copy
    }
}

/// How many public names changed.
#[derive(Clone, Copy, Debug, PartialEq, Eq, Structural)]
pub struct ApiDiffSummary {
    pub added_definitions: u64,
    pub removed_definitions: u64,
    pub added_bindings: u64,
    pub removed_bindings: u64,
    pub retargeted_bindings: u64,
    pub total_changes: u64,
}

impl DeepView for ApiDiffSummary {
    type V = ApiDiffSummary;

    open spec fn deep_view(&self) -> ApiDiffSummary {
        *self
    }
}

/// A change of the public names.
#[derive(Debug, PartialEq, Eq)]
pub enum ApiChangeReport {
    DefinitionAdded { definition: ApiDefinitionReport },
    DefinitionRemoved { definition: ApiDefinitionReport },
    BindingAdded { binding: ApiBindingReport },
    BindingRemoved { binding: ApiBindingReport },
    BindingRetargeted {
        unit: ApiUnitReport,
        parent_definition_path: String,
        name: String,
        namespace: String,
        before_target_path: String,
        after_target_path: String,
    },
}

/// The model of [`ApiChangeReport`].
pub enum ApiChangeReportView {
    DefinitionAdded { definition: ApiDefinitionReportView },
    DefinitionRemoved { definition: ApiDefinitionReportView },
    BindingAdded { binding: ApiBindingReportView },
    BindingRemoved { binding: ApiBindingReportView },
    BindingRetargeted {
        unit: ApiUnitReportView,
        parent_definition_path: Seq<char>,
        name: Seq<char>,
        namespace: Seq<char>,
        before_target_path: Seq<char>,
        after_target_path: Seq<char>,
    },
}

impl DeepView for ApiChangeReport {
    type V = ApiChangeReportView;

    open spec fn deep_view(&self) -> ApiChangeReportView {
        match self {
            ApiChangeReport::DefinitionAdded { definition } => {
                ApiChangeReportView::DefinitionAdded { definition: definition.deep_view() }
            },
            ApiChangeReport::DefinitionRemoved { definition } => {
                ApiChangeReportView::DefinitionRemoved { definition: definition.deep_view() }
            },
            ApiChangeReport::BindingAdded { binding } => {
                ApiChangeReportView::BindingAdded { binding: binding.deep_view() }
            },
            ApiChangeReport::BindingRemoved { binding } => {
                ApiChangeReportView::BindingRemoved { binding: binding.deep_view() }
            },
            ApiChangeReport::BindingRetargeted {
                unit,
                parent_definition_path,
                name,
                namespace,
                before_target_path,
                after_target_path,
            } => ApiChangeReportView::BindingRetargeted {
                unit: unit.deep_view(),
                parent_definition_path: parent_definition_path.deep_view(),
                name: name.deep_view(),
                namespace: namespace.deep_view(),
                before_target_path: before_target_path.deep_view(),
                after_target_path: after_target_path.deep_view(),
            },
        }
    }
}

impl Clone for ApiChangeReport {
    fn clone(&self) -> (copy: Self)
        ensures
            copy.deep_view() == self.deep_view(),
    {
        match self {
            ApiChangeReport::DefinitionAdded { definition } => {
                ApiChangeReport::DefinitionAdded { definition: definition.clone() }
            },
            ApiChangeReport::DefinitionRemoved { definition } => {
                ApiChangeReport::DefinitionRemoved { definition: definition.clone() }
            },
            ApiChangeReport::BindingAdded { binding } => {
                ApiChangeReport::BindingAdded { binding: binding.clone() }
            },
            ApiChangeReport::BindingRemoved { binding } => {
                ApiChangeReport::BindingRemoved { binding: binding.clone() }
            },
            ApiChangeReport::BindingRetargeted {
                unit,
                parent_definition_path,
                name,
                namespace,
                before_target_path,
                after_target_path,
            } => ApiChangeReport::BindingRetargeted {
                unit: unit.clone(),
                parent_definition_path: parent_definition_path.clone(),
                name: name.clone(),
                namespace: namespace.clone(),
                before_target_path: before_target_path.clone(),
                after_target_path: after_target_path.clone(),
            },
        }
    }
}

/// All changes of the public names.
#[derive(Debug, PartialEq, Eq)]
pub struct ApiDiffReport {
    pub summary: ApiDiffSummary,
    pub changes: Vec<ApiChangeReport>,
}

/// The model of [`ApiDiffReport`].
#[verifier::ext_equal]
pub struct ApiDiffReportView {
    pub summary: ApiDiffSummary,
    pub changes: Seq<ApiChangeReportView>,
}

impl DeepView for ApiDiffReport {
    type V = ApiDiffReportView;

    open spec fn deep_view(&self) -> ApiDiffReportView {
        ApiDiffReportView {
            summary: self.summary,
            changes: self.changes.deep_view(),
        }
    }
}

impl Clone for ApiDiffReport {
    fn clone(&self) -> (copy: Self)
        ensures
            copy.deep_view() == self.deep_view(),
    {
        let copy = ApiDiffReport {
            summary: self.summary,
            changes: self.changes.clone(),
        };
        proof {
            assert(copy.changes.deep_view() =~= self.changes.deep_view());
        }
        copy
    }
}

/// What tells one unit from another across revisions: not its display name.
#[derive(Debug, PartialEq, Eq)]
pub struct ApiUnitKey {
    pub package_path: String,
    pub target: String,
    pub kind: String,
}

/// The model of [`ApiUnitKey`].
#[verifier::ext_equal]
pub struct ApiUnitKeyView {
    pub package_path: Seq<char>,
    pub target: Seq<char>,
    pub kind: Seq<char>,
}

impl DeepView for ApiUnitKey {
    type V = ApiUnitKeyView;

    open spec fn deep_view(&self) -> ApiUnitKeyView {
        ApiUnitKeyView {
            package_path: self.package_path.deep_view(),
            target: self.target.deep_view(),
            kind: self.kind.deep_view(),
        }
    }
}

impl Clone for ApiUnitKey {
    fn clone(&self) -> (copy: Self)
        ensures
            copy.deep_view() == self.deep_view(),
    {
        let copy = ApiUnitKey {
            package_path: self.package_path.clone(),
            target: self.target.clone(),
            kind: self.kind.clone(),
        };
        copy
    }
}

/// Ordered field by field.
impl Ordered for ApiUnitKey {
    open spec fn precedes(a: ApiUnitKeyView, b: ApiUnitKeyView) -> bool {
        <(String, (String, String)) as Ordered>::precedes(
            (a.package_path, (a.target, a.kind)),
            (b.package_path, (b.target, b.kind)),
        )
    }

    proof fn irreflexive(a: ApiUnitKeyView) {
        <(String, (String, String)) as Ordered>::irreflexive((a.package_path, (a.target, a.kind)));
    }

    proof fn transitive(a: ApiUnitKeyView, b: ApiUnitKeyView, c: ApiUnitKeyView) {
        <(String, (String, String)) as Ordered>::transitive(
            (a.package_path, (a.target, a.kind)),
            (b.package_path, (b.target, b.kind)),
            (c.package_path, (c.target, c.kind)),
        );
    }

    proof fn total(a: ApiUnitKeyView, b: ApiUnitKeyView) {
        <(String, (String, String)) as Ordered>::total((a.package_path, (a.target, a.kind)), (b.package_path, (b.target, b.kind)));
    }

    fn rank(&self, other: &Self) -> (rank: Rank) {
        match self.package_path.rank(&other.package_path) {
            Rank::Equal => {
                match self.target.rank(&other.target) {
                    Rank::Equal => {
                        self.kind.rank(&other.kind)
                    },
                    decided => decided,
                }
            },
            decided => decided,
        }
    }
}

/// What tells one public definition from another.
#[derive(Debug, PartialEq, Eq)]
pub struct ApiDefinitionKey {
    pub unit: ApiUnitKey,
    pub definition_path: String,
    pub kind: String,
}

/// The model of [`ApiDefinitionKey`].
#[verifier::ext_equal]
pub struct ApiDefinitionKeyView {
    pub unit: ApiUnitKeyView,
    pub definition_path: Seq<char>,
    pub kind: Seq<char>,
}

impl DeepView for ApiDefinitionKey {
    type V = ApiDefinitionKeyView;

    open spec fn deep_view(&self) -> ApiDefinitionKeyView {
        ApiDefinitionKeyView {
            unit: self.unit.deep_view(),
            definition_path: self.definition_path.deep_view(),
            kind: self.kind.deep_view(),
        }
    }
}

impl Clone for ApiDefinitionKey {
    fn clone(&self) -> (copy: Self)
        ensures
            copy.deep_view() == self.deep_view(),
    {
        let copy = ApiDefinitionKey {
            unit: self.unit.clone(),
            definition_path: self.definition_path.clone(),
            kind: self.kind.clone(),
        };
        proof {
            assert(copy.unit.deep_view() =~= self.unit.deep_view());
        }
        copy
    }
}

/// Ordered field by field.
impl Ordered for ApiDefinitionKey {
    open spec fn precedes(a: ApiDefinitionKeyView, b: ApiDefinitionKeyView) -> bool {
        <(ApiUnitKey, (String, String)) as Ordered>::precedes(
            (a.unit, (a.definition_path, a.kind)),
            (b.unit, (b.definition_path, b.kind)),
        )
    }

    proof fn irreflexive(a: ApiDefinitionKeyView) {
        <(ApiUnitKey, (String, String)) as Ordered>::irreflexive((a.unit, (a.definition_path, a.kind)));
    }

    proof fn transitive(a: ApiDefinitionKeyView, b: ApiDefinitionKeyView, c: ApiDefinitionKeyView) {
        <(ApiUnitKey, (String, String)) as Ordered>::transitive(
            (a.unit, (a.definition_path, a.kind)),
            (b.unit, (b.definition_path, b.kind)),
            (c.unit, (c.definition_path, c.kind)),
        );
    }

    proof fn total(a: ApiDefinitionKeyView, b: ApiDefinitionKeyView) {
        <(ApiUnitKey, (String, String)) as Ordered>::total((a.unit, (a.definition_path, a.kind)), (b.unit, (b.definition_path, b.kind)));
    }

    fn rank(&self, other: &Self) -> (rank: Rank) {
        match self.unit.rank(&other.unit) {
            Rank::Equal => {
                match self.definition_path.rank(&other.definition_path) {
                    Rank::Equal => {
                        self.kind.rank(&other.kind)
                    },
                    decided => decided,
                }
            },
            decided => decided,
        }
    }
}

/// What tells one public name from another.
#[derive(Debug, PartialEq, Eq)]
pub struct BindingSlot {
    pub unit: ApiUnitKey,
    pub parent_definition_path: String,
    pub name: String,
    pub namespace: String,
}

/// The model of [`BindingSlot`].
#[verifier::ext_equal]
pub struct BindingSlotView {
    pub unit: ApiUnitKeyView,
    pub parent_definition_path: Seq<char>,
    pub name: Seq<char>,
    pub namespace: Seq<char>,
}

impl DeepView for BindingSlot {
    type V = BindingSlotView;

    open spec fn deep_view(&self) -> BindingSlotView {
        BindingSlotView {
            unit: self.unit.deep_view(),
            parent_definition_path: self.parent_definition_path.deep_view(),
            name: self.name.deep_view(),
            namespace: self.namespace.deep_view(),
        }
    }
}

impl Clone for BindingSlot {
    fn clone(&self) -> (copy: Self)
        ensures
            copy.deep_view() == self.deep_view(),
    {
        let copy = BindingSlot {
            unit: self.unit.clone(),
            parent_definition_path: self.parent_definition_path.clone(),
            name: self.name.clone(),
            namespace: self.namespace.clone(),
        };
        proof {
            assert(copy.unit.deep_view() =~= self.unit.deep_view());
        }
        copy
    }
}

/// Ordered field by field.
impl Ordered for BindingSlot {
    open spec fn precedes(a: BindingSlotView, b: BindingSlotView) -> bool {
        <(ApiUnitKey, (String, (String, String))) as Ordered>::precedes(
            (a.unit, (a.parent_definition_path, (a.name, a.namespace))),
            (b.unit, (b.parent_definition_path, (b.name, b.namespace))),
        )
    }

    proof fn irreflexive(a: BindingSlotView) {
        <(ApiUnitKey, (String, (String, String))) as Ordered>::irreflexive((a.unit, (a.parent_definition_path, (a.name, a.namespace))));
    }

    proof fn transitive(a: BindingSlotView, b: BindingSlotView, c: BindingSlotView) {
        <(ApiUnitKey, (String, (String, String))) as Ordered>::transitive(
            (a.unit, (a.parent_definition_path, (a.name, a.namespace))),
            (b.unit, (b.parent_definition_path, (b.name, b.namespace))),
            (c.unit, (c.parent_definition_path, (c.name, c.namespace))),
        );
    }

    proof fn total(a: BindingSlotView, b: BindingSlotView) {
        <(ApiUnitKey, (String, (String, String))) as Ordered>::total((a.unit, (a.parent_definition_path, (a.name, a.namespace))), (b.unit, (b.parent_definition_path, (b.name, b.namespace))));
    }

    fn rank(&self, other: &Self) -> (rank: Rank) {
        match self.unit.rank(&other.unit) {
            Rank::Equal => {
                match self.parent_definition_path.rank(&other.parent_definition_path) {
                    Rank::Equal => {
                        match self.name.rank(&other.name) {
                            Rank::Equal => {
                                self.namespace.rank(&other.namespace)
                            },
                            decided => decided,
                        }
                    },
                    decided => decided,
                }
            },
            decided => decided,
        }
    }
}

/// What the report leaves out.
pub open spec fn limitations() -> Seq<Seq<char>> {
    seq![
        "function signatures, generics, ABI, and semver compatibility are not compared"@,
        "unnamed implementation and opaque-type identities are excluded"@,
        "external consumers, doctests, and inactive required-feature targets are outside the selected compiled graph"@,
    ]
}

fn list_limitations() -> (list: Vec<String>)
    ensures
        list.deep_view() == limitations(),
{
    let mut list: Vec<String> = no_items();
    push_item(
        &mut list,
        "function signatures, generics, ABI, and semver compatibility are not compared".to_owned(),
    );
    push_item(
        &mut list,
        "unnamed implementation and opaque-type identities are excluded".to_owned(),
    );
    push_item(
        &mut list,
        "external consumers, doctests, and inactive required-feature targets are outside the selected compiled graph".to_owned(),
    );
    proof {
        assert(list.deep_view() =~= limitations());
    }
    list
}

/// The key of a unit.
pub open spec fn unit_key(unit: ApiUnitReportView) -> ApiUnitKeyView {
    ApiUnitKeyView { package_path: unit.package_path, target: unit.target, kind: unit.kind }
}

/// The key of a public definition.
pub open spec fn definition_key() -> spec_fn(ApiDefinitionReportView) -> ApiDefinitionKeyView {
    |report: ApiDefinitionReportView|
        ApiDefinitionKeyView {
            unit: unit_key(report.unit),
            definition_path: report.definition_path,
            kind: report.kind,
        }
}

/// The slot of a public name.
pub open spec fn binding_slot() -> spec_fn(ApiBindingReportView) -> BindingSlotView {
    |report: ApiBindingReportView|
        BindingSlotView {
            unit: unit_key(report.unit),
            parent_definition_path: report.parent_definition_path,
            name: report.name,
            namespace: report.namespace,
        }
}

fn key_of_unit(unit: &ApiUnitReport) -> (key: ApiUnitKey)
    ensures
        key.deep_view() == unit_key(unit.deep_view()),
{
    ApiUnitKey {
        package_path: unit.package_path.clone(),
        target: unit.target.clone(),
        kind: unit.kind.clone(),
    }
}

fn key_of_definition(report: &ApiDefinitionReport) -> (key: ApiDefinitionKey)
    ensures
        key.deep_view() == definition_key()(report.deep_view()),
{
    ApiDefinitionKey {
        unit: key_of_unit(&report.unit),
        definition_path: report.definition_path.clone(),
        kind: report.kind.clone(),
    }
}

fn slot_of_binding(report: &ApiBindingReport) -> (slot: BindingSlot)
    ensures
        slot.deep_view() == binding_slot()(report.deep_view()),
{
    BindingSlot {
        unit: key_of_unit(&report.unit),
        parent_definition_path: report.parent_definition_path.clone(),
        name: report.name.clone(),
        namespace: report.namespace.clone(),
    }
}

/// Whether a kind of target is a library, other than a proc-macro.
pub open spec fn plain_library() -> spec_fn(Seq<char>) -> bool {
    |kind: Seq<char>|
        kind == "lib"@ || kind == "rlib"@ || kind == "dylib"@ || kind == "cdylib"@ || kind
            == "staticlib"@
}

/// The unit whose public names an invocation shows, where it shows any: production libraries of
/// the target platform and proc-macros.
pub open spec fn unit_of(
    root: Seq<char>,
    packages: Seq<AuditPackageView>,
    input: GraphInvocationView,
) -> Result<Option<ApiUnitReportView>, Seq<char>> {
    let target = input.target;
    let proc_macro = target.kinds.contains("proc-macro"@);
    if target.role != "production"@ || (!proc_macro && (!any_where(target.kinds, plain_library())
        || target.compilation_context != "target"@)) {
        Ok(None)
    } else {
        match last_place(packages, |package: AuditPackageView| package.id == target.package_id) {
            None => Err(
                "correlated API target "@ + target.name + " has no selected Cargo package"@,
            ),
            Some(at) => match path_below(packages[at].root, root) {
                None => Err(
                    "selected package "@ + packages[at].root + " is outside workspace root "@
                        + root,
                ),
                Some(rest) => Ok(
                    Some(
                        ApiUnitReportView {
                            package: packages[at].name,
                            package_path: if portable_path(rest).len() == 0 {
                                "."@
                            } else {
                                portable_path(rest)
                            },
                            target: target.name,
                            kind: if proc_macro {
                                "proc_macro"@
                            } else {
                                "library"@
                            },
                        },
                    ),
                ),
            },
        }
    }
}

/// Whether two optional units are the same by their models.
pub open spec fn unit_result(
    result: Result<Option<ApiUnitReport>, String>,
    wanted: Result<Option<ApiUnitReportView>, Seq<char>>,
) -> bool {
    match wanted {
        Ok(unit) => result matches Ok(found) && found.deep_view() == unit,
        Err(message) => result matches Err(error) && error@ == message,
    }
}

fn api_unit(root: &str, input: &GraphInvocation<'_>, packages: &Vec<AuditPackage>) -> (result:
    Result<Option<ApiUnitReport>, String>)
    ensures
        unit_result(result, unit_of(root@, packages.deep_view(), input.deep_view())),
{
    let target = input.target;
    let proc_macro = list_contains(&target.kinds, "proc-macro");
    let ghost library_kind = plain_library();
    let test_kind = |kind: &String| -> (result: bool)
        ensures
            result == library_kind(kind.deep_view()),
    {
        same(kind.as_str(), "lib") || same(kind.as_str(), "rlib") || same(kind.as_str(), "dylib")
            || same(kind.as_str(), "cdylib") || same(kind.as_str(), "staticlib")
    };
    let library = any_item(&target.kinds, test_kind, Ghost(library_kind));
    if !same(target.role.as_str(), "production") || (!proc_macro && (!library || !same(
        target.compilation_context.as_str(),
        "target",
    ))) {
        return Ok(None);
    }
    let ghost told = target.deep_view().package_id;
    let ghost property = |package: AuditPackageView| package.id == told;
    let test = |package: &AuditPackage| -> (result: bool)
        ensures
            result == property(package.deep_view()),
    {
        same(package.id.as_str(), target.package_id.as_str())
    };
    let at: usize = match find_last(packages, test, Ghost(property)) {
        Some(at) => at,
        None => {
            let mut message = "correlated API target ".to_owned();
            message.append(target.name.as_str());
            message.append(" has no selected Cargo package");
            return Err(message);
        },
    };
    proof {
        assert(packages.deep_view()[at as int] == packages[at as int].deep_view());
    }
    let package = &packages[at];
    let path = match strip_base(package.root.as_str(), root) {
        Some(rest) => portable(rest.as_str()),
        None => {
            let mut message = "selected package ".to_owned();
            message.append(package.root.as_str());
            message.append(" is outside workspace root ");
            message.append(root);
            return Err(message);
        },
    };
    Ok(
        Some(
            ApiUnitReport {
                package: package.name.clone(),
                package_path: if path.as_str().is_empty() {
                    ".".to_owned()
                } else {
                    path
                },
                target: target.name.clone(),
                kind: if proc_macro {
                    "proc_macro".to_owned()
                } else {
                    "library".to_owned()
                },
            },
        ),
    )
}

/// The place of the last double colon before a place, or nothing.
pub open spec fn last_colons(path: Seq<char>, before: int) -> Option<int>
    decreases before,
{
    if before < 2 || before > path.len() {
        None
    } else if path[before - 2] == ':' && path[before - 1] == ':' {
        Some(before - 2)
    } else {
        last_colons(path, before - 1)
    }
}

/// Whether a path or one of the paths above it is exposed.
pub open spec fn exposed_above(path: Seq<char>, exposed: Set<Seq<char>>) -> bool
    decreases path.len(),
{
    exposed.contains(path) || match last_colons(path, path.len() as int) {
        Some(at) if 0 <= at < path.len() => exposed_above(path.take(at), exposed),
        _ => false,
    }
}

/// Whether a path or one of the paths above it is exposed.
pub fn has_exposed_ancestor(path: &str, exposed_paths: &SortedSet<String>) -> (result: bool)
    requires
        exposed_paths.wf(),
    ensures
        result == exposed_above(path@, exposed_paths.deep_view()),
{
    let chars = chars_of(path);
    let mut length: usize = chars.len();
    proof {
        assert(path@.take(path@.len() as int) =~= path@);
    }
    loop
        invariant
            exposed_paths.wf(),
            chars@ == path@,
            length <= chars.len(),
            exposed_above(path@, exposed_paths.deep_view()) == exposed_above(
                path@.take(length as int),
                exposed_paths.deep_view(),
            ),
        decreases length,
    {
        let candidate = text_of(&chars, 0, length);
        let ghost now = path@.take(length as int);
        proof {
            assert(candidate@ =~= now);
        }
        if exposed_paths.contains(&candidate) {
            return true;
        }
        let mut before: usize = length;
        while before >= 2 && !(chars[before - 2] == ':' && chars[before - 1] == ':')
            invariant
                chars@ == path@,
                length <= chars.len(),
                before <= length,
                now == path@.take(length as int),
                last_colons(now, length as int) == last_colons(now, before as int),
            decreases before,
        {
            before = before - 1;
        }
        if before < 2 {
            return false;
        }
        proof {
            assert(last_colons(now, length as int) == Some(before as int - 2));
            assert(now.take(before as int - 2) =~= path@.take(before as int - 2));
        }
        length = before - 2;
    }
}

/// Whether a definition is part of the public names: it can be reached and named from outside,
/// and is no container of others.
pub open spec fn is_api_definition(definition: DefinitionView, exposed: Set<Seq<char>>) -> bool {
    &&& definition.externally_reachable
    &&& !(definition.definition_path.len() > 0 && definition.definition_path[0] == '<')
    &&& exposed_above(definition.definition_path, exposed)
    &&& definition.kind != DefinitionKind::Crate
    &&& definition.kind != DefinitionKind::Import
    &&& definition.kind != DefinitionKind::ExternCrate
    &&& definition.kind != DefinitionKind::Implementation
    &&& definition.kind != DefinitionKind::ForeignModule
    &&& definition.kind != DefinitionKind::OpaqueType
}

/// Whether a definition is part of the public names.
pub fn api_definition(definition: &Definition, exposed_paths: &SortedSet<String>) -> (result: bool)
    requires
        exposed_paths.wf(),
    ensures
        result == is_api_definition(definition.deep_view(), exposed_paths.deep_view()),
{
    let chars = chars_of(definition.definition_path.as_str());
    let hidden = chars.len() > 0 && chars[0] == '<';
    definition.externally_reachable && !hidden && has_exposed_ancestor(
        definition.definition_path.as_str(),
        exposed_paths,
    ) && definition.kind != DefinitionKind::Crate && definition.kind != DefinitionKind::Import
        && definition.kind != DefinitionKind::ExternCrate && definition.kind
        != DefinitionKind::Implementation && definition.kind != DefinitionKind::ForeignModule
        && definition.kind != DefinitionKind::OpaqueType
}

/// The report of a definition.
pub open spec fn reported_definition(
    places: LocationsView,
    input: GraphInvocationView,
    unit: ApiUnitReportView,
    definition: DefinitionView,
) -> ApiDefinitionReportView {
    ApiDefinitionReportView {
        unit,
        definition_path: definition.definition_path,
        kind: kind_name(definition.kind),
        expansion_origin: origin_name(definition.expansion_origin),
        span: optional_span(places, input, definition.span),
        attribution_callsite: optional_span(places, input, definition.attribution_callsite),
    }
}

fn definition_report(
    places: &Locations,
    input: &GraphInvocation<'_>,
    unit: &ApiUnitReport,
    definition: &Definition,
) -> (report: ApiDefinitionReport)
    ensures
        report.deep_view() == reported_definition(
            places.deep_view(),
            input.deep_view(),
            unit.deep_view(),
            definition.deep_view(),
        ),
{
    ApiDefinitionReport {
        unit: unit.clone(),
        definition_path: definition.definition_path.clone(),
        kind: definition_kind(definition.kind).to_owned(),
        expansion_origin: expansion_origin(definition.expansion_origin).to_owned(),
        span: source_span(places, input, &definition.span),
        attribution_callsite: source_span(places, input, &definition.attribution_callsite),
    }
}

/// The report of a public name.
pub open spec fn reported_binding(
    places: LocationsView,
    input: GraphInvocationView,
    unit: ApiUnitReportView,
    parent: DefinitionView,
    binding: PublicBindingView,
) -> ApiBindingReportView {
    ApiBindingReportView {
        unit,
        parent_definition_path: parent.definition_path,
        name: binding.name,
        namespace: namespace_name(binding.namespace),
        resolved_target_path: binding.resolved_target_path,
        exposure: exposure_name(binding.exposure),
        span: optional_span(places, input, binding.span),
    }
}

fn binding_report(
    places: &Locations,
    input: &GraphInvocation<'_>,
    unit: &ApiUnitReport,
    parent: &Definition,
    binding: &PublicBinding,
) -> (report: ApiBindingReport)
    ensures
        report.deep_view() == reported_binding(
            places.deep_view(),
            input.deep_view(),
            unit.deep_view(),
            parent.deep_view(),
            binding.deep_view(),
        ),
{
    ApiBindingReport {
        unit: unit.clone(),
        parent_definition_path: parent.definition_path.clone(),
        name: binding.name.clone(),
        namespace: namespace(binding.namespace).to_owned(),
        resolved_target_path: binding.resolved_target_path.clone(),
        exposure: exposure(binding.exposure).to_owned(),
        span: source_span(places, input, &binding.span),
    }
}

/// Whether two reports describe one definition, wherever it was seen.
pub open spec fn definitions_agree(
    left: ApiDefinitionReportView,
    right: ApiDefinitionReportView,
) -> bool {
    left.unit == right.unit && left.definition_path == right.definition_path && left.kind
        == right.kind && left.expansion_origin == right.expansion_origin
}

fn same_definition(left: &ApiDefinitionReport, right: &ApiDefinitionReport) -> (result: bool)
    ensures
        result == definitions_agree(left.deep_view(), right.deep_view()),
{
    proof {
        ApiUnitReport::irreflexive(left.unit.deep_view());
    }
    let same_unit = match left.unit.rank(&right.unit) {
        Rank::Equal => true,
        _ => false,
    };
    same_unit && same(left.definition_path.as_str(), right.definition_path.as_str()) && same(
        left.kind.as_str(),
        right.kind.as_str(),
    ) && same(left.expansion_origin.as_str(), right.expansion_origin.as_str())
}

/// What orders the places where a definition was seen: those with a span first.
pub type DefinitionProvenance = (
    bool,
    (Option<CompilerSourceSpanReport>, (bool, Option<CompilerSourceSpanReport>)),
);

/// What orders the places where a name was seen: those with a span first.
pub type BindingProvenance = (bool, (Option<CompilerSourceSpanReport>, String));

/// The place where a definition was seen.
pub open spec fn definition_provenance(report: ApiDefinitionReportView) -> (
    bool,
    (Option<CompilerSourceSpanReportView>, (bool, Option<CompilerSourceSpanReportView>)),
) {
    (
        report.span is None,
        (report.span, (report.attribution_callsite is None, report.attribution_callsite)),
    )
}

/// The place where a name was seen.
pub open spec fn binding_provenance(report: ApiBindingReportView) -> (
    bool,
    (Option<CompilerSourceSpanReportView>, Seq<char>),
) {
    (report.span is None, (report.span, report.exposure))
}

/// A definition with the first of the places where it was seen.
pub open spec fn retained_definition(
    existing: ApiDefinitionReportView,
    candidate: ApiDefinitionReportView,
) -> ApiDefinitionReportView {
    if <DefinitionProvenance as Ordered>::precedes(
        definition_provenance(candidate),
        definition_provenance(existing),
    ) {
        ApiDefinitionReportView {
            span: candidate.span,
            attribution_callsite: candidate.attribution_callsite,
            ..existing
        }
    } else {
        existing
    }
}

/// A name with the first of the places where it was seen.
pub open spec fn retained_binding(
    existing: ApiBindingReportView,
    candidate: ApiBindingReportView,
) -> ApiBindingReportView {
    if <BindingProvenance as Ordered>::precedes(
        binding_provenance(candidate),
        binding_provenance(existing),
    ) {
        ApiBindingReportView { exposure: candidate.exposure, span: candidate.span, ..existing }
    } else {
        existing
    }
}

fn definition_provenance_key(report: &ApiDefinitionReport) -> (key: DefinitionProvenance)
    ensures
        key.deep_view() == definition_provenance(report.deep_view()),
{
    let key = (
        report.span.is_none(),
        (
            report.span.clone(),
            (report.attribution_callsite.is_none(), report.attribution_callsite.clone()),
        ),
    );
    proof {
        assert(key.1.0.deep_view() == report.span.deep_view());
        assert(key.1.1.1.deep_view() == report.attribution_callsite.deep_view());
    }
    key
}

fn binding_provenance_key(report: &ApiBindingReport) -> (key: BindingProvenance)
    ensures
        key.deep_view() == binding_provenance(report.deep_view()),
{
    let key = (report.span.is_none(), (report.span.clone(), report.exposure.clone()));
    proof {
        assert(key.1.0.deep_view() == report.span.deep_view());
    }
    key
}

/// Keeps the first of the places where a definition was seen.
pub fn retain_definition_provenance(
    existing: &mut ApiDefinitionReport,
    candidate: ApiDefinitionReport,
)
    ensures
        final(existing).deep_view() == retained_definition(
            old(existing).deep_view(),
            candidate.deep_view(),
        ),
{
    let candidate_key = definition_provenance_key(&candidate);
    let existing_key = definition_provenance_key(existing);
    proof {
        let a = candidate_key.deep_view();
        let b = existing_key.deep_view();
        DefinitionProvenance::irreflexive(a);
        if DefinitionProvenance::precedes(a, b) && DefinitionProvenance::precedes(b, a) {
            DefinitionProvenance::transitive(a, b, a);
        }
    }
    if let Rank::Less = candidate_key.rank(&existing_key) {
        existing.span = candidate.span;
        existing.attribution_callsite = candidate.attribution_callsite;
    }
}

/// Keeps the first of the places where a name was seen.
pub fn retain_stable_provenance(existing: &mut ApiBindingReport, candidate: ApiBindingReport)
    ensures
        final(existing).deep_view() == retained_binding(
            old(existing).deep_view(),
            candidate.deep_view(),
        ),
{
    let candidate_key = binding_provenance_key(&candidate);
    let existing_key = binding_provenance_key(existing);
    proof {
        let a = candidate_key.deep_view();
        let b = existing_key.deep_view();
        BindingProvenance::irreflexive(a);
        if BindingProvenance::precedes(a, b) && BindingProvenance::precedes(b, a) {
            BindingProvenance::transitive(a, b, a);
        }
    }
    if let Rank::Less = candidate_key.rank(&existing_key) {
        existing.exposure = candidate.exposure;
        existing.span = candidate.span;
    }
}

/// The public definitions found so far.
pub type DefinitionMap = Map<ApiDefinitionKeyView, ApiDefinitionReportView>;

/// The public names found so far.
pub type BindingMap = Map<BindingSlotView, ApiBindingReportView>;

/// Adds a definition to those found so far.
pub open spec fn with_definition() -> spec_fn(
    DefinitionMap,
    ApiDefinitionReportView,
) -> Result<DefinitionMap, Seq<char>> {
    |found: DefinitionMap, report: ApiDefinitionReportView|
        {
            let key = definition_key()(report);
            if !found.dom().contains(key) {
                Ok(found.insert(key, report))
            } else if definitions_agree(found[key], report) {
                Ok(found.insert(key, retained_definition(found[key], report)))
            } else {
                Err(
                    "public API definition "@ + debug_text(report.definition_path)
                        + " has conflicting compiler representations"@,
                )
            }
        }
}

/// Adds a name to those found so far.
pub open spec fn with_binding(
    places: LocationsView,
    input: GraphInvocationView,
    unit: ApiUnitReportView,
) -> spec_fn(BindingMap, PublicBindingView) -> Result<BindingMap, Seq<char>> {
    |found: BindingMap, binding: PublicBindingView|
        match definition_with(input.invocation.definitions, binding.parent) {
            None => Err(
                "public binding "@ + debug_text(binding.name)
                    + " has no local parent definition"@,
            ),
            Some(parent) => {
                let report = reported_binding(places, input, unit, parent, binding);
                let slot = binding_slot()(report);
                if !found.dom().contains(slot) {
                    Ok(found.insert(slot, report))
                } else if found[slot].resolved_target_path == report.resolved_target_path {
                    Ok(found.insert(slot, retained_binding(found[slot], report)))
                } else {
                    Err(
                        "public binding "@ + report.parent_definition_path + "::"@ + report.name
                            + " resolves to multiple targets in one profile"@,
                    )
                }
            },
        }
}

/// The paths of the local definitions that public names expose.
pub open spec fn exposed_paths(input: GraphInvocationView) -> Set<Seq<char>> {
    image(
        input.invocation.bindings,
        |binding: PublicBindingView|
            if definition_with(input.invocation.definitions, binding.target) is Some {
                Some(binding.resolved_target_path)
            } else {
                None
            },
    )
}

/// The reports of the public definitions of an invocation.
pub open spec fn public_definitions(
    places: LocationsView,
    input: GraphInvocationView,
    unit: ApiUnitReportView,
) -> Seq<ApiDefinitionReportView> {
    collected(
        input.invocation.definitions,
        |definition: DefinitionView|
            if is_api_definition(definition, exposed_paths(input)) {
                Some(reported_definition(places, input, unit, definition))
            } else {
                None
            },
    )
}

/// What was found so far.
pub struct Found {
    pub units: Set<ApiUnitReportView>,
    pub definitions: DefinitionMap,
    pub bindings: BindingMap,
}

/// Adds what an invocation shows to what was found so far.
pub open spec fn with_invocation(places: LocationsView, packages: Seq<AuditPackageView>) -> spec_fn(
    Found,
    GraphInvocationView,
) -> Result<Found, Seq<char>> {
    |found: Found, input: GraphInvocationView|
        match unit_of(places.root, packages, input) {
            Err(message) => Err(message),
            Ok(None) => Ok(found),
            Ok(Some(unit)) => match folded(
                found.definitions,
                public_definitions(places, input, unit),
                with_definition(),
            ) {
                Err(message) => Err(message),
                Ok(definitions) => match folded(
                    found.bindings,
                    input.invocation.bindings,
                    with_binding(places, input, unit),
                ) {
                    Err(message) => Err(message),
                    Ok(bindings) => Ok(
                        Found { units: found.units.insert(unit), definitions, bindings },
                    ),
                },
            },
        }
}

/// The report of what was found.
pub open spec fn surface_of(found: Found) -> ApiSurfaceReportView {
    ApiSurfaceReportView {
        scope: SCOPE@,
        limitations: limitations(),
        units: ascending::<ApiUnitReport>(found.units),
        definitions: values_of::<ApiDefinitionKey, _>(found.definitions),
        bindings: values_of::<BindingSlot, _>(found.bindings),
    }
}

/// What all invocations show.
pub open spec fn surface_result(
    places: LocationsView,
    packages: Seq<AuditPackageView>,
    inputs: Seq<GraphInvocationView>,
) -> Result<Found, Seq<char>> {
    folded(
        Found { units: Set::empty(), definitions: Map::empty(), bindings: Map::empty() },
        inputs,
        with_invocation(places, packages),
    )
}

fn add_definition(
    found: SortedMap<ApiDefinitionKey, ApiDefinitionReport>,
    report: ApiDefinitionReport,
) -> (result: Result<SortedMap<ApiDefinitionKey, ApiDefinitionReport>, String>)
    requires
        found.wf(),
    ensures
        match with_definition()(found.deep_view(), report.deep_view()) {
            Ok(wanted) => result matches Ok(map) && map.wf() && map.deep_view() == wanted,
            Err(message) => result matches Err(error) && error@ == message,
        },
{
    let key = key_of_definition(&report);
    let mut map = found;
    match map.get(&key) {
        None => {
            map.insert(key, report);
        },
        Some(existing) => {
            if !same_definition(existing, &report) {
                let mut message = "public API definition ".to_owned();
                message.append(quoted(report.definition_path.as_str()).as_str());
                message.append(" has conflicting compiler representations");
                return Err(message);
            }
            let mut kept = existing.clone();
            retain_definition_provenance(&mut kept, report);
            map.insert(key, kept);
        },
    }
    Ok(map)
}

fn add_definitions(
    found: SortedMap<ApiDefinitionKey, ApiDefinitionReport>,
    reports: Vec<ApiDefinitionReport>,
) -> (result: Result<SortedMap<ApiDefinitionKey, ApiDefinitionReport>, String>)
    requires
        found.wf(),
    ensures
        match folded(found.deep_view(), reports.deep_view(), with_definition()) {
            Ok(wanted) => result matches Ok(map) && map.wf() && map.deep_view() == wanted,
            Err(message) => result matches Err(error) && error@ == message,
        },
{
    let ghost start = found.deep_view();
    let ghost all = reports.deep_view();
    let ghost step = with_definition();
    let mut map = found;
    let mut index: usize = 0;
    proof {
        assert(all.take(0) =~= Seq::<ApiDefinitionReportView>::empty());
    }
    while index < reports.len()
        invariant
            start == found.deep_view(),
            all == reports.deep_view(),
            step == with_definition(),
            index <= all.len(),
            map.wf(),
            folded(start, all.take(index as int), step) == Ok::<DefinitionMap, Seq<char>>(
                map.deep_view(),
            ),
        decreases all.len() - index,
    {
        proof {
            assert(all[index as int] == reports[index as int].deep_view());
            lemma_folded_step(start, all, step, index as int);
        }
        map = match add_definition(map, reports[index].clone()) {
            Ok(next) => next,
            Err(message) => {
                return Err(message);
            },
        };
        index = index + 1;
    }
    proof {
        assert(all.take(all.len() as int) =~= all);
    }
    Ok(map)
}

fn add_binding(
    places: &Locations,
    input: &GraphInvocation<'_>,
    unit: &ApiUnitReport,
    found: SortedMap<BindingSlot, ApiBindingReport>,
    binding: &PublicBinding,
) -> (result: Result<SortedMap<BindingSlot, ApiBindingReport>, String>)
    requires
        found.wf(),
    ensures
        match with_binding(places.deep_view(), input.deep_view(), unit.deep_view())(
            found.deep_view(),
            binding.deep_view(),
        ) {
            Ok(wanted) => result matches Ok(map) && map.wf() && map.deep_view() == wanted,
            Err(message) => result matches Err(error) && error@ == message,
        },
{
    let parent = match find_definition(&input.invocation.definitions, binding.parent) {
        Some(parent) => parent,
        None => {
            let mut message = "public binding ".to_owned();
            message.append(quoted(binding.name.as_str()).as_str());
            message.append(" has no local parent definition");
            return Err(message);
        },
    };
    let report = binding_report(places, input, unit, parent, binding);
    let slot = slot_of_binding(&report);
    let mut map = found;
    match map.get(&slot) {
        None => {
            map.insert(slot, report);
        },
        Some(existing) => {
            if !same(
                existing.resolved_target_path.as_str(),
                report.resolved_target_path.as_str(),
            ) {
                let mut message = "public binding ".to_owned();
                message.append(report.parent_definition_path.as_str());
                message.append("::");
                message.append(report.name.as_str());
                message.append(" resolves to multiple targets in one profile");
                return Err(message);
            }
            let mut kept = existing.clone();
            retain_stable_provenance(&mut kept, report);
            map.insert(slot, kept);
        },
    }
    Ok(map)
}

fn add_bindings(
    places: &Locations,
    input: &GraphInvocation<'_>,
    unit: &ApiUnitReport,
    found: SortedMap<BindingSlot, ApiBindingReport>,
) -> (result: Result<SortedMap<BindingSlot, ApiBindingReport>, String>)
    requires
        found.wf(),
    ensures
        match folded(
            found.deep_view(),
            input.deep_view().invocation.bindings,
            with_binding(places.deep_view(), input.deep_view(), unit.deep_view()),
        ) {
            Ok(wanted) => result matches Ok(map) && map.wf() && map.deep_view() == wanted,
            Err(message) => result matches Err(error) && error@ == message,
        },
{
    let bindings = &input.invocation.bindings;
    let ghost start = found.deep_view();
    let ghost all = bindings.deep_view();
    let ghost step = with_binding(places.deep_view(), input.deep_view(), unit.deep_view());
    let mut map = found;
    let mut index: usize = 0;
    proof {
        assert(all.take(0) =~= Seq::<PublicBindingView>::empty());
    }
    while index < bindings.len()
        invariant
            start == found.deep_view(),
            bindings == &input.invocation.bindings,
            all == bindings.deep_view(),
            step == with_binding(places.deep_view(), input.deep_view(), unit.deep_view()),
            index <= all.len(),
            map.wf(),
            folded(start, all.take(index as int), step) == Ok::<BindingMap, Seq<char>>(
                map.deep_view(),
            ),
        decreases all.len() - index,
    {
        proof {
            assert(all[index as int] == bindings[index as int].deep_view());
            lemma_folded_step(start, all, step, index as int);
        }
        map = match add_binding(places, input, unit, map, &bindings[index]) {
            Ok(next) => next,
            Err(message) => {
                return Err(message);
            },
        };
        index = index + 1;
    }
    proof {
        assert(all.take(all.len() as int) =~= all);
    }
    Ok(map)
}

fn list_public_definitions(
    places: &Locations,
    input: &GraphInvocation<'_>,
    unit: &ApiUnitReport,
) -> (list: Vec<ApiDefinitionReport>)
    ensures
        list.deep_view() == public_definitions(
            places.deep_view(),
            input.deep_view(),
            unit.deep_view(),
        ),
{
    let definitions = &input.invocation.definitions;
    let ghost told = input.deep_view();
    let ghost told_places = places.deep_view();
    let ghost told_unit = unit.deep_view();
    let ghost expose = |binding: PublicBindingView|
        if definition_with(told.invocation.definitions, binding.target) is Some {
            Some(binding.resolved_target_path)
        } else {
            None
        };
    let pick_path = |binding: &PublicBinding| -> (path: Option<String>)
        ensures
            path.deep_view() == expose(binding.deep_view()),
    {
        match find_definition(definitions, binding.target) {
            Some(_) => Some(binding.resolved_target_path.clone()),
            None => None,
        }
    };
    let exposed = collect_set(&input.invocation.bindings, pick_path, Ghost(expose));
    let ghost f = |definition: DefinitionView|
        if is_api_definition(definition, exposed_paths(told)) {
            Some(reported_definition(told_places, told, told_unit, definition))
        } else {
            None
        };
    let pick = |definition: &Definition| -> (report: Option<ApiDefinitionReport>)
        ensures
            report.deep_view() == f(definition.deep_view()),
    {
        if api_definition(definition, &exposed) {
            Some(definition_report(places, input, unit, definition))
        } else {
            None
        }
    };
    collect_items(definitions, pick, Ghost(f))
}

/// Gathers the public names that the invocations show.
pub fn aggregate(
    places: &Locations,
    inventory: &AuditInventory,
    invocations: &Vec<GraphInvocation<'_>>,
) -> (result: Result<ApiSurfaceReport, String>)
    ensures
        match surface_result(
            places.deep_view(),
            inventory.deep_view().packages,
            invocations.deep_view(),
        ) {
            Ok(found) => result matches Ok(report) && report.deep_view() == surface_of(found),
            Err(message) => result matches Err(error) && error@ == message,
        },
{
    let ghost told = places.deep_view();
    let ghost packages = inventory.deep_view().packages;
    let ghost all = invocations.deep_view();
    let ghost step = with_invocation(told, packages);
    let ghost start = Found {
        units: Set::empty(),
        definitions: Map::empty(),
        bindings: Map::empty(),
    };
    let mut units: SortedSet<ApiUnitReport> = SortedSet::new();
    let mut definitions: SortedMap<ApiDefinitionKey, ApiDefinitionReport> = SortedMap::new();
    let mut bindings: SortedMap<BindingSlot, ApiBindingReport> = SortedMap::new();
    let mut index: usize = 0;
    let ghost mut found = start;
    proof {
        assert(all.take(0) =~= Seq::<GraphInvocationView>::empty());
        assert(definitions.deep_view() =~= Map::empty());
        assert(bindings.deep_view() =~= Map::empty());
    }
    while index < invocations.len()
        invariant
            told == places.deep_view(),
            packages == inventory.deep_view().packages,
            all == invocations.deep_view(),
            step == with_invocation(told, packages),
            index <= all.len(),
            units.wf(),
            definitions.wf(),
            bindings.wf(),
            found.units == units.deep_view(),
            found.definitions == definitions.deep_view(),
            found.bindings == bindings.deep_view(),
            folded(start, all.take(index as int), step) == Ok::<Found, Seq<char>>(found),
            start == (Found {
                units: Set::empty(),
                definitions: Map::empty(),
                bindings: Map::empty(),
            }),
        decreases all.len() - index,
    {
        let input = &invocations[index];
        proof {
            assert(all[index as int] == input.deep_view());
            lemma_folded_step(start, all, step, index as int);
        }
        match api_unit(places.root.as_str(), input, &inventory.packages) {
            Err(message) => {
                return Err(message);
            },
            Ok(None) => {},
            Ok(Some(unit)) => {
                let reports = list_public_definitions(places, input, &unit);
                definitions = match add_definitions(definitions, reports) {
                    Ok(next) => next,
                    Err(message) => {
                        return Err(message);
                    },
                };
                bindings = match add_bindings(places, input, &unit, bindings) {
                    Ok(next) => next,
                    Err(message) => {
                        return Err(message);
                    },
                };
                units.insert(unit);
                proof {
                    found = Found {
                        units: units.deep_view(),
                        definitions: definitions.deep_view(),
                        bindings: bindings.deep_view(),
                    };
                }
            },
        }
        index = index + 1;
    }
    proof {
        assert(all.take(all.len() as int) =~= all);
        units.lemma_seq();
    }
    Ok(
        ApiSurfaceReport {
            scope: SCOPE.to_owned(),
            limitations: list_limitations(),
            units: units.into_vec(),
            definitions: definitions.into_values(),
            bindings: bindings.into_values(),
        },
    )
}

/// What was removed: the entries of one map that the other has no key for.
pub open spec fn definitions_missing(before: DefinitionMap, after: DefinitionMap) -> Seq<
    ApiDefinitionReportView,
> {
    picked_entries::<ApiDefinitionKey, _, _>(
        before,
        |key: ApiDefinitionKeyView, report: ApiDefinitionReportView|
            if after.dom().contains(key) {
                None
            } else {
                Some(report)
            },
    )
}

/// What was removed: the entries of one map that the other has no key for.
pub open spec fn bindings_missing(before: BindingMap, after: BindingMap) -> Seq<
    ApiBindingReportView,
> {
    picked_entries::<BindingSlot, _, _>(
        before,
        |slot: BindingSlotView, report: ApiBindingReportView|
            if after.dom().contains(slot) {
                None
            } else {
                Some(report)
            },
    )
}

/// The names that stand for something else than before.
pub open spec fn retargeted(before: BindingMap, after: BindingMap) -> Seq<ApiChangeReportView> {
    picked_entries::<BindingSlot, _, _>(
        before,
        |slot: BindingSlotView, report: ApiBindingReportView|
            if after.dom().contains(slot) && after[slot].resolved_target_path
                != report.resolved_target_path {
                Some(
                    ApiChangeReportView::BindingRetargeted {
                        unit: after[slot].unit,
                        parent_definition_path: slot.parent_definition_path,
                        name: slot.name,
                        namespace: slot.namespace,
                        before_target_path: report.resolved_target_path,
                        after_target_path: after[slot].resolved_target_path,
                    },
                )
            } else {
                None
            },
    )
}

/// The definitions of a surface by their keys.
pub open spec fn definition_index_of(surface: ApiSurfaceReportView) -> DefinitionMap {
    indexed(surface.definitions, definition_key())
}

/// The names of a surface by their slots.
pub open spec fn binding_index_of(surface: ApiSurfaceReportView) -> BindingMap {
    indexed(surface.bindings, binding_slot())
}

/// What changes are ordered by.
pub type ChangeKey = (u32, (ApiUnitReport, (String, (String, String))));

/// What a change is ordered by.
pub open spec fn change_key(change: ApiChangeReportView) -> (
    u32,
    (ApiUnitReportView, (Seq<char>, (Seq<char>, Seq<char>))),
) {
    match change {
        ApiChangeReportView::DefinitionAdded { definition } => (
            0,
            (definition.unit, (definition.definition_path, (definition.kind, ""@))),
        ),
        ApiChangeReportView::DefinitionRemoved { definition } => (
            1,
            (definition.unit, (definition.definition_path, (definition.kind, ""@))),
        ),
        ApiChangeReportView::BindingAdded { binding } => (
            2,
            (binding.unit, (binding.parent_definition_path, (binding.name, binding.namespace))),
        ),
        ApiChangeReportView::BindingRemoved { binding } => (
            3,
            (binding.unit, (binding.parent_definition_path, (binding.name, binding.namespace))),
        ),
        ApiChangeReportView::BindingRetargeted {
            unit,
            parent_definition_path,
            name,
            namespace,
            before_target_path: _,
            after_target_path: _,
        } => (4, (unit, (parent_definition_path, (name, namespace)))),
    }
}

/// Changes with what they are ordered by.
pub open spec fn keyed_changes(changes: Seq<ApiChangeReportView>) -> Seq<
    ((u32, (ApiUnitReportView, (Seq<char>, (Seq<char>, Seq<char>)))), ApiChangeReportView),
> {
    Seq::new(changes.len(), |i: int| (change_key(changes[i]), changes[i]))
}

/// The definitions that are new, as changes.
pub open spec fn definition_changes(reports: Seq<ApiDefinitionReportView>, added: bool) -> Seq<
    ApiChangeReportView,
> {
    Seq::new(
        reports.len(),
        |i: int|
            if added {
                ApiChangeReportView::DefinitionAdded { definition: reports[i] }
            } else {
                ApiChangeReportView::DefinitionRemoved { definition: reports[i] }
            },
    )
}

/// The names that are new or gone, as changes.
pub open spec fn binding_changes(reports: Seq<ApiBindingReportView>, added: bool) -> Seq<
    ApiChangeReportView,
> {
    Seq::new(
        reports.len(),
        |i: int|
            if added {
                ApiChangeReportView::BindingAdded { binding: reports[i] }
            } else {
                ApiChangeReportView::BindingRemoved { binding: reports[i] }
            },
    )
}

/// All changes from one surface to another, in the order of their keys.
pub open spec fn changes_between(
    before: ApiSurfaceReportView,
    after: ApiSurfaceReportView,
) -> Seq<ApiChangeReportView> {
    let old_definitions = definition_index_of(before);
    let new_definitions = definition_index_of(after);
    let old_bindings = binding_index_of(before);
    let new_bindings = binding_index_of(after);
    second(
        stable_sorted::<ChangeKey, ApiChangeReport>(
            keyed_changes(
                definition_changes(definitions_missing(new_definitions, old_definitions), true)
                    + definition_changes(
                    definitions_missing(old_definitions, new_definitions),
                    false,
                ) + binding_changes(bindings_missing(new_bindings, old_bindings), true)
                    + binding_changes(bindings_missing(old_bindings, new_bindings), false)
                    + retargeted(old_bindings, new_bindings),
            ),
        ),
    )
}

/// The changes from one surface to another.
pub open spec fn diff_of(before: ApiSurfaceReportView, after: ApiSurfaceReportView) -> ApiDiffReportView {
    let old_definitions = definition_index_of(before);
    let new_definitions = definition_index_of(after);
    let old_bindings = binding_index_of(before);
    let new_bindings = binding_index_of(after);
    ApiDiffReportView {
        summary: ApiDiffSummary {
            added_definitions: definitions_missing(
                new_definitions,
                old_definitions,
            ).len() as u64,
            removed_definitions: definitions_missing(
                old_definitions,
                new_definitions,
            ).len() as u64,
            added_bindings: bindings_missing(new_bindings, old_bindings).len() as u64,
            removed_bindings: bindings_missing(old_bindings, new_bindings).len() as u64,
            retargeted_bindings: retargeted(old_bindings, new_bindings).len() as u64,
            total_changes: changes_between(before, after).len() as u64,
        },
        changes: changes_between(before, after),
    }
}

fn definition_index(report: &ApiSurfaceReport) -> (index: SortedMap<
    ApiDefinitionKey,
    ApiDefinitionReport,
>)
    ensures
        index.wf(),
        index.deep_view() == definition_index_of(report.deep_view()),
{
    let ghost key = definition_key();
    let entry = |definition: &ApiDefinitionReport| -> (entry: (ApiDefinitionKey, ApiDefinitionReport))
        ensures
            entry.0.deep_view() == key(definition.deep_view()),
            entry.1.deep_view() == definition.deep_view(),
    {
        (key_of_definition(definition), definition.clone())
    };
    index_items(&report.definitions, entry, Ghost(key))
}

fn binding_index(report: &ApiSurfaceReport) -> (index: SortedMap<BindingSlot, ApiBindingReport>)
    ensures
        index.wf(),
        index.deep_view() == binding_index_of(report.deep_view()),
{
    let ghost key = binding_slot();
    let entry = |binding: &ApiBindingReport| -> (entry: (BindingSlot, ApiBindingReport))
        ensures
            entry.0.deep_view() == key(binding.deep_view()),
            entry.1.deep_view() == binding.deep_view(),
    {
        (slot_of_binding(binding), binding.clone())
    };
    index_items(&report.bindings, entry, Ghost(key))
}

fn missing_definitions(
    before: &SortedMap<ApiDefinitionKey, ApiDefinitionReport>,
    after: &SortedMap<ApiDefinitionKey, ApiDefinitionReport>,
) -> (list: Vec<ApiDefinitionReport>)
    requires
        before.wf(),
        after.wf(),
    ensures
        list.deep_view() == definitions_missing(before.deep_view(), after.deep_view()),
{
    let ghost other = after.deep_view();
    let ghost f = |key: ApiDefinitionKeyView, report: ApiDefinitionReportView|
        if other.dom().contains(key) {
            None
        } else {
            Some(report)
        };
    let pick = |key: &ApiDefinitionKey, report: &ApiDefinitionReport| -> (picked: Option<
        ApiDefinitionReport,
    >)
        ensures
            picked.deep_view() == f(key.deep_view(), report.deep_view()),
    {
        if after.contains_key(key) {
            None
        } else {
            Some(report.clone())
        }
    };
    collect_entries(before, pick, Ghost(f))
}

fn missing_bindings(
    before: &SortedMap<BindingSlot, ApiBindingReport>,
    after: &SortedMap<BindingSlot, ApiBindingReport>,
) -> (list: Vec<ApiBindingReport>)
    requires
        before.wf(),
        after.wf(),
    ensures
        list.deep_view() == bindings_missing(before.deep_view(), after.deep_view()),
{
    let ghost other = after.deep_view();
    let ghost f = |slot: BindingSlotView, report: ApiBindingReportView|
        if other.dom().contains(slot) {
            None
        } else {
            Some(report)
        };
    let pick = |slot: &BindingSlot, report: &ApiBindingReport| -> (picked: Option<
        ApiBindingReport,
    >)
        ensures
            picked.deep_view() == f(slot.deep_view(), report.deep_view()),
    {
        if after.contains_key(slot) {
            None
        } else {
            Some(report.clone())
        }
    };
    collect_entries(before, pick, Ghost(f))
}

fn retargeted_bindings(
    before: &SortedMap<BindingSlot, ApiBindingReport>,
    after: &SortedMap<BindingSlot, ApiBindingReport>,
) -> (list: Vec<ApiChangeReport>)
    requires
        before.wf(),
        after.wf(),
    ensures
        list.deep_view() == retargeted(before.deep_view(), after.deep_view()),
{
    let ghost other = after.deep_view();
    let ghost f = |slot: BindingSlotView, report: ApiBindingReportView|
        if other.dom().contains(slot) && other[slot].resolved_target_path
            != report.resolved_target_path {
            Some(
                ApiChangeReportView::BindingRetargeted {
                    unit: other[slot].unit,
                    parent_definition_path: slot.parent_definition_path,
                    name: slot.name,
                    namespace: slot.namespace,
                    before_target_path: report.resolved_target_path,
                    after_target_path: other[slot].resolved_target_path,
                },
            )
        } else {
            None
        };
    let pick = |slot: &BindingSlot, report: &ApiBindingReport| -> (picked: Option<ApiChangeReport>)
        ensures
            picked.deep_view() == f(slot.deep_view(), report.deep_view()),
    {
        match after.get(slot) {
            Some(new) => if same(
                new.resolved_target_path.as_str(),
                report.resolved_target_path.as_str(),
            ) {
                None
            } else {
                Some(
                    ApiChangeReport::BindingRetargeted {
                        unit: new.unit.clone(),
                        parent_definition_path: slot.parent_definition_path.clone(),
                        name: slot.name.clone(),
                        namespace: slot.namespace.clone(),
                        before_target_path: report.resolved_target_path.clone(),
                        after_target_path: new.resolved_target_path.clone(),
                    },
                )
            },
            None => None,
        }
    };
    collect_entries(before, pick, Ghost(f))
}

fn change_sort_key(change: &ApiChangeReport) -> (key: ChangeKey)
    ensures
        key.deep_view() == change_key(change.deep_view()),
{
    match change {
        ApiChangeReport::DefinitionAdded { definition } => (
            0,
            (
                definition.unit.clone(),
                (definition.definition_path.clone(), (definition.kind.clone(), "".to_owned())),
            ),
        ),
        ApiChangeReport::DefinitionRemoved { definition } => (
            1,
            (
                definition.unit.clone(),
                (definition.definition_path.clone(), (definition.kind.clone(), "".to_owned())),
            ),
        ),
        ApiChangeReport::BindingAdded { binding } => (
            2,
            (
                binding.unit.clone(),
                (
                    binding.parent_definition_path.clone(),
                    (binding.name.clone(), binding.namespace.clone()),
                ),
            ),
        ),
        ApiChangeReport::BindingRemoved { binding } => (
            3,
            (
                binding.unit.clone(),
                (
                    binding.parent_definition_path.clone(),
                    (binding.name.clone(), binding.namespace.clone()),
                ),
            ),
        ),
        ApiChangeReport::BindingRetargeted {
            unit,
            parent_definition_path,
            name,
            namespace,
            before_target_path: _,
            after_target_path: _,
        } => (
            4,
            (unit.clone(), (parent_definition_path.clone(), (name.clone(), namespace.clone()))),
        ),
    }
}

fn as_definition_changes(reports: Vec<ApiDefinitionReport>, added: bool) -> (changes: Vec<
    ApiChangeReport,
>)
    ensures
        changes.deep_view() == definition_changes(reports.deep_view(), added),
{
    let ghost all = reports.deep_view();
    let mut changes: Vec<ApiChangeReport> = no_items();
    for report in it: reports
        invariant
            all.len() == it.seq().len(),
            forall|i: int| 0 <= i < all.len() ==> #[trigger] all[i] == it.seq()[i].deep_view(),
            changes.deep_view() =~= definition_changes(all, added).take(it.index() as int),
    {
        proof {
            assert(all[it.index() as int] == report.deep_view());
        }
        push_item(
            &mut changes,
            if added {
                ApiChangeReport::DefinitionAdded { definition: report }
            } else {
                ApiChangeReport::DefinitionRemoved { definition: report }
            },
        );
    }
    proof {
        assert(changes.deep_view() =~= definition_changes(all, added));
    }
    changes
}

fn as_binding_changes(reports: Vec<ApiBindingReport>, added: bool) -> (changes: Vec<
    ApiChangeReport,
>)
    ensures
        changes.deep_view() == binding_changes(reports.deep_view(), added),
{
    let ghost all = reports.deep_view();
    let mut changes: Vec<ApiChangeReport> = no_items();
    for report in it: reports
        invariant
            all.len() == it.seq().len(),
            forall|i: int| 0 <= i < all.len() ==> #[trigger] all[i] == it.seq()[i].deep_view(),
            changes.deep_view() =~= binding_changes(all, added).take(it.index() as int),
    {
        proof {
            assert(all[it.index() as int] == report.deep_view());
        }
        push_item(
            &mut changes,
            if added {
                ApiChangeReport::BindingAdded { binding: report }
            } else {
                ApiChangeReport::BindingRemoved { binding: report }
            },
        );
    }
    proof {
        assert(changes.deep_view() =~= binding_changes(all, added));
    }
    changes
}

fn sort_changes(changes: Vec<ApiChangeReport>) -> (sorted: Vec<ApiChangeReport>)
    ensures
        sorted.deep_view() == second(
            stable_sorted::<ChangeKey, ApiChangeReport>(keyed_changes(changes.deep_view())),
        ),
{
    let ghost all = changes.deep_view();
    let mut entries: Vec<(ChangeKey, ApiChangeReport)> = no_items();
    for change in it: changes
        invariant
            all.len() == it.seq().len(),
            forall|i: int| 0 <= i < all.len() ==> #[trigger] all[i] == it.seq()[i].deep_view(),
            entries.deep_view() =~= keyed_changes(all).take(it.index() as int),
    {
        proof {
            assert(all[it.index() as int] == change.deep_view());
        }
        let key = change_sort_key(&change);
        push_item(&mut entries, (key, change));
    }
    proof {
        assert(entries.deep_view() =~= keyed_changes(all));
    }
    take_second(stable_sort(entries))
}

/// Compares two surfaces by what can be named and what the names stand for.
pub fn compare(before: &ApiSurfaceReport, after: &ApiSurfaceReport) -> (diff: ApiDiffReport)
    ensures
        diff.deep_view() == diff_of(before.deep_view(), after.deep_view()),
{
    let before_definitions = definition_index(before);
    let after_definitions = definition_index(after);
    let before_bindings = binding_index(before);
    let after_bindings = binding_index(after);
    let added_definitions = missing_definitions(&after_definitions, &before_definitions);
    let removed_definitions = missing_definitions(&before_definitions, &after_definitions);
    let added_bindings = missing_bindings(&after_bindings, &before_bindings);
    let removed_bindings = missing_bindings(&before_bindings, &after_bindings);
    let retargeted_list = retargeted_bindings(&before_bindings, &after_bindings);
    let added_definition_count = added_definitions.len() as u64;
    let removed_definition_count = removed_definitions.len() as u64;
    let added_binding_count = added_bindings.len() as u64;
    let removed_binding_count = removed_bindings.len() as u64;
    let retargeted_count = retargeted_list.len() as u64;
    proof {
        assert(added_definitions.len() == added_definitions.deep_view().len());
        assert(removed_definitions.len() == removed_definitions.deep_view().len());
        assert(added_bindings.len() == added_bindings.deep_view().len());
        assert(removed_bindings.len() == removed_bindings.deep_view().len());
        assert(retargeted_list.len() == retargeted_list.deep_view().len());
    }
    let mut all = as_definition_changes(added_definitions, true);
    append_items(&mut all, as_definition_changes(removed_definitions, false));
    append_items(&mut all, as_binding_changes(added_bindings, true));
    append_items(&mut all, as_binding_changes(removed_bindings, false));
    append_items(&mut all, retargeted_list);
    let changes = sort_changes(all);
    proof {
        assert(changes.len() == changes.deep_view().len());
    }
    let summary = ApiDiffSummary {
        added_definitions: added_definition_count,
        removed_definitions: removed_definition_count,
        added_bindings: added_binding_count,
        removed_bindings: removed_binding_count,
        retargeted_bindings: retargeted_count,
        total_changes: changes.len() as u64,
    };
    ApiDiffReport { summary, changes }
}

/// Where nothing is picked, nothing is collected; and the other way round.
proof fn lemma_collected_nothing<A, B>(s: Seq<A>, f: spec_fn(A) -> Option<B>)
    ensures
        (collected(s, f).len() == 0) == (forall|i: int|
            0 <= i < s.len() ==> f(#[trigger] s[i]) is None),
    decreases s.len(),
{
    if s.len() > 0 {
        lemma_collected_nothing(s.drop_last(), f);
        if forall|i: int| 0 <= i < s.len() ==> f(#[trigger] s[i]) is None {
            assert forall|i: int| 0 <= i < s.drop_last().len() implies f(
                #[trigger] s.drop_last()[i],
            ) is None by {
                assert(s.drop_last()[i] == s[i]);
            }
        }
        if collected(s, f).len() == 0 {
            assert forall|i: int| 0 <= i < s.len() implies f(#[trigger] s[i]) is None by {
                if i < s.len() - 1 {
                    assert(s.drop_last()[i] == s[i]);
                }
            }
        }
    }
}

/// An index has finitely many keys.
proof fn lemma_indexed_finite<A, K>(s: Seq<A>, key: spec_fn(A) -> K)
    ensures
        indexed(s, key).dom().finite(),
    decreases s.len(),
{
    if s.len() > 0 {
        lemma_indexed_finite(s.drop_last(), key);
    }
}

/// Nothing is picked where no entry is.
proof fn lemma_picked_nothing<K: Ordered, W, B>(
    map: Map<<K as DeepView>::V, W>,
    f: spec_fn(<K as DeepView>::V, W) -> Option<B>,
)
    requires
        map.dom().finite(),
    ensures
        (picked_entries::<K, W, B>(map, f).len() == 0) == (forall|key: <K as DeepView>::V|
            map.dom().contains(key) ==> #[trigger] f(key, map[key]) is None),
{
    let keys = ascending::<K>(map.dom());
    let g = |key: <K as DeepView>::V| f(key, map[key]);
    lemma_ascending_exists::<K>(map.dom());
    lemma_collected_nothing(keys, g);
    if picked_entries::<K, W, B>(map, f).len() == 0 {
        assert forall|key: <K as DeepView>::V| map.dom().contains(key) implies #[trigger] f(
            key,
            map[key],
        ) is None by {
            assert(keys.to_set().contains(key));
            let i = choose|i: int| 0 <= i < keys.len() && keys[i] == key;
            assert(g(keys[i]) is None);
        }
    }
    if forall|key: <K as DeepView>::V|
        map.dom().contains(key) ==> #[trigger] f(key, map[key]) is None {
        assert forall|i: int| 0 <= i < keys.len() implies g(#[trigger] keys[i]) is None by {
            assert(keys.contains(keys[i]));
            assert(keys.to_set().contains(keys[i]));
            assert(f(keys[i], map[keys[i]]) is None);
        }
    }
}

/// There is no change just where the same definitions and names can be named and the names stand
/// for the same: display names, exposures and places do not count.
pub proof fn law_changes_are_of_names_and_targets(
    before: ApiSurfaceReportView,
    after: ApiSurfaceReportView,
)
    ensures
        (diff_of(before, after).changes.len() == 0) == {
            &&& definition_index_of(before).dom() == definition_index_of(after).dom()
            &&& binding_index_of(before).dom() == binding_index_of(after).dom()
            &&& forall|slot: BindingSlotView| #[trigger]
                binding_index_of(before).dom().contains(slot) ==> binding_index_of(
                    before,
                )[slot].resolved_target_path == binding_index_of(after)[slot].resolved_target_path
        },
        diff_of(before, after).changes.len() == definitions_missing(
            definition_index_of(after),
            definition_index_of(before),
        ).len() + definitions_missing(
            definition_index_of(before),
            definition_index_of(after),
        ).len() + bindings_missing(binding_index_of(after), binding_index_of(before)).len()
            + bindings_missing(binding_index_of(before), binding_index_of(after)).len()
            + retargeted(binding_index_of(before), binding_index_of(after)).len(),
{
    let old_definitions = definition_index_of(before);
    let new_definitions = definition_index_of(after);
    let old_bindings = binding_index_of(before);
    let new_bindings = binding_index_of(after);
    lemma_indexed_finite(before.definitions, definition_key());
    lemma_indexed_finite(after.definitions, definition_key());
    lemma_indexed_finite(before.bindings, binding_slot());
    lemma_indexed_finite(after.bindings, binding_slot());
    let gone = |other: DefinitionMap|
        |key: ApiDefinitionKeyView, report: ApiDefinitionReportView|
            if other.dom().contains(key) {
                None::<ApiDefinitionReportView>
            } else {
                Some(report)
            };
    let lost = |other: BindingMap|
        |slot: BindingSlotView, report: ApiBindingReportView|
            if other.dom().contains(slot) {
                None::<ApiBindingReportView>
            } else {
                Some(report)
            };
    let moved = |slot: BindingSlotView, report: ApiBindingReportView|
        if new_bindings.dom().contains(slot) && new_bindings[slot].resolved_target_path
            != report.resolved_target_path {
            Some(
                ApiChangeReportView::BindingRetargeted {
                    unit: new_bindings[slot].unit,
                    parent_definition_path: slot.parent_definition_path,
                    name: slot.name,
                    namespace: slot.namespace,
                    before_target_path: report.resolved_target_path,
                    after_target_path: new_bindings[slot].resolved_target_path,
                },
            )
        } else {
            None
        };
    lemma_picked_nothing::<ApiDefinitionKey, _, _>(old_definitions, gone(new_definitions));
    lemma_picked_nothing::<ApiDefinitionKey, _, _>(new_definitions, gone(old_definitions));
    lemma_picked_nothing::<BindingSlot, _, _>(old_bindings, lost(new_bindings));
    lemma_picked_nothing::<BindingSlot, _, _>(new_bindings, lost(old_bindings));
    lemma_picked_nothing::<BindingSlot, _, _>(old_bindings, moved);
    let added = definition_changes(definitions_missing(new_definitions, old_definitions), true);
    let removed = definition_changes(definitions_missing(old_definitions, new_definitions), false);
    let named = binding_changes(bindings_missing(new_bindings, old_bindings), true);
    let unnamed = binding_changes(bindings_missing(old_bindings, new_bindings), false);
    let turned = retargeted(old_bindings, new_bindings);
    let all = keyed_changes(added + removed + named + unnamed + turned);
    lemma_stable_sorted::<ChangeKey, ApiChangeReport>(all);
    assert(definitions_missing(old_definitions, new_definitions).len() == 0 ==> forall|
        key: ApiDefinitionKeyView,
    |
        old_definitions.dom().contains(key) ==> #[trigger] new_definitions.dom().contains(key)) by {
        if definitions_missing(old_definitions, new_definitions).len() == 0 {
            assert forall|key: ApiDefinitionKeyView|
                old_definitions.dom().contains(key) implies #[trigger] new_definitions.dom().contains(
                key,
            ) by {
                assert(gone(new_definitions)(key, old_definitions[key]) is None);
            }
        }
    }
    assert(definitions_missing(new_definitions, old_definitions).len() == 0 ==> forall|
        key: ApiDefinitionKeyView,
    |
        new_definitions.dom().contains(key) ==> #[trigger] old_definitions.dom().contains(key)) by {
        if definitions_missing(new_definitions, old_definitions).len() == 0 {
            assert forall|key: ApiDefinitionKeyView|
                new_definitions.dom().contains(key) implies #[trigger] old_definitions.dom().contains(
                key,
            ) by {
                assert(gone(old_definitions)(key, new_definitions[key]) is None);
            }
        }
    }
    assert(bindings_missing(old_bindings, new_bindings).len() == 0 ==> forall|
        slot: BindingSlotView,
    |
        old_bindings.dom().contains(slot) ==> #[trigger] new_bindings.dom().contains(slot)) by {
        if bindings_missing(old_bindings, new_bindings).len() == 0 {
            assert forall|slot: BindingSlotView|
                old_bindings.dom().contains(slot) implies #[trigger] new_bindings.dom().contains(
                slot,
            ) by {
                assert(lost(new_bindings)(slot, old_bindings[slot]) is None);
            }
        }
    }
    assert(bindings_missing(new_bindings, old_bindings).len() == 0 ==> forall|
        slot: BindingSlotView,
    |
        new_bindings.dom().contains(slot) ==> #[trigger] old_bindings.dom().contains(slot)) by {
        if bindings_missing(new_bindings, old_bindings).len() == 0 {
            assert forall|slot: BindingSlotView|
                new_bindings.dom().contains(slot) implies #[trigger] old_bindings.dom().contains(
                slot,
            ) by {
                assert(lost(old_bindings)(slot, new_bindings[slot]) is None);
            }
        }
    }
    assert(turned.len() == 0 ==> forall|slot: BindingSlotView| #[trigger]
        old_bindings.dom().contains(slot) && new_bindings.dom().contains(slot)
            ==> old_bindings[slot].resolved_target_path
            == new_bindings[slot].resolved_target_path) by {
        if turned.len() == 0 {
            assert forall|slot: BindingSlotView| #[trigger]
                old_bindings.dom().contains(slot) && new_bindings.dom().contains(
                    slot,
                ) implies old_bindings[slot].resolved_target_path
                == new_bindings[slot].resolved_target_path by {
                assert(moved(slot, old_bindings[slot]) is None);
            }
        }
    }
    if diff_of(before, after).changes.len() == 0 {
        assert(old_definitions.dom() =~= new_definitions.dom());
        assert(old_bindings.dom() =~= new_bindings.dom());
    }
}

/// What is added one way is removed the other way.
pub proof fn law_changes_mirror(before: ApiSurfaceReportView, after: ApiSurfaceReportView)
    ensures
        diff_of(before, after).summary.added_definitions == diff_of(
            after,
            before,
        ).summary.removed_definitions,
        diff_of(before, after).summary.added_bindings == diff_of(
            after,
            before,
        ).summary.removed_bindings,
{
}

/// As much is collected as there are items from which something is picked.
proof fn lemma_collected_count<A, B>(s: Seq<A>, f: spec_fn(A) -> Option<B>)
    requires
        s.no_duplicates(),
    ensures
        collected(s, f).len() == s.to_set().filter(|item: A| f(item) is Some).len(),
    decreases s.len(),
{
    let some = |item: A| f(item) is Some;
    if s.len() == 0 {
        assert(s.to_set().filter(some) =~= Set::empty());
    } else {
        let rest = s.drop_last();
        let last = s.last();
        lemma_collected_count(rest, f);
        assert(!rest.contains(last)) by {
            if rest.contains(last) {
                let i = choose|i: int| 0 <= i < rest.len() && rest[i] == last;
                assert(s[i] == s[s.len() - 1]);
            }
        }
        assert forall|item: A| #[trigger] s.to_set().contains(item) == rest.to_set().insert(
            last,
        ).contains(item) by {
            if s.contains(item) {
                let i = choose|i: int| 0 <= i < s.len() && s[i] == item;
                if i < rest.len() {
                    assert(rest[i] == item);
                }
            }
            if rest.contains(item) {
                let i = choose|i: int| 0 <= i < rest.len() && rest[i] == item;
                assert(s[i] == item);
            }
            assert(s[s.len() - 1] == last);
        }
        assert(s.to_set() =~= rest.to_set().insert(last));
        vstd::seq_lib::seq_to_set_is_finite(rest);
        if some(last) {
            assert(s.to_set().filter(some) =~= rest.to_set().filter(some).insert(last));
        } else {
            assert(s.to_set().filter(some) =~= rest.to_set().filter(some));
        }
    }
}

/// As much is picked as there are entries from which something is picked.
proof fn lemma_picked_count<K: Ordered, W, B>(
    map: Map<<K as DeepView>::V, W>,
    f: spec_fn(<K as DeepView>::V, W) -> Option<B>,
)
    requires
        map.dom().finite(),
    ensures
        picked_entries::<K, W, B>(map, f).len() == map.dom().filter(
            |key: <K as DeepView>::V| f(key, map[key]) is Some,
        ).len(),
{
    let keys = ascending::<K>(map.dom());
    let g = |key: <K as DeepView>::V| f(key, map[key]);
    lemma_ascending_exists::<K>(map.dom());
    assert forall|i: int, j: int| 0 <= i < j < keys.len() implies keys[i] != keys[j] by {
        K::irreflexive(keys[i]);
    }
    lemma_collected_count(keys, g);
    assert(keys.to_set().filter(|key: <K as DeepView>::V| g(key) is Some) =~= map.dom().filter(
        |key: <K as DeepView>::V| f(key, map[key]) is Some,
    ));
}

/// The slots of the names that stand for something else in another index.
spec fn turned_slots(before: BindingMap, after: BindingMap) -> Set<BindingSlotView> {
    before.dom().filter(
        |slot: BindingSlotView|
            after.dom().contains(slot) && after[slot].resolved_target_path
                != before[slot].resolved_target_path,
    )
}

proof fn lemma_retargeted_count(before: BindingMap, after: BindingMap)
    requires
        before.dom().finite(),
    ensures
        retargeted(before, after).len() == turned_slots(before, after).len(),
{
    let moved = |slot: BindingSlotView, report: ApiBindingReportView|
        if after.dom().contains(slot) && after[slot].resolved_target_path
            != report.resolved_target_path {
            Some(
                ApiChangeReportView::BindingRetargeted {
                    unit: after[slot].unit,
                    parent_definition_path: slot.parent_definition_path,
                    name: slot.name,
                    namespace: slot.namespace,
                    before_target_path: report.resolved_target_path,
                    after_target_path: after[slot].resolved_target_path,
                },
            )
        } else {
            None
        };
    lemma_picked_count::<BindingSlot, _, _>(before, moved);
    assert(before.dom().filter(|slot: BindingSlotView| moved(slot, before[slot]) is Some)
        =~= turned_slots(before, after));
}

/// As many names stand for something else one way as the other way, and as much changes.
pub proof fn law_retargeted_counts_mirror(before: ApiSurfaceReportView, after: ApiSurfaceReportView)
    ensures
        diff_of(before, after).summary.retargeted_bindings == diff_of(
            after,
            before,
        ).summary.retargeted_bindings,
        diff_of(before, after).summary.total_changes == diff_of(
            after,
            before,
        ).summary.total_changes,
{
    let old_bindings = binding_index_of(before);
    let new_bindings = binding_index_of(after);
    lemma_indexed_finite(before.bindings, binding_slot());
    lemma_indexed_finite(after.bindings, binding_slot());
    lemma_retargeted_count(old_bindings, new_bindings);
    lemma_retargeted_count(new_bindings, old_bindings);
    assert(turned_slots(old_bindings, new_bindings) =~= turned_slots(new_bindings, old_bindings));
    law_changes_are_of_names_and_targets(before, after);
    law_changes_are_of_names_and_targets(after, before);
}

/// A definition without the display name of its package and without places.
pub open spec fn bare_definition(report: ApiDefinitionReportView) -> ApiDefinitionReportView {
    ApiDefinitionReportView {
        unit: ApiUnitReportView { package: Seq::empty(), ..report.unit },
        span: None,
        attribution_callsite: None,
        ..report
    }
}

/// A name without the display name of its package, its exposure and its place.
pub open spec fn bare_binding(report: ApiBindingReportView) -> ApiBindingReportView {
    ApiBindingReportView {
        unit: ApiUnitReportView { package: Seq::empty(), ..report.unit },
        exposure: Seq::empty(),
        span: None,
        ..report
    }
}

/// Whether two surfaces differ at most in display names of packages, exposures and places.
pub open spec fn differ_in_display(a: ApiSurfaceReportView, b: ApiSurfaceReportView) -> bool {
    &&& a.definitions.len() == b.definitions.len()
    &&& forall|i: int|
        0 <= i < a.definitions.len() ==> bare_definition(#[trigger] a.definitions[i])
            == bare_definition(b.definitions[i])
    &&& a.bindings.len() == b.bindings.len()
    &&& forall|i: int|
        0 <= i < a.bindings.len() ==> bare_binding(#[trigger] a.bindings[i]) == bare_binding(
            b.bindings[i],
        )
}

/// Items with the same keys make indexes with the same keys, which agree in what the items agree
/// in.
proof fn lemma_indexed_alike<A, K, F>(
    s: Seq<A>,
    t: Seq<A>,
    key: spec_fn(A) -> K,
    field: spec_fn(A) -> F,
)
    requires
        s.len() == t.len(),
        forall|i: int|
            0 <= i < s.len() ==> key(#[trigger] s[i]) == key(t[i]) && field(s[i]) == field(t[i]),
    ensures
        indexed(s, key).dom() == indexed(t, key).dom(),
        forall|k: K| #[trigger]
            indexed(s, key).dom().contains(k) ==> field(indexed(s, key)[k]) == field(
                indexed(t, key)[k],
            ),
    decreases s.len(),
{
    if s.len() > 0 {
        assert forall|i: int| 0 <= i < s.drop_last().len() implies key(
            #[trigger] s.drop_last()[i],
        ) == key(t.drop_last()[i]) && field(s.drop_last()[i]) == field(t.drop_last()[i]) by {
            assert(s.drop_last()[i] == s[i]);
        }
        lemma_indexed_alike(s.drop_last(), t.drop_last(), key, field);
        assert(key(s[s.len() - 1]) == key(t[s.len() - 1]));
        assert(indexed(s, key).dom() =~= indexed(t, key).dom());
    }
}

/// As many definitions are missing where the keys are the same.
proof fn lemma_definitions_alike(
    a: DefinitionMap,
    b: DefinitionMap,
    c: DefinitionMap,
    d: DefinitionMap,
)
    requires
        a.dom().finite(),
        a.dom() == b.dom(),
        c.dom() == d.dom(),
    ensures
        definitions_missing(a, c).len() == definitions_missing(b, d).len(),
{
    let gone = |other: DefinitionMap|
        |key: ApiDefinitionKeyView, report: ApiDefinitionReportView|
            if other.dom().contains(key) {
                None::<ApiDefinitionReportView>
            } else {
                Some(report)
            };
    lemma_picked_count::<ApiDefinitionKey, _, _>(a, gone(c));
    lemma_picked_count::<ApiDefinitionKey, _, _>(b, gone(d));
    assert(a.dom().filter(|key: ApiDefinitionKeyView| gone(c)(key, a[key]) is Some)
        =~= b.dom().filter(|key: ApiDefinitionKeyView| gone(d)(key, b[key]) is Some));
}

/// As many names are missing where the slots are the same.
proof fn lemma_bindings_alike(a: BindingMap, b: BindingMap, c: BindingMap, d: BindingMap)
    requires
        a.dom().finite(),
        a.dom() == b.dom(),
        c.dom() == d.dom(),
    ensures
        bindings_missing(a, c).len() == bindings_missing(b, d).len(),
{
    let gone = |other: BindingMap|
        |slot: BindingSlotView, report: ApiBindingReportView|
            if other.dom().contains(slot) {
                None::<ApiBindingReportView>
            } else {
                Some(report)
            };
    lemma_picked_count::<BindingSlot, _, _>(a, gone(c));
    lemma_picked_count::<BindingSlot, _, _>(b, gone(d));
    assert(a.dom().filter(|slot: BindingSlotView| gone(c)(slot, a[slot]) is Some)
        =~= b.dom().filter(|slot: BindingSlotView| gone(d)(slot, b[slot]) is Some));
}

/// Other display names of packages, exposures and places alter no count: neither of what changed
/// from a surface to another, nor of what changed from the other to it.
pub proof fn law_display_alters_no_count(
    surface: ApiSurfaceReportView,
    altered: ApiSurfaceReportView,
    other: ApiSurfaceReportView,
)
    requires
        differ_in_display(surface, altered),
    ensures
        diff_of(other, surface).summary == diff_of(other, altered).summary,
        diff_of(surface, other).summary == diff_of(altered, other).summary,
{
    let definitions = definition_index_of(surface);
    let altered_definitions = definition_index_of(altered);
    let other_definitions = definition_index_of(other);
    let bindings = binding_index_of(surface);
    let altered_bindings = binding_index_of(altered);
    let other_bindings = binding_index_of(other);
    lemma_indexed_finite(surface.definitions, definition_key());
    lemma_indexed_finite(altered.definitions, definition_key());
    lemma_indexed_finite(other.definitions, definition_key());
    lemma_indexed_finite(surface.bindings, binding_slot());
    lemma_indexed_finite(altered.bindings, binding_slot());
    lemma_indexed_finite(other.bindings, binding_slot());
    let target = |report: ApiBindingReportView| report.resolved_target_path;
    assert forall|i: int| 0 <= i < surface.definitions.len() implies definition_key()(
        #[trigger] surface.definitions[i],
    ) == definition_key()(altered.definitions[i]) by {
        let left = bare_definition(surface.definitions[i]);
        let right = bare_definition(altered.definitions[i]);
        assert(left == right);
        assert(unit_key(left.unit) == unit_key(surface.definitions[i].unit));
        assert(unit_key(right.unit) == unit_key(altered.definitions[i].unit));
    }
    assert forall|i: int| 0 <= i < surface.bindings.len() implies binding_slot()(
        #[trigger] surface.bindings[i],
    ) == binding_slot()(altered.bindings[i]) && target(surface.bindings[i]) == target(
        altered.bindings[i],
    ) by {
        let left = bare_binding(surface.bindings[i]);
        let right = bare_binding(altered.bindings[i]);
        assert(left == right);
        assert(unit_key(left.unit) == unit_key(surface.bindings[i].unit));
        assert(unit_key(right.unit) == unit_key(altered.bindings[i].unit));
    }
    lemma_indexed_alike(
        surface.definitions,
        altered.definitions,
        definition_key(),
        |report: ApiDefinitionReportView| (),
    );
    lemma_indexed_alike(surface.bindings, altered.bindings, binding_slot(), target);
    lemma_definitions_alike(definitions, altered_definitions, other_definitions, other_definitions);
    lemma_definitions_alike(other_definitions, other_definitions, definitions, altered_definitions);
    lemma_bindings_alike(bindings, altered_bindings, other_bindings, other_bindings);
    lemma_bindings_alike(other_bindings, other_bindings, bindings, altered_bindings);
    lemma_retargeted_count(bindings, other_bindings);
    lemma_retargeted_count(altered_bindings, other_bindings);
    lemma_retargeted_count(other_bindings, bindings);
    lemma_retargeted_count(other_bindings, altered_bindings);
    assert forall|slot: BindingSlotView| #[trigger]
        bindings.dom().contains(slot) implies bindings[slot].resolved_target_path
        == altered_bindings[slot].resolved_target_path by {
        assert(target(bindings[slot]) == target(altered_bindings[slot]));
    }
    assert(turned_slots(bindings, other_bindings) =~= turned_slots(
        altered_bindings,
        other_bindings,
    ));
    assert(turned_slots(other_bindings, bindings) =~= turned_slots(
        other_bindings,
        altered_bindings,
    ));
    law_changes_are_of_names_and_targets(other, surface);
    law_changes_are_of_names_and_targets(other, altered);
    law_changes_are_of_names_and_targets(surface, other);
    law_changes_are_of_names_and_targets(altered, other);
}

/// The counts add up to all changes that are listed, as far as these can be counted in 64 bits.
pub proof fn law_counts_add_up(before: ApiSurfaceReportView, after: ApiSurfaceReportView)
    requires
        diff_of(before, after).changes.len() <= u64::MAX,
    ensures
        ({
            let diff = diff_of(before, after);
            &&& diff.summary.total_changes == diff.changes.len()
            &&& diff.summary.total_changes == diff.summary.added_definitions
                + diff.summary.removed_definitions + diff.summary.added_bindings
                + diff.summary.removed_bindings + diff.summary.retargeted_bindings
        }),
{
    law_changes_are_of_names_and_targets(before, after);
}

/// A surface does not differ from itself.
pub proof fn law_no_changes_from_itself(surface: ApiSurfaceReportView)
    ensures
        diff_of(surface, surface).changes.len() == 0,
        diff_of(surface, surface).summary.total_changes == 0,
{
    law_changes_are_of_names_and_targets(surface, surface);
}

} // verus!
